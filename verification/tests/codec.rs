use snapshot_backup::chunk::{decode_chunk, encode_chunk, read_record};
use snapshot_backup::error::BackupError;
use snapshot_backup::record::StateRecord;
use snapshot_backup::wire::{put_blob, put_u64, read_blob, read_fixed, read_u64};

fn record(key: &[u8], value: &[u8], proof: &[u8]) -> StateRecord {
    StateRecord { key: key.to_vec(), value: value.to_vec(), proof: proof.to_vec() }
}

#[test]
fn a_u64_is_eight_little_endian_bytes() {
    let mut out = vec![0xEE];
    put_u64(&mut out, 0x0102_0304_0506_0708);
    assert_eq!(out, vec![0xEE, 8, 7, 6, 5, 4, 3, 2, 1]);
    let mut zero = Vec::new();
    put_u64(&mut zero, 0);
    assert_eq!(zero, vec![0; 8]);
    let mut max = Vec::new();
    put_u64(&mut max, u64::MAX);
    assert_eq!(max, vec![255; 8]);
}

#[test]
fn a_u64_is_read_back() {
    let bytes = [8u8, 7, 6, 5, 4, 3, 2, 1, 0xAB, 0xCD];
    let (x, rest) = read_u64(&bytes).unwrap();
    assert_eq!(x, 0x0102_0304_0506_0708);
    assert_eq!(rest, &[0xAB, 0xCD]);
    assert_eq!(read_u64(&bytes[..7]), None);
    assert_eq!(read_u64(&[]), None);
    let (y, rest) = read_u64(&bytes[..8]).unwrap();
    assert_eq!(y, x);
    assert!(rest.is_empty());
}

#[test]
fn a_blob_stands_behind_its_length() {
    let mut out = Vec::new();
    put_blob(&mut out, &vec![9, 8, 7]);
    assert_eq!(out, vec![3, 0, 0, 0, 0, 0, 0, 0, 9, 8, 7]);
    let mut empty = Vec::new();
    put_blob(&mut empty, &vec![]);
    assert_eq!(empty, vec![0; 8]);
}

#[test]
fn a_blob_is_read_back() {
    let bytes = [3u8, 0, 0, 0, 0, 0, 0, 0, 9, 8, 7, 1];
    let (b, rest) = read_blob(&bytes).unwrap();
    assert_eq!(b, vec![9, 8, 7]);
    assert_eq!(rest, &[1]);
    assert_eq!(read_blob(&bytes[..10]), None);
    assert_eq!(read_blob(&bytes[..5]), None);
    assert_eq!(read_blob(&[255; 8]), None);
}

#[test]
fn fixed_bytes_are_read_back() {
    let bytes = [1u8, 2, 3, 4];
    let (a, b) = read_fixed(&bytes, 3).unwrap();
    assert_eq!(a, &[1, 2, 3]);
    assert_eq!(b, &[4]);
    let (a, b) = read_fixed(&bytes, 0).unwrap();
    assert!(a.is_empty());
    assert_eq!(b, &bytes);
    assert_eq!(read_fixed(&bytes, 5), None);
}

#[test]
fn the_stored_form_of_a_chunk() {
    let chunk = vec![record(&[1, 2], &[3], &[]), record(&[4], &[], &[5, 6])];
    let expected: Vec<u8> = vec![
        2, 0, 0, 0, 0, 0, 0, 0, // two records
        2, 0, 0, 0, 0, 0, 0, 0, 1, 2, // key
        1, 0, 0, 0, 0, 0, 0, 0, 3, // value
        0, 0, 0, 0, 0, 0, 0, 0, // proof
        1, 0, 0, 0, 0, 0, 0, 0, 4, // key
        0, 0, 0, 0, 0, 0, 0, 0, // value
        2, 0, 0, 0, 0, 0, 0, 0, 5, 6, // proof
    ];
    assert_eq!(encode_chunk(&chunk), expected);
    assert_eq!(encode_chunk(&vec![]), vec![0; 8]);
}

#[test]
fn a_chunk_is_read_back() {
    let chunk = vec![
        record(&[1, 2], &[3], &[]),
        record(&[4], &[], &[5, 6]),
        record(&[], &[7; 300], &[8; 32]),
    ];
    assert_eq!(decode_chunk(&encode_chunk(&chunk)), Ok(chunk));
    assert_eq!(decode_chunk(&encode_chunk(&vec![])), Ok(vec![]));
}

#[test]
fn a_record_is_read_from_the_front() {
    let chunk = vec![record(&[1, 2], &[3], &[9]), record(&[4], &[], &[5, 6])];
    let bytes = encode_chunk(&chunk);
    let (first, rest) = read_record(&bytes[8..]).unwrap();
    assert_eq!(first, chunk[0]);
    let (second, rest) = read_record(rest).unwrap();
    assert_eq!(second, chunk[1]);
    assert!(rest.is_empty());
    assert_eq!(read_record(rest), None);
}

#[test]
fn a_short_chunk_is_a_corruption() {
    let bytes = encode_chunk(&vec![record(&[1, 2], &[3], &[4]), record(&[5], &[6], &[7])]);
    for len in 0..bytes.len() {
        assert_eq!(decode_chunk(&bytes[..len]), Err(BackupError::CorruptionError));
    }
}

#[test]
fn bytes_behind_a_chunk_are_a_corruption() {
    let mut bytes = encode_chunk(&vec![record(&[1, 2], &[3], &[4])]);
    bytes.push(0);
    assert_eq!(decode_chunk(&bytes), Err(BackupError::CorruptionError));
}

#[test]
fn a_wrong_count_is_a_corruption() {
    let bytes = encode_chunk(&vec![record(&[1, 2], &[3], &[4])]);
    let mut more = bytes.clone();
    more[0] = 2;
    assert_eq!(decode_chunk(&more), Err(BackupError::CorruptionError));
    let mut fewer = bytes.clone();
    fewer[0] = 0;
    assert_eq!(decode_chunk(&fewer), Err(BackupError::CorruptionError));
    let mut huge = bytes.clone();
    huge[7] = 255;
    assert_eq!(decode_chunk(&huge), Err(BackupError::CorruptionError));
}

#[test]
fn no_changed_byte_reads_as_the_same_chunk() {
    let chunk = vec![record(&[1, 2], &[3], &[4, 4]), record(&[5], &[6, 6, 6], &[7])];
    let bytes = encode_chunk(&chunk);
    for at in 0..bytes.len() {
        for flip in [0x01u8, 0x80, 0xFF] {
            let mut changed = bytes.clone();
            changed[at] ^= flip;
            assert_ne!(decode_chunk(&changed), Ok(chunk.clone()));
        }
    }
}
