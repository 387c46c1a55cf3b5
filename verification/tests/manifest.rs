use snapshot_backup::error::BackupError;
use snapshot_backup::hash::HashValue;
use snapshot_backup::manifest::{copy_chunk_refs, count_entries, ChunkRef, Manifest};
use snapshot_backup::manifest_codec::{decode_manifest, encode_manifest, read_chunk_ref};

fn chunk(handle: &str, first: &[u8], last: &[u8], count: u64) -> ChunkRef {
    ChunkRef {
        handle: handle.as_bytes().to_vec(),
        first_key: first.to_vec(),
        last_key: last.to_vec(),
        entry_count: count,
    }
}

fn root() -> HashValue {
    let mut bytes = [0u8; 32];
    for (i, b) in bytes.iter_mut().enumerate() {
        *b = 0xA0 + i as u8;
    }
    HashValue::new(bytes)
}

fn three_chunks() -> Vec<ChunkRef> {
    vec![
        chunk("chunks/9/0/0", &[1], &[3], 3),
        chunk("chunks/9/0/1", &[4], &[4, 9], 3),
        chunk("chunks/9/0/2", &[5], &[5], 1),
    ]
}

#[test]
fn a_manifest_keeps_what_it_was_sealed_with() {
    let m = Manifest::seal(9, root(), 3, three_chunks()).unwrap();
    assert_eq!(m.version(), 9);
    assert_eq!(m.root_hash(), root());
    assert_eq!(m.max_chunk_size(), 3);
    assert_eq!(m.chunk_count(), 3);
    assert_eq!(m.chunks(), &three_chunks());
    assert_eq!(m.chunk(1), Some(three_chunks()[1].clone()));
    assert_eq!(m.chunk(3), None);
    assert_eq!(m.entry_total(), 7);
}

#[test]
fn a_manifest_without_chunks_is_valid() {
    let m = Manifest::seal(0, root(), 500, vec![]).unwrap();
    assert_eq!(m.chunk_count(), 0);
    assert_eq!(m.entry_total(), 0);
    assert_eq!(m.chunk(0), None);
}

#[test]
fn a_chunk_size_of_zero_is_refused() {
    assert_eq!(Manifest::seal(1, root(), 0, vec![]), Err(BackupError::CorruptionError));
}

#[test]
fn an_empty_chunk_is_refused() {
    let chunks = vec![chunk("a", &[1], &[1], 0)];
    assert_eq!(Manifest::seal(1, root(), 3, chunks), Err(BackupError::CorruptionError));
}

#[test]
fn an_overfull_chunk_is_refused() {
    let chunks = vec![chunk("a", &[1], &[9], 4)];
    assert_eq!(Manifest::seal(1, root(), 3, chunks), Err(BackupError::CorruptionError));
}

#[test]
fn a_short_chunk_before_the_last_is_refused() {
    let chunks = vec![chunk("a", &[1], &[2], 2), chunk("b", &[3], &[5], 3)];
    assert_eq!(Manifest::seal(1, root(), 3, chunks), Err(BackupError::CorruptionError));
}

#[test]
fn chunks_out_of_key_order_are_refused() {
    let overlap = vec![chunk("a", &[1], &[5], 3), chunk("b", &[5], &[7], 3)];
    assert_eq!(Manifest::seal(1, root(), 3, overlap), Err(BackupError::CorruptionError));
    let swapped = vec![chunk("a", &[4], &[6], 3), chunk("b", &[1], &[3], 3)];
    assert_eq!(Manifest::seal(1, root(), 3, swapped), Err(BackupError::CorruptionError));
}

#[test]
fn bounds_that_do_not_fit_the_count_are_refused() {
    let one_with_two_keys = vec![chunk("a", &[1], &[2], 1)];
    assert_eq!(Manifest::seal(1, root(), 3, one_with_two_keys), Err(BackupError::CorruptionError));
    let two_with_one_key = vec![chunk("a", &[1], &[1], 2)];
    assert_eq!(Manifest::seal(1, root(), 3, two_with_one_key), Err(BackupError::CorruptionError));
    let backwards = vec![chunk("a", &[2], &[1], 2)];
    assert_eq!(Manifest::seal(1, root(), 3, backwards), Err(BackupError::CorruptionError));
}

#[test]
fn more_entries_than_a_u64_counts_are_refused() {
    let chunks = vec![chunk("a", &[1], &[2], u64::MAX), chunk("b", &[3], &[3], 1)];
    assert_eq!(count_entries(&chunks, u64::MAX), None);
    assert_eq!(Manifest::seal(1, root(), u64::MAX, chunks), Err(BackupError::CorruptionError));
}

#[test]
fn entries_are_counted() {
    assert_eq!(count_entries(&three_chunks(), 3), Some(7));
    assert_eq!(count_entries(&vec![], 3), Some(0));
    assert_eq!(count_entries(&three_chunks(), 2), None);
    assert_eq!(copy_chunk_refs(&three_chunks()), three_chunks());
}

#[test]
fn the_stored_form_of_a_manifest() {
    let m = Manifest::seal(
        0x0102,
        root(),
        2,
        vec![chunk("c0", &[1], &[3], 2), chunk("c1", &[4], &[4], 1)],
    )
    .unwrap();
    let mut expected: Vec<u8> = vec![2, 1, 0, 0, 0, 0, 0, 0];
    expected.extend_from_slice(&root().bytes);
    expected.extend_from_slice(&[2, 0, 0, 0, 0, 0, 0, 0]); // chunk size
    expected.extend_from_slice(&[3, 0, 0, 0, 0, 0, 0, 0]); // entries
    expected.extend_from_slice(&[2, 0, 0, 0, 0, 0, 0, 0]); // chunks
    expected.extend_from_slice(&[2, 0, 0, 0, 0, 0, 0, 0, b'c', b'0']);
    expected.extend_from_slice(&[1, 0, 0, 0, 0, 0, 0, 0, 1]);
    expected.extend_from_slice(&[1, 0, 0, 0, 0, 0, 0, 0, 3]);
    expected.extend_from_slice(&[2, 0, 0, 0, 0, 0, 0, 0]);
    expected.extend_from_slice(&[2, 0, 0, 0, 0, 0, 0, 0, b'c', b'1']);
    expected.extend_from_slice(&[1, 0, 0, 0, 0, 0, 0, 0, 4]);
    expected.extend_from_slice(&[1, 0, 0, 0, 0, 0, 0, 0, 4]);
    expected.extend_from_slice(&[1, 0, 0, 0, 0, 0, 0, 0]);
    assert_eq!(encode_manifest(&m), expected);
}

#[test]
fn a_manifest_is_read_back() {
    let m = Manifest::seal(9, root(), 3, three_chunks()).unwrap();
    assert_eq!(decode_manifest(&encode_manifest(&m)), Ok(m));
    let empty = Manifest::seal(u64::MAX, root(), 1, vec![]).unwrap();
    assert_eq!(decode_manifest(&encode_manifest(&empty)), Ok(empty));
}

#[test]
fn a_chunk_reference_is_read_from_the_front() {
    let m = Manifest::seal(9, root(), 3, three_chunks()).unwrap();
    let bytes = encode_manifest(&m);
    let (first, rest) = read_chunk_ref(&bytes[64..]).unwrap();
    assert_eq!(first, three_chunks()[0]);
    let (second, _) = read_chunk_ref(rest).unwrap();
    assert_eq!(second, three_chunks()[1]);
    assert_eq!(read_chunk_ref(&[]), None);
}

#[test]
fn a_manifest_with_a_missing_field_is_a_corruption() {
    let m = Manifest::seal(9, root(), 3, three_chunks()).unwrap();
    let bytes = encode_manifest(&m);
    for len in 0..bytes.len() {
        assert_eq!(decode_manifest(&bytes[..len]), Err(BackupError::CorruptionError));
    }
}

#[test]
fn bytes_behind_a_manifest_are_a_corruption() {
    let m = Manifest::seal(9, root(), 3, three_chunks()).unwrap();
    let mut bytes = encode_manifest(&m);
    bytes.push(7);
    assert_eq!(decode_manifest(&bytes), Err(BackupError::CorruptionError));
}

#[test]
fn no_chunks_for_a_snapshot_with_entries_is_a_corruption() {
    let empty = Manifest::seal(9, root(), 3, vec![]).unwrap();
    let mut bytes = encode_manifest(&empty);
    assert_eq!(bytes.len(), 64);
    bytes[48] = 7; // the header now speaks of seven entries
    assert_eq!(decode_manifest(&bytes), Err(BackupError::CorruptionError));
}

#[test]
fn a_dropped_chunk_reference_is_a_corruption() {
    let full = encode_manifest(&Manifest::seal(9, root(), 3, three_chunks()).unwrap());
    let two = encode_manifest(
        &Manifest::seal(9, root(), 3, three_chunks()[..2].to_vec()).unwrap(),
    );
    let mut forged = full[..64].to_vec();
    forged[56] = 2; // two chunks, but still seven entries
    forged.extend_from_slice(&two[64..]);
    assert_eq!(decode_manifest(&forged), Err(BackupError::CorruptionError));
}

#[test]
fn an_invalid_manifest_is_not_read() {
    let m = Manifest::seal(9, root(), 3, three_chunks()).unwrap();
    let bytes = encode_manifest(&m);
    let mut zero_size = bytes.clone();
    zero_size[40] = 0;
    assert_eq!(decode_manifest(&zero_size), Err(BackupError::CorruptionError));
    let mut small_size = bytes.clone();
    small_size[40] = 2;
    assert_eq!(decode_manifest(&small_size), Err(BackupError::CorruptionError));
}

#[test]
fn no_changed_byte_reads_as_the_same_manifest() {
    let bytes = encode_manifest(&Manifest::seal(9, root(), 3, three_chunks()).unwrap());
    let original = Manifest::seal(9, root(), 3, three_chunks()).unwrap();
    for at in 0..bytes.len() {
        for flip in [0x01u8, 0x80, 0xFF] {
            let mut changed = bytes.clone();
            changed[at] ^= flip;
            match decode_manifest(&changed) {
                Ok(m) => assert_ne!(m, original),
                Err(e) => assert_eq!(e, BackupError::CorruptionError),
            }
        }
    }
}
