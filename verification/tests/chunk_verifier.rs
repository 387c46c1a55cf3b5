use snapshot_backup::chunk_verifier::{ChunkBounds, ChunkVerifier};
use snapshot_backup::error::BackupError;
use snapshot_backup::manifest::ChunkRef;
use snapshot_backup::record::StateRecord;

fn records(keys: &[u8]) -> Vec<StateRecord> {
    keys.iter().map(|k| StateRecord { key: vec![*k], value: vec![*k, *k], proof: vec![] }).collect()
}

fn bounds(first: u8, last: u8, count: u64) -> ChunkBounds {
    ChunkBounds { first_key: vec![first], last_key: vec![last], entry_count: count }
}

#[test]
fn chunks_in_order_are_accepted_with_their_bounds() {
    let mut v = ChunkVerifier::new(3);
    assert_eq!(v.entries(), 0);
    assert!(!v.is_closed());
    assert_eq!(v.check(&records(&[1, 2, 3])), Ok(bounds(1, 3, 3)));
    assert_eq!(v.entries(), 3);
    assert!(!v.is_closed());
    assert_eq!(v.check(&records(&[4, 6, 9])), Ok(bounds(4, 9, 3)));
    assert_eq!(v.check(&records(&[10])), Ok(bounds(10, 10, 1)));
    assert_eq!(v.entries(), 7);
    assert!(v.is_closed());
}

#[test]
fn an_empty_chunk_is_a_corruption() {
    let mut v = ChunkVerifier::new(3);
    assert_eq!(v.check(&vec![]), Err(BackupError::CorruptionError));
    assert_eq!(v.entries(), 0);
    assert_eq!(v.check(&records(&[1])), Ok(bounds(1, 1, 1)));
}

#[test]
fn an_overfull_chunk_is_a_corruption() {
    let mut v = ChunkVerifier::new(3);
    assert_eq!(v.check(&records(&[1, 2, 3, 4])), Err(BackupError::CorruptionError));
    assert_eq!(v.entries(), 0);
    let mut none = ChunkVerifier::new(0);
    assert_eq!(none.check(&records(&[1])), Err(BackupError::CorruptionError));
}

#[test]
fn a_chunk_out_of_key_order_is_a_corruption() {
    let mut v = ChunkVerifier::new(3);
    assert_eq!(v.check(&records(&[2, 1])), Err(BackupError::CorruptionError));
    assert_eq!(v.check(&records(&[1, 1])), Err(BackupError::CorruptionError));
    assert_eq!(v.entries(), 0);
}

#[test]
fn a_chunk_that_does_not_start_above_the_last_is_a_corruption() {
    let mut v = ChunkVerifier::new(2);
    assert_eq!(v.check(&records(&[5, 7])), Ok(bounds(5, 7, 2)));
    assert_eq!(v.check(&records(&[7, 8])), Err(BackupError::CorruptionError));
    assert_eq!(v.check(&records(&[1, 2])), Err(BackupError::CorruptionError));
    assert_eq!(v.check(&records(&[6, 9])), Err(BackupError::CorruptionError));
    assert_eq!(v.entries(), 2);
    assert_eq!(v.check(&records(&[8, 9])), Ok(bounds(8, 9, 2)));
}

#[test]
fn nothing_follows_a_short_chunk() {
    let mut v = ChunkVerifier::new(3);
    assert_eq!(v.check(&records(&[1, 2])), Ok(bounds(1, 2, 2)));
    assert!(v.is_closed());
    assert_eq!(v.check(&records(&[3])), Err(BackupError::CorruptionError));
    assert_eq!(v.entries(), 2);
}

#[test]
fn bounds_are_held_against_the_manifest() {
    let b = bounds(1, 3, 3);
    let fits = ChunkRef { handle: vec![9], first_key: vec![1], last_key: vec![3], entry_count: 3 };
    assert!(b.matches(&fits));
    assert!(!b.matches(&ChunkRef { first_key: vec![2], ..fits.clone() }));
    assert!(!b.matches(&ChunkRef { last_key: vec![3, 0], ..fits.clone() }));
    assert!(!b.matches(&ChunkRef { entry_count: 2, ..fits.clone() }));
    assert!(b.matches(&ChunkRef { handle: vec![], ..fits }));
}
