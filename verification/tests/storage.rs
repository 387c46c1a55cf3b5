use snapshot_backup::error::BackupError;
use snapshot_backup::storage::{starts_with, BackupStorage, MemoryStorage};

#[test]
fn what_is_written_is_read_back() {
    let mut s = MemoryStorage::new();
    assert_eq!(s.len(), 0);
    let handle = s.create_for_write(&b"chunks/1".to_vec(), &vec![1, 2, 3]).unwrap();
    assert_eq!(handle, b"chunks/1".to_vec());
    assert_eq!(s.open_for_read(&handle), Ok(vec![1, 2, 3]));
    assert_eq!(s.len(), 1);
}

#[test]
fn an_empty_artifact_is_kept() {
    let mut s = MemoryStorage::new();
    let handle = s.create_for_write(&vec![], &vec![]).unwrap();
    assert_eq!(s.open_for_read(&handle), Ok(vec![]));
    assert_eq!(s.contains(&vec![]), Ok(true));
}

#[test]
fn a_taken_identifier_is_refused_and_nothing_changes() {
    let mut s = MemoryStorage::new();
    s.create_for_write(&b"manifests/7".to_vec(), &vec![1]).unwrap();
    let before = s.clone();
    assert_eq!(
        s.create_for_write(&b"manifests/7".to_vec(), &vec![2]),
        Err(BackupError::StorageError)
    );
    assert_eq!(s, before);
    assert_eq!(s.open_for_read(&b"manifests/7".to_vec()), Ok(vec![1]));
}

#[test]
fn an_unknown_handle_is_a_storage_error() {
    let mut s = MemoryStorage::new();
    assert_eq!(s.open_for_read(&b"nothing".to_vec()), Err(BackupError::StorageError));
    s.create_for_write(&b"a".to_vec(), &vec![1]).unwrap();
    assert_eq!(s.open_for_read(&b"b".to_vec()), Err(BackupError::StorageError));
    assert_eq!(s.open_for_read(&b"".to_vec()), Err(BackupError::StorageError));
}

#[test]
fn contains_tells_taken_from_free() {
    let mut s = MemoryStorage::new();
    assert_eq!(s.contains(&b"a".to_vec()), Ok(false));
    s.create_for_write(&b"a".to_vec(), &vec![]).unwrap();
    assert_eq!(s.contains(&b"a".to_vec()), Ok(true));
    assert_eq!(s.contains(&b"ab".to_vec()), Ok(false));
    assert_eq!(s.contains(&b"".to_vec()), Ok(false));
}

#[test]
fn list_gives_the_identifiers_with_the_prefix_in_order() {
    let mut s = MemoryStorage::new();
    for id in ["chunks/1/0/1", "manifests/1", "chunks/1/0/0", "chunks/2/0/0", "chunk"] {
        s.create_for_write(&id.as_bytes().to_vec(), &vec![0]).unwrap();
    }
    assert_eq!(
        s.list(&b"chunks/1/".to_vec()),
        Ok(vec![b"chunks/1/0/1".to_vec(), b"chunks/1/0/0".to_vec()])
    );
    assert_eq!(s.list(&b"manifests/".to_vec()), Ok(vec![b"manifests/1".to_vec()]));
    assert_eq!(s.list(&b"nothing".to_vec()), Ok(vec![]));
    assert_eq!(s.list(&b"".to_vec()).unwrap().len(), 5);
    assert_eq!(s.list(&b"chunk".to_vec()).unwrap().len(), 4);
}

#[test]
fn prefixes() {
    assert!(starts_with(&b"chunks/1".to_vec(), &b"chunks/".to_vec()));
    assert!(starts_with(&b"chunks/".to_vec(), &b"chunks/".to_vec()));
    assert!(starts_with(&b"abc".to_vec(), &b"".to_vec()));
    assert!(starts_with(&b"".to_vec(), &b"".to_vec()));
    assert!(!starts_with(&b"chunk".to_vec(), &b"chunks/".to_vec()));
    assert!(!starts_with(&b"chunkz/1".to_vec(), &b"chunks/".to_vec()));
    assert!(!starts_with(&b"".to_vec(), &b"a".to_vec()));
}
