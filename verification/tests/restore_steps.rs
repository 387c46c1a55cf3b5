use snapshot_backup::chunk::encode_chunk;
use snapshot_backup::error::BackupError;
use snapshot_backup::hash::HashValue;
use snapshot_backup::manifest::{ChunkRef, Manifest};
use snapshot_backup::manifest_codec::encode_manifest;
use snapshot_backup::record::StateRecord;
use snapshot_backup::restore::{
    RestorePhase, RestoreReply, RestoreRequest, StateSnapshotRestoreController,
    StateSnapshotRestoreOpt, PRE_GENESIS_VERSION,
};

fn records(keys: &[u8]) -> Vec<StateRecord> {
    keys.iter().map(|k| StateRecord { key: vec![*k], value: vec![*k; 3], proof: vec![0xF0, *k] }).collect()
}

fn root() -> HashValue {
    HashValue::new([0x5A; 32])
}

fn chunk(handle: &str, first: u8, last: u8, count: u64) -> ChunkRef {
    ChunkRef {
        handle: handle.as_bytes().to_vec(),
        first_key: vec![first],
        last_key: vec![last],
        entry_count: count,
    }
}

fn manifest_bytes() -> Vec<u8> {
    let chunks = vec![chunk("h0", 1, 2, 2), chunk("h1", 5, 5, 1)];
    encode_manifest(&Manifest::seal(12, root(), 2, chunks).unwrap())
}

fn controller(version: u64) -> StateSnapshotRestoreController {
    StateSnapshotRestoreController::new(StateSnapshotRestoreOpt {
        manifest_handle: b"manifests/12".to_vec(),
        version,
    })
}

/// A controller that has read the manifest and asks for its first chunk.
fn reading(version: u64) -> (StateSnapshotRestoreController, RestoreRequest) {
    let (c, _) = controller(version).start();
    c.step(RestoreReply::Read(Ok(manifest_bytes())))
}

fn failed(error: BackupError) -> RestoreRequest {
    RestoreRequest::Failed { error }
}

#[test]
fn the_pre_genesis_version_is_the_largest_u64() {
    assert_eq!(PRE_GENESIS_VERSION, u64::MAX);
}

#[test]
fn a_run_starts_by_reading_the_manifest() {
    let c = controller(3);
    assert_eq!(c.phase(), RestorePhase::Ready);
    let (c, request) = c.start();
    assert_eq!(request, RestoreRequest::Read { handle: b"manifests/12".to_vec() });
    assert_eq!(c.phase(), RestorePhase::AwaitManifest);
    let (c, request) = c.start();
    assert_eq!(request, failed(BackupError::StorageError));
    assert_eq!(c.phase(), RestorePhase::Closed);
}

#[test]
fn chunks_are_read_and_applied_in_the_order_of_the_manifest() {
    let (c, request) = reading(3);
    assert_eq!(request, RestoreRequest::Read { handle: b"h0".to_vec() });
    assert_eq!(c.phase(), RestorePhase::AwaitChunk);
    let (c, request) = c.step(RestoreReply::Read(Ok(encode_chunk(&records(&[1, 2])))));
    assert_eq!(
        request,
        RestoreRequest::ApplyChunk { expected_root: root(), records: records(&[1, 2]) }
    );
    assert_eq!(c.phase(), RestorePhase::AwaitApplied);
    assert_eq!(c.chunks_applied(), 0);
    let (c, request) = c.step(RestoreReply::Applied(Ok(())));
    assert_eq!(request, RestoreRequest::Read { handle: b"h1".to_vec() });
    assert_eq!(c.chunks_applied(), 1);
    let (c, request) = c.step(RestoreReply::Read(Ok(encode_chunk(&records(&[5])))));
    assert_eq!(
        request,
        RestoreRequest::ApplyChunk { expected_root: root(), records: records(&[5]) }
    );
    let (c, request) = c.step(RestoreReply::Applied(Ok(())));
    assert_eq!(request, RestoreRequest::Finalize { version: Some(3) });
    assert_eq!(c.phase(), RestorePhase::AwaitFinalized);
    assert_eq!(c.chunks_applied(), 2);
    let (c, request) = c.step(RestoreReply::Finalized(Ok(root())));
    assert_eq!(request, RestoreRequest::Finished);
    assert_eq!(c.phase(), RestorePhase::Closed);
}

#[test]
fn a_restore_at_the_pre_genesis_version_binds_no_version() {
    let (c, _) = reading(PRE_GENESIS_VERSION);
    let (c, _) = c.step(RestoreReply::Read(Ok(encode_chunk(&records(&[1, 2])))));
    let (c, _) = c.step(RestoreReply::Applied(Ok(())));
    let (c, _) = c.step(RestoreReply::Read(Ok(encode_chunk(&records(&[5])))));
    let (_, request) = c.step(RestoreReply::Applied(Ok(())));
    assert_eq!(request, RestoreRequest::Finalize { version: None });
}

#[test]
fn a_restore_at_version_zero_binds_version_zero() {
    let empty = encode_manifest(&Manifest::seal(12, root(), 2, vec![]).unwrap());
    let (c, _) = controller(0).start();
    let (_, request) = c.step(RestoreReply::Read(Ok(empty)));
    assert_eq!(request, RestoreRequest::Finalize { version: Some(0) });
}

#[test]
fn a_manifest_without_chunks_goes_straight_to_the_end() {
    let empty = encode_manifest(&Manifest::seal(12, root(), 2, vec![]).unwrap());
    let (c, _) = controller(PRE_GENESIS_VERSION).start();
    let (c, request) = c.step(RestoreReply::Read(Ok(empty)));
    assert_eq!(request, RestoreRequest::Finalize { version: None });
    let (_, request) = c.step(RestoreReply::Finalized(Ok(root())));
    assert_eq!(request, RestoreRequest::Finished);
}

#[test]
fn another_root_hash_is_a_verification_error() {
    let (c, _) = reading(3);
    let (c, _) = c.step(RestoreReply::Read(Ok(encode_chunk(&records(&[1, 2])))));
    let (c, _) = c.step(RestoreReply::Applied(Ok(())));
    let (c, _) = c.step(RestoreReply::Read(Ok(encode_chunk(&records(&[5])))));
    let (c, _) = c.step(RestoreReply::Applied(Ok(())));
    let mut other = [0x5A; 32];
    other[31] = 0x5B;
    let (c, request) = c.step(RestoreReply::Finalized(Ok(HashValue::new(other))));
    assert_eq!(request, failed(BackupError::VerificationError));
    assert_eq!(c.phase(), RestorePhase::Closed);
}

#[test]
fn a_manifest_that_cannot_be_read_is_a_corruption() {
    let (c, _) = controller(3).start();
    let (c, request) = c.step(RestoreReply::Read(Ok(vec![1, 2, 3])));
    assert_eq!(request, failed(BackupError::CorruptionError));
    assert_eq!(c.phase(), RestorePhase::Closed);
    let mut bytes = manifest_bytes();
    bytes.pop();
    let (c, _) = controller(3).start();
    let (_, request) = c.step(RestoreReply::Read(Ok(bytes)));
    assert_eq!(request, failed(BackupError::CorruptionError));
}

#[test]
fn a_chunk_that_cannot_be_read_is_a_corruption() {
    let (c, _) = reading(3);
    let mut bytes = encode_chunk(&records(&[1, 2]));
    bytes.pop();
    let (_, request) = c.step(RestoreReply::Read(Ok(bytes)));
    assert_eq!(request, failed(BackupError::CorruptionError));
    let (c, _) = reading(3);
    let (_, request) = c.step(RestoreReply::Read(Ok(vec![])));
    assert_eq!(request, failed(BackupError::CorruptionError));
}

#[test]
fn a_chunk_with_other_bounds_than_the_manifest_gives_is_a_corruption() {
    for keys in [&[1u8, 3][..], &[0, 2], &[1], &[1, 2, 3], &[]] {
        let (c, _) = reading(3);
        let (_, request) = c.step(RestoreReply::Read(Ok(encode_chunk(&records(keys)))));
        assert_eq!(request, failed(BackupError::CorruptionError));
    }
}

#[test]
fn restore_refuses_a_chunk_out_of_key_order() {
    let chunks = vec![chunk("h0", 1, 4, 3)];
    let manifest = encode_manifest(&Manifest::seal(12, root(), 3, chunks).unwrap());
    let (c, _) = controller(3).start();
    let (c, _) = c.step(RestoreReply::Read(Ok(manifest)));
    let mut shuffled = records(&[1, 2, 4]);
    shuffled[1].key = vec![9];
    let (_, request) = c.step(RestoreReply::Read(Ok(encode_chunk(&shuffled))));
    assert_eq!(request, failed(BackupError::CorruptionError));
}

#[test]
fn chunks_in_the_wrong_order_are_a_corruption() {
    let (c, _) = reading(3);
    let (_, request) = c.step(RestoreReply::Read(Ok(encode_chunk(&records(&[5])))));
    assert_eq!(request, failed(BackupError::CorruptionError));
}

#[test]
fn an_error_of_storage_ends_the_restore_as_it_is() {
    let (c, _) = controller(3).start();
    let (_, request) = c.step(RestoreReply::Read(Err(BackupError::StorageError)));
    assert_eq!(request, failed(BackupError::StorageError));
    let (c, _) = reading(3);
    let (c, request) = c.step(RestoreReply::Read(Err(BackupError::StorageError)));
    assert_eq!(request, failed(BackupError::StorageError));
    assert_eq!(c.phase(), RestorePhase::Closed);
}

#[test]
fn an_error_of_the_writer_ends_the_run_as_it_is() {
    let (c, _) = reading(3);
    let (c, _) = c.step(RestoreReply::Read(Ok(encode_chunk(&records(&[1, 2])))));
    let (c, request) = c.step(RestoreReply::Applied(Err(BackupError::CorruptionError)));
    assert_eq!(request, failed(BackupError::CorruptionError));
    assert_eq!(c.chunks_applied(), 0);
    let empty = encode_manifest(&Manifest::seal(12, root(), 2, vec![]).unwrap());
    let (c, _) = controller(3).start();
    let (c, _) = c.step(RestoreReply::Read(Ok(empty)));
    let (_, request) = c.step(RestoreReply::Finalized(Err(BackupError::StorageError)));
    assert_eq!(request, failed(BackupError::StorageError));
}

#[test]
fn a_reply_to_nothing_asked_ends_the_restore() {
    let (_, request) = controller(3).step(RestoreReply::Read(Ok(manifest_bytes())));
    assert_eq!(request, failed(BackupError::StorageError));
    let (c, _) = controller(3).start();
    let (_, request) = c.step(RestoreReply::Applied(Ok(())));
    assert_eq!(request, failed(BackupError::StorageError));
    let (c, _) = reading(3);
    let (_, request) = c.step(RestoreReply::Finalized(Ok(root())));
    assert_eq!(request, failed(BackupError::StorageError));
    let (c, _) = reading(3);
    let (c, _) = c.step(RestoreReply::Read(Ok(encode_chunk(&records(&[1, 2])))));
    let (_, request) = c.step(RestoreReply::Read(Ok(encode_chunk(&records(&[5])))));
    assert_eq!(request, failed(BackupError::StorageError));
}

#[test]
fn success_is_not_reported_before_the_root_hash_is_compared() {
    let (c, _) = reading(3);
    let (c, request) = c.step(RestoreReply::Read(Ok(encode_chunk(&records(&[1, 2])))));
    assert_ne!(request, RestoreRequest::Finished);
    let (c, request) = c.step(RestoreReply::Applied(Ok(())));
    assert_ne!(request, RestoreRequest::Finished);
    let (c, request) = c.step(RestoreReply::Read(Ok(encode_chunk(&records(&[5])))));
    assert_ne!(request, RestoreRequest::Finished);
    let (_, request) = c.step(RestoreReply::Applied(Ok(())));
    assert_ne!(request, RestoreRequest::Finished);
}
