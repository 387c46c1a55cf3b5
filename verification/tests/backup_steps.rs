use snapshot_backup::backup::{
    BackupPhase, BackupReply, BackupRequest, GlobalBackupOpt, StateSnapshotBackupController,
    StateSnapshotBackupOpt,
};
use snapshot_backup::chunk::encode_chunk;
use snapshot_backup::error::BackupError;
use snapshot_backup::hash::HashValue;
use snapshot_backup::manifest::{ChunkRef, Manifest};
use snapshot_backup::manifest_codec::{decode_manifest, encode_manifest};
use snapshot_backup::record::StateRecord;

fn records(keys: &[u8]) -> Vec<StateRecord> {
    keys.iter().map(|k| StateRecord { key: vec![*k], value: vec![*k; 3], proof: vec![0xF0, *k] }).collect()
}

fn root() -> HashValue {
    HashValue::new([0x5A; 32])
}

fn controller(version: u64, max_chunk_size: u64) -> StateSnapshotBackupController {
    StateSnapshotBackupController::new(
        StateSnapshotBackupOpt { version },
        GlobalBackupOpt { max_chunk_size },
    )
}

/// A controller that has found its attempt free and knows the root hash.
fn fetching(version: u64, max_chunk_size: u64) -> (StateSnapshotBackupController, BackupRequest) {
    let (c, _) = controller(version, max_chunk_size).start();
    let (c, _) = c.step(BackupReply::Probed(Ok(false)));
    c.step(BackupReply::StateRoot(Ok((version, root()))))
}

fn failed(error: BackupError) -> BackupRequest {
    BackupRequest::Failed { error }
}

#[test]
fn a_run_starts_by_probing_its_first_chunk() {
    let c = controller(12, 500);
    assert_eq!(c.phase(), BackupPhase::Ready);
    let (c, request) = c.start();
    assert_eq!(request, BackupRequest::Probe { identifier: b"chunks/12/0/0".to_vec() });
    assert_eq!(c.phase(), BackupPhase::AwaitAttempt);
}

#[test]
fn a_run_is_started_once() {
    let (c, _) = controller(12, 500).start();
    let (c, request) = c.start();
    assert_eq!(request, failed(BackupError::StorageError));
    assert_eq!(c.phase(), BackupPhase::Closed);
}

#[test]
fn a_taken_attempt_is_passed_over() {
    let (c, _) = controller(12, 500).start();
    let (c, request) = c.step(BackupReply::Probed(Ok(true)));
    assert_eq!(request, BackupRequest::Probe { identifier: b"chunks/12/1/0".to_vec() });
    let (c, request) = c.step(BackupReply::Probed(Ok(true)));
    assert_eq!(request, BackupRequest::Probe { identifier: b"chunks/12/2/0".to_vec() });
    let (c, request) = c.step(BackupReply::Probed(Ok(false)));
    assert_eq!(request, BackupRequest::GetLatestStateRoot);
    assert_eq!(c.phase(), BackupPhase::AwaitStateRoot);
    let (c, _) = c.step(BackupReply::StateRoot(Ok((12, root()))));
    let (_, request) = c.step(BackupReply::Records(Ok(records(&[1]))));
    assert_eq!(
        request,
        BackupRequest::Write {
            identifier: b"chunks/12/2/0".to_vec(),
            payload: encode_chunk(&records(&[1])),
        }
    );
}

#[test]
fn the_snapshot_is_asked_for_a_chunk_at_a_time() {
    let (c, request) = fetching(12, 2);
    assert_eq!(
        request,
        BackupRequest::GetStateSnapshot { version: 12, start_index: 0, end_index: 2 }
    );
    assert_eq!(c.phase(), BackupPhase::AwaitRecords);
    let (c, request) = c.step(BackupReply::Records(Ok(records(&[1, 2]))));
    assert_eq!(
        request,
        BackupRequest::Write {
            identifier: b"chunks/12/0/0".to_vec(),
            payload: encode_chunk(&records(&[1, 2])),
        }
    );
    assert_eq!(c.phase(), BackupPhase::AwaitChunkHandle);
    assert_eq!(c.entries_seen(), 2);
    assert_eq!(c.chunks_stored(), 0);
    let (c, request) = c.step(BackupReply::Written(Ok(b"h0".to_vec())));
    assert_eq!(
        request,
        BackupRequest::GetStateSnapshot { version: 12, start_index: 2, end_index: 4 }
    );
    assert_eq!(c.chunks_stored(), 1);
    let (c, request) = c.step(BackupReply::Records(Ok(records(&[3, 4]))));
    assert_eq!(
        request,
        BackupRequest::Write {
            identifier: b"chunks/12/0/1".to_vec(),
            payload: encode_chunk(&records(&[3, 4])),
        }
    );
    let (_, request) = c.step(BackupReply::Written(Ok(b"h1".to_vec())));
    assert_eq!(
        request,
        BackupRequest::GetStateSnapshot { version: 12, start_index: 4, end_index: 6 }
    );
}

#[test]
fn the_range_asked_for_ends_at_the_largest_index() {
    let (_, request) = fetching(1, u64::MAX);
    assert_eq!(
        request,
        BackupRequest::GetStateSnapshot { version: 1, start_index: 0, end_index: u64::MAX }
    );
    let (c, _) = fetching(1, u64::MAX - 1);
    let (c, _) = c.step(BackupReply::Records(Ok(records(&[1]))));
    // the chunk was short, so the run seals; a full first chunk cannot be built here
    let (_, request) = c.step(BackupReply::Written(Ok(b"h".to_vec())));
    assert!(matches!(request, BackupRequest::Write { .. }));
}

#[test]
fn a_short_chunk_ends_the_snapshot() {
    let (c, _) = fetching(12, 2);
    let (c, _) = c.step(BackupReply::Records(Ok(records(&[1, 2]))));
    let (c, _) = c.step(BackupReply::Written(Ok(b"h0".to_vec())));
    let (c, _) = c.step(BackupReply::Records(Ok(records(&[7]))));
    let (c, request) = c.step(BackupReply::Written(Ok(b"h1".to_vec())));
    let manifest = Manifest::seal(
        12,
        root(),
        2,
        vec![
            ChunkRef { handle: b"h0".to_vec(), first_key: vec![1], last_key: vec![2], entry_count: 2 },
            ChunkRef { handle: b"h1".to_vec(), first_key: vec![7], last_key: vec![7], entry_count: 1 },
        ],
    )
    .unwrap();
    assert_eq!(
        request,
        BackupRequest::Write {
            identifier: b"manifests/12".to_vec(),
            payload: encode_manifest(&manifest),
        }
    );
    assert_eq!(c.phase(), BackupPhase::AwaitManifestHandle);
    let (c, request) = c.step(BackupReply::Written(Ok(b"the manifest".to_vec())));
    assert_eq!(request, BackupRequest::Finished { manifest_handle: b"the manifest".to_vec() });
    assert_eq!(c.phase(), BackupPhase::Closed);
}

#[test]
fn no_more_entries_end_the_snapshot() {
    let (c, _) = fetching(12, 2);
    let (c, _) = c.step(BackupReply::Records(Ok(records(&[1, 2]))));
    let (c, _) = c.step(BackupReply::Written(Ok(b"h0".to_vec())));
    let (_, request) = c.step(BackupReply::Records(Ok(vec![])));
    match request {
        BackupRequest::Write { identifier, payload } => {
            assert_eq!(identifier, b"manifests/12".to_vec());
            let manifest = decode_manifest(&payload).unwrap();
            assert_eq!(manifest.chunk_count(), 1);
            assert_eq!(manifest.entry_total(), 2);
            assert_eq!(manifest.root_hash(), root());
            assert_eq!(manifest.version(), 12);
            assert_eq!(manifest.max_chunk_size(), 2);
        }
        other => panic!("{:?}", other),
    }
}

#[test]
fn an_empty_snapshot_is_sealed_without_chunks() {
    let (c, _) = fetching(0, 500);
    let (_, request) = c.step(BackupReply::Records(Ok(vec![])));
    let manifest = Manifest::seal(0, root(), 500, vec![]).unwrap();
    assert_eq!(
        request,
        BackupRequest::Write {
            identifier: b"manifests/0".to_vec(),
            payload: encode_manifest(&manifest),
        }
    );
}

#[test]
fn a_version_that_is_not_the_latest_is_not_found() {
    for latest in [11u64, 13] {
        let (c, _) = controller(12, 500).start();
        let (c, _) = c.step(BackupReply::Probed(Ok(false)));
        let (c, request) = c.step(BackupReply::StateRoot(Ok((latest, root()))));
        assert_eq!(request, failed(BackupError::NotFoundError));
        assert_eq!(c.phase(), BackupPhase::Closed);
    }
}

#[test]
fn an_error_of_the_service_ends_the_run_as_it_is() {
    for error in [BackupError::ConnectionError, BackupError::NotFoundError] {
        let (c, _) = controller(12, 500).start();
        let (c, _) = c.step(BackupReply::Probed(Ok(false)));
        let (_, request) = c.step(BackupReply::StateRoot(Err(error)));
        assert_eq!(request, failed(error));
        let (c, _) = fetching(12, 500);
        let (c, request) = c.step(BackupReply::Records(Err(error)));
        assert_eq!(request, failed(error));
        assert_eq!(c.phase(), BackupPhase::Closed);
    }
}

#[test]
fn an_error_of_storage_ends_the_run_as_it_is() {
    let (c, _) = controller(12, 500).start();
    let (_, request) = c.step(BackupReply::Probed(Err(BackupError::StorageError)));
    assert_eq!(request, failed(BackupError::StorageError));
    let (c, _) = fetching(12, 500);
    let (c, _) = c.step(BackupReply::Records(Ok(records(&[1]))));
    let (_, request) = c.step(BackupReply::Written(Err(BackupError::StorageError)));
    assert_eq!(request, failed(BackupError::StorageError));
    let (c, _) = fetching(12, 500);
    let (c, _) = c.step(BackupReply::Records(Ok(vec![])));
    let (c, request) = c.step(BackupReply::Written(Err(BackupError::StorageError)));
    assert_eq!(request, failed(BackupError::StorageError));
    assert_eq!(c.phase(), BackupPhase::Closed);
}

#[test]
fn entries_that_the_verifier_refuses_are_a_corruption() {
    let (c, _) = fetching(12, 2);
    let (_, request) = c.step(BackupReply::Records(Ok(records(&[1, 2, 3]))));
    assert_eq!(request, failed(BackupError::CorruptionError));
    let (c, _) = fetching(12, 2);
    let (_, request) = c.step(BackupReply::Records(Ok(records(&[2, 1]))));
    assert_eq!(request, failed(BackupError::CorruptionError));
    let (c, _) = fetching(12, 2);
    let (c, _) = c.step(BackupReply::Records(Ok(records(&[4, 5]))));
    let (c, _) = c.step(BackupReply::Written(Ok(b"h0".to_vec())));
    let (_, request) = c.step(BackupReply::Records(Ok(records(&[5, 6]))));
    assert_eq!(request, failed(BackupError::CorruptionError));
}

#[test]
fn a_reply_to_nothing_asked_ends_the_run() {
    let (_, request) = controller(12, 500).step(BackupReply::Probed(Ok(false)));
    assert_eq!(request, failed(BackupError::StorageError));
    let (c, _) = controller(12, 500).start();
    let (_, request) = c.step(BackupReply::Written(Ok(vec![])));
    assert_eq!(request, failed(BackupError::StorageError));
    let (c, _) = controller(12, 500).start();
    let (c, _) = c.step(BackupReply::Probed(Ok(false)));
    let (_, request) = c.step(BackupReply::Records(Ok(vec![])));
    assert_eq!(request, failed(BackupError::ConnectionError));
    let (c, _) = fetching(12, 500);
    let (_, request) = c.step(BackupReply::StateRoot(Ok((12, root()))));
    assert_eq!(request, failed(BackupError::ConnectionError));
    let (c, _) = fetching(12, 500);
    let (c, _) = c.step(BackupReply::Records(Ok(records(&[1]))));
    let (_, request) = c.step(BackupReply::Probed(Ok(true)));
    assert_eq!(request, failed(BackupError::StorageError));
}

#[test]
fn a_run_that_is_over_stays_over() {
    let (c, _) = fetching(12, 500);
    let (c, _) = c.step(BackupReply::Records(Ok(vec![])));
    let (c, _) = c.step(BackupReply::Written(Ok(b"m".to_vec())));
    assert_eq!(c.phase(), BackupPhase::Closed);
    let (c, request) = c.step(BackupReply::Written(Ok(b"m".to_vec())));
    assert_eq!(request, failed(BackupError::StorageError));
    assert_eq!(c.phase(), BackupPhase::Closed);
}

#[test]
fn errors_that_a_retry_can_mend() {
    assert!(BackupError::ConnectionError.is_retryable());
    assert!(BackupError::StorageError.is_retryable());
    assert!(!BackupError::NotFoundError.is_retryable());
    assert!(!BackupError::CorruptionError.is_retryable());
    assert!(!BackupError::VerificationError.is_retryable());
}
