//! Backup and restore of point-in-time state snapshots of a versioned,
//! authenticated key-value ledger.
//!
//! A backup run pulls the entries of one snapshot from the ledger's backup
//! service, cuts them into chunks of a bounded number of entries, stores each
//! chunk through a [`storage::BackupStorage`] and seals the run with a
//! manifest. A restore run reads a manifest, checks and replays its chunks
//! into a target writer and compares the root hash that the target reports
//! with the one the manifest holds. [`run_backup`] and [`run_restore`] are
//! the two entry points.
//!
//! All hashing is the ledger's business: root hashes and proof fragments pass
//! through this crate as bytes.
//!
//! The modules, from the leaves up:
//!
//! - [`error`], [`hash`], [`record`], [`version`]: errors, digests, entries
//!   and the order of their keys, versions;
//! - [`wire`], [`chunk`], [`manifest`], [`manifest_codec`]: the stored forms
//!   of chunks and manifests;
//! - [`chunking`], [`chunk_verifier`], [`naming`]: how a snapshot is cut,
//!   how chunks are checked, how artifacts are named;
//! - [`storage`], [`service`]: the outside parties of a run;
//! - [`backup`], [`restore`]: the two controllers;
//! - [`ideal`], [`backup_laws`], [`restore_laws`], [`laws`]: what whole runs
//!   do where the outside parties work, proved.

use vstd::prelude::*;

pub mod backup;
pub mod backup_laws;
pub mod chunk;
pub mod chunk_verifier;
pub mod chunking;
pub mod error;
pub mod hash;
pub mod ideal;
pub mod laws;
pub mod manifest;
pub mod manifest_codec;
pub mod naming;
pub mod record;
pub mod restore;
pub mod restore_laws;
pub mod service;
pub mod storage;
pub mod version;

pub mod wire;

verus! {

/// Backs up the snapshot at `version` in chunks of at most `max_chunk_size`
/// entries: runs a [`backup::StateSnapshotBackupController`] against
/// `client` and `storage` and gives the handle of the manifest.
///
/// Only the latest version of the service can be backed up. The service
/// names the root hash of its latest version and of no other, and a
/// manifest cannot be sealed without the root hash; so the run fails with
/// `NotFoundError` for every other version, whether or not that version
/// was once committed.
///
/// Success is not promised: the service and the storage decide. What is
/// promised is [`backup::backup_ran`] of a fresh controller. The result is
/// the end of a run in which every reply answered the request that was
/// outstanding; where the service keeps a record, it was asked what the run
/// asked and nothing else; where the storage says what it holds, it holds
/// what it held and what the run had stored, which after a failure is
/// chunks only and after success is the manifest behind the handle given
/// and its chunks behind theirs. [`backup_laws::lemma_backup_completes`]
/// says what the run does against a service and a storage that work.
pub fn run_backup<C: service::BackupService, S: storage::BackupStorage>(
    version: u64,
    max_chunk_size: u64,
    client: &mut C,
    storage: &mut S,
) -> (r: Result<Vec<u8>, error::BackupError>)
    requires
        max_chunk_size >= 1,
    ensures
        old(client).keeps_record() ==> final(client).keeps_record(),
        old(storage).keeps_contents() ==> final(storage).keeps_contents(),
        exists|replies: Seq<backup::BackupReplyModel>| #[trigger]
            backup::backup_ran(
                backup::backup_initial(version, max_chunk_size),
                replies,
                backup::handle_result(r),
                service::service_record(old(client), final(client)),
                storage::storage_record(old(storage), final(storage)),
            ),
{
    backup::StateSnapshotBackupController::new(
        backup::StateSnapshotBackupOpt { version },
        backup::GlobalBackupOpt { max_chunk_size },
    ).run(client, storage)
}

/// Restores the backup behind `manifest_handle` into `writer` and binds the
/// restored state to `target_version`: runs a
/// [`restore::StateSnapshotRestoreController`] against `storage` and
/// `writer`.
///
/// Success is not promised: the storage and the writer decide. What is
/// promised is [`restore::restore_ran`] of a fresh controller. The result
/// is the end of a run in which every reply answered the request that was
/// outstanding; where the storage says what it holds, what the run read is
/// what the storage holds; where the writer keeps a record, it was asked to
/// apply the chunks and to end the restore as the run asked, and nothing
/// else. By [`restore::lemma_restore_success_is_verified`] the last reply
/// of a run that succeeds is the root hash of the manifest, given by the
/// writer to the request that ends the restore.
/// [`restore_laws::lemma_restore_run_outcome`] says how a run can end
/// against a storage and a writer that work.
pub fn run_restore<S: storage::BackupStorage, W: service::StateWriter>(
    manifest_handle: Vec<u8>,
    target_version: u64,
    storage: &S,
    writer: &mut W,
) -> (r: Result<(), error::BackupError>)
    ensures
        old(writer).keeps_record() ==> final(writer).keeps_record(),
        exists|replies: Seq<restore::RestoreReplyModel>| #[trigger]
            restore::restore_ran(
                restore::restore_initial(manifest_handle@, target_version),
                replies,
                r,
                storage::storage_contents(storage),
                service::writer_record(old(writer), final(writer)),
            ),
{
    restore::StateSnapshotRestoreController::new(
        restore::StateSnapshotRestoreOpt { manifest_handle, version: target_version },
    ).run(storage, writer)
}

} // verus!
