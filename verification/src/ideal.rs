//! A world to run the controllers in.
//!
//! The controllers take their answers from outside. To say what a whole run
//! does, this module fixes the answers: a backup service that serves one
//! snapshot as it is, a storage that keeps what it is given and refuses a
//! taken identifier (as the storage in memory does), and a target that
//! takes every chunk and reports the root hash of what it holds. Against
//! these, a run is a function of where it starts: [`backup_run`] and
//! [`restore_run`]. The rest of the module names what such runs are stated
//! over: the snapshot, the storage before and after, the manifest.

use crate::backup::{
    backup_after, backup_closing, backup_fetch, backup_left, backup_seal, backup_stage, backup_step,
    stored_chunk, BackupModel, BackupPhase, BackupReplyModel, BackupRequestModel,
};
use crate::chunk::{chunk_bytes, record_fits};
use crate::chunk_verifier::{after, bounds_of, fresh, VerifierModel};
use crate::chunking::{concat, split};
use crate::error::BackupError;
use crate::manifest::{ChunkRefModel, ManifestModel};
use crate::manifest_codec::manifest_bytes;
use crate::naming::{chunk_identifier, manifest_identifier};
use crate::record::{ascending, RecordModel};
use crate::restore::{
    restore_after, restore_closing, restore_left, restore_stage, restore_step, RestoreModel, RestorePhase,
    RestoreReplyModel, RestoreRequestModel,
};
use crate::storage::{read_outcome, write_outcome};
use vstd::prelude::*;

verus! {

/// The snapshot that a backup service serves: the latest version, its root
/// hash and its entries in key order.
pub struct SourceModel {
    pub version: u64,
    pub root_hash: Seq<u8>,
    pub entries: Seq<RecordModel>,
}

/// A snapshot that a backup service can serve and a run can store: entries
/// in key order, each short enough to be written, no more of them than a
/// `u64` counts, and a root hash of 32 bytes.
pub open spec fn source_valid(source: SourceModel) -> bool {
    &&& source.root_hash.len() == 32
    &&& source.entries.len() <= u64::MAX
    &&& ascending(source.entries)
    &&& forall|i: int| 0 <= i < source.entries.len() ==> record_fits(#[trigger] source.entries[i])
}

/// The entries from place `start` up to, not including, place `end`, as far
/// as the snapshot has them.
pub open spec fn entries_in_range(entries: Seq<RecordModel>, start: u64, end: u64) -> Seq<
    RecordModel,
> {
    let n = entries.len() as int;
    let lo = if start <= n {
        start as int
    } else {
        n
    };
    let hi = if end <= n {
        end as int
    } else {
        n
    };
    if lo <= hi {
        entries.subrange(lo, hi)
    } else {
        Seq::empty()
    }
}

/// What the service and the storage answer to a request of a backup run,
/// and what the storage holds afterwards.
pub open spec fn backup_answer(
    source: SourceModel,
    store: Map<Seq<u8>, Seq<u8>>,
    request: BackupRequestModel,
) -> (BackupReplyModel, Map<Seq<u8>, Seq<u8>>) {
    match request {
        BackupRequestModel::Probe { identifier } => (
            BackupReplyModel::Probed(Ok(store.contains_key(identifier))),
            store,
        ),
        BackupRequestModel::GetLatestStateRoot => (
            BackupReplyModel::StateRoot(Ok((source.version, source.root_hash))),
            store,
        ),
        BackupRequestModel::GetStateSnapshot { version, start_index, end_index } => (
            if version == source.version {
                BackupReplyModel::Records(
                    Ok(entries_in_range(source.entries, start_index, end_index)),
                )
            } else {
                BackupReplyModel::Records(Err(BackupError::NotFoundError))
            },
            store,
        ),
        BackupRequestModel::Write { identifier, payload } => (
            BackupReplyModel::Written(write_outcome(store, identifier, payload).0),
            write_outcome(store, identifier, payload).1,
        ),
        _ => (BackupReplyModel::Written(Err(BackupError::StorageError)), store),
    }
}

/// The backup run from state `m` with `request` outstanding: the request it
/// ends with, and what the storage holds then.
pub open spec fn backup_run(
    m: BackupModel,
    request: BackupRequestModel,
    source: SourceModel,
    store: Map<Seq<u8>, Seq<u8>>,
) -> (BackupRequestModel, Map<Seq<u8>, Seq<u8>>)
    decreases backup_stage(m), backup_left(m),
{
    if backup_closing(request) || m.phase == BackupPhase::Closed {
        (request, store)
    } else {
        let (reply, kept) = backup_answer(source, store, request);
        let (next, asked) = backup_step(m, reply);
        backup_run(next, asked, source, kept)
    }
}

/// The target of a restore: the chunks that were applied to it, in order,
/// and the version it was bound to when the restore ended.
pub struct TargetModel {
    pub applied: Seq<Seq<RecordModel>>,
    pub bound: Option<Option<u64>>,
}

/// A target that nothing was restored into.
pub open spec fn empty_target() -> TargetModel {
    TargetModel { applied: Seq::empty(), bound: None }
}

/// What the storage and the target answer to a request of a restore run,
/// and what the target holds afterwards. `root_of` is the root hash of the
/// ledger as a function of the entries it holds.
pub open spec fn restore_answer(
    store: Map<Seq<u8>, Seq<u8>>,
    root_of: spec_fn(Seq<RecordModel>) -> Seq<u8>,
    target: TargetModel,
    request: RestoreRequestModel,
) -> (RestoreReplyModel, TargetModel) {
    match request {
        RestoreRequestModel::Read { handle } => (
            RestoreReplyModel::Read(read_outcome(store, handle)),
            target,
        ),
        RestoreRequestModel::ApplyChunk { expected_root, records } => (
            RestoreReplyModel::Applied(Ok(())),
            TargetModel { applied: target.applied.push(records), ..target }
        ),
        RestoreRequestModel::Finalize { version } => (
            RestoreReplyModel::Finalized(Ok(root_of(concat(target.applied)))),
            TargetModel { bound: Some(version), ..target },
        ),
        _ => (RestoreReplyModel::Read(Err(BackupError::StorageError)), target),
    }
}

/// The restore run from state `m` with `request` outstanding: the request
/// it ends with, and what the target holds then.
pub open spec fn restore_run(
    m: RestoreModel,
    request: RestoreRequestModel,
    store: Map<Seq<u8>, Seq<u8>>,
    root_of: spec_fn(Seq<RecordModel>) -> Seq<u8>,
    target: TargetModel,
) -> (RestoreRequestModel, TargetModel)
    decreases restore_stage(m), restore_left(m),
{
    if restore_closing(request) || m.phase == RestorePhase::Closed {
        (request, target)
    } else {
        let (reply, held) = restore_answer(store, root_of, target, request);
        let (next, asked) = restore_step(m, reply);
        restore_run(next, asked, store, root_of, held)
    }
}

/// The chunk references of a run that stored `chunks` under attempt
/// `attempt`.
pub open spec fn chunk_refs_for(version: u64, attempt: u64, chunks: Seq<Seq<RecordModel>>) -> Seq<
    ChunkRefModel,
> {
    Seq::new(
        chunks.len(),
        |i: int| stored_chunk(chunk_identifier(version, attempt, i as u64), bounds_of(chunks[i])),
    )
}

/// The manifest of a backup of `source` in chunks of `max_chunk_size`,
/// stored under attempt `attempt`.
pub open spec fn manifest_for(source: SourceModel, max_chunk_size: u64, attempt: u64) -> ManifestModel {
    ManifestModel {
        version: source.version,
        root_hash: source.root_hash,
        max_chunk_size,
        chunks: chunk_refs_for(
            source.version,
            attempt,
            split(source.entries, max_chunk_size as nat),
        ),
    }
}

/// The storage after the first `k` of `chunks` were stored in it under
/// attempt `attempt`.
pub open spec fn store_with_chunks(
    store: Map<Seq<u8>, Seq<u8>>,
    version: u64,
    attempt: u64,
    chunks: Seq<Seq<RecordModel>>,
    k: nat,
) -> Map<Seq<u8>, Seq<u8>>
    decreases k,
{
    if k == 0 {
        store
    } else {
        store_with_chunks(store, version, attempt, chunks, (k - 1) as nat).insert(
            chunk_identifier(version, attempt, (k - 1) as u64),
            chunk_bytes(chunks[k - 1]),
        )
    }
}

/// The storage after a backup of `source` in chunks of `max_chunk_size`
/// under attempt `attempt`: every chunk under its identifier, and the
/// manifest under the identifier of the version.
pub open spec fn store_with_backup(
    store: Map<Seq<u8>, Seq<u8>>,
    source: SourceModel,
    max_chunk_size: u64,
    attempt: u64,
) -> Map<Seq<u8>, Seq<u8>> {
    let chunks = split(source.entries, max_chunk_size as nat);
    store_with_chunks(store, source.version, attempt, chunks, chunks.len()).insert(
        manifest_identifier(source.version),
        manifest_bytes(manifest_for(source, max_chunk_size, attempt)),
    )
}

/// A storage that holds a backup of `source` in chunks of
/// `max_chunk_size` made under attempt `attempt`: the manifest and every
/// chunk, each under its identifier.
pub open spec fn store_holds_backup(
    store: Map<Seq<u8>, Seq<u8>>,
    source: SourceModel,
    max_chunk_size: u64,
    attempt: u64,
) -> bool {
    let chunks = split(source.entries, max_chunk_size as nat);
    &&& store.contains_key(manifest_identifier(source.version))
    &&& store[manifest_identifier(source.version)] == manifest_bytes(
        manifest_for(source, max_chunk_size, attempt),
    )
    &&& forall|j: int|
        0 <= j < chunks.len() ==> store.contains_key(
            #[trigger] chunk_identifier(source.version, attempt, j as u64),
        ) && store[chunk_identifier(source.version, attempt, j as u64)] == chunk_bytes(chunks[j])
}

/// A storage in which `attempt` is the first attempt of `version` that has
/// left no first chunk behind.
pub open spec fn first_free_attempt(
    store: Map<Seq<u8>, Seq<u8>>,
    version: u64,
    attempt: u64,
) -> bool {
    &&& forall|b: u64|
        b < attempt ==> store.contains_key(#[trigger] chunk_identifier(version, b, 0))
    &&& !store.contains_key(chunk_identifier(version, attempt, 0))
}

/// A storage in which a backup of `version` in `count` chunks under attempt
/// `attempt` finds every identifier free that it writes to.
pub open spec fn store_free(
    store: Map<Seq<u8>, Seq<u8>>,
    version: u64,
    attempt: u64,
    count: nat,
) -> bool {
    &&& !store.contains_key(manifest_identifier(version))
    &&& forall|i: u64|
        i < count ==> !store.contains_key(#[trigger] chunk_identifier(version, attempt, i))
}

/// A storage that a backup of `source` in chunks of `max_chunk_size` can be
/// written to, and will be written to under attempt `attempt`: `attempt`
/// is the first attempt that has left no first chunk behind, and the
/// identifiers of the manifest and of the chunks of that attempt are free.
/// A storage is ready under at most one attempt; a storage that is ready
/// under none refuses the backup.
pub open spec fn store_ready(
    store: Map<Seq<u8>, Seq<u8>>,
    source: SourceModel,
    max_chunk_size: u64,
    attempt: u64,
) -> bool {
    &&& first_free_attempt(store, source.version, attempt)
    &&& store_free(
        store,
        source.version,
        attempt,
        split(source.entries, max_chunk_size as nat).len(),
    )
}

/// The state of the chunk verifier of a run that has taken the first `k`
/// chunks of a snapshot, all of them full.
pub open spec fn verifier_at(entries: Seq<RecordModel>, max_chunk_size: u64, k: nat) -> VerifierModel {
    if k == 0 {
        fresh(max_chunk_size)
    } else {
        VerifierModel {
            max_chunk_size,
            last_key: Some(entries[k * max_chunk_size - 1].key),
            entries: (k * max_chunk_size) as u64,
            closed: false,
        }
    }
}

/// The state of a backup run that has stored the first `k` chunks of the
/// snapshot, all of them full, and asks for more.
pub open spec fn backup_at(source: SourceModel, max_chunk_size: u64, attempt: u64, k: nat) -> BackupModel {
    BackupModel {
        version: source.version,
        max_chunk_size,
        phase: BackupPhase::AwaitRecords,
        attempt,
        root_hash: source.root_hash,
        verifier: verifier_at(source.entries, max_chunk_size, k),
        chunks: chunk_refs_for(
            source.version,
            attempt,
            split(source.entries, max_chunk_size as nat),
        ).subrange(0, k as int),
        pending: None,
    }
}

/// The state of a backup run that has stored the first `k` chunks of the
/// snapshot, all of them full, and has asked storage to keep chunk `k`.
pub open spec fn backup_writing(
    source: SourceModel,
    max_chunk_size: u64,
    attempt: u64,
    k: nat,
) -> BackupModel {
    let chunk = split(source.entries, max_chunk_size as nat)[k as int];
    BackupModel {
        phase: BackupPhase::AwaitChunkHandle,
        verifier: after(verifier_at(source.entries, max_chunk_size, k), chunk),
        pending: Some(bounds_of(chunk)),
        ..backup_at(source, max_chunk_size, attempt, k)
    }
}

/// The request that a backup run makes to have chunk `k` stored.
pub open spec fn chunk_write(
    source: SourceModel,
    max_chunk_size: u64,
    attempt: u64,
    k: nat,
) -> BackupRequestModel {
    BackupRequestModel::Write {
        identifier: chunk_identifier(source.version, attempt, k as u64),
        payload: chunk_bytes(split(source.entries, max_chunk_size as nat)[k as int]),
    }
}

/// The state of a backup run that has just been told that chunk `k` is
/// stored under its identifier.
pub open spec fn backup_stored(
    source: SourceModel,
    max_chunk_size: u64,
    attempt: u64,
    k: nat,
) -> BackupModel {
    BackupModel {
        chunks: chunk_refs_for(
            source.version,
            attempt,
            split(source.entries, max_chunk_size as nat),
        ).subrange(0, (k + 1) as int),
        pending: None,
        ..backup_writing(source, max_chunk_size, attempt, k)
    }
}

/// What a backup run does when chunk `k` is stored: it seals if the chunk
/// was the last, and asks for more entries if it cannot tell.
pub open spec fn backup_after_chunk(
    source: SourceModel,
    max_chunk_size: u64,
    attempt: u64,
    k: nat,
) -> (BackupModel, BackupRequestModel) {
    let stored = backup_stored(source, max_chunk_size, attempt, k);
    if stored.verifier.closed || stored.verifier.entries == u64::MAX {
        backup_seal(stored)
    } else {
        backup_fetch(stored)
    }
}

/// What the storage holds after a backup run from state `m` was given
/// `replies`, where the storage held `store` before and keeps what it is
/// given.
pub open spec fn backup_store_after(
    m: BackupModel,
    replies: Seq<BackupReplyModel>,
    source: SourceModel,
    store: Map<Seq<u8>, Seq<u8>>,
) -> Map<Seq<u8>, Seq<u8>>
    decreases replies.len(),
{
    if replies.len() == 0 {
        store
    } else {
        backup_answer(
            source,
            backup_store_after(m, replies.drop_last(), source, store),
            backup_after(m, replies.drop_last()).1,
        ).1
    }
}

/// Whether `replies` are what the service of `source` and a storage that
/// held `store` answer to a backup run from state `m`: each reply is the
/// answer of this world to the request that was outstanding.
pub open spec fn backup_replies_ideal(
    m: BackupModel,
    replies: Seq<BackupReplyModel>,
    source: SourceModel,
    store: Map<Seq<u8>, Seq<u8>>,
) -> bool
    decreases replies.len(),
{
    if replies.len() == 0 {
        true
    } else {
        &&& backup_replies_ideal(m, replies.drop_last(), source, store)
        &&& !backup_closing(backup_after(m, replies.drop_last()).1)
        &&& replies.last() == backup_answer(
            source,
            backup_store_after(m, replies.drop_last(), source, store),
            backup_after(m, replies.drop_last()).1,
        ).0
    }
}

/// What the target holds after a restore run from state `m` was given
/// `replies`, where the target held `target` before and takes what it is
/// given.
pub open spec fn restore_target_after(
    m: RestoreModel,
    replies: Seq<RestoreReplyModel>,
    store: Map<Seq<u8>, Seq<u8>>,
    root_of: spec_fn(Seq<RecordModel>) -> Seq<u8>,
    target: TargetModel,
) -> TargetModel
    decreases replies.len(),
{
    if replies.len() == 0 {
        target
    } else {
        restore_answer(
            store,
            root_of,
            restore_target_after(m, replies.drop_last(), store, root_of, target),
            restore_after(m, replies.drop_last()).1,
        ).1
    }
}

/// Whether `replies` are what a storage that holds `store` and a target
/// that held `target` answer to a restore run from state `m`: each reply is
/// the answer of this world to the request that was outstanding.
pub open spec fn restore_replies_ideal(
    m: RestoreModel,
    replies: Seq<RestoreReplyModel>,
    store: Map<Seq<u8>, Seq<u8>>,
    root_of: spec_fn(Seq<RecordModel>) -> Seq<u8>,
    target: TargetModel,
) -> bool
    decreases replies.len(),
{
    if replies.len() == 0 {
        true
    } else {
        &&& restore_replies_ideal(m, replies.drop_last(), store, root_of, target)
        &&& !restore_closing(restore_after(m, replies.drop_last()).1)
        &&& replies.last() == restore_answer(
            store,
            root_of,
            restore_target_after(m, replies.drop_last(), store, root_of, target),
            restore_after(m, replies.drop_last()).1,
        ).0
    }
}

} // verus!
