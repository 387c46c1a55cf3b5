//! The backup controller: what a backup run does next.
//!
//! The controller never talks to the service or to storage itself. It says
//! what is to be asked of them (a [`BackupRequest`]) and is told what came
//! back (a [`BackupReply`]); [`backup_step`] is the whole of its behaviour.
//! [`StateSnapshotBackupController::run`] drives it against a service and a
//! storage.
//!
//! A run goes through these steps. It looks for an attempt number under
//! which no chunk of this version has been stored, so that it never writes
//! over what an earlier, broken run left behind. It asks the service for its
//! latest state root, and goes on only if that is the root of the version
//! asked for. It then asks for the snapshot `max_chunk_size` entries at a
//! time, has each chunk checked by the chunk verifier, and stores it. A
//! chunk that is not full, or no chunk at all, ends the snapshot; then the
//! manifest is sealed and stored. The first error ends the run, and no
//! manifest is stored after it.

use crate::chunk::{
    chunk_bytes, encode_chunk, lemma_parse_of_chunk_bytes, parse_chunk, record_fits,
};
use crate::chunk_verifier::{
    accepts, after, bounds_of, fresh, BoundsModel, ChunkBounds, ChunkVerifier, VerifierModel,
};
use crate::error::BackupError;
use crate::hash::HashValue;
use crate::manifest::{
    chunk_ref_models, chunk_ref_valid, chunk_refs_valid, copy_chunk_refs, entry_sum,
    manifest_valid, ChunkRef, ChunkRefModel, Manifest, ManifestModel,
};
use crate::manifest_codec::{
    encode_manifest, lemma_parse_of_manifest_bytes, manifest_bytes, parse_manifest,
};
use crate::naming::{
    chunk_identifier, make_chunk_identifier, make_manifest_identifier, manifest_identifier,
};
use crate::record::{key_lt, record_models, RecordModel, StateRecord};
use crate::service::{service_record, BackupService, ServiceCall};
use crate::storage::{storage_contents, storage_record, BackupStorage};
use vstd::prelude::*;

verus! {

/// What is backed up: the snapshot at `version`.
#[derive(Clone, Copy, Debug, PartialEq, Eq)]
pub struct StateSnapshotBackupOpt {
    pub version: u64,
}

/// The options that all backups share: the largest number of entries in a
/// chunk.
#[derive(Clone, Copy, Debug, PartialEq, Eq)]
pub struct GlobalBackupOpt {
    pub max_chunk_size: u64,
}

/// Where a backup run stands: what it is waiting for.
#[derive(Clone, Copy, Debug, PartialEq, Eq, Structural)]
pub enum BackupPhase {
    /// Not started.
    Ready,
    /// Asked whether the first chunk of the current attempt is taken.
    AwaitAttempt,
    /// Asked the service for its latest state root.
    AwaitStateRoot,
    /// Asked the service for the next entries.
    AwaitRecords,
    /// Asked storage to keep a chunk.
    AwaitChunkHandle,
    /// Asked storage to keep the manifest.
    AwaitManifestHandle,
    /// Over, with a manifest handle or an error.
    Closed,
}

/// What a backup run wants done next.
#[derive(Debug, PartialEq, Eq)]
pub enum BackupRequest {
    /// Ask storage whether `identifier` is taken.
    Probe { identifier: Vec<u8> },
    /// Ask the service for its latest version and state root.
    GetLatestStateRoot,
    /// Ask the service for the entries of `version` from `start_index` up
    /// to, not including, `end_index`.
    GetStateSnapshot { version: u64, start_index: u64, end_index: u64 },
    /// Ask storage to keep `payload` under `identifier`.
    Write { identifier: Vec<u8>, payload: Vec<u8> },
    /// The run is over: the manifest is stored behind `manifest_handle`.
    Finished { manifest_handle: Vec<u8> },
    /// The run is over: it failed with `error`.
    Failed { error: BackupError },
}

/// A [`BackupRequest`] as mathematical values.
pub enum BackupRequestModel {
    Probe { identifier: Seq<u8> },
    GetLatestStateRoot,
    GetStateSnapshot { version: u64, start_index: u64, end_index: u64 },
    Write { identifier: Seq<u8>, payload: Seq<u8> },
    Finished { manifest_handle: Seq<u8> },
    Failed { error: BackupError },
}

impl View for BackupRequest {
    type V = BackupRequestModel;

    open spec fn view(&self) -> BackupRequestModel {
        match self {
            BackupRequest::Probe { identifier } => BackupRequestModel::Probe {
                identifier: identifier@,
            },
            BackupRequest::GetLatestStateRoot => BackupRequestModel::GetLatestStateRoot,
            BackupRequest::GetStateSnapshot { version, start_index, end_index } => {
                BackupRequestModel::GetStateSnapshot {
                    version: *version,
                    start_index: *start_index,
                    end_index: *end_index,
                }
            },
            BackupRequest::Write { identifier, payload } => BackupRequestModel::Write {
                identifier: identifier@,
                payload: payload@,
            },
            BackupRequest::Finished { manifest_handle } => BackupRequestModel::Finished {
                manifest_handle: manifest_handle@,
            },
            BackupRequest::Failed { error } => BackupRequestModel::Failed { error: *error },
        }
    }
}

/// What came back for a [`BackupRequest`].
#[derive(Debug)]
pub enum BackupReply {
    /// The answer to `Probe`.
    Probed(Result<bool, BackupError>),
    /// The answer to `GetLatestStateRoot`.
    StateRoot(Result<(u64, HashValue), BackupError>),
    /// The answer to `GetStateSnapshot`.
    Records(Result<Vec<StateRecord>, BackupError>),
    /// The answer to `Write`: the handle of what was stored.
    Written(Result<Vec<u8>, BackupError>),
}

/// A [`BackupReply`] as mathematical values.
pub enum BackupReplyModel {
    Probed(Result<bool, BackupError>),
    StateRoot(Result<(u64, Seq<u8>), BackupError>),
    Records(Result<Seq<RecordModel>, BackupError>),
    Written(Result<Seq<u8>, BackupError>),
}

impl View for BackupReply {
    type V = BackupReplyModel;

    open spec fn view(&self) -> BackupReplyModel {
        match self {
            BackupReply::Probed(r) => BackupReplyModel::Probed(*r),
            BackupReply::StateRoot(r) => BackupReplyModel::StateRoot(
                match r {
                    Ok((version, root)) => Ok((*version, root@)),
                    Err(e) => Err(*e),
                },
            ),
            BackupReply::Records(r) => BackupReplyModel::Records(
                match r {
                    Ok(records) => Ok(record_models(records@)),
                    Err(e) => Err(*e),
                },
            ),
            BackupReply::Written(r) => BackupReplyModel::Written(
                match r {
                    Ok(handle) => Ok(handle@),
                    Err(e) => Err(*e),
                },
            ),
        }
    }
}

/// The state of a backup run.
pub struct BackupModel {
    /// The version that is backed up.
    pub version: u64,
    /// The chunk size of the run.
    pub max_chunk_size: u64,
    /// What the run is waiting for.
    pub phase: BackupPhase,
    /// The attempt number under which the run stores its chunks.
    pub attempt: u64,
    /// The root hash of the snapshot, once the service has named it.
    pub root_hash: Seq<u8>,
    /// The chunk verifier of the run.
    pub verifier: VerifierModel,
    /// The chunks stored so far.
    pub chunks: Seq<ChunkRefModel>,
    /// The bounds of the chunk that is being stored.
    pub pending: Option<BoundsModel>,
}

/// The state of a run that has not started.
pub open spec fn backup_initial(version: u64, max_chunk_size: u64) -> BackupModel {
    BackupModel {
        version,
        max_chunk_size,
        phase: BackupPhase::Ready,
        attempt: 0,
        root_hash: Seq::new(32, |i: int| 0u8),
        verifier: fresh(max_chunk_size),
        chunks: Seq::empty(),
        pending: None,
    }
}

/// The run ends with `error`.
pub open spec fn backup_fail(m: BackupModel, error: BackupError) -> (
    BackupModel,
    BackupRequestModel,
) {
    (BackupModel { phase: BackupPhase::Closed, ..m }, BackupRequestModel::Failed { error })
}

/// The run asks for the next entries: as many as a chunk holds, from the
/// first place not yet seen.
pub open spec fn backup_fetch(m: BackupModel) -> (BackupModel, BackupRequestModel) {
    (
        BackupModel { phase: BackupPhase::AwaitRecords, ..m },
        BackupRequestModel::GetStateSnapshot {
            version: m.version,
            start_index: m.verifier.entries,
            end_index: if m.verifier.entries + m.max_chunk_size <= u64::MAX {
                (m.verifier.entries + m.max_chunk_size) as u64
            } else {
                u64::MAX
            },
        },
    )
}

/// The manifest of the run as it stands.
pub open spec fn backup_manifest(m: BackupModel) -> ManifestModel {
    ManifestModel {
        version: m.version,
        root_hash: m.root_hash,
        max_chunk_size: m.max_chunk_size,
        chunks: m.chunks,
    }
}

/// The run seals its manifest and asks storage to keep it.
pub open spec fn backup_seal(m: BackupModel) -> (BackupModel, BackupRequestModel) {
    (
        BackupModel { phase: BackupPhase::AwaitManifestHandle, ..m },
        BackupRequestModel::Write {
            identifier: manifest_identifier(m.version),
            payload: manifest_bytes(backup_manifest(m)),
        },
    )
}

/// The run asks whether the first chunk of its attempt is taken.
pub open spec fn backup_probe(m: BackupModel) -> (BackupModel, BackupRequestModel) {
    (
        BackupModel { phase: BackupPhase::AwaitAttempt, ..m },
        BackupRequestModel::Probe { identifier: chunk_identifier(m.version, m.attempt, 0) },
    )
}

/// The error for a reply that does not answer what was asked: the service
/// broke off, or storage failed.
pub open spec fn backup_unanswered(phase: BackupPhase) -> BackupError {
    match phase {
        BackupPhase::AwaitStateRoot => BackupError::ConnectionError,
        BackupPhase::AwaitRecords => BackupError::ConnectionError,
        _ => BackupError::StorageError,
    }
}

/// The first step of a run.
pub open spec fn backup_start(m: BackupModel) -> (BackupModel, BackupRequestModel) {
    if m.phase == BackupPhase::Ready {
        backup_probe(m)
    } else {
        backup_fail(m, BackupError::StorageError)
    }
}

/// The reference to the chunk with bounds `b` that storage keeps behind
/// `handle`.
pub open spec fn stored_chunk(handle: Seq<u8>, b: BoundsModel) -> ChunkRefModel {
    ChunkRefModel {
        handle,
        first_key: b.first_key,
        last_key: b.last_key,
        entry_count: b.entry_count,
    }
}

/// What a run in state `m` does when `reply` comes in: its next state and
/// its next request.
pub open spec fn backup_step(m: BackupModel, reply: BackupReplyModel) -> (
    BackupModel,
    BackupRequestModel,
) {
    match (m.phase, reply) {
        (BackupPhase::AwaitAttempt, BackupReplyModel::Probed(Ok(taken))) => {
            if !taken {
                (
                    BackupModel { phase: BackupPhase::AwaitStateRoot, ..m },
                    BackupRequestModel::GetLatestStateRoot,
                )
            } else if m.attempt < u64::MAX {
                backup_probe(BackupModel { attempt: (m.attempt + 1) as u64, ..m })
            } else {
                backup_fail(m, BackupError::StorageError)
            }
        },
        (BackupPhase::AwaitAttempt, BackupReplyModel::Probed(Err(e))) => backup_fail(m, e),
        (BackupPhase::AwaitStateRoot, BackupReplyModel::StateRoot(Ok((latest, root)))) => {
            if latest == m.version {
                backup_fetch(BackupModel { root_hash: root, ..m })
            } else {
                backup_fail(m, BackupError::NotFoundError)
            }
        },
        (BackupPhase::AwaitStateRoot, BackupReplyModel::StateRoot(Err(e))) => backup_fail(m, e),
        (BackupPhase::AwaitRecords, BackupReplyModel::Records(Ok(records))) => {
            if records.len() == 0 {
                backup_seal(m)
            } else if accepts(m.verifier, records) {
                (
                    BackupModel {
                        phase: BackupPhase::AwaitChunkHandle,
                        verifier: after(m.verifier, records),
                        pending: Some(bounds_of(records)),
                        ..m
                    },
                    BackupRequestModel::Write {
                        identifier: chunk_identifier(m.version, m.attempt, m.chunks.len() as u64),
                        payload: chunk_bytes(records),
                    },
                )
            } else {
                backup_fail(m, BackupError::CorruptionError)
            }
        },
        (BackupPhase::AwaitRecords, BackupReplyModel::Records(Err(e))) => backup_fail(m, e),
        (BackupPhase::AwaitChunkHandle, BackupReplyModel::Written(Ok(handle))) => {
            match m.pending {
                Some(b) => {
                    let stored = BackupModel {
                        chunks: m.chunks.push(stored_chunk(handle, b)),
                        pending: None,
                        ..m
                    };
                    if stored.verifier.closed || stored.verifier.entries == u64::MAX {
                        backup_seal(stored)
                    } else {
                        backup_fetch(stored)
                    }
                },
                None => backup_fail(m, BackupError::StorageError),
            }
        },
        (BackupPhase::AwaitChunkHandle, BackupReplyModel::Written(Err(e))) => backup_fail(m, e),
        (BackupPhase::AwaitManifestHandle, BackupReplyModel::Written(Ok(handle))) => (
            BackupModel { phase: BackupPhase::Closed, ..m },
            BackupRequestModel::Finished { manifest_handle: handle },
        ),
        (BackupPhase::AwaitManifestHandle, BackupReplyModel::Written(Err(e))) => backup_fail(m, e),
        _ => backup_fail(m, backup_unanswered(m.phase)),
    }
}

/// What holds of the state of every run: the chunks stored so far can stand
/// in a manifest, and the chunk verifier has seen exactly them and the chunk
/// that is being stored.
pub open spec fn backup_consistent(m: BackupModel) -> bool {
    m.phase != BackupPhase::Closed ==> backup_on_track(m)
}

/// What holds of the state of a run that is not over.
pub open spec fn backup_on_track(m: BackupModel) -> bool {
    &&& m.max_chunk_size >= 1
    &&& m.root_hash.len() == 32
    &&& m.verifier.max_chunk_size == m.max_chunk_size
    &&& chunk_refs_valid(m.chunks, m.max_chunk_size)
    &&& m.chunks.len() <= usize::MAX
    &&& m.phase == BackupPhase::Ready ==> m.chunks.len() == 0
    &&& (m.pending is Some <==> m.phase == BackupPhase::AwaitChunkHandle)
    &&& match m.pending {
        Some(b) => {
            &&& chunk_ref_valid(stored_chunk(Seq::empty(), b), m.max_chunk_size)
            &&& entry_sum(m.chunks) + b.entry_count == m.verifier.entries
            &&& m.verifier.last_key == Some(b.last_key)
            &&& m.verifier.closed == (b.entry_count < m.max_chunk_size)
            &&& m.chunks.len() > 0 ==> m.chunks.last().entry_count == m.max_chunk_size && key_lt(
                m.chunks.last().last_key,
                b.first_key,
            )
        },
        None => {
            &&& entry_sum(m.chunks) == m.verifier.entries
            &&& m.chunks.len() == 0 ==> m.verifier.last_key is None && !m.verifier.closed
            &&& m.chunks.len() > 0 ==> m.verifier.last_key == Some(m.chunks.last().last_key)
                && m.verifier.closed == (m.chunks.last().entry_count < m.max_chunk_size)
        },
    }
}

/// How far a run is from its end, first part: the steps it has before it.
pub open spec fn backup_stage(m: BackupModel) -> nat {
    match m.phase {
        BackupPhase::Ready => 5,
        BackupPhase::AwaitAttempt => 4,
        BackupPhase::AwaitStateRoot => 3,
        BackupPhase::AwaitRecords => 2,
        BackupPhase::AwaitChunkHandle => 2,
        BackupPhase::AwaitManifestHandle => 1,
        BackupPhase::Closed => 0,
    }
}

/// How far a run is from its end, second part: what is left to do within a
/// step that repeats.
pub open spec fn backup_left(m: BackupModel) -> nat {
    match m.phase {
        BackupPhase::AwaitAttempt => (u64::MAX - m.attempt) as nat,
        BackupPhase::AwaitRecords => (2 * (u64::MAX - m.verifier.entries)) as nat,
        BackupPhase::AwaitChunkHandle => (2 * (u64::MAX - m.verifier.entries) + 1) as nat,
        _ => 0,
    }
}

/// Every reply brings a run nearer to its end, and a run that has asked for
/// something is not over.
pub proof fn lemma_backup_step_progress(m: BackupModel, reply: BackupReplyModel)
    requires
        m.phase != BackupPhase::Closed,
    ensures
        backup_stage(backup_step(m, reply).0) < backup_stage(m) || (backup_stage(
            backup_step(m, reply).0,
        ) == backup_stage(m) && backup_left(backup_step(m, reply).0) < backup_left(m)),
        backup_closing(backup_step(m, reply).1) <==> backup_step(m, reply).0.phase
            == BackupPhase::Closed,
{
}

/// The error that a reply carries, if it carries one.
pub open spec fn backup_reply_error(reply: BackupReplyModel) -> Option<BackupError> {
    match reply {
        BackupReplyModel::Probed(Err(e)) => Some(e),
        BackupReplyModel::StateRoot(Err(e)) => Some(e),
        BackupReplyModel::Records(Err(e)) => Some(e),
        BackupReplyModel::Written(Err(e)) => Some(e),
        _ => None,
    }
}

/// Whether the reply answers what a run in that phase has asked.
pub open spec fn backup_answers(phase: BackupPhase, reply: BackupReplyModel) -> bool {
    match (phase, reply) {
        (BackupPhase::AwaitAttempt, BackupReplyModel::Probed(_)) => true,
        (BackupPhase::AwaitStateRoot, BackupReplyModel::StateRoot(_)) => true,
        (BackupPhase::AwaitRecords, BackupReplyModel::Records(_)) => true,
        (BackupPhase::AwaitChunkHandle, BackupReplyModel::Written(_)) => true,
        (BackupPhase::AwaitManifestHandle, BackupReplyModel::Written(_)) => true,
        _ => false,
    }
}

/// The first error ends the run and reaches the caller as it is: whatever
/// the service or the storage failed with is what the run fails with, and
/// nothing in the state of the run but its phase changes.
pub proof fn lemma_backup_error_ends_run(m: BackupModel, reply: BackupReplyModel)
    requires
        backup_answers(m.phase, reply),
        backup_reply_error(reply) is Some,
    ensures
        backup_step(m, reply) == backup_fail(m, backup_reply_error(reply).unwrap()),
{
}

/// The manifest comes last. A run asks storage to keep its manifest only
/// when it has nothing else left to do; whatever comes back for that, the
/// run is over, and it ends in success exactly if the manifest was stored.
/// So no error follows a stored manifest, and no manifest follows an error.
pub proof fn lemma_backup_manifest_last(m: BackupModel, reply: BackupReplyModel)
    ensures
        backup_step(m, reply).0.phase == BackupPhase::AwaitManifestHandle ==> backup_step(
            m,
            reply,
        ) == backup_seal(backup_step(m, reply).0),
        m.phase == BackupPhase::AwaitManifestHandle ==> backup_step(m, reply).0.phase
            == BackupPhase::Closed,
        backup_step(m, reply).1 is Finished <==> m.phase == BackupPhase::AwaitManifestHandle
            && reply is Written && reply->Written_0 is Ok,
        m.phase == BackupPhase::Closed ==> backup_step(m, reply).1 is Failed,
{
}

/// Where a run that started in state `m` stands after it was given
/// `replies`, one after the other.
pub open spec fn backup_after(m: BackupModel, replies: Seq<BackupReplyModel>) -> (
    BackupModel,
    BackupRequestModel,
)
    decreases replies.len(),
{
    if replies.len() == 0 {
        backup_start(m)
    } else {
        backup_step(backup_after(m, replies.drop_last()).0, replies.last())
    }
}

/// Whether `reply` is an answer to `request`: storage's for what storage
/// was asked, the service's for what the service was asked.
pub open spec fn backup_reply_answers(request: BackupRequestModel, reply: BackupReplyModel) -> bool {
    match (request, reply) {
        (BackupRequestModel::Probe { .. }, BackupReplyModel::Probed(_)) => true,
        (BackupRequestModel::GetLatestStateRoot, BackupReplyModel::StateRoot(_)) => true,
        (BackupRequestModel::GetStateSnapshot { .. }, BackupReplyModel::Records(_)) => true,
        (BackupRequestModel::Write { .. }, BackupReplyModel::Written(_)) => true,
        _ => false,
    }
}

/// The call of the service that `request` and its answer `reply` make up,
/// if the request was one for the service.
pub open spec fn backup_service_call(
    request: BackupRequestModel,
    reply: BackupReplyModel,
) -> Option<ServiceCall> {
    match (request, reply) {
        (BackupRequestModel::GetLatestStateRoot, BackupReplyModel::StateRoot(latest)) => Some(
            ServiceCall::LatestStateRoot { latest },
        ),
        (
            BackupRequestModel::GetStateSnapshot { version, start_index, end_index },
            BackupReplyModel::Records(entries),
        ) => Some(ServiceCall::StateSnapshot { version, start_index, end_index, entries }),
        _ => None,
    }
}

/// Whether each of `replies` is an answer to the request that a run from
/// state `m` had outstanding when the reply came in.
pub open spec fn backup_replies_answer(m: BackupModel, replies: Seq<BackupReplyModel>) -> bool
    decreases replies.len(),
{
    if replies.len() == 0 {
        true
    } else {
        backup_replies_answer(m, replies.drop_last()) && backup_reply_answers(
            backup_after(m, replies.drop_last()).1,
            replies.last(),
        )
    }
}

/// The calls of the service that a run from state `m` makes when it is
/// given `replies`, in order, each with its answer.
pub open spec fn backup_service_calls(m: BackupModel, replies: Seq<BackupReplyModel>) -> Seq<
    ServiceCall,
>
    decreases replies.len(),
{
    if replies.len() == 0 {
        Seq::empty()
    } else {
        let before = backup_service_calls(m, replies.drop_last());
        match backup_service_call(backup_after(m, replies.drop_last()).1, replies.last()) {
            Some(call) => before.push(call),
            None => before,
        }
    }
}

/// What a run from state `m` has had stored when it was given `replies`:
/// behind each handle that storage gave, the payload that the run had asked
/// it to keep.
pub open spec fn backup_written(m: BackupModel, replies: Seq<BackupReplyModel>) -> Map<
    Seq<u8>,
    Seq<u8>,
>
    decreases replies.len(),
{
    if replies.len() == 0 {
        Map::empty()
    } else {
        let before = backup_written(m, replies.drop_last());
        match (backup_after(m, replies.drop_last()).1, replies.last()) {
            (
                BackupRequestModel::Write { identifier, payload },
                BackupReplyModel::Written(Ok(handle)),
            ) => before.insert(handle, payload),
            _ => before,
        }
    }
}

/// Whether `written` holds, behind the handle of the chunk reference, the
/// stored form of a chunk with the bounds that the reference gives.
pub open spec fn chunk_kept(written: Map<Seq<u8>, Seq<u8>>, chunk: ChunkRefModel) -> bool {
    &&& written.contains_key(chunk.handle)
    &&& parse_chunk(written[chunk.handle]) matches Some(records)
    &&& stored_chunk(chunk.handle, bounds_of(records)) == chunk
}

/// What a backup run that was given `replies` and ended with `result` has
/// done to a storage that held `before` and now holds `after`. The storage
/// holds what it held and what the run had stored, under handles that were
/// free. After a failure, all that the run had stored are chunks: a failed
/// run leaves no manifest. After success, the handle that the run gives is
/// that of a manifest of the version and chunk size of the run, and behind
/// the handle of each of its chunk references the run had a chunk stored
/// that has the bounds which the reference gives.
pub open spec fn backup_kept(
    m: BackupModel,
    replies: Seq<BackupReplyModel>,
    result: Result<Seq<u8>, BackupError>,
    before: Map<Seq<u8>, Seq<u8>>,
    after: Map<Seq<u8>, Seq<u8>>,
) -> bool {
    let written = backup_written(m, replies);
    &&& after == before.union_prefer_right(written)
    &&& forall|k: Seq<u8>| written.contains_key(k) ==> !before.contains_key(k)
    &&& match result {
        Ok(handle) => {
            &&& written.contains_key(handle)
            &&& parse_manifest(written[handle]) matches Some(manifest)
            &&& manifest.version == m.version
            &&& manifest.max_chunk_size == m.max_chunk_size
            &&& forall|i: int|
                0 <= i < manifest.chunks.len() ==> chunk_kept(written, #[trigger] manifest.chunks[i])
        },
        Err(_) => forall|k: Seq<u8>| #[trigger]
            written.contains_key(k) ==> parse_chunk(written[k]) is Some,
    }
}

/// Whether a run from state `m` that was given `replies` ended with
/// `result`, after it had taken the record of the service from
/// `asked.0` to `asked.1` (if the service keeps one) and the contents of
/// the storage from `held.0` to `held.1` (if the storage says what it
/// holds).
pub open spec fn backup_ran(
    m: BackupModel,
    replies: Seq<BackupReplyModel>,
    result: Result<Seq<u8>, BackupError>,
    asked: Option<(Seq<ServiceCall>, Seq<ServiceCall>)>,
    held: Option<(Map<Seq<u8>, Seq<u8>>, Map<Seq<u8>, Seq<u8>>)>,
) -> bool {
    &&& backup_result(backup_after(m, replies).1) == Some(result)
    &&& backup_replies_answer(m, replies)
    &&& asked matches Some((before, after)) ==> after == before + backup_service_calls(m, replies)
    &&& held matches Some((before, after)) ==> backup_kept(m, replies, result, before, after)
}

/// A reply whose entries, if it brings any, can be written: as every reply
/// can that is held in memory.
pub open spec fn backup_reply_fits(reply: BackupReplyModel) -> bool {
    reply matches BackupReplyModel::Records(Ok(records)) ==> records.len() <= u64::MAX
        && forall|i: int| 0 <= i < records.len() ==> record_fits(#[trigger] records[i])
}

/// Whether `request` is what a run in state `m` has outstanding: the write
/// of a chunk with the bounds that the run has pending, or the write of the
/// manifest as the run has it, for the two phases in which the run waits
/// for storage to keep something; nothing is said of the other phases.
pub open spec fn backup_coherent(m: BackupModel, request: BackupRequestModel) -> bool {
    match m.phase {
        BackupPhase::AwaitChunkHandle => {
            &&& request matches BackupRequestModel::Write { identifier, payload }
            &&& m.pending matches Some(bounds)
            &&& parse_chunk(payload) matches Some(records)
            &&& bounds_of(records) == bounds
        },
        BackupPhase::AwaitManifestHandle => request == backup_seal(m).1,
        _ => !(request is Write),
    }
}

/// A run always has the request outstanding that goes with its state, and
/// it never changes its version or its chunk size.
pub proof fn lemma_backup_step_coherent(m: BackupModel, reply: BackupReplyModel)
    requires
        backup_reply_fits(reply),
    ensures
        backup_coherent(backup_start(m).0, backup_start(m).1),
        backup_coherent(backup_step(m, reply).0, backup_step(m, reply).1),
        backup_start(m).0.version == m.version,
        backup_start(m).0.max_chunk_size == m.max_chunk_size,
        backup_start(m).0.chunks == m.chunks,
        backup_step(m, reply).0.version == m.version,
        backup_step(m, reply).0.max_chunk_size == m.max_chunk_size,
{
    if m.phase == BackupPhase::AwaitRecords {
        match reply {
            BackupReplyModel::Records(Ok(records)) => {
                if records.len() > 0 && accepts(m.verifier, records) {
                    lemma_parse_of_chunk_bytes(records);
                }
            },
            _ => {},
        }
    }
}

/// What a run gives back when it ends with `request`.
pub open spec fn backup_result(request: BackupRequestModel) -> Option<
    Result<Seq<u8>, BackupError>,
> {
    match request {
        BackupRequestModel::Finished { manifest_handle } => Some(Ok(manifest_handle)),
        BackupRequestModel::Failed { error } => Some(Err(error)),
        _ => None,
    }
}

/// Whether the request ends the run.
pub open spec fn backup_closing(request: BackupRequestModel) -> bool {
    request is Finished || request is Failed
}

/// The controller of one backup run.
#[derive(Debug)]
pub struct StateSnapshotBackupController {
    version: u64,
    max_chunk_size: u64,
    phase: BackupPhase,
    attempt: u64,
    root_hash: HashValue,
    verifier: ChunkVerifier,
    chunks: Vec<ChunkRef>,
    pending: Option<ChunkBounds>,
}

impl View for StateSnapshotBackupController {
    type V = BackupModel;

    closed spec fn view(&self) -> BackupModel {
        BackupModel {
            version: self.version,
            max_chunk_size: self.max_chunk_size,
            phase: self.phase,
            attempt: self.attempt,
            root_hash: self.root_hash@,
            verifier: self.verifier@,
            chunks: chunk_ref_models(self.chunks@),
            pending: match self.pending {
                Some(b) => Some(b@),
                None => None,
            },
        }
    }
}

impl StateSnapshotBackupController {
    /// What holds of every controller.
    #[verifier::type_invariant]
    pub open spec fn consistent(self) -> bool {
        backup_consistent(self@)
    }

    /// The controller of a backup of the snapshot at `opt.version` in chunks
    /// of at most `global_opt.max_chunk_size` entries.
    pub fn new(opt: StateSnapshotBackupOpt, global_opt: GlobalBackupOpt) -> (c: Self)
        requires
            global_opt.max_chunk_size >= 1,
        ensures
            c@ == backup_initial(opt.version, global_opt.max_chunk_size),
    {
        let root_hash = HashValue::new([0u8; 32]);
        let chunks: Vec<ChunkRef> = Vec::new();
        proof {
            root_hash.lemma_length();
            assert(root_hash@ =~= Seq::new(32, |i: int| 0u8));
            assert(chunk_ref_models(chunks@) =~= Seq::<ChunkRefModel>::empty());
        }
        StateSnapshotBackupController {
            version: opt.version,
            max_chunk_size: global_opt.max_chunk_size,
            phase: BackupPhase::Ready,
            attempt: 0,
            root_hash,
            verifier: ChunkVerifier::new(global_opt.max_chunk_size),
            chunks,
            pending: None,
        }
    }

    /// What the run is waiting for.
    pub fn phase(&self) -> (p: BackupPhase)
        ensures
            p == self@.phase,
    {
        self.phase
    }

    /// The number of chunks stored so far.
    pub fn chunks_stored(&self) -> (n: usize)
        ensures
            n == self@.chunks.len(),
    {
        self.chunks.len()
    }

    /// The number of entries taken from the service so far.
    pub fn entries_seen(&self) -> (n: u64)
        ensures
            n == self@.verifier.entries,
    {
        self.verifier.entries()
    }

    fn fail(self, error: BackupError) -> (r: (Self, BackupRequest))
        ensures
            (r.0@, r.1@) == backup_fail(self@, error),
    {
        let closed = StateSnapshotBackupController { phase: BackupPhase::Closed, ..self };
        (closed, BackupRequest::Failed { error })
    }

    fn probe(self) -> (r: (Self, BackupRequest))
        requires
            self@.phase == BackupPhase::Ready || self@.phase == BackupPhase::AwaitAttempt,
        ensures
            (r.0@, r.1@) == backup_probe(self@),
    {
        proof {
            use_type_invariant(&self);
        }
        let identifier = make_chunk_identifier(self.version, self.attempt, 0);
        let next = StateSnapshotBackupController { phase: BackupPhase::AwaitAttempt, ..self };
        (next, BackupRequest::Probe { identifier })
    }

    fn fetch(self) -> (r: (Self, BackupRequest))
        requires
            self@.phase != BackupPhase::Closed,
            self@.pending is None,
        ensures
            (r.0@, r.1@) == backup_fetch(self@),
    {
        proof {
            use_type_invariant(&self);
        }
        let version = self.version;
        let start_index = self.verifier.entries();
        let end_index = match start_index.checked_add(self.max_chunk_size) {
            Some(end) => end,
            None => u64::MAX,
        };
        let next = StateSnapshotBackupController { phase: BackupPhase::AwaitRecords, ..self };
        (next, BackupRequest::GetStateSnapshot { version, start_index, end_index })
    }

    fn seal(self) -> (r: (Self, BackupRequest))
        requires
            self@.phase != BackupPhase::Closed,
            self@.pending is None,
        ensures
            (r.0@, r.1@) == backup_seal(self@),
    {
        proof {
            use_type_invariant(&self);
            assert(manifest_valid(backup_manifest(self@)));
        }
        let sealed = Manifest::seal(
            self.version,
            self.root_hash,
            self.max_chunk_size,
            copy_chunk_refs(&self.chunks),
        );
        match sealed {
            Ok(manifest) => {
                let payload = encode_manifest(&manifest);
                let identifier = make_manifest_identifier(self.version);
                let next = StateSnapshotBackupController {
                    phase: BackupPhase::AwaitManifestHandle,
                    ..self
                };
                (next, BackupRequest::Write { identifier, payload })
            },
            Err(_) => {
                assert(false);
                self.fail(BackupError::CorruptionError)
            },
        }
    }

    /// The first step of the run: its first request. A run that was started
    /// before ends here.
    pub fn start(self) -> (r: (Self, BackupRequest))
        ensures
            (r.0@, r.1@) == backup_start(self@),
    {
        match self.phase {
            BackupPhase::Ready => self.probe(),
            _ => self.fail(BackupError::StorageError),
        }
    }

    fn on_probed(self, taken: bool) -> (r: (Self, BackupRequest))
        requires
            self@.phase == BackupPhase::AwaitAttempt,
        ensures
            (r.0@, r.1@) == backup_step(self@, BackupReplyModel::Probed(Ok(taken))),
    {
        proof {
            use_type_invariant(&self);
        }
        if !taken {
            let next = StateSnapshotBackupController { phase: BackupPhase::AwaitStateRoot, ..self };
            (next, BackupRequest::GetLatestStateRoot)
        } else if self.attempt < u64::MAX {
            let attempt = self.attempt + 1;
            let next = StateSnapshotBackupController { attempt, ..self };
            next.probe()
        } else {
            self.fail(BackupError::StorageError)
        }
    }

    fn on_state_root(self, latest: u64, root: HashValue) -> (r: (Self, BackupRequest))
        requires
            self@.phase == BackupPhase::AwaitStateRoot,
        ensures
            (r.0@, r.1@) == backup_step(self@, BackupReplyModel::StateRoot(Ok((latest, root@)))),
    {
        proof {
            use_type_invariant(&self);
            root.lemma_length();
        }
        if latest != self.version {
            return self.fail(BackupError::NotFoundError);
        }
        let next = StateSnapshotBackupController { root_hash: root, ..self };
        next.fetch()
    }

    fn on_records(self, records: Vec<StateRecord>) -> (r: (Self, BackupRequest))
        requires
            self@.phase == BackupPhase::AwaitRecords,
        ensures
            (r.0@, r.1@) == backup_step(
                self@,
                BackupReplyModel::Records(Ok(record_models(records@))),
            ),
    {
        proof {
            use_type_invariant(&self);
        }
        if records.len() == 0 {
            return self.seal();
        }
        let ghost models = record_models(records@);
        let max_chunk_size = self.max_chunk_size;
        let identifier = make_chunk_identifier(self.version, self.attempt, self.chunks.len() as u64);
        let mut verifier = self.verifier;
        match verifier.check(&records) {
            Err(_) => {
                let same = StateSnapshotBackupController { verifier, ..self };
                same.fail(BackupError::CorruptionError)
            },
            Ok(bounds) => {
                let payload = encode_chunk(&records);
                proof {
                    assert(bounds.first_key@.len() == bounds.first_key.len());
                    assert(bounds.last_key@.len() == bounds.last_key.len());
                    assert(models.last() == models[models.len() - 1]);
                    if models.len() > 1 {
                        assert(key_lt(models[0].key, models[models.len() - 1].key));
                    }
                    assert(chunk_ref_valid(stored_chunk(Seq::empty(), bounds@), max_chunk_size));
                }
                let next = StateSnapshotBackupController {
                    phase: BackupPhase::AwaitChunkHandle,
                    verifier,
                    pending: Some(bounds),
                    ..self
                };
                (next, BackupRequest::Write { identifier, payload })
            },
        }
    }

    fn on_chunk_written(self, handle: Vec<u8>) -> (r: (Self, BackupRequest))
        requires
            self@.phase == BackupPhase::AwaitChunkHandle,
        ensures
            (r.0@, r.1@) == backup_step(self@, BackupReplyModel::Written(Ok(handle@))),
    {
        proof {
            use_type_invariant(&self);
        }
        let ghost m = self@;
        let max_chunk_size = self.max_chunk_size;
        let done = self.verifier.is_closed() || self.verifier.entries() == u64::MAX;
        let bounds = match self.pending {
            Some(b) => b,
            None => {
                assert(false);
                ChunkBounds { first_key: Vec::new(), last_key: Vec::new(), entry_count: 0 }
            },
        };
        let ghost before = chunk_ref_models(self.chunks@);
        let ghost added = stored_chunk(handle@, bounds@);
        assert(handle@.len() == handle.len());
        let mut chunks = self.chunks;
        chunks.push(
            ChunkRef {
                handle,
                first_key: bounds.first_key,
                last_key: bounds.last_key,
                entry_count: bounds.entry_count,
            },
        );
        proof {
            let now = chunk_ref_models(chunks@);
            assert(now =~= before.push(added));
            assert(now.drop_last() =~= before);
            assert(chunk_ref_valid(added, max_chunk_size));
            assert forall|i: int| 0 <= i < now.len() implies chunk_ref_valid(
                #[trigger] now[i],
                max_chunk_size,
            ) by {
                if i < before.len() {
                    assert(chunk_ref_valid(before[i], max_chunk_size));
                }
            }
            assert forall|i: int| 0 <= i < now.len() - 1 implies (#[trigger] now[i]).entry_count
                == max_chunk_size && key_lt(now[i].last_key, now[i + 1].first_key) by {
                if i < before.len() - 1 {
                    assert(before[i].entry_count == max_chunk_size && key_lt(
                        before[i].last_key,
                        before[i + 1].first_key,
                    ));
                }
            }
            assert(chunks@.len() == chunks.len());
        }
        let stored = StateSnapshotBackupController {
            phase: BackupPhase::AwaitRecords,
            chunks,
            pending: None,
            ..self
        };
        assert(stored@ == (BackupModel {
            phase: BackupPhase::AwaitRecords,
            chunks: m.chunks.push(added),
            pending: None,
            ..m
        }));
        if done {
            stored.seal()
        } else {
            stored.fetch()
        }
    }

    fn on_manifest_written(self, handle: Vec<u8>) -> (r: (Self, BackupRequest))
        requires
            self@.phase == BackupPhase::AwaitManifestHandle,
        ensures
            (r.0@, r.1@) == backup_step(self@, BackupReplyModel::Written(Ok(handle@))),
    {
        let closed = StateSnapshotBackupController { phase: BackupPhase::Closed, ..self };
        (closed, BackupRequest::Finished { manifest_handle: handle })
    }

    fn unanswered(&self) -> (e: BackupError)
        ensures
            e == backup_unanswered(self@.phase),
    {
        match self.phase {
            BackupPhase::AwaitStateRoot => BackupError::ConnectionError,
            BackupPhase::AwaitRecords => BackupError::ConnectionError,
            _ => BackupError::StorageError,
        }
    }

    /// Takes in what came back for the last request and gives the next
    /// request: see [`backup_step`].
    pub fn step(self, reply: BackupReply) -> (r: (Self, BackupRequest))
        ensures
            (r.0@, r.1@) == backup_step(self@, reply@),
    {
        let unanswered = self.unanswered();
        match reply {
            BackupReply::Probed(answer) => {
                if self.phase != BackupPhase::AwaitAttempt {
                    return self.fail(unanswered);
                }
                match answer {
                    Ok(taken) => self.on_probed(taken),
                    Err(e) => self.fail(e),
                }
            },
            BackupReply::StateRoot(answer) => {
                if self.phase != BackupPhase::AwaitStateRoot {
                    return self.fail(unanswered);
                }
                match answer {
                    Ok((latest, root)) => self.on_state_root(latest, root),
                    Err(e) => self.fail(e),
                }
            },
            BackupReply::Records(answer) => {
                if self.phase != BackupPhase::AwaitRecords {
                    return self.fail(unanswered);
                }
                match answer {
                    Ok(records) => self.on_records(records),
                    Err(e) => self.fail(e),
                }
            },
            BackupReply::Written(answer) => {
                if self.phase == BackupPhase::AwaitChunkHandle {
                    match answer {
                        Ok(handle) => self.on_chunk_written(handle),
                        Err(e) => self.fail(e),
                    }
                } else if self.phase == BackupPhase::AwaitManifestHandle {
                    match answer {
                        Ok(handle) => self.on_manifest_written(handle),
                        Err(e) => self.fail(e),
                    }
                } else {
                    self.fail(unanswered)
                }
            },
        }
    }

    /// Runs the backup against `client` and `storage`: does what the
    /// controller asks until the run is over, and gives the handle of the
    /// manifest or the error the run ended with.
    ///
    /// Nothing is known of what the two answer, so success is not promised.
    /// What is promised is that the result is the end of the run that the
    /// two took part in: see [`backup_ran`]. There are replies, each an
    /// answer to the request that was outstanding, that lead the controller
    /// step by step to this result. Where the service keeps a record, the
    /// record has grown by the questions of the run, each with the answer
    /// that is among the replies, and by nothing else. Where the storage
    /// says what it holds, it holds what it held and what the run had
    /// stored: see [`backup_kept`].
    #[verifier::loop_isolation(false)]
    pub fn run<C: BackupService, S: BackupStorage>(self, client: &mut C, storage: &mut S) -> (r:
        Result<Vec<u8>, BackupError>)
        ensures
            old(client).keeps_record() ==> final(client).keeps_record(),
            old(storage).keeps_contents() ==> final(storage).keeps_contents(),
            exists|replies: Seq<BackupReplyModel>| #[trigger]
                backup_ran(
                    self@,
                    replies,
                    handle_result(r),
                    service_record(old(client), final(client)),
                    storage_record(old(storage), final(storage)),
                ),
    {
        let ghost initial = self@;
        let ghost before = old(storage).contents();
        let ghost mut replies: Seq<BackupReplyModel> = Seq::empty();
        proof {
            use_type_invariant(&self);
            lemma_backup_step_coherent(initial, BackupReplyModel::Probed(Ok(false)));
        }
        let (mut controller, mut request) = self.start();
        assert(old(client).asked() + backup_service_calls(initial, replies) =~= old(
            client,
        ).asked());
        assert(before.union_prefer_right(backup_written(initial, replies)) =~= before);
        loop
            invariant
                backup_closing(request@) <==> controller@.phase == BackupPhase::Closed,
                (controller@, request@) == backup_after(initial, replies),
                backup_replies_answer(initial, replies),
                backup_coherent(controller@, request@),
                controller@.version == initial.version,
                controller@.max_chunk_size == initial.max_chunk_size,
                old(client).keeps_record() ==> client.keeps_record() && client.asked() == old(
                    client,
                ).asked() + backup_service_calls(initial, replies),
                old(storage).keeps_contents() ==> backup_keeping(
                    controller@,
                    request@,
                    backup_written(initial, replies),
                    before,
                    storage_contents(storage),
                ),
            decreases backup_stage(controller@), backup_left(controller@),
        {
            let ghost m = controller@;
            let ghost asked = request@;
            let ghost calls = client.asked();
            let ghost held = storage.contents();
            let ghost written = backup_written(initial, replies);
            proof {
                use_type_invariant(&controller);
            }
            let reply = match request {
                BackupRequest::Finished { manifest_handle } => {
                    assert(backup_ran(
                        initial,
                        replies,
                        Ok(manifest_handle@),
                        service_record(old(client), client),
                        storage_record(old(storage), storage),
                    ));
                    return Ok(manifest_handle);
                },
                BackupRequest::Failed { error } => {
                    assert(backup_ran(
                        initial,
                        replies,
                        Err(error),
                        service_record(old(client), client),
                        storage_record(old(storage), storage),
                    ));
                    return Err(error);
                },
                BackupRequest::Probe { identifier } => BackupReply::Probed(
                    storage.contains(&identifier),
                ),
                BackupRequest::GetLatestStateRoot => BackupReply::StateRoot(
                    client.get_latest_state_root(),
                ),
                BackupRequest::GetStateSnapshot { version, start_index, end_index } => {
                    BackupReply::Records(client.get_state_snapshot(version, start_index, end_index))
                },
                BackupRequest::Write { identifier, payload } => BackupReply::Written(
                    storage.create_for_write(&identifier, &payload),
                ),
            };
            proof {
                lemma_backup_step_progress(m, reply@);
                lemma_reply_fits(&reply);
                lemma_backup_step_coherent(m, reply@);
                let earlier = replies;
                replies = replies.push(reply@);
                assert(replies.drop_last() =~= earlier);
                assert(backup_reply_answers(asked, reply@));
                if old(client).keeps_record() {
                    match backup_service_call(asked, reply@) {
                        Some(call) => {
                            assert(client.asked() == calls.push(call));
                            assert(client.asked() =~= old(client).asked() + backup_service_calls(
                                initial,
                                earlier,
                            ).push(call));
                        },
                        None => {
                            assert(client.asked() == calls);
                        },
                    }
                }
                if old(storage).keeps_contents() {
                    lemma_backup_keeping_step(m, asked, reply@, written, before, held);
                    assert(storage.contents() == backup_held_after(asked, reply@, held));
                }
            }
            let (next, then) = controller.step(reply);
            controller = next;
            request = then;
        }
    }
}

/// The result of a backup run as mathematical values.
pub open spec fn handle_result(r: Result<Vec<u8>, BackupError>) -> Result<Seq<u8>, BackupError> {
    match r {
        Ok(handle) => Ok(handle@),
        Err(e) => Err(e),
    }
}

/// What a storage that says what it holds, and held `held`, holds after it
/// has given `reply` to `request`.
pub open spec fn backup_held_after(
    request: BackupRequestModel,
    reply: BackupReplyModel,
    held: Map<Seq<u8>, Seq<u8>>,
) -> Map<Seq<u8>, Seq<u8>> {
    match (request, reply) {
        (
            BackupRequestModel::Write { identifier, payload },
            BackupReplyModel::Written(Ok(handle)),
        ) => held.insert(handle, payload),
        _ => held,
    }
}

/// What holds between a run in state `m` with `request` outstanding, what
/// it has had stored so far (`written`), and a storage that held `before`
/// and now holds `held`.
pub open spec fn backup_keeping(
    m: BackupModel,
    request: BackupRequestModel,
    written: Map<Seq<u8>, Seq<u8>>,
    before: Map<Seq<u8>, Seq<u8>>,
    held: Option<Map<Seq<u8>, Seq<u8>>>,
) -> bool {
    &&& held == Some(before.union_prefer_right(written))
    &&& forall|k: Seq<u8>| written.contains_key(k) ==> !before.contains_key(k)
    &&& m.phase != BackupPhase::Closed || request is Finished ==> forall|i: int|
        0 <= i < m.chunks.len() ==> chunk_kept(written, #[trigger] m.chunks[i])
    &&& !(request is Finished) ==> forall|k: Seq<u8>| #[trigger]
        written.contains_key(k) ==> parse_chunk(written[k]) is Some
    &&& request matches BackupRequestModel::Finished { manifest_handle }
        ==> written.contains_key(manifest_handle) && parse_manifest(written[manifest_handle])
        == Some(backup_manifest(m))
}

/// One step of a run keeps what holds between the run and the storage: a
/// chunk that storage has kept is found behind its handle, and the manifest
/// is found behind the handle that the run ends with.
pub proof fn lemma_backup_keeping_step(
    m: BackupModel,
    request: BackupRequestModel,
    reply: BackupReplyModel,
    written: Map<Seq<u8>, Seq<u8>>,
    before: Map<Seq<u8>, Seq<u8>>,
    held: Map<Seq<u8>, Seq<u8>>,
)
    requires
        backup_consistent(m),
        backup_coherent(m, request),
        backup_closing(request) <==> m.phase == BackupPhase::Closed,
        !backup_closing(request),
        backup_reply_answers(request, reply),
        backup_keeping(m, request, written, before, Some(held)),
        reply matches BackupReplyModel::Written(Ok(handle)) ==> !held.contains_key(handle),
    ensures
        backup_keeping(
            backup_step(m, reply).0,
            backup_step(m, reply).1,
            backup_held_after(request, reply, written),
            before,
            Some(backup_held_after(request, reply, held)),
        ),
{
    let (next, then) = backup_step(m, reply);
    let now = backup_held_after(request, reply, written);
    match (request, reply) {
        (
            BackupRequestModel::Write { identifier, payload },
            BackupReplyModel::Written(Ok(handle)),
        ) => {
            assert(!written.contains_key(handle));
            assert(held.insert(handle, payload) =~= before.union_prefer_right(now));
            if m.phase == BackupPhase::AwaitChunkHandle {
                let bounds = m.pending.unwrap();
                let added = stored_chunk(handle, bounds);
                assert(next.chunks == m.chunks.push(added));
                assert forall|i: int| 0 <= i < next.chunks.len() implies chunk_kept(
                    now,
                    #[trigger] next.chunks[i],
                ) by {
                    if i < m.chunks.len() {
                        assert(chunk_kept(written, m.chunks[i]));
                    }
                }
            } else {
                assert(m.phase == BackupPhase::AwaitManifestHandle);
                assert(manifest_valid(backup_manifest(m)));
                lemma_parse_of_manifest_bytes(backup_manifest(m));
                assert(backup_manifest(next) == backup_manifest(m));
                assert forall|i: int| 0 <= i < next.chunks.len() implies chunk_kept(
                    now,
                    #[trigger] next.chunks[i],
                ) by {
                    assert(chunk_kept(written, m.chunks[i]));
                }
            }
        },
        _ => {
            assert(next.chunks == m.chunks);
        },
    }
}

/// The entries that a reply holds in memory can be written.
pub proof fn lemma_reply_fits(reply: &BackupReply)
    ensures
        backup_reply_fits(reply@),
{
    match reply {
        BackupReply::Records(Ok(records)) => {
            let models = record_models(records@);
            assert(records@.len() == records.len());
            assert forall|i: int| 0 <= i < models.len() implies record_fits(
                #[trigger] models[i],
            ) by {
                let r = records@[i];
                assert(r.key@.len() == r.key.len());
                assert(r.value@.len() == r.value.len());
                assert(r.proof@.len() == r.proof.len());
            }
        },
        _ => {},
    }
}

} // verus!
