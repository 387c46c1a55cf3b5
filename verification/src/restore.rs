//! The restore controller: what a restore run does next.
//!
//! Like the backup controller, it says what is to be asked of storage and
//! of the target writer (a [`RestoreRequest`]) and is told what came back (a
//! [`RestoreReply`]); [`restore_step`] is the whole of its behaviour, and
//! [`StateSnapshotRestoreController::run`] drives it.
//!
//! A run reads the manifest, then each chunk in the order of the manifest.
//! A chunk is handed to the writer only if it is the stored form of records
//! that the chunk verifier accepts and that have the bounds the manifest
//! gives; the writer folds its proof fragments and applies it. After the
//! last chunk the writer ends the restore at the target version and reports
//! the root hash of what it now holds. The run succeeds only if that is the
//! root hash of the manifest. The first error ends the run; the target is
//! left as far as it was built.

use crate::chunk::{decode_chunk, parse_chunk};
use crate::chunk_verifier::{accepts, after, bounds_of, fresh, ChunkVerifier, VerifierModel};
use crate::error::BackupError;
use crate::hash::HashValue;
use crate::manifest::{manifest_valid, Manifest, ManifestModel};
use crate::manifest_codec::{decode_manifest, parse_manifest};
use crate::record::{copy_bytes, record_models, same_bytes, RecordModel, StateRecord};
use crate::service::{writer_record, StateWriter, WriterCall};
use crate::storage::{storage_contents, BackupStorage};
use vstd::prelude::*;

verus! {

/// The version that stands for "no version yet": a restore at this version
/// loads the state and binds it to no version.
pub const PRE_GENESIS_VERSION: u64 = 0xffff_ffff_ffff_ffff;

/// What is restored: the backup behind `manifest_handle`, at `version`.
#[derive(Clone, Debug, PartialEq, Eq)]
pub struct StateSnapshotRestoreOpt {
    pub manifest_handle: Vec<u8>,
    pub version: u64,
}

/// Where a restore run stands: what it is waiting for.
#[derive(Clone, Copy, Debug, PartialEq, Eq, Structural)]
pub enum RestorePhase {
    /// Not started.
    Ready,
    /// Asked storage for the manifest.
    AwaitManifest,
    /// Asked storage for the next chunk.
    AwaitChunk,
    /// Asked the writer to apply a chunk.
    AwaitApplied,
    /// Asked the writer to end the restore.
    AwaitFinalized,
    /// Over, with success or an error.
    Closed,
}

/// What a restore run wants done next.
#[derive(Debug, PartialEq, Eq)]
pub enum RestoreRequest {
    /// Ask storage for the content behind `handle`.
    Read { handle: Vec<u8> },
    /// Ask the writer to check `records` towards `expected_root` and to
    /// apply them as one batch.
    ApplyChunk { expected_root: HashValue, records: Vec<StateRecord> },
    /// Ask the writer to end the restore at `version`, or at no version.
    Finalize { version: Option<u64> },
    /// The run is over: the target holds the snapshot.
    Finished,
    /// The run is over: it failed with `error`.
    Failed { error: BackupError },
}

/// A [`RestoreRequest`] as mathematical values.
pub enum RestoreRequestModel {
    Read { handle: Seq<u8> },
    ApplyChunk { expected_root: Seq<u8>, records: Seq<RecordModel> },
    Finalize { version: Option<u64> },
    Finished,
    Failed { error: BackupError },
}

impl View for RestoreRequest {
    type V = RestoreRequestModel;

    open spec fn view(&self) -> RestoreRequestModel {
        match self {
            RestoreRequest::Read { handle } => RestoreRequestModel::Read { handle: handle@ },
            RestoreRequest::ApplyChunk { expected_root, records } => {
                RestoreRequestModel::ApplyChunk {
                    expected_root: expected_root@,
                    records: record_models(records@),
                }
            },
            RestoreRequest::Finalize { version } => RestoreRequestModel::Finalize {
                version: *version,
            },
            RestoreRequest::Finished => RestoreRequestModel::Finished,
            RestoreRequest::Failed { error } => RestoreRequestModel::Failed { error: *error },
        }
    }
}

/// What came back for a [`RestoreRequest`].
#[derive(Debug)]
pub enum RestoreReply {
    /// The answer to `Read`.
    Read(Result<Vec<u8>, BackupError>),
    /// The answer to `ApplyChunk`.
    Applied(Result<(), BackupError>),
    /// The answer to `Finalize`: the root hash of the target.
    Finalized(Result<HashValue, BackupError>),
}

/// A [`RestoreReply`] as mathematical values.
pub enum RestoreReplyModel {
    Read(Result<Seq<u8>, BackupError>),
    Applied(Result<(), BackupError>),
    Finalized(Result<Seq<u8>, BackupError>),
}

impl View for RestoreReply {
    type V = RestoreReplyModel;

    open spec fn view(&self) -> RestoreReplyModel {
        match self {
            RestoreReply::Read(r) => RestoreReplyModel::Read(
                match r {
                    Ok(bytes) => Ok(bytes@),
                    Err(e) => Err(*e),
                },
            ),
            RestoreReply::Applied(r) => RestoreReplyModel::Applied(*r),
            RestoreReply::Finalized(r) => RestoreReplyModel::Finalized(
                match r {
                    Ok(root) => Ok(root@),
                    Err(e) => Err(*e),
                },
            ),
        }
    }
}

/// The state of a restore run.
pub struct RestoreModel {
    /// Where the manifest is stored.
    pub manifest_handle: Seq<u8>,
    /// The version the restored state is bound to.
    pub target_version: u64,
    /// What the run is waiting for.
    pub phase: RestorePhase,
    /// The manifest, once it is read.
    pub manifest: Option<ManifestModel>,
    /// The place in the manifest of the next chunk to apply.
    pub next_chunk: nat,
    /// The chunk verifier of the run.
    pub verifier: VerifierModel,
}

/// The state of a run that has not started.
pub open spec fn restore_initial(manifest_handle: Seq<u8>, target_version: u64) -> RestoreModel {
    RestoreModel {
        manifest_handle,
        target_version,
        phase: RestorePhase::Ready,
        manifest: None,
        next_chunk: 0,
        verifier: fresh(0),
    }
}

/// The version that the writer is told to bind the state to.
pub open spec fn commit_version(target_version: u64) -> Option<u64> {
    if target_version == PRE_GENESIS_VERSION {
        None
    } else {
        Some(target_version)
    }
}

/// The run ends with `error`.
pub open spec fn restore_fail(m: RestoreModel, error: BackupError) -> (
    RestoreModel,
    RestoreRequestModel,
) {
    (RestoreModel { phase: RestorePhase::Closed, ..m }, RestoreRequestModel::Failed { error })
}

/// The run goes on to its next chunk, or past the last chunk to the end of
/// the restore.
pub open spec fn restore_next(m: RestoreModel, manifest: ManifestModel) -> (
    RestoreModel,
    RestoreRequestModel,
) {
    if m.next_chunk < manifest.chunks.len() {
        (
            RestoreModel { phase: RestorePhase::AwaitChunk, ..m },
            RestoreRequestModel::Read { handle: manifest.chunks[m.next_chunk as int].handle },
        )
    } else {
        (
            RestoreModel { phase: RestorePhase::AwaitFinalized, ..m },
            RestoreRequestModel::Finalize { version: commit_version(m.target_version) },
        )
    }
}

/// The first step of a run.
pub open spec fn restore_start(m: RestoreModel) -> (RestoreModel, RestoreRequestModel) {
    if m.phase == RestorePhase::Ready {
        (
            RestoreModel { phase: RestorePhase::AwaitManifest, ..m },
            RestoreRequestModel::Read { handle: m.manifest_handle },
        )
    } else {
        restore_fail(m, BackupError::StorageError)
    }
}

/// Whether `records` are what the manifest describes as its chunk at place
/// `m.next_chunk`, and what the verifier accepts next.
pub open spec fn restore_admits(m: RestoreModel, manifest: ManifestModel, records: Seq<RecordModel>) -> bool {
    &&& m.next_chunk < manifest.chunks.len()
    &&& accepts(m.verifier, records)
    &&& bounds_of(records).first_key == manifest.chunks[m.next_chunk as int].first_key
    &&& bounds_of(records).last_key == manifest.chunks[m.next_chunk as int].last_key
    &&& bounds_of(records).entry_count == manifest.chunks[m.next_chunk as int].entry_count
}

/// What a run in state `m` does when `reply` comes in: its next state and
/// its next request.
pub open spec fn restore_step(m: RestoreModel, reply: RestoreReplyModel) -> (
    RestoreModel,
    RestoreRequestModel,
) {
    match (m.phase, reply, m.manifest) {
        (RestorePhase::AwaitManifest, RestoreReplyModel::Read(Ok(bytes)), _) => {
            match parse_manifest(bytes) {
                Some(manifest) => restore_next(
                    RestoreModel {
                        manifest: Some(manifest),
                        next_chunk: 0,
                        verifier: fresh(manifest.max_chunk_size),
                        ..m
                    },
                    manifest,
                ),
                None => restore_fail(m, BackupError::CorruptionError),
            }
        },
        (RestorePhase::AwaitManifest, RestoreReplyModel::Read(Err(e)), _) => restore_fail(m, e),
        (RestorePhase::AwaitChunk, RestoreReplyModel::Read(Ok(bytes)), Some(manifest)) => {
            match parse_chunk(bytes) {
                Some(records) => if restore_admits(m, manifest, records) {
                    (
                        RestoreModel {
                            phase: RestorePhase::AwaitApplied,
                            verifier: after(m.verifier, records),
                            ..m
                        },
                        RestoreRequestModel::ApplyChunk {
                            expected_root: manifest.root_hash,
                            records,
                        },
                    )
                } else {
                    restore_fail(m, BackupError::CorruptionError)
                },
                None => restore_fail(m, BackupError::CorruptionError),
            }
        },
        (RestorePhase::AwaitChunk, RestoreReplyModel::Read(Err(e)), Some(_)) => restore_fail(m, e),
        (RestorePhase::AwaitApplied, RestoreReplyModel::Applied(Ok(_)), Some(manifest)) => {
            restore_next(RestoreModel { next_chunk: m.next_chunk + 1, ..m }, manifest)
        },
        (RestorePhase::AwaitApplied, RestoreReplyModel::Applied(Err(e)), Some(_)) => restore_fail(
            m,
            e,
        ),
        (RestorePhase::AwaitFinalized, RestoreReplyModel::Finalized(Ok(root)), Some(manifest)) => {
            if root == manifest.root_hash {
                (
                    RestoreModel { phase: RestorePhase::Closed, ..m },
                    RestoreRequestModel::Finished,
                )
            } else {
                restore_fail(m, BackupError::VerificationError)
            }
        },
        (RestorePhase::AwaitFinalized, RestoreReplyModel::Finalized(Err(e)), Some(_)) => {
            restore_fail(m, e)
        },
        _ => restore_fail(m, BackupError::StorageError),
    }
}

/// What holds of the state of every run: once the manifest is read it is a
/// valid manifest, and the run stands at one of its chunks or behind the
/// last.
pub open spec fn restore_consistent(m: RestoreModel) -> bool {
    match m.phase {
        RestorePhase::Ready => true,
        RestorePhase::AwaitManifest => true,
        RestorePhase::Closed => true,
        RestorePhase::AwaitChunk => m.manifest is Some && manifest_valid(m.manifest.unwrap())
            && m.next_chunk < m.manifest.unwrap().chunks.len(),
        RestorePhase::AwaitApplied => m.manifest is Some && manifest_valid(m.manifest.unwrap())
            && m.next_chunk < m.manifest.unwrap().chunks.len(),
        RestorePhase::AwaitFinalized => m.manifest is Some && manifest_valid(m.manifest.unwrap())
            && m.next_chunk == m.manifest.unwrap().chunks.len(),
    }
}

/// Where a run that started in state `m` stands after it was given
/// `replies`, one after the other.
pub open spec fn restore_after(m: RestoreModel, replies: Seq<RestoreReplyModel>) -> (
    RestoreModel,
    RestoreRequestModel,
)
    decreases replies.len(),
{
    if replies.len() == 0 {
        restore_start(m)
    } else {
        restore_step(restore_after(m, replies.drop_last()).0, replies.last())
    }
}

/// Whether `reply` is an answer to `request`: a read for a read, the
/// writer's answer for what the writer was asked.
pub open spec fn restore_reply_answers(
    request: RestoreRequestModel,
    reply: RestoreReplyModel,
) -> bool {
    match (request, reply) {
        (RestoreRequestModel::Read { .. }, RestoreReplyModel::Read(_)) => true,
        (RestoreRequestModel::ApplyChunk { .. }, RestoreReplyModel::Applied(_)) => true,
        (RestoreRequestModel::Finalize { .. }, RestoreReplyModel::Finalized(_)) => true,
        _ => false,
    }
}

/// The call of the writer that `request` and its answer `reply` make up,
/// if the request was one for the writer.
pub open spec fn restore_writer_call(
    request: RestoreRequestModel,
    reply: RestoreReplyModel,
) -> Option<WriterCall> {
    match (request, reply) {
        (
            RestoreRequestModel::ApplyChunk { expected_root, records },
            RestoreReplyModel::Applied(applied),
        ) => Some(WriterCall::ApplyChunk { expected_root, records, applied }),
        (RestoreRequestModel::Finalize { version }, RestoreReplyModel::Finalized(root)) => Some(
            WriterCall::Finalize { version, root },
        ),
        _ => None,
    }
}

/// Whether each of `replies` is an answer to the request that a run from
/// state `m` had outstanding when the reply came in.
pub open spec fn restore_replies_answer(m: RestoreModel, replies: Seq<RestoreReplyModel>) -> bool
    decreases replies.len(),
{
    if replies.len() == 0 {
        true
    } else {
        restore_replies_answer(m, replies.drop_last()) && restore_reply_answers(
            restore_after(m, replies.drop_last()).1,
            replies.last(),
        )
    }
}

/// The calls of the writer that a run from state `m` makes when it is given
/// `replies`, in order, each with its answer.
pub open spec fn restore_writer_calls(m: RestoreModel, replies: Seq<RestoreReplyModel>) -> Seq<
    WriterCall,
>
    decreases replies.len(),
{
    if replies.len() == 0 {
        Seq::empty()
    } else {
        let before = restore_writer_calls(m, replies.drop_last());
        match restore_writer_call(restore_after(m, replies.drop_last()).1, replies.last()) {
            Some(call) => before.push(call),
            None => before,
        }
    }
}

/// Whether every read among `replies` that succeeded gave what `contents`
/// holds behind the handle that the run from state `m` had asked for.
pub open spec fn restore_reads_hold(
    m: RestoreModel,
    replies: Seq<RestoreReplyModel>,
    contents: Map<Seq<u8>, Seq<u8>>,
) -> bool
    decreases replies.len(),
{
    if replies.len() == 0 {
        true
    } else {
        &&& restore_reads_hold(m, replies.drop_last(), contents)
        &&& match (restore_after(m, replies.drop_last()).1, replies.last()) {
            (RestoreRequestModel::Read { handle }, RestoreReplyModel::Read(Ok(bytes))) => {
                contents.contains_key(handle) && contents[handle] == bytes
            },
            _ => true,
        }
    }
}

/// Whether a run from state `m` that was given `replies` ended with
/// `result`, after it had asked a storage that holds `contents` (if the
/// storage says what it holds) and had taken the writer's record from
/// `asked_before` to `asked_after` (if the writer keeps one).
pub open spec fn restore_ran(
    m: RestoreModel,
    replies: Seq<RestoreReplyModel>,
    result: Result<(), BackupError>,
    contents: Option<Map<Seq<u8>, Seq<u8>>>,
    asked: Option<(Seq<WriterCall>, Seq<WriterCall>)>,
) -> bool {
    &&& restore_result(restore_after(m, replies).1) == Some(result)
    &&& restore_replies_answer(m, replies)
    &&& contents matches Some(held) ==> restore_reads_hold(m, replies, held)
    &&& asked matches Some((before, after)) ==> after == before + restore_writer_calls(m, replies)
}

/// What a run gives back when it ends with `request`.
pub open spec fn restore_result(request: RestoreRequestModel) -> Option<Result<(), BackupError>> {
    match request {
        RestoreRequestModel::Finished => Some(Ok(())),
        RestoreRequestModel::Failed { error } => Some(Err(error)),
        _ => None,
    }
}

/// Whether the request ends the run.
pub open spec fn restore_closing(request: RestoreRequestModel) -> bool {
    request is Finished || request is Failed
}

/// How far a run is from its end, first part: the steps it has before it.
pub open spec fn restore_stage(m: RestoreModel) -> nat {
    match m.phase {
        RestorePhase::Ready => 4,
        RestorePhase::AwaitManifest => 3,
        RestorePhase::AwaitChunk => 2,
        RestorePhase::AwaitApplied => 2,
        RestorePhase::AwaitFinalized => 1,
        RestorePhase::Closed => 0,
    }
}

/// How far a run is from its end, second part: the chunks it has before it.
pub open spec fn restore_left(m: RestoreModel) -> nat {
    match (m.phase, m.manifest) {
        (RestorePhase::AwaitChunk, Some(manifest)) => if m.next_chunk < manifest.chunks.len() {
            (2 * (manifest.chunks.len() - m.next_chunk)) as nat
        } else {
            0
        },
        (RestorePhase::AwaitApplied, Some(manifest)) => if m.next_chunk < manifest.chunks.len() {
            (2 * (manifest.chunks.len() - m.next_chunk) - 1) as nat
        } else {
            0
        },
        _ => 0,
    }
}

/// Every reply brings a run nearer to its end, and a run that has asked for
/// something is not over.
pub proof fn lemma_restore_step_progress(m: RestoreModel, reply: RestoreReplyModel)
    requires
        m.phase != RestorePhase::Closed,
    ensures
        restore_stage(restore_step(m, reply).0) < restore_stage(m) || (restore_stage(
            restore_step(m, reply).0,
        ) == restore_stage(m) && restore_left(restore_step(m, reply).0) < restore_left(m)),
        restore_closing(restore_step(m, reply).1) <==> restore_step(m, reply).0.phase
            == RestorePhase::Closed,
{
}

/// The error that a reply carries, if it carries one.
pub open spec fn restore_reply_error(reply: RestoreReplyModel) -> Option<BackupError> {
    match reply {
        RestoreReplyModel::Read(Err(e)) => Some(e),
        RestoreReplyModel::Applied(Err(e)) => Some(e),
        RestoreReplyModel::Finalized(Err(e)) => Some(e),
        _ => None,
    }
}

/// Whether the reply answers what a run in state `m` has asked.
pub open spec fn restore_answers(m: RestoreModel, reply: RestoreReplyModel) -> bool {
    match (m.phase, reply) {
        (RestorePhase::AwaitManifest, RestoreReplyModel::Read(_)) => true,
        (RestorePhase::AwaitChunk, RestoreReplyModel::Read(_)) => m.manifest is Some,
        (RestorePhase::AwaitApplied, RestoreReplyModel::Applied(_)) => m.manifest is Some,
        (RestorePhase::AwaitFinalized, RestoreReplyModel::Finalized(_)) => m.manifest is Some,
        _ => false,
    }
}

/// The first error ends the run and reaches the caller as it is: whatever
/// the storage or the writer failed with is what the run fails with, and
/// nothing in the state of the run but its phase changes.
pub proof fn lemma_restore_error_ends_run(m: RestoreModel, reply: RestoreReplyModel)
    requires
        restore_answers(m, reply),
        restore_reply_error(reply) is Some,
    ensures
        restore_step(m, reply) == restore_fail(m, restore_reply_error(reply).unwrap()),
{
}

/// A restore succeeds on one answer only: the writer has ended the restore
/// and reports the root hash that the manifest holds. Whatever else comes
/// back, the run does not report success.
pub proof fn lemma_restore_success_is_verified(m: RestoreModel, reply: RestoreReplyModel)
    requires
        restore_step(m, reply).1 is Finished,
    ensures
        m.phase == RestorePhase::AwaitFinalized,
        m.manifest is Some,
        reply == RestoreReplyModel::Finalized(Ok(m.manifest.unwrap().root_hash)),
{
}

/// What a restore that succeeded has asked of the writer. A run that ends
/// in success was given at least one reply. The last was the answer to the
/// request that ends the restore, and it was the root hash of the manifest
/// that the run had read. Where the writer keeps a record, the last call in
/// it is that request with that answer: success is never reported without
/// the writer having reported the root hash of the manifest.
pub proof fn lemma_restore_success_asked_writer(
    m: RestoreModel,
    replies: Seq<RestoreReplyModel>,
    contents: Option<Map<Seq<u8>, Seq<u8>>>,
    asked: Option<(Seq<WriterCall>, Seq<WriterCall>)>,
)
    requires
        restore_ran(m, replies, Ok(()), contents, asked),
    ensures
        replies.len() > 0,
        restore_after(m, replies.drop_last()).0.phase == RestorePhase::AwaitFinalized,
        restore_after(m, replies.drop_last()).0.manifest is Some,
        restore_after(m, replies.drop_last()).1 is Finalize,
        replies.last() == RestoreReplyModel::Finalized(
            Ok(restore_after(m, replies.drop_last()).0.manifest.unwrap().root_hash),
        ),
        asked matches Some((before, after)) ==> after.len() > before.len() && after.last() == (
            WriterCall::Finalize {
                version: restore_after(m, replies.drop_last()).1->version,
                root: Ok(restore_after(m, replies.drop_last()).0.manifest.unwrap().root_hash),
            }
        ),
{
    let (state, request) = restore_after(m, replies.drop_last());
    lemma_restore_success_is_verified(state, replies.last());
}

/// A chunk reaches the writer only as it was stored: the bytes that were
/// read are the one stored form of the records handed on, and the records
/// have the bounds that the manifest gives for the chunk.
pub proof fn lemma_restore_applies_what_was_stored(m: RestoreModel, bytes: Seq<u8>)
    requires
        restore_step(m, RestoreReplyModel::Read(Ok(bytes))).1 is ApplyChunk,
    ensures
        m.phase == RestorePhase::AwaitChunk,
        m.manifest is Some,
        parse_chunk(bytes) is Some,
        restore_admits(m, m.manifest.unwrap(), parse_chunk(bytes).unwrap()),
        restore_step(m, RestoreReplyModel::Read(Ok(bytes))).1 == (RestoreRequestModel::ApplyChunk {
            expected_root: m.manifest.unwrap().root_hash,
            records: parse_chunk(bytes).unwrap(),
        }),
{
    if m.phase == RestorePhase::AwaitManifest {
        match parse_manifest(bytes) {
            Some(manifest) => {
                let started = RestoreModel {
                    manifest: Some(manifest),
                    next_chunk: 0,
                    verifier: fresh(manifest.max_chunk_size),
                    ..m
                };
                assert(!(restore_next(started, manifest).1 is ApplyChunk));
            },
            None => {},
        }
    }
}

/// The controller of one restore run.
#[derive(Debug)]
pub struct StateSnapshotRestoreController {
    manifest_handle: Vec<u8>,
    target_version: u64,
    phase: RestorePhase,
    manifest: Option<Manifest>,
    next_chunk: usize,
    verifier: ChunkVerifier,
}

impl View for StateSnapshotRestoreController {
    type V = RestoreModel;

    closed spec fn view(&self) -> RestoreModel {
        RestoreModel {
            manifest_handle: self.manifest_handle@,
            target_version: self.target_version,
            phase: self.phase,
            manifest: match self.manifest {
                Some(m) => Some(m@),
                None => None,
            },
            next_chunk: self.next_chunk as nat,
            verifier: self.verifier@,
        }
    }
}

impl StateSnapshotRestoreController {
    /// What holds of every controller.
    #[verifier::type_invariant]
    pub open spec fn consistent(self) -> bool {
        restore_consistent(self@)
    }

    /// The controller of a restore of the backup behind
    /// `opt.manifest_handle`, to be bound to `opt.version`.
    pub fn new(opt: StateSnapshotRestoreOpt) -> (c: Self)
        ensures
            c@ == restore_initial(opt.manifest_handle@, opt.version),
    {
        StateSnapshotRestoreController {
            manifest_handle: opt.manifest_handle,
            target_version: opt.version,
            phase: RestorePhase::Ready,
            manifest: None,
            next_chunk: 0,
            verifier: ChunkVerifier::new(0),
        }
    }

    /// What the run is waiting for.
    pub fn phase(&self) -> (p: RestorePhase)
        ensures
            p == self@.phase,
    {
        self.phase
    }

    /// The number of chunks that the writer has applied.
    pub fn chunks_applied(&self) -> (n: usize)
        ensures
            n == self@.next_chunk,
    {
        self.next_chunk
    }

    fn fail(self, error: BackupError) -> (r: (Self, RestoreRequest))
        ensures
            (r.0@, r.1@) == restore_fail(self@, error),
    {
        let closed = StateSnapshotRestoreController { phase: RestorePhase::Closed, ..self };
        (closed, RestoreRequest::Failed { error })
    }

    /// The first step of the run: its first request. A run that was started
    /// before ends here.
    pub fn start(self) -> (r: (Self, RestoreRequest))
        ensures
            (r.0@, r.1@) == restore_start(self@),
    {
        if self.phase != RestorePhase::Ready {
            return self.fail(BackupError::StorageError);
        }
        let handle = copy_bytes(&self.manifest_handle);
        let next = StateSnapshotRestoreController { phase: RestorePhase::AwaitManifest, ..self };
        (next, RestoreRequest::Read { handle })
    }

    /// Goes on to the chunk at place `next_chunk` of `manifest`, or to the
    /// end of the restore if there is none.
    fn proceed(
        manifest_handle: Vec<u8>,
        target_version: u64,
        manifest: Manifest,
        next_chunk: usize,
        verifier: ChunkVerifier,
    ) -> (r: (Self, RestoreRequest))
        requires
            next_chunk <= manifest@.chunks.len(),
        ensures
            (r.0@, r.1@) == restore_next(
                RestoreModel {
                    manifest_handle: manifest_handle@,
                    target_version,
                    phase: RestorePhase::Ready,
                    manifest: Some(manifest@),
                    next_chunk: next_chunk as nat,
                    verifier: verifier@,
                },
                manifest@,
            ),
    {
        proof {
            use_type_invariant(&manifest);
        }
        match manifest.chunk(next_chunk) {
            Some(chunk) => {
                let next = StateSnapshotRestoreController {
                    manifest_handle,
                    target_version,
                    phase: RestorePhase::AwaitChunk,
                    manifest: Some(manifest),
                    next_chunk,
                    verifier,
                };
                (next, RestoreRequest::Read { handle: chunk.handle })
            },
            None => {
                let version = if target_version == PRE_GENESIS_VERSION {
                    None
                } else {
                    Some(target_version)
                };
                let next = StateSnapshotRestoreController {
                    manifest_handle,
                    target_version,
                    phase: RestorePhase::AwaitFinalized,
                    manifest: Some(manifest),
                    next_chunk,
                    verifier,
                };
                (next, RestoreRequest::Finalize { version })
            },
        }
    }

    fn on_manifest(self, bytes: Vec<u8>) -> (r: (Self, RestoreRequest))
        requires
            self@.phase == RestorePhase::AwaitManifest,
        ensures
            (r.0@, r.1@) == restore_step(self@, RestoreReplyModel::Read(Ok(bytes@))),
    {
        match decode_manifest(bytes.as_slice()) {
            Err(_) => self.fail(BackupError::CorruptionError),
            Ok(manifest) => {
                let verifier = ChunkVerifier::new(manifest.max_chunk_size());
                Self::proceed(self.manifest_handle, self.target_version, manifest, 0, verifier)
            },
        }
    }

    fn on_chunk(self, bytes: Vec<u8>) -> (r: (Self, RestoreRequest))
        requires
            self@.phase == RestorePhase::AwaitChunk,
        ensures
            (r.0@, r.1@) == restore_step(self@, RestoreReplyModel::Read(Ok(bytes@))),
    {
        proof {
            use_type_invariant(&self);
        }
        let records = match decode_chunk(bytes.as_slice()) {
            Ok(records) => records,
            Err(_) => {
                return self.fail(BackupError::CorruptionError);
            },
        };
        let ghost models = record_models(records@);
        let n = records.len();
        if n == 0 {
            return self.fail(BackupError::CorruptionError);
        }
        assert(models[0] == records@[0]@);
        assert(models.last() == records@[n - 1]@);
        let (expected_root, described) = match &self.manifest {
            Some(manifest) => {
                let chunks = manifest.chunks();
                let chunk = &chunks[self.next_chunk];
                assert(manifest@.chunks[self.next_chunk as int] == chunk@);
                (
                    manifest.root_hash(),
                    chunk.entry_count == n as u64 && same_bytes(&chunk.first_key, &records[0].key)
                        && same_bytes(&chunk.last_key, &records[n - 1].key),
                )
            },
            None => {
                assert(false);
                (HashValue::new([0u8; 32]), false)
            },
        };
        let mut verifier = self.verifier;
        let accepted = described && verifier.check(&records).is_ok();
        if accepted {
            let next = StateSnapshotRestoreController {
                phase: RestorePhase::AwaitApplied,
                verifier,
                ..self
            };
            (next, RestoreRequest::ApplyChunk { expected_root, records })
        } else {
            let same = StateSnapshotRestoreController { verifier, ..self };
            same.fail(BackupError::CorruptionError)
        }
    }

    fn on_applied(self) -> (r: (Self, RestoreRequest))
        requires
            self@.phase == RestorePhase::AwaitApplied,
        ensures
            (r.0@, r.1@) == restore_step(self@, RestoreReplyModel::Applied(Ok(()))),
    {
        proof {
            use_type_invariant(&self);
        }
        let next_chunk = self.next_chunk;
        match self.manifest {
            Some(manifest) => {
                let count = manifest.chunk_count();
                assert(next_chunk < count);
                Self::proceed(
                    self.manifest_handle,
                    self.target_version,
                    manifest,
                    next_chunk + 1,
                    self.verifier,
                )
            },
            None => {
                assert(false);
                Self::new(
                    StateSnapshotRestoreOpt {
                        manifest_handle: self.manifest_handle,
                        version: self.target_version,
                    },
                ).fail(BackupError::StorageError)
            },
        }
    }

    fn on_finalized(self, root: HashValue) -> (r: (Self, RestoreRequest))
        requires
            self@.phase == RestorePhase::AwaitFinalized,
        ensures
            (r.0@, r.1@) == restore_step(self@, RestoreReplyModel::Finalized(Ok(root@))),
    {
        proof {
            use_type_invariant(&self);
        }
        let verified = match &self.manifest {
            Some(manifest) => root.same(&manifest.root_hash()),
            None => false,
        };
        if !verified {
            return self.fail(BackupError::VerificationError);
        }
        let closed = StateSnapshotRestoreController { phase: RestorePhase::Closed, ..self };
        (closed, RestoreRequest::Finished)
    }

    /// Takes in what came back for the last request and gives the next
    /// request: see [`restore_step`].
    pub fn step(self, reply: RestoreReply) -> (r: (Self, RestoreRequest))
        ensures
            (r.0@, r.1@) == restore_step(self@, reply@),
    {
        proof {
            use_type_invariant(&self);
        }
        match reply {
            RestoreReply::Read(answer) => {
                if self.phase == RestorePhase::AwaitManifest {
                    match answer {
                        Ok(bytes) => self.on_manifest(bytes),
                        Err(e) => self.fail(e),
                    }
                } else if self.phase == RestorePhase::AwaitChunk {
                    match answer {
                        Ok(bytes) => self.on_chunk(bytes),
                        Err(e) => self.fail(e),
                    }
                } else {
                    self.fail(BackupError::StorageError)
                }
            },
            RestoreReply::Applied(answer) => {
                if self.phase != RestorePhase::AwaitApplied {
                    return self.fail(BackupError::StorageError);
                }
                match answer {
                    Ok(_) => self.on_applied(),
                    Err(e) => self.fail(e),
                }
            },
            RestoreReply::Finalized(answer) => {
                if self.phase != RestorePhase::AwaitFinalized {
                    return self.fail(BackupError::StorageError);
                }
                match answer {
                    Ok(root) => self.on_finalized(root),
                    Err(e) => self.fail(e),
                }
            },
        }
    }

    /// Runs the restore against `storage` and `writer`: does what the
    /// controller asks until the run is over.
    ///
    /// Nothing is known of what the two answer, so success is not promised.
    /// What is promised is that the result is the end of the run that the
    /// two took part in. There are replies, each an answer to the request
    /// that was outstanding, that lead the controller step by step to this
    /// result. Where the storage says what it holds, every read among them
    /// that succeeded gave what the storage holds behind the handle asked
    /// for. Where the writer keeps a record, the record has grown by the
    /// chunks that the run asked it to apply and by the end of the restore
    /// that it asked for, each with the answer that is among the replies,
    /// and by nothing else.
    #[verifier::loop_isolation(false)]
    pub fn run<S: BackupStorage, W: StateWriter>(self, storage: &S, writer: &mut W) -> (r: Result<
        (),
        BackupError,
    >)
        ensures
            old(writer).keeps_record() ==> final(writer).keeps_record(),
            exists|replies: Seq<RestoreReplyModel>| #[trigger]
                restore_ran(
                    self@,
                    replies,
                    r,
                    storage_contents(storage),
                    writer_record(old(writer), final(writer)),
                ),
    {
        let ghost initial = self@;
        let ghost mut replies: Seq<RestoreReplyModel> = Seq::empty();
        let ghost held = storage_contents(storage);
        let (mut controller, mut request) = self.start();
        assert(old(writer).asked() + restore_writer_calls(initial, replies) =~= old(
            writer,
        ).asked());
        loop
            invariant
                restore_closing(request@) <==> controller@.phase == RestorePhase::Closed,
                (controller@, request@) == restore_after(initial, replies),
                restore_replies_answer(initial, replies),
                held matches Some(contents) ==> restore_reads_hold(initial, replies, contents),
                old(writer).keeps_record() ==> writer.keeps_record() && writer.asked() == old(
                    writer,
                ).asked() + restore_writer_calls(initial, replies),
            decreases restore_stage(controller@), restore_left(controller@),
        {
            let ghost asked = request@;
            let ghost calls = writer.asked();
            let reply = match request {
                RestoreRequest::Finished => {
                    assert(restore_ran(
                        initial,
                        replies,
                        Ok(()),
                        held,
                        writer_record(old(writer), writer),
                    ));
                    return Ok(());
                },
                RestoreRequest::Failed { error } => {
                    assert(restore_ran(
                        initial,
                        replies,
                        Err(error),
                        held,
                        writer_record(old(writer), writer),
                    ));
                    return Err(error);
                },
                RestoreRequest::Read { handle } => RestoreReply::Read(
                    storage.open_for_read(&handle),
                ),
                RestoreRequest::ApplyChunk { expected_root, records } => RestoreReply::Applied(
                    writer.apply_chunk(&expected_root, records),
                ),
                RestoreRequest::Finalize { version } => RestoreReply::Finalized(
                    writer.finalize(version),
                ),
            };
            proof {
                lemma_restore_step_progress(controller@, reply@);
                let before = replies;
                replies = replies.push(reply@);
                assert(replies.drop_last() =~= before);
                assert(restore_reply_answers(asked, reply@));
                if old(writer).keeps_record() {
                    match restore_writer_call(asked, reply@) {
                        Some(call) => {
                            assert(writer.asked() == calls.push(call));
                            assert(writer.asked() =~= old(writer).asked()
                                + restore_writer_calls(initial, before).push(call));
                        },
                        None => {
                            assert(writer.asked() == calls);
                        },
                    }
                }
            }
            let (next, then) = controller.step(reply);
            controller = next;
            request = then;
        }
    }
}

} // verus!
