//! What a restore run does against a storage and a target that work.
//!
//! [`lemma_restore_replays`] says what a restore makes of a backup;
//! [`lemma_restore_run_outcome`] says how a restore of any manifest can
//! end.

use crate::backup_laws::{lemma_chunk_exists, lemma_chunk_facts, lemma_manifest_for_valid};
use crate::chunk::{chunk_bytes, lemma_parse_of_chunk_bytes, parse_chunk, record_fits};
use crate::chunk_verifier::{accepts, fresh};
use crate::chunking::{concat, lemma_split_concat, lemma_split_count, split};
use crate::error::BackupError;
use crate::ideal::{
    empty_target, manifest_for, restore_answer, restore_replies_ideal, restore_run,
    restore_target_after, source_valid, store_holds_backup,
    verifier_at, SourceModel, TargetModel,
};
use crate::manifest::{manifest_valid, ManifestModel};
use crate::manifest_codec::{lemma_parse_of_manifest_bytes, manifest_bytes};
use crate::naming::{chunk_identifier, manifest_identifier};
use crate::record::RecordModel;
use crate::restore::{
    commit_version, lemma_restore_step_progress, restore_admits, restore_after,
    restore_closing, restore_initial, restore_next, restore_result, restore_start, restore_step,
    RestoreModel, RestorePhase, RestoreReplyModel, RestoreRequestModel,
};
use vstd::prelude::*;

verus! {

/// From the point where the first `k` chunks are applied, a restore of a
/// backup of a valid snapshot applies the rest of the chunks in order, ends
/// the restore at the target version and succeeds.
pub proof fn lemma_restore_run_from_chunk(
    source: SourceModel,
    max_chunk_size: u64,
    attempt: u64,
    store: Map<Seq<u8>, Seq<u8>>,
    root_of: spec_fn(Seq<RecordModel>) -> Seq<u8>,
    m: RestoreModel,
    k: nat,
)
    requires
        source_valid(source),
        max_chunk_size >= 1,
        store_holds_backup(store, source, max_chunk_size, attempt),
        source.root_hash == root_of(source.entries),
        k <= split(source.entries, max_chunk_size as nat).len(),
        m.phase != RestorePhase::Closed,
        m.manifest == Some(manifest_for(source, max_chunk_size, attempt)),
        m.next_chunk == k,
        k < split(source.entries, max_chunk_size as nat).len() ==> m.verifier == verifier_at(
            source.entries,
            max_chunk_size,
            k,
        ),
    ensures
        restore_run(
            restore_next(m, manifest_for(source, max_chunk_size, attempt)).0,
            restore_next(m, manifest_for(source, max_chunk_size, attempt)).1,
            store,
            root_of,
            TargetModel {
                applied: split(source.entries, max_chunk_size as nat).subrange(0, k as int),
                bound: None,
            },
        ) == (
            RestoreRequestModel::Finished,
            TargetModel {
                applied: split(source.entries, max_chunk_size as nat),
                bound: Some(commit_version(m.target_version)),
            },
        ),
    decreases split(source.entries, max_chunk_size as nat).len() - k,
{
    let entries = source.entries;
    let max = max_chunk_size as nat;
    let chunks = split(entries, max);
    let manifest = manifest_for(source, max_chunk_size, attempt);
    let target = TargetModel { applied: chunks.subrange(0, k as int), bound: None };
    let (m1, r1) = restore_next(m, manifest);
    let (reply, held) = restore_answer(store, root_of, target, r1);
    let (m2, r2) = restore_step(m1, reply);
    lemma_split_count(entries, max);
    assert(restore_run(m1, r1, store, root_of, target) == restore_run(
        m2,
        r2,
        store,
        root_of,
        held,
    ));
    if k == chunks.len() {
        assert(chunks.subrange(0, k as int) =~= chunks);
        lemma_split_concat(entries, max);
        assert(r2 == RestoreRequestModel::Finished);
        assert(restore_run(m2, r2, store, root_of, held) == (r2, held));
    } else {
        let c = chunks[k as int];
        let id = chunk_identifier(source.version, attempt, k as u64);
        lemma_chunk_facts(entries, max, k as int);
        lemma_chunk_exists(entries, max, k as int);
        assert(manifest.chunks[k as int].handle == id);
        assert(store.contains_key(id) && store[id] == chunk_bytes(c));
        assert forall|i: int| 0 <= i < c.len() implies record_fits(#[trigger] c[i]) by {
            assert(c[i] == entries[k * max + i]);
        }
        lemma_parse_of_chunk_bytes(c);
        if k == 0 {
            assert(k * max == 0) by (nonlinear_arith)
                requires
                    k == 0,
            ;
        }
        assert(accepts(m1.verifier, c));
        assert(restore_admits(m1, manifest, c));
        assert(r2 == RestoreRequestModel::ApplyChunk {
            expected_root: manifest.root_hash,
            records: c,
        });
        let (reply2, held2) = restore_answer(store, root_of, held, r2);
        let (m3, r3) = restore_step(m2, reply2);
        assert(restore_run(m2, r2, store, root_of, held) == restore_run(
            m3,
            r3,
            store,
            root_of,
            held2,
        ));
        let moved = RestoreModel { next_chunk: m2.next_chunk + 1, ..m2 };
        assert((m3, r3) == restore_next(moved, manifest));
        assert(held2.applied =~= chunks.subrange(0, (k + 1) as int));
        assert(k * max + max == (k + 1) * max) by (nonlinear_arith);
        lemma_restore_run_from_chunk(
            source,
            max_chunk_size,
            attempt,
            store,
            root_of,
            moved,
            k + 1,
        );
    }
}

/// A restore of a backup of a valid snapshot, run against a storage that
/// holds the backup and a target that takes what it is given, applies the
/// chunks of the snapshot in order, ends the restore at the target version
/// (at no version for the version that stands for none) and succeeds.
pub proof fn lemma_restore_replays(
    source: SourceModel,
    max_chunk_size: u64,
    attempt: u64,
    store: Map<Seq<u8>, Seq<u8>>,
    root_of: spec_fn(Seq<RecordModel>) -> Seq<u8>,
    target_version: u64,
)
    requires
        source_valid(source),
        max_chunk_size >= 1,
        store_holds_backup(store, source, max_chunk_size, attempt),
        source.root_hash == root_of(source.entries),
    ensures
        restore_run(
            restore_start(
                restore_initial(manifest_identifier(source.version), target_version),
            ).0,
            restore_start(
                restore_initial(manifest_identifier(source.version), target_version),
            ).1,
            store,
            root_of,
            empty_target(),
        ) == (
            RestoreRequestModel::Finished,
            TargetModel {
                applied: split(source.entries, max_chunk_size as nat),
                bound: Some(commit_version(target_version)),
            },
        ),
{
    let handle = manifest_identifier(source.version);
    let manifest = manifest_for(source, max_chunk_size, attempt);
    let chunks = split(source.entries, max_chunk_size as nat);
    lemma_manifest_for_valid(source, max_chunk_size, attempt);
    lemma_restore_reads_manifest(manifest, store, root_of, handle, target_version);
    let read = restore_read(handle, target_version, manifest);
    assert(chunks.subrange(0, 0) =~= Seq::<Seq<RecordModel>>::empty());
    lemma_restore_run_from_chunk(source, max_chunk_size, attempt, store, root_of, read, 0);
}

/// How a restore can end. Against a storage that holds every chunk the
/// manifest names and a target that takes what it is given, a restore that
/// has read its manifest ends in success, in a corruption error or in a
/// verification error. Where it ends in success, every chunk that was
/// applied is what the stored bytes of its chunk read as, nothing else was
/// applied, the target was bound to the target version once, after the
/// last chunk, and the target reports the root hash of the manifest.
pub proof fn lemma_restore_run_outcome(
    manifest: ManifestModel,
    store: Map<Seq<u8>, Seq<u8>>,
    root_of: spec_fn(Seq<RecordModel>) -> Seq<u8>,
    m: RestoreModel,
    target: TargetModel,
)
    requires
        m.phase != RestorePhase::Closed,
        m.manifest == Some(manifest),
        m.next_chunk <= manifest.chunks.len(),
        forall|i: int|
            0 <= i < manifest.chunks.len() ==> store.contains_key(
                (#[trigger] manifest.chunks[i]).handle,
            ),
    ensures
        ({
            let begun = restore_next(m, manifest);
            let (outcome, held) = restore_run(begun.0, begun.1, store, root_of, target);
            let before = target.applied.len() as int;
            let k = m.next_chunk as int;
            &&& outcome is Finished || outcome == (RestoreRequestModel::Failed {
                error: BackupError::CorruptionError,
            }) || outcome == (RestoreRequestModel::Failed {
                error: BackupError::VerificationError,
            })
            &&& outcome is Finished ==> {
                &&& held.applied.len() == before + manifest.chunks.len() - k
                &&& forall|i: int| 0 <= i < before ==> held.applied[i] == target.applied[i]
                &&& forall|i: int|
                    k <= i < manifest.chunks.len() ==> parse_chunk(
                        store[(#[trigger] manifest.chunks[i]).handle],
                    ) == Some(held.applied[before + i - k])
                &&& root_of(concat(held.applied)) == manifest.root_hash
                &&& held.bound == Some(commit_version(m.target_version))
            }
        }),
    decreases manifest.chunks.len() - m.next_chunk,
{
    let k = m.next_chunk as int;
    let before = target.applied.len() as int;
    let (m1, r1) = restore_next(m, manifest);
    let (reply, held1) = restore_answer(store, root_of, target, r1);
    let (m2, r2) = restore_step(m1, reply);
    assert(restore_run(m1, r1, store, root_of, target) == restore_run(
        m2,
        r2,
        store,
        root_of,
        held1,
    ));
    if k == manifest.chunks.len() {
        assert(restore_run(m2, r2, store, root_of, held1) == (r2, held1));
    } else {
        let handle = manifest.chunks[k].handle;
        assert(store.contains_key(handle));
        assert(reply == RestoreReplyModel::Read(Ok(store[handle])));
        let admitted = parse_chunk(store[handle]) is Some && restore_admits(
            m1,
            manifest,
            parse_chunk(store[handle]).unwrap(),
        );
        if !admitted {
            assert(r2 == RestoreRequestModel::Failed { error: BackupError::CorruptionError });
            assert(restore_run(m2, r2, store, root_of, held1) == (r2, held1));
        } else {
            let records = parse_chunk(store[handle]).unwrap();
            let (reply2, held2) = restore_answer(store, root_of, held1, r2);
            let (m3, r3) = restore_step(m2, reply2);
            assert(restore_run(m2, r2, store, root_of, held1) == restore_run(
                m3,
                r3,
                store,
                root_of,
                held2,
            ));
            let moved = RestoreModel { next_chunk: m2.next_chunk + 1, ..m2 };
            assert((m3, r3) == restore_next(moved, manifest));
            assert(held2.applied == target.applied.push(records));
            lemma_restore_run_outcome(manifest, store, root_of, moved, held2);
            let (outcome, held) = restore_run(m3, r3, store, root_of, held2);
            if outcome is Finished {
                assert(held.applied[before] == held2.applied[before]);
                assert forall|i: int| 0 <= i < before implies held.applied[i]
                    == target.applied[i] by {
                    assert(held.applied[i] == held2.applied[i]);
                }
                assert forall|i: int| k <= i < manifest.chunks.len() implies parse_chunk(
                    store[(#[trigger] manifest.chunks[i]).handle],
                ) == Some(held.applied[before + i - k]) by {
                    if i > k {
                        assert(parse_chunk(store[manifest.chunks[i].handle]) == Some(
                            held.applied[(before + 1) + i - (k + 1)],
                        ));
                    }
                }
            }
        }
    }
}

/// The state of a restore run that has read `manifest` and is about to go
/// on to its first chunk.
pub open spec fn restore_read(
    manifest_handle: Seq<u8>,
    target_version: u64,
    manifest: ManifestModel,
) -> RestoreModel {
    RestoreModel {
        manifest: Some(manifest),
        next_chunk: 0,
        verifier: fresh(manifest.max_chunk_size),
        ..restore_start(restore_initial(manifest_handle, target_version)).0
    }
}

/// A restore whose storage holds the stored form of a valid manifest behind
/// the manifest handle reads that manifest and goes on to its chunks.
pub proof fn lemma_restore_reads_manifest(
    manifest: ManifestModel,
    store: Map<Seq<u8>, Seq<u8>>,
    root_of: spec_fn(Seq<RecordModel>) -> Seq<u8>,
    manifest_handle: Seq<u8>,
    target_version: u64,
)
    requires
        manifest_valid(manifest),
        store.contains_key(manifest_handle),
        store[manifest_handle] == manifest_bytes(manifest),
    ensures
        restore_run(
            restore_start(restore_initial(manifest_handle, target_version)).0,
            restore_start(restore_initial(manifest_handle, target_version)).1,
            store,
            root_of,
            empty_target(),
        ) == restore_run(
            restore_next(restore_read(manifest_handle, target_version, manifest), manifest).0,
            restore_next(restore_read(manifest_handle, target_version, manifest), manifest).1,
            store,
            root_of,
            empty_target(),
        ),
{
    let (m1, r1) = restore_start(restore_initial(manifest_handle, target_version));
    let (reply, held) = restore_answer(store, root_of, empty_target(), r1);
    let (m2, r2) = restore_step(m1, reply);
    assert(restore_run(m1, r1, store, root_of, empty_target()) == restore_run(
        m2,
        r2,
        store,
        root_of,
        held,
    ));
    lemma_parse_of_manifest_bytes(manifest);
    assert((m2, r2) == restore_next(
        restore_read(manifest_handle, target_version, manifest),
        manifest,
    ));
}

/// A run of the controller in which every reply was the answer of a
/// storage that holds `store` and of a target that takes what it is given
/// is the run of [`restore_run`]: from where it stands after the replies,
/// it ends as the whole run ends.
pub proof fn lemma_restore_replies_ideal(
    m: RestoreModel,
    replies: Seq<RestoreReplyModel>,
    store: Map<Seq<u8>, Seq<u8>>,
    root_of: spec_fn(Seq<RecordModel>) -> Seq<u8>,
    target: TargetModel,
)
    requires
        restore_replies_ideal(m, replies, store, root_of, target),
    ensures
        restore_closing(restore_after(m, replies).1) <==> restore_after(m, replies).0.phase
            == RestorePhase::Closed,
        restore_run(restore_start(m).0, restore_start(m).1, store, root_of, target)
            == restore_run(
            restore_after(m, replies).0,
            restore_after(m, replies).1,
            store,
            root_of,
            restore_target_after(m, replies, store, root_of, target),
        ),
    decreases replies.len(),
{
    if replies.len() > 0 {
        let earlier = replies.drop_last();
        lemma_restore_replies_ideal(m, earlier, store, root_of, target);
        let (state, request) = restore_after(m, earlier);
        let held = restore_target_after(m, earlier, store, root_of, target);
        lemma_restore_step_progress(state, replies.last());
        assert(restore_run(state, request, store, root_of, held) == restore_run(
            restore_step(state, replies.last()).0,
            restore_step(state, replies.last()).1,
            store,
            root_of,
            restore_answer(store, root_of, held, request).1,
        ));
    }
}

/// What `run_restore` gives where the parties work. Take a run of a fresh
/// controller that ended with `result`, as [`restore_ran`] says of every
/// run. If every reply in it was the answer of a storage that holds a
/// backup of a valid snapshot and of an empty target that takes what it is
/// given, under a ledger that gives the snapshot the root hash of the
/// source, then the run succeeded, the target was given the chunks of the
/// snapshot in order, and it was bound to the target version.
pub proof fn lemma_restore_of_working_parties(
    source: SourceModel,
    max_chunk_size: u64,
    attempt: u64,
    store: Map<Seq<u8>, Seq<u8>>,
    root_of: spec_fn(Seq<RecordModel>) -> Seq<u8>,
    target_version: u64,
    replies: Seq<RestoreReplyModel>,
    result: Result<(), BackupError>,
)
    requires
        source_valid(source),
        max_chunk_size >= 1,
        store_holds_backup(store, source, max_chunk_size, attempt),
        source.root_hash == root_of(source.entries),
        restore_result(
            restore_after(
                restore_initial(manifest_identifier(source.version), target_version),
                replies,
            ).1,
        ) == Some(result),
        restore_replies_ideal(
            restore_initial(manifest_identifier(source.version), target_version),
            replies,
            store,
            root_of,
            empty_target(),
        ),
    ensures
        result == Ok::<(), BackupError>(()),
        restore_target_after(
            restore_initial(manifest_identifier(source.version), target_version),
            replies,
            store,
            root_of,
            empty_target(),
        ) == (TargetModel {
            applied: split(source.entries, max_chunk_size as nat),
            bound: Some(commit_version(target_version)),
        }),
{
    let m = restore_initial(manifest_identifier(source.version), target_version);
    lemma_restore_replies_ideal(m, replies, store, root_of, empty_target());
    lemma_restore_replays(source, max_chunk_size, attempt, store, root_of, target_version);
    let (state, request) = restore_after(m, replies);
    let held = restore_target_after(m, replies, store, root_of, empty_target());
    assert(restore_run(state, request, store, root_of, held) == (request, held));
}

} // verus!
