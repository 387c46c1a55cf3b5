//! What backup and restore guarantee together.
//!
//! Each law is a statement about whole runs in the world of
//! [`crate::ideal`]: a backup service that serves its snapshot, a storage
//! that keeps what it is given, a target that reports the root hash of what
//! it holds.

use crate::backup::{backup_initial, backup_start};
use crate::backup_laws::{
    lemma_backup_completes, lemma_chunk_facts, lemma_manifest_for_valid,
    lemma_store_with_backup_holds,
};
use crate::chunk::{
    chunk_bytes, lemma_chunk_bytes_canonical, lemma_parse_of_chunk_bytes, parse_chunk, record_fits,
};
use crate::chunk_verifier::fresh;
use crate::chunking::{
    concat, lemma_concat_cancel, lemma_split_by_one, lemma_split_concat, lemma_split_count,
    lemma_split_oversized, split,
};
use crate::error::BackupError;
use crate::ideal::{
    backup_run, empty_target, manifest_for, restore_answer, restore_run, source_valid,
    store_holds_backup, store_ready, store_with_backup, SourceModel,
};
use crate::manifest::ManifestModel;
use crate::manifest_codec::{lemma_parse_of_manifest_bytes, manifest_bytes, parse_manifest};
use crate::naming::{
    chunk_identifier, lemma_chunk_identifier_injective, lemma_chunk_is_no_manifest,
    manifest_identifier,
};
use crate::record::RecordModel;
use crate::restore::{
    commit_version, restore_initial, restore_next, restore_start, restore_step, RestoreModel,
    RestoreRequestModel,
};
use crate::restore_laws::{
    lemma_restore_reads_manifest, lemma_restore_replays, lemma_restore_run_outcome, restore_read,
};
use vstd::prelude::*;

verus! {

/// The manifest that a backup of `source` in chunks of `max_chunk_size`
/// leaves in `store`, read back from what the storage then holds.
pub open spec fn manifest_of_backup(
    source: SourceModel,
    max_chunk_size: u64,
    store: Map<Seq<u8>, Seq<u8>>,
) -> Option<ManifestModel> {
    let started = backup_start(backup_initial(source.version, max_chunk_size));
    let (end, kept) = backup_run(started.0, started.1, source, store);
    if end is Finished && kept.contains_key(end->manifest_handle) {
        parse_manifest(kept[end->manifest_handle])
    } else {
        None
    }
}

/// The manifest that a backup leaves behind is the manifest of the
/// snapshot, its chunk size and its attempt.
pub proof fn lemma_manifest_of_backup(
    source: SourceModel,
    max_chunk_size: u64,
    store: Map<Seq<u8>, Seq<u8>>,
    attempt: u64,
)
    requires
        source_valid(source),
        max_chunk_size >= 1,
        store_ready(store, source, max_chunk_size, attempt),
    ensures
        manifest_of_backup(source, max_chunk_size, store) == Some(
            manifest_for(source, max_chunk_size, attempt),
        ),
{
    lemma_backup_completes(source, max_chunk_size, store, attempt);
    lemma_store_with_backup_holds(store, source, max_chunk_size, attempt);
    lemma_manifest_for_valid(source, max_chunk_size, attempt);
    lemma_parse_of_manifest_bytes(manifest_for(source, max_chunk_size, attempt));
}

/// Round trip. Back up a valid snapshot in chunks of any size from one on,
/// into a storage that is ready for it; then restore the manifest that the
/// backup ended with into an empty target, at any target version. The
/// backup ends with a manifest handle, the restore succeeds, the target
/// was given exactly the entries of the snapshot, in order, and so reports
/// the root hash of the source.
pub proof fn lemma_round_trip(
    source: SourceModel,
    max_chunk_size: u64,
    store: Map<Seq<u8>, Seq<u8>>,
    attempt: u64,
    root_of: spec_fn(Seq<RecordModel>) -> Seq<u8>,
    target_version: u64,
)
    requires
        source_valid(source),
        max_chunk_size >= 1,
        store_ready(store, source, max_chunk_size, attempt),
        source.root_hash == root_of(source.entries),
    ensures
        ({
            let started = backup_start(backup_initial(source.version, max_chunk_size));
            let (end, kept) = backup_run(started.0, started.1, source, store);
            let begun = restore_start(restore_initial(end->manifest_handle, target_version));
            let (outcome, target) = restore_run(begun.0, begun.1, kept, root_of, empty_target());
            &&& end is Finished
            &&& outcome is Finished
            &&& concat(target.applied) == source.entries
            &&& root_of(concat(target.applied)) == source.root_hash
            &&& target.bound == Some(commit_version(target_version))
        }),
{
    lemma_backup_completes(source, max_chunk_size, store, attempt);
    lemma_store_with_backup_holds(store, source, max_chunk_size, attempt);
    lemma_restore_replays(
        source,
        max_chunk_size,
        attempt,
        store_with_backup(store, source, max_chunk_size, attempt),
        root_of,
        target_version,
    );
    lemma_split_concat(source.entries, max_chunk_size as nat);
}

/// Deterministic chunking. Two backups of the same snapshot with the same
/// chunk size, into whatever storages are ready for them, leave manifests
/// with the same number of chunks, the same bounds for each chunk and the
/// same root hash; and each stores, chunk for chunk, the same bytes.
pub proof fn lemma_backup_deterministic(
    source: SourceModel,
    max_chunk_size: u64,
    store_a: Map<Seq<u8>, Seq<u8>>,
    attempt_a: u64,
    store_b: Map<Seq<u8>, Seq<u8>>,
    attempt_b: u64,
)
    requires
        source_valid(source),
        max_chunk_size >= 1,
        store_ready(store_a, source, max_chunk_size, attempt_a),
        store_ready(store_b, source, max_chunk_size, attempt_b),
    ensures
        ({
            let started = backup_start(backup_initial(source.version, max_chunk_size));
            let kept_a = backup_run(started.0, started.1, source, store_a).1;
            let kept_b = backup_run(started.0, started.1, source, store_b).1;
            let a = manifest_of_backup(source, max_chunk_size, store_a);
            let b = manifest_of_backup(source, max_chunk_size, store_b);
            &&& a is Some
            &&& b is Some
            &&& a.unwrap().root_hash == b.unwrap().root_hash
            &&& a.unwrap().chunks.len() == b.unwrap().chunks.len()
            &&& forall|i: int|
                0 <= i < a.unwrap().chunks.len() ==> {
                    &&& (#[trigger] a.unwrap().chunks[i]).first_key
                        == b.unwrap().chunks[i].first_key
                    &&& a.unwrap().chunks[i].last_key == b.unwrap().chunks[i].last_key
                    &&& a.unwrap().chunks[i].entry_count == b.unwrap().chunks[i].entry_count
                    &&& kept_a.contains_key(a.unwrap().chunks[i].handle)
                    &&& kept_b.contains_key(b.unwrap().chunks[i].handle)
                    &&& kept_a[a.unwrap().chunks[i].handle] == kept_b[b.unwrap().chunks[i].handle]
                }
        }),
{
    lemma_manifest_of_backup(source, max_chunk_size, store_a, attempt_a);
    lemma_manifest_of_backup(source, max_chunk_size, store_b, attempt_b);
    lemma_backup_completes(source, max_chunk_size, store_a, attempt_a);
    lemma_backup_completes(source, max_chunk_size, store_b, attempt_b);
    lemma_store_with_backup_holds(store_a, source, max_chunk_size, attempt_a);
    lemma_store_with_backup_holds(store_b, source, max_chunk_size, attempt_b);
    let started = backup_start(backup_initial(source.version, max_chunk_size));
    let kept_a = backup_run(started.0, started.1, source, store_a).1;
    let kept_b = backup_run(started.0, started.1, source, store_b).1;
    let a = manifest_for(source, max_chunk_size, attempt_a);
    let b = manifest_for(source, max_chunk_size, attempt_b);
    assert forall|i: int| 0 <= i < a.chunks.len() implies {
        &&& (#[trigger] a.chunks[i]).first_key == b.chunks[i].first_key
        &&& a.chunks[i].last_key == b.chunks[i].last_key
        &&& a.chunks[i].entry_count == b.chunks[i].entry_count
        &&& kept_a.contains_key(a.chunks[i].handle)
        &&& kept_b.contains_key(b.chunks[i].handle)
        &&& kept_a[a.chunks[i].handle] == kept_b[b.chunks[i].handle]
    } by {
        assert(a.chunks[i].handle == chunk_identifier(source.version, attempt_a, i as u64));
        assert(b.chunks[i].handle == chunk_identifier(source.version, attempt_b, i as u64));
    }
}

/// Smallest chunk size. A backup with a chunk size of one leaves a manifest
/// with as many chunks as the snapshot has entries, each of one entry: the
/// entry at its place in the snapshot.
pub proof fn lemma_backup_by_one(
    source: SourceModel,
    store: Map<Seq<u8>, Seq<u8>>,
    attempt: u64,
)
    requires
        source_valid(source),
        store_ready(store, source, 1, attempt),
    ensures
        manifest_of_backup(source, 1, store) is Some,
        manifest_of_backup(source, 1, store).unwrap().chunks.len() == source.entries.len(),
        forall|i: int|
            0 <= i < source.entries.len() ==> {
                &&& (#[trigger] manifest_of_backup(source, 1, store).unwrap().chunks[i]).entry_count
                    == 1
                &&& manifest_of_backup(source, 1, store).unwrap().chunks[i].first_key
                    == source.entries[i].key
                &&& manifest_of_backup(source, 1, store).unwrap().chunks[i].last_key
                    == source.entries[i].key
            },
{
    lemma_manifest_of_backup(source, 1, store, attempt);
    lemma_split_by_one(source.entries);
    let chunks = split(source.entries, 1);
    let manifest = manifest_for(source, 1, attempt);
    assert forall|i: int| 0 <= i < source.entries.len() implies {
        &&& (#[trigger] manifest.chunks[i]).entry_count == 1
        &&& manifest.chunks[i].first_key == source.entries[i].key
        &&& manifest.chunks[i].last_key == source.entries[i].key
    } by {
        assert(chunks[i] == seq![source.entries[i]]);
    }
}

/// Oversized chunk size. A backup of a snapshot that is not empty, with a
/// chunk size of at least the number of its entries, leaves a manifest with
/// one chunk, which holds them all.
pub proof fn lemma_backup_oversized(
    source: SourceModel,
    max_chunk_size: u64,
    store: Map<Seq<u8>, Seq<u8>>,
    attempt: u64,
)
    requires
        source_valid(source),
        1 <= source.entries.len() <= max_chunk_size,
        store_ready(store, source, max_chunk_size, attempt),
    ensures
        manifest_of_backup(source, max_chunk_size, store) is Some,
        manifest_of_backup(source, max_chunk_size, store).unwrap().chunks.len() == 1,
        manifest_of_backup(source, max_chunk_size, store).unwrap().chunks[0].entry_count
            == source.entries.len(),
{
    lemma_manifest_of_backup(source, max_chunk_size, store, attempt);
    lemma_split_oversized(source.entries, max_chunk_size as nat);
}

/// Empty snapshot. A backup of a snapshot without entries stores a manifest
/// and no chunk; restoring it gives the target nothing, and succeeds where
/// the target then reports the root hash of the empty state.
pub proof fn lemma_empty_snapshot(
    source: SourceModel,
    max_chunk_size: u64,
    store: Map<Seq<u8>, Seq<u8>>,
    attempt: u64,
    root_of: spec_fn(Seq<RecordModel>) -> Seq<u8>,
    target_version: u64,
)
    requires
        source_valid(source),
        source.entries.len() == 0,
        max_chunk_size >= 1,
        store_ready(store, source, max_chunk_size, attempt),
        source.root_hash == root_of(Seq::empty()),
    ensures
        ({
            let started = backup_start(backup_initial(source.version, max_chunk_size));
            let (end, kept) = backup_run(started.0, started.1, source, store);
            let begun = restore_start(restore_initial(end->manifest_handle, target_version));
            let (outcome, target) = restore_run(begun.0, begun.1, kept, root_of, empty_target());
            &&& end is Finished
            &&& kept == store.insert(
                manifest_identifier(source.version),
                manifest_bytes(manifest_for(source, max_chunk_size, attempt)),
            )
            &&& manifest_for(source, max_chunk_size, attempt).chunks.len() == 0
            &&& outcome is Finished
            &&& target.applied.len() == 0
        }),
{
    assert(source.entries =~= Seq::<RecordModel>::empty());
    lemma_backup_completes(source, max_chunk_size, store, attempt);
    lemma_store_with_backup_holds(store, source, max_chunk_size, attempt);
    lemma_restore_replays(
        source,
        max_chunk_size,
        attempt,
        store_with_backup(store, source, max_chunk_size, attempt),
        root_of,
        target_version,
    );
}

/// The stored form of each chunk of a valid snapshot reads back as that
/// chunk.
pub proof fn lemma_chunk_reads_back(source: SourceModel, max_chunk_size: u64, i: int)
    requires
        source_valid(source),
        max_chunk_size >= 1,
        0 <= i < split(source.entries, max_chunk_size as nat).len(),
    ensures
        parse_chunk(chunk_bytes(split(source.entries, max_chunk_size as nat)[i])) == Some(
            split(source.entries, max_chunk_size as nat)[i],
        ),
{
    let max = max_chunk_size as nat;
    let c = split(source.entries, max)[i];
    lemma_chunk_facts(source.entries, max, i);
    assert forall|p: int| 0 <= p < c.len() implies record_fits(#[trigger] c[p]) by {
        assert(c[p] == source.entries[i * max + p]);
    }
    lemma_parse_of_chunk_bytes(c);
}

/// Chunks that read back as the stored chunks of a backup in every place
/// but one, and that make up the same snapshot, read back as the stored
/// chunk in that place too; so the bytes in that place are the bytes that
/// the backup stored.
pub proof fn lemma_one_changed_chunk(
    entries: Seq<RecordModel>,
    max_chunk_size: u64,
    given: Seq<Seq<RecordModel>>,
    j: int,
    tampered: Seq<u8>,
)
    requires
        max_chunk_size >= 1,
        0 <= j < split(entries, max_chunk_size as nat).len(),
        given.len() == split(entries, max_chunk_size as nat).len(),
        forall|i: int|
            0 <= i < given.len() && i != j ==> given[i] == split(
                entries,
                max_chunk_size as nat,
            )[i],
        concat(given) == entries,
        parse_chunk(tampered) == Some(given[j]),
    ensures
        tampered == chunk_bytes(split(entries, max_chunk_size as nat)[j]),
{
    let chunks = split(entries, max_chunk_size as nat);
    assert(given =~= chunks.update(j, given[j]));
    lemma_split_concat(entries, max_chunk_size as nat);
    lemma_concat_cancel(chunks, j, given[j]);
    lemma_chunk_bytes_canonical(tampered);
}

/// Corruption detection. Take a storage that holds a backup of a valid
/// snapshot, and change the stored bytes of one of its chunks in any way.
/// A restore of that backup does not succeed: it ends in a corruption error
/// or in a verification error. This rests on one thing that the ledger
/// owes: no other entries have the root hash of the snapshot.
pub proof fn lemma_tampered_chunk_detected(
    source: SourceModel,
    max_chunk_size: u64,
    attempt: u64,
    store: Map<Seq<u8>, Seq<u8>>,
    root_of: spec_fn(Seq<RecordModel>) -> Seq<u8>,
    target_version: u64,
    j: int,
    tampered: Seq<u8>,
)
    requires
        source_valid(source),
        max_chunk_size >= 1,
        store_holds_backup(store, source, max_chunk_size, attempt),
        source.root_hash == root_of(source.entries),
        forall|other: Seq<RecordModel>| #[trigger]
            root_of(other) == source.root_hash ==> other == source.entries,
        0 <= j < split(source.entries, max_chunk_size as nat).len(),
        tampered != chunk_bytes(split(source.entries, max_chunk_size as nat)[j]),
    ensures
        ({
            let begun = restore_start(
                restore_initial(manifest_identifier(source.version), target_version),
            );
            let outcome = restore_run(
                begun.0,
                begun.1,
                store.insert(chunk_identifier(source.version, attempt, j as u64), tampered),
                root_of,
                empty_target(),
            ).0;
            outcome == (RestoreRequestModel::Failed { error: BackupError::CorruptionError })
                || outcome == (RestoreRequestModel::Failed {
                error: BackupError::VerificationError,
            })
        }),
{
    let version = source.version;
    let entries = source.entries;
    let chunks = split(entries, max_chunk_size as nat);
    let manifest = manifest_for(source, max_chunk_size, attempt);
    let handle = manifest_identifier(version);
    let changed = store.insert(chunk_identifier(version, attempt, j as u64), tampered);
    lemma_split_count(entries, max_chunk_size as nat);
    lemma_chunk_is_no_manifest(version, attempt, j as u64, version);
    lemma_manifest_for_valid(source, max_chunk_size, attempt);
    lemma_restore_reads_manifest(manifest, changed, root_of, handle, target_version);
    let read = restore_read(handle, target_version, manifest);
    assert forall|i: int| 0 <= i < manifest.chunks.len() implies changed.contains_key(
        (#[trigger] manifest.chunks[i]).handle,
    ) by {
        assert(store.contains_key(chunk_identifier(version, attempt, i as u64)));
    }
    lemma_restore_run_outcome(manifest, changed, root_of, read, empty_target());
    let begun = restore_next(read, manifest);
    let (outcome, target) = restore_run(begun.0, begun.1, changed, root_of, empty_target());
    if outcome is Finished {
        let given = target.applied;
        assert forall|i: int| 0 <= i < given.len() && i != j implies given[i] == chunks[i] by {
            let id = chunk_identifier(version, attempt, i as u64);
            assert(manifest.chunks[i].handle == id);
            if id == chunk_identifier(version, attempt, j as u64) {
                lemma_chunk_identifier_injective(version, attempt, i as u64, j as u64);
            }
            assert(store.contains_key(id) && store[id] == chunk_bytes(chunks[i]));
            lemma_chunk_reads_back(source, max_chunk_size, i);
        }
        assert(manifest.chunks[j].handle == chunk_identifier(version, attempt, j as u64));
        assert(parse_chunk(tampered) == Some(given[j]));
        lemma_one_changed_chunk(entries, max_chunk_size, given, j, tampered);
    }
}

} // verus!
