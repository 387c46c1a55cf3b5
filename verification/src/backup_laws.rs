//! What a backup run does against a service and a storage that work.
//!
//! The main statements are [`lemma_backup_completes`] (into a storage that
//! is ready for it, the backup stores every chunk and the manifest),
//! [`lemma_backup_refused`] (into any other storage it fails with a storage
//! error) and [`lemma_backup_not_found`]. The other lemmas lead up to them.

use crate::backup::{
    backup_after, backup_closing, backup_fetch, backup_initial, backup_manifest, backup_probe, backup_seal, backup_start,
    backup_result, backup_step, lemma_backup_step_progress, stored_chunk, BackupModel, BackupPhase, BackupReplyModel, BackupRequestModel,
};
use crate::chunk::{chunk_bytes, record_fits};
use crate::chunk_verifier::{accepts, bounds_of};
use crate::chunking::{
    chunk_count, concat, lemma_split_chunk, lemma_split_concat, lemma_split_count,
    lemma_split_sizes, split,
};
use crate::error::BackupError;
use crate::ideal::{
    backup_after_chunk, backup_answer, backup_at, backup_replies_ideal, backup_run,
    backup_store_after, backup_stored, backup_writing,
    chunk_refs_for, chunk_write, entries_in_range, first_free_attempt, manifest_for,
    source_valid, store_free, store_holds_backup, store_ready, store_with_backup,
    store_with_chunks, verifier_at, SourceModel,
};
use crate::manifest::{chunk_ref_valid, entry_sum, manifest_valid, ChunkRefModel};
use crate::manifest_codec::manifest_bytes;
use crate::naming::{
    chunk_identifier, lemma_chunk_identifier_injective, lemma_chunk_identifier_len,
    lemma_chunk_is_no_manifest, manifest_identifier,
};
use crate::record::{ascending, key_lt, RecordModel};
use vstd::prelude::*;

verus! {

/// What holds of chunk `k` of a snapshot in key order.
pub proof fn lemma_chunk_facts(entries: Seq<RecordModel>, max: nat, k: int)
    requires
        max >= 1,
        ascending(entries),
        0 <= k < split(entries, max).len(),
    ensures
        k * max < entries.len(),
        split(entries, max)[k] == entries.subrange(
            k * max,
            if k * max + max <= entries.len() {
                k * max + max
            } else {
                entries.len() as int
            },
        ),
        1 <= split(entries, max)[k].len() <= max,
        ascending(split(entries, max)[k]),
        k + 1 < split(entries, max).len() ==> split(entries, max)[k].len() == max,
        k + 1 == split(entries, max).len() ==> k * max + split(entries, max)[k].len()
            == entries.len(),
        k > 0 ==> key_lt(entries[k * max - 1].key, split(entries, max)[k][0].key),
        split(entries, max)[k].last() == entries[k * max + split(entries, max)[k].len() - 1],
{
    let c = split(entries, max)[k];
    lemma_split_chunk(entries, max, k);
    lemma_split_sizes(entries, max);
    assert forall|i: int, j: int| 0 <= i < j < c.len() implies key_lt(
        #[trigger] c[i].key,
        #[trigger] c[j].key,
    ) by {
        assert(key_lt(entries[k * max + i].key, entries[k * max + j].key));
    }
    if k + 1 < split(entries, max).len() {
        lemma_split_chunk(entries, max, k + 1);
    } else {
        if k * max + max <= entries.len() {
            lemma_split_count(entries, max);
            let n = entries.len() as int;
            let m = max as int;
            assert(k * m + m >= n) by (nonlinear_arith)
                requires
                    m >= 1,
                    n >= 1,
                    k == (n - 1) / m,
            ;
        }
    }
    if k > 0 {
        assert(k * max >= 1) by (nonlinear_arith)
            requires
                k >= 1,
                max >= 1,
        ;
        assert(key_lt(entries[k * max - 1].key, entries[k * max as int].key));
    }
}

/// A snapshot has a chunk `k` exactly if it has an entry at place `k * max`.
pub proof fn lemma_chunk_exists(entries: Seq<RecordModel>, max: nat, k: int)
    requires
        max >= 1,
        0 <= k,
    ensures
        k < split(entries, max).len() <==> k * max < entries.len(),
{
    lemma_split_count(entries, max);
    let n = entries.len() as int;
    let m = max as int;
    if n > 0 {
        assert(k <= (n - 1) / m <==> k * m <= n - 1) by (nonlinear_arith)
            requires
                m >= 1,
                n >= 1,
                k >= 0,
        ;
    } else {
        assert(k * m >= 0) by (nonlinear_arith)
            requires
                k >= 0,
                m >= 1,
        ;
    }
}

/// The chunk references of a run count the entries of its chunks.
pub proof fn lemma_entry_sum_of_refs(version: u64, attempt: u64, chunks: Seq<Seq<RecordModel>>)
    requires
        forall|i: int| 0 <= i < chunks.len() ==> (#[trigger] chunks[i]).len() <= u64::MAX,
    ensures
        entry_sum(chunk_refs_for(version, attempt, chunks)) == concat(chunks).len(),
    decreases chunks.len(),
{
    if chunks.len() > 0 {
        let init = chunks.drop_last();
        lemma_entry_sum_of_refs(version, attempt, init);
        assert(chunk_refs_for(version, attempt, chunks).drop_last() =~= chunk_refs_for(
            version,
            attempt,
            init,
        ));
        assert(chunks[chunks.len() - 1].len() <= u64::MAX);
    }
}

/// The manifest that a backup of a valid snapshot seals is a valid
/// manifest, and it counts the entries of the snapshot.
pub proof fn lemma_manifest_for_valid(source: SourceModel, max_chunk_size: u64, attempt: u64)
    requires
        source_valid(source),
        max_chunk_size >= 1,
    ensures
        manifest_valid(manifest_for(source, max_chunk_size, attempt)),
        entry_sum(manifest_for(source, max_chunk_size, attempt).chunks) == source.entries.len(),
{
    let entries = source.entries;
    let max = max_chunk_size as nat;
    let chunks = split(entries, max);
    let refs = chunk_refs_for(source.version, attempt, chunks);
    lemma_split_count(entries, max);
    lemma_split_concat(entries, max);
    lemma_split_sizes(entries, max);
    lemma_entry_sum_of_refs(source.version, attempt, chunks);
    assert forall|i: int| 0 <= i < refs.len() implies chunk_ref_valid(
        #[trigger] refs[i],
        max_chunk_size,
    ) by {
        lemma_chunk_facts(entries, max, i);
        lemma_chunk_identifier_len(source.version, attempt, i as u64);
        let c = chunks[i];
        assert(c[0] == entries[i * max]);
        assert(record_fits(entries[i * max]));
        assert(record_fits(entries[i * max + c.len() - 1]));
        if c.len() > 1 {
            assert(key_lt(c[0].key, c[c.len() - 1].key));
        }
    }
    assert forall|i: int| 0 <= i < refs.len() - 1 implies (#[trigger] refs[i]).entry_count
        == max_chunk_size && key_lt(refs[i].last_key, refs[i + 1].first_key) by {
        lemma_chunk_facts(entries, max, i);
        lemma_chunk_facts(entries, max, i + 1);
        assert(i * max + max == (i + 1) * max) by (nonlinear_arith);
    }
    assert(chunk_count(entries.len(), max) <= entries.len()) by (nonlinear_arith)
        requires
            max >= 1,
            chunk_count(entries.len(), max) == if entries.len() == 0 {
                0
            } else {
                (entries.len() - 1) / max as int + 1
            },
    ;
}

/// Storing the first `k` chunks takes none of the identifiers that the rest
/// of the run writes to.
pub proof fn lemma_store_with_chunks_free(
    store: Map<Seq<u8>, Seq<u8>>,
    version: u64,
    attempt: u64,
    chunks: Seq<Seq<RecordModel>>,
    k: nat,
)
    requires
        store_free(store, version, attempt, chunks.len()),
        k <= chunks.len() <= u64::MAX,
    ensures
        !store_with_chunks(store, version, attempt, chunks, k).contains_key(
            manifest_identifier(version),
        ),
        forall|j: u64|
            k <= j < chunks.len() ==> !store_with_chunks(
                store,
                version,
                attempt,
                chunks,
                k,
            ).contains_key(#[trigger] chunk_identifier(version, attempt, j)),
    decreases k,
{
    if k > 0 {
        lemma_store_with_chunks_free(store, version, attempt, chunks, (k - 1) as nat);
        let last = chunk_identifier(version, attempt, (k - 1) as u64);
        lemma_chunk_is_no_manifest(version, attempt, (k - 1) as u64, version);
        assert forall|j: u64| k <= j < chunks.len() implies !store_with_chunks(
            store,
            version,
            attempt,
            chunks,
            k,
        ).contains_key(#[trigger] chunk_identifier(version, attempt, j)) by {
            if chunk_identifier(version, attempt, j) == last {
                lemma_chunk_identifier_injective(version, attempt, j, (k - 1) as u64);
            }
        }
    }
}

/// What was in the storage stays in it when chunks are stored, and what is
/// in it afterwards was in it before or is one of the chunks.
pub proof fn lemma_store_with_chunks_keys(
    store: Map<Seq<u8>, Seq<u8>>,
    version: u64,
    attempt: u64,
    chunks: Seq<Seq<RecordModel>>,
    k: nat,
    name: Seq<u8>,
)
    ensures
        store.contains_key(name) ==> store_with_chunks(
            store,
            version,
            attempt,
            chunks,
            k,
        ).contains_key(name),
        store_with_chunks(store, version, attempt, chunks, k).contains_key(name)
            ==> store.contains_key(name) || exists|j: int|
            0 <= j < k && name == #[trigger] chunk_identifier(version, attempt, j as u64),
    decreases k,
{
    if k > 0 {
        lemma_store_with_chunks_keys(store, version, attempt, chunks, (k - 1) as nat, name);
        if name == chunk_identifier(version, attempt, (k - 1) as u64) {
            assert(name == chunk_identifier(version, attempt, ((k - 1) as int) as u64));
        }
    }
}

/// After a backup the storage holds each chunk under its identifier and
/// the manifest under the identifier of the version.
pub proof fn lemma_store_with_chunks_holds(
    store: Map<Seq<u8>, Seq<u8>>,
    version: u64,
    attempt: u64,
    chunks: Seq<Seq<RecordModel>>,
    k: nat,
    j: int,
)
    requires
        0 <= j < k <= u64::MAX,
    ensures
        store_with_chunks(store, version, attempt, chunks, k).contains_key(
            chunk_identifier(version, attempt, j as u64),
        ),
        store_with_chunks(store, version, attempt, chunks, k)[chunk_identifier(
            version,
            attempt,
            j as u64,
        )] == chunk_bytes(chunks[j]),
    decreases k,
{
    if j < k - 1 {
        lemma_store_with_chunks_holds(store, version, attempt, chunks, (k - 1) as nat, j);
        if chunk_identifier(version, attempt, j as u64) == chunk_identifier(
            version,
            attempt,
            (k - 1) as u64,
        ) {
            lemma_chunk_identifier_injective(version, attempt, j as u64, (k - 1) as u64);
        }
    }
}

/// What a backup leaves in the storage is a backup.
pub proof fn lemma_store_with_backup_holds(
    store: Map<Seq<u8>, Seq<u8>>,
    source: SourceModel,
    max_chunk_size: u64,
    attempt: u64,
)
    requires
        source_valid(source),
        max_chunk_size >= 1,
    ensures
        store_holds_backup(
            store_with_backup(store, source, max_chunk_size, attempt),
            source,
            max_chunk_size,
            attempt,
        ),
{
    let chunks = split(source.entries, max_chunk_size as nat);
    let kept = store_with_backup(store, source, max_chunk_size, attempt);
    lemma_manifest_for_valid(source, max_chunk_size, attempt);
    assert forall|j: int| 0 <= j < chunks.len() implies kept.contains_key(
        #[trigger] chunk_identifier(source.version, attempt, j as u64),
    ) && kept[chunk_identifier(source.version, attempt, j as u64)] == chunk_bytes(chunks[j]) by {
        lemma_store_with_chunks_holds(store, source.version, attempt, chunks, chunks.len(), j);
        lemma_chunk_is_no_manifest(source.version, attempt, j as u64, source.version);
    }
}

/// A run that looks for its attempt passes over every attempt that has left
/// a first chunk behind, and settles on the first that has not.
pub proof fn lemma_backup_run_probes(
    m: BackupModel,
    source: SourceModel,
    store: Map<Seq<u8>, Seq<u8>>,
    attempt: u64,
)
    requires
        m.phase == BackupPhase::Ready || m.phase == BackupPhase::AwaitAttempt,
        m.attempt <= attempt,
        first_free_attempt(store, m.version, attempt),
    ensures
        backup_run(backup_probe(m).0, backup_probe(m).1, source, store) == backup_run(
            BackupModel { phase: BackupPhase::AwaitStateRoot, attempt, ..m },
            BackupRequestModel::GetLatestStateRoot,
            source,
            store,
        ),
    decreases attempt - m.attempt,
{
    let (m1, r1) = backup_probe(m);
    let (reply, kept) = backup_answer(source, store, r1);
    let (m2, r2) = backup_step(m1, reply);
    assert(backup_run(m1, r1, source, store) == backup_run(m2, r2, source, kept));
    if m.attempt < attempt {
        assert(store.contains_key(chunk_identifier(m.version, m.attempt, 0)));
        let next = BackupModel { attempt: (m.attempt + 1) as u64, ..m1 };
        assert((m2, r2) == backup_probe(next));
        lemma_backup_run_probes(next, source, store, attempt);
    } else {
        assert(!store.contains_key(chunk_identifier(m.version, attempt, 0)));
    }
}

/// A run that has stored all chunks seals: it stores the manifest and ends
/// with its handle.
pub proof fn lemma_backup_run_seals(
    m: BackupModel,
    source: SourceModel,
    store: Map<Seq<u8>, Seq<u8>>,
)
    requires
        m.phase != BackupPhase::Closed,
        !store.contains_key(manifest_identifier(m.version)),
    ensures
        backup_run(backup_seal(m).0, backup_seal(m).1, source, store) == (
            BackupRequestModel::Finished { manifest_handle: manifest_identifier(m.version) },
            store.insert(
                manifest_identifier(m.version),
                manifest_bytes(backup_manifest(m)),
            ),
        ),
{
    let (m1, r1) = backup_seal(m);
    let (reply, kept) = backup_answer(source, store, r1);
    let (m2, r2) = backup_step(m1, reply);
    assert(backup_run(m1, r1, source, store) == backup_run(m2, r2, source, kept));
    assert(backup_run(m2, r2, source, kept) == (r2, kept));
}

/// A run that asks for the entries behind the first `k` chunks is given
/// chunk `k`, has it accepted and asks storage to keep it; behind the last
/// chunk it is given nothing, and seals.
pub proof fn lemma_backup_fetch_step(
    source: SourceModel,
    max_chunk_size: u64,
    attempt: u64,
    store: Map<Seq<u8>, Seq<u8>>,
    k: nat,
)
    requires
        source_valid(source),
        max_chunk_size >= 1,
        k <= split(source.entries, max_chunk_size as nat).len(),
        k * max_chunk_size <= source.entries.len(),
    ensures
        k < split(source.entries, max_chunk_size as nat).len() ==> backup_run(
            backup_at(source, max_chunk_size, attempt, k),
            backup_fetch(backup_at(source, max_chunk_size, attempt, k)).1,
            source,
            store,
        ) == backup_run(
            backup_writing(source, max_chunk_size, attempt, k),
            chunk_write(source, max_chunk_size, attempt, k),
            source,
            store,
        ),
        k == split(source.entries, max_chunk_size as nat).len() ==> backup_run(
            backup_at(source, max_chunk_size, attempt, k),
            backup_fetch(backup_at(source, max_chunk_size, attempt, k)).1,
            source,
            store,
        ) == backup_run(
            backup_seal(backup_at(source, max_chunk_size, attempt, k)).0,
            backup_seal(backup_at(source, max_chunk_size, attempt, k)).1,
            source,
            store,
        ) && backup_manifest(backup_at(source, max_chunk_size, attempt, k)) == manifest_for(
            source,
            max_chunk_size,
            attempt,
        ),
{
    let entries = source.entries;
    let n = entries.len() as int;
    let max = max_chunk_size as nat;
    let chunks = split(entries, max);
    let refs = chunk_refs_for(source.version, attempt, chunks);
    let m = backup_at(source, max_chunk_size, attempt, k);
    let request = backup_fetch(m).1;
    lemma_split_count(entries, max);
    lemma_chunk_exists(entries, max, k as int);
    assert(backup_fetch(m).0 == m);
    let (reply, kept) = backup_answer(source, store, request);
    let (m1, r1) = backup_step(m, reply);
    assert(backup_run(m, request, source, store) == backup_run(m1, r1, source, kept));
    if k == 0 {
        assert(k * max == 0) by (nonlinear_arith)
            requires
                k == 0,
        ;
    }
    if k == chunks.len() {
        assert(k * max == n);
        assert(entries_in_range(entries, request->start_index, request->end_index).len() == 0);
        assert(refs.subrange(0, k as int) =~= refs);
    } else {
        lemma_chunk_facts(entries, max, k as int);
        let c = chunks[k as int];
        assert(entries_in_range(entries, request->start_index, request->end_index) == c);
        assert(accepts(m.verifier, c));
        assert(refs.subrange(0, k as int).len() == k);
    }
}

/// A run that has asked storage to keep chunk `k` fails with a storage
/// error if the identifier of the chunk is taken. If it is free, the chunk
/// is stored, and the run seals or asks for more entries. It seals only
/// behind the last chunk, and then over the manifest of the snapshot; and
/// where it asks for more, it has stored `k + 1` full chunks.
pub proof fn lemma_backup_write_step(
    source: SourceModel,
    max_chunk_size: u64,
    attempt: u64,
    store: Map<Seq<u8>, Seq<u8>>,
    k: nat,
)
    requires
        source_valid(source),
        max_chunk_size >= 1,
        k < split(source.entries, max_chunk_size as nat).len(),
    ensures
        backup_run(
            backup_writing(source, max_chunk_size, attempt, k),
            chunk_write(source, max_chunk_size, attempt, k),
            source,
            store,
        ) == if store.contains_key(chunk_identifier(source.version, attempt, k as u64)) {
            (BackupRequestModel::Failed { error: BackupError::StorageError }, store)
        } else {
            backup_run(
                backup_after_chunk(source, max_chunk_size, attempt, k).0,
                backup_after_chunk(source, max_chunk_size, attempt, k).1,
                source,
                store.insert(
                    chunk_identifier(source.version, attempt, k as u64),
                    chunk_bytes(split(source.entries, max_chunk_size as nat)[k as int]),
                ),
            )
        },
        backup_stored(source, max_chunk_size, attempt, k).phase != BackupPhase::Closed,
        backup_stored(source, max_chunk_size, attempt, k).version == source.version,
        k + 1 == split(source.entries, max_chunk_size as nat).len() ==> backup_manifest(
            backup_stored(source, max_chunk_size, attempt, k),
        ) == manifest_for(source, max_chunk_size, attempt),
        backup_after_chunk(source, max_chunk_size, attempt, k) == backup_seal(
            backup_stored(source, max_chunk_size, attempt, k),
        ) ==> k + 1 == split(source.entries, max_chunk_size as nat).len(),
        backup_after_chunk(source, max_chunk_size, attempt, k) != backup_seal(
            backup_stored(source, max_chunk_size, attempt, k),
        ) ==> (k + 1) * max_chunk_size <= source.entries.len() && backup_after_chunk(
            source,
            max_chunk_size,
            attempt,
            k,
        ) == (
            backup_at(source, max_chunk_size, attempt, k + 1),
            backup_fetch(backup_at(source, max_chunk_size, attempt, k + 1)).1,
        ),
{
    let entries = source.entries;
    let max = max_chunk_size as nat;
    let version = source.version;
    let chunks = split(entries, max);
    let refs = chunk_refs_for(version, attempt, chunks);
    let c = chunks[k as int];
    let id = chunk_identifier(version, attempt, k as u64);
    let m1 = backup_writing(source, max_chunk_size, attempt, k);
    let r1 = chunk_write(source, max_chunk_size, attempt, k);
    let stored = backup_stored(source, max_chunk_size, attempt, k);
    lemma_split_count(entries, max);
    lemma_chunk_facts(entries, max, k as int);
    lemma_chunk_exists(entries, max, (k + 1) as int);
    let (reply, kept) = backup_answer(source, store, r1);
    let (m2, r2) = backup_step(m1, reply);
    assert(backup_run(m1, r1, source, store) == backup_run(m2, r2, source, kept));
    assert(k * max + max == (k + 1) * max) by (nonlinear_arith);
    if k == 0 {
        assert(k * max == 0) by (nonlinear_arith)
            requires
                k == 0,
        ;
    }
    assert(stored.verifier.entries == k * max + c.len());
    if k + 1 == chunks.len() {
        assert(refs.subrange(0, (k + 1) as int) =~= refs);
    }
    if store.contains_key(id) {
        assert(backup_run(m2, r2, source, kept) == (r2, kept));
    } else {
        assert(m1.chunks.push(stored_chunk(id, bounds_of(c))) =~= refs.subrange(
            0,
            (k + 1) as int,
        ));
        assert((m2, r2) == backup_after_chunk(source, max_chunk_size, attempt, k));
    }
    if !(stored.verifier.closed || stored.verifier.entries == u64::MAX) {
        assert(c.len() == max);
        assert(stored.verifier == verifier_at(entries, max_chunk_size, k + 1));
        assert(backup_fetch(stored).0 == backup_at(source, max_chunk_size, attempt, k + 1));
    }
}

/// From the point where the first `k` chunks are stored, all of them full,
/// a backup of a valid snapshot into storage that is free for it stores the
/// rest of the chunks and the manifest, and ends with the manifest's handle.
pub proof fn lemma_backup_run_from_chunk(
    source: SourceModel,
    max_chunk_size: u64,
    attempt: u64,
    store: Map<Seq<u8>, Seq<u8>>,
    k: nat,
)
    requires
        source_valid(source),
        max_chunk_size >= 1,
        store_free(
            store,
            source.version,
            attempt,
            split(source.entries, max_chunk_size as nat).len(),
        ),
        k <= split(source.entries, max_chunk_size as nat).len(),
        k * max_chunk_size <= source.entries.len(),
    ensures
        backup_run(
            backup_at(source, max_chunk_size, attempt, k),
            backup_fetch(backup_at(source, max_chunk_size, attempt, k)).1,
            source,
            store_with_chunks(
                store,
                source.version,
                attempt,
                split(source.entries, max_chunk_size as nat),
                k,
            ),
        ) == (
            BackupRequestModel::Finished { manifest_handle: manifest_identifier(source.version) },
            store_with_backup(store, source, max_chunk_size, attempt),
        ),
    decreases split(source.entries, max_chunk_size as nat).len() - k,
{
    let version = source.version;
    let chunks = split(source.entries, max_chunk_size as nat);
    let store_k = store_with_chunks(store, version, attempt, chunks, k);
    lemma_split_count(source.entries, max_chunk_size as nat);
    lemma_store_with_chunks_free(store, version, attempt, chunks, k);
    lemma_backup_fetch_step(source, max_chunk_size, attempt, store_k, k);
    if k == chunks.len() {
        lemma_backup_run_seals(backup_at(source, max_chunk_size, attempt, k), source, store_k);
    } else {
        lemma_backup_write_step(source, max_chunk_size, attempt, store_k, k);
        assert(!store_k.contains_key(chunk_identifier(version, attempt, k as u64)));
        let stored = backup_stored(source, max_chunk_size, attempt, k);
        let store_next = store_with_chunks(store, version, attempt, chunks, k + 1);
        lemma_store_with_chunks_free(store, version, attempt, chunks, k + 1);
        if backup_after_chunk(source, max_chunk_size, attempt, k) == backup_seal(stored) {
            lemma_backup_run_seals(stored, source, store_next);
        } else {
            lemma_backup_run_from_chunk(source, max_chunk_size, attempt, store, k + 1);
        }
    }
}

/// A backup of a valid snapshot, run against the service that serves it
/// and a storage that is free for it, stores every chunk of the snapshot
/// and the manifest, and ends with the handle of the manifest. What the
/// storage then holds is a function of the snapshot, the chunk size and the
/// attempt alone: two runs over the same snapshot with the same chunk size
/// make the same chunks, with the same bounds, and manifests with the same
/// root hash.
pub proof fn lemma_backup_completes(
    source: SourceModel,
    max_chunk_size: u64,
    store: Map<Seq<u8>, Seq<u8>>,
    attempt: u64,
)
    requires
        source_valid(source),
        max_chunk_size >= 1,
        store_ready(store, source, max_chunk_size, attempt),
    ensures
        backup_run(
            backup_start(backup_initial(source.version, max_chunk_size)).0,
            backup_start(backup_initial(source.version, max_chunk_size)).1,
            source,
            store,
        ) == (
            BackupRequestModel::Finished { manifest_handle: manifest_identifier(source.version) },
            store_with_backup(store, source, max_chunk_size, attempt),
        ),
{
    let m0 = backup_initial(source.version, max_chunk_size);
    lemma_backup_run_probes(m0, source, store, attempt);
    let m1 = BackupModel { phase: BackupPhase::AwaitStateRoot, attempt, ..m0 };
    let r1 = BackupRequestModel::GetLatestStateRoot;
    let (reply, kept) = backup_answer(source, store, r1);
    let (m2, r2) = backup_step(m1, reply);
    assert(backup_run(m1, r1, source, store) == backup_run(m2, r2, source, kept));
    let at = backup_at(source, max_chunk_size, attempt, 0);
    assert(at.chunks =~= Seq::<ChunkRefModel>::empty());
    assert(m2 == at);
    assert(0 * max_chunk_size == 0) by (nonlinear_arith);
    lemma_backup_run_from_chunk(source, max_chunk_size, attempt, store, 0);
}

/// A run that finds the first chunk of every attempt from its own on taken
/// gives up with a storage error.
pub proof fn lemma_backup_run_out_of_attempts(
    m: BackupModel,
    source: SourceModel,
    store: Map<Seq<u8>, Seq<u8>>,
)
    requires
        m.phase == BackupPhase::Ready || m.phase == BackupPhase::AwaitAttempt,
        forall|b: u64|
            b >= m.attempt ==> store.contains_key(#[trigger] chunk_identifier(m.version, b, 0)),
    ensures
        backup_run(backup_probe(m).0, backup_probe(m).1, source, store) == (
            BackupRequestModel::Failed { error: BackupError::StorageError },
            store,
        ),
    decreases u64::MAX - m.attempt,
{
    let (m1, r1) = backup_probe(m);
    let (reply, kept) = backup_answer(source, store, r1);
    let (m2, r2) = backup_step(m1, reply);
    assert(store.contains_key(chunk_identifier(m.version, m.attempt, 0)));
    assert(backup_run(m1, r1, source, store) == backup_run(m2, r2, source, kept));
    if m.attempt < u64::MAX {
        let next = BackupModel { attempt: (m.attempt + 1) as u64, ..m1 };
        assert((m2, r2) == backup_probe(next));
        lemma_backup_run_out_of_attempts(next, source, store);
    } else {
        assert(backup_run(m2, r2, source, kept) == (r2, kept));
    }
}

/// A run that finds the identifier of its manifest taken when it seals
/// fails with a storage error.
pub proof fn lemma_backup_run_seal_refused(
    m: BackupModel,
    source: SourceModel,
    store: Map<Seq<u8>, Seq<u8>>,
)
    requires
        m.phase != BackupPhase::Closed,
        store.contains_key(manifest_identifier(m.version)),
    ensures
        backup_run(backup_seal(m).0, backup_seal(m).1, source, store).0 == (
            BackupRequestModel::Failed { error: BackupError::StorageError }
        ),
{
    let (m1, r1) = backup_seal(m);
    let (reply, kept) = backup_answer(source, store, r1);
    let (m2, r2) = backup_step(m1, reply);
    assert(backup_run(m1, r1, source, store) == backup_run(m2, r2, source, kept));
    assert(backup_run(m2, r2, source, kept) == (r2, kept));
}

/// From the point where the first `k` chunks are stored, all of them full,
/// a backup that will find one of the identifiers taken that it has yet to
/// write to fails with a storage error.
pub proof fn lemma_backup_run_refused_from_chunk(
    source: SourceModel,
    max_chunk_size: u64,
    attempt: u64,
    store: Map<Seq<u8>, Seq<u8>>,
    k: nat,
)
    requires
        source_valid(source),
        max_chunk_size >= 1,
        k <= split(source.entries, max_chunk_size as nat).len(),
        k * max_chunk_size <= source.entries.len(),
        store.contains_key(manifest_identifier(source.version)) || exists|i: u64|
            k <= i < split(source.entries, max_chunk_size as nat).len() && store.contains_key(
                #[trigger] chunk_identifier(source.version, attempt, i),
            ),
    ensures
        backup_run(
            backup_at(source, max_chunk_size, attempt, k),
            backup_fetch(backup_at(source, max_chunk_size, attempt, k)).1,
            source,
            store_with_chunks(
                store,
                source.version,
                attempt,
                split(source.entries, max_chunk_size as nat),
                k,
            ),
        ).0 == (BackupRequestModel::Failed { error: BackupError::StorageError }),
    decreases split(source.entries, max_chunk_size as nat).len() - k,
{
    let version = source.version;
    let chunks = split(source.entries, max_chunk_size as nat);
    let store_k = store_with_chunks(store, version, attempt, chunks, k);
    let id = chunk_identifier(version, attempt, k as u64);
    lemma_split_count(source.entries, max_chunk_size as nat);
    lemma_store_with_chunks_keys(store, version, attempt, chunks, k, manifest_identifier(version));
    lemma_backup_fetch_step(source, max_chunk_size, attempt, store_k, k);
    if k == chunks.len() {
        lemma_backup_run_seal_refused(
            backup_at(source, max_chunk_size, attempt, k),
            source,
            store_k,
        );
    } else {
        lemma_backup_write_step(source, max_chunk_size, attempt, store_k, k);
        lemma_store_with_chunks_keys(store, version, attempt, chunks, k, id);
        if !store_k.contains_key(id) {
            let stored = backup_stored(source, max_chunk_size, attempt, k);
            let store_next = store_with_chunks(store, version, attempt, chunks, k + 1);
            assert(store.contains_key(manifest_identifier(version)) || exists|i: u64|
                k + 1 <= i < chunks.len() && store.contains_key(
                    #[trigger] chunk_identifier(version, attempt, i),
                )) by {
                if !store.contains_key(manifest_identifier(version)) {
                    let i = choose|i: u64|
                        k <= i < chunks.len() && store.contains_key(
                            #[trigger] chunk_identifier(version, attempt, i),
                        );
                    assert(i != k);
                }
            }
            if backup_after_chunk(source, max_chunk_size, attempt, k) == backup_seal(stored) {
                lemma_store_with_chunks_keys(
                    store,
                    version,
                    attempt,
                    chunks,
                    k + 1,
                    manifest_identifier(version),
                );
                lemma_backup_run_seal_refused(stored, source, store_next);
            } else {
                lemma_backup_run_refused_from_chunk(
                    source,
                    max_chunk_size,
                    attempt,
                    store,
                    k + 1,
                );
            }
        }
    }
}

/// A storage has at most one first free attempt.
pub proof fn lemma_first_free_attempt_unique(
    store: Map<Seq<u8>, Seq<u8>>,
    version: u64,
    a: u64,
    b: u64,
)
    requires
        first_free_attempt(store, version, a),
        first_free_attempt(store, version, b),
    ensures
        a == b,
{
    if a < b {
        assert(store.contains_key(chunk_identifier(version, a, 0)));
    }
    if b < a {
        assert(store.contains_key(chunk_identifier(version, b, 0)));
    }
}

/// If no attempt is the first free one, the first chunk of every attempt
/// is taken.
pub proof fn lemma_no_free_attempt(store: Map<Seq<u8>, Seq<u8>>, version: u64, b: nat)
    requires
        forall|a: u64| !first_free_attempt(store, version, a),
        b <= u64::MAX + 1,
    ensures
        forall|c: u64| c < b ==> store.contains_key(#[trigger] chunk_identifier(version, c, 0)),
    decreases b,
{
    if b > 0 {
        lemma_no_free_attempt(store, version, (b - 1) as nat);
        assert(!first_free_attempt(store, version, (b - 1) as u64));
    }
}

/// The storages that are left out above are the ones that cannot take the
/// backup: where no attempt finds the storage ready, the backup of a valid
/// snapshot fails with a storage error.
pub proof fn lemma_backup_refused(
    source: SourceModel,
    max_chunk_size: u64,
    store: Map<Seq<u8>, Seq<u8>>,
)
    requires
        source_valid(source),
        max_chunk_size >= 1,
        forall|attempt: u64| !store_ready(store, source, max_chunk_size, attempt),
    ensures
        backup_run(
            backup_start(backup_initial(source.version, max_chunk_size)).0,
            backup_start(backup_initial(source.version, max_chunk_size)).1,
            source,
            store,
        ).0 == (BackupRequestModel::Failed { error: BackupError::StorageError }),
{
    let version = source.version;
    let chunks = split(source.entries, max_chunk_size as nat);
    let m0 = backup_initial(version, max_chunk_size);
    if exists|a: u64| first_free_attempt(store, version, a) {
        let attempt = choose|a: u64| first_free_attempt(store, version, a);
        assert(!store_ready(store, source, max_chunk_size, attempt));
        assert(!store_free(store, version, attempt, chunks.len()));
        lemma_backup_run_probes(m0, source, store, attempt);
        let m1 = BackupModel { phase: BackupPhase::AwaitStateRoot, attempt, ..m0 };
        let r1 = BackupRequestModel::GetLatestStateRoot;
        let (reply, kept) = backup_answer(source, store, r1);
        let (m2, r2) = backup_step(m1, reply);
        assert(backup_run(m1, r1, source, store) == backup_run(m2, r2, source, kept));
        let at = backup_at(source, max_chunk_size, attempt, 0);
        assert(at.chunks =~= Seq::<ChunkRefModel>::empty());
        assert(m2 == at);
        assert(0 * max_chunk_size == 0) by (nonlinear_arith);
        if !store.contains_key(manifest_identifier(version)) {
            let i = choose|i: u64|
                i < chunks.len() && store.contains_key(
                    #[trigger] chunk_identifier(version, attempt, i),
                );
            assert(0 <= i < chunks.len() && store.contains_key(
                chunk_identifier(version, attempt, i),
            ));
        }
        lemma_backup_run_refused_from_chunk(source, max_chunk_size, attempt, store, 0);
    } else {
        lemma_no_free_attempt(store, version, (u64::MAX + 1) as nat);
        lemma_backup_run_out_of_attempts(m0, source, store);
    }
}

/// Not found. A backup of a version that is not the latest version of the
/// service fails with a not-found error and stores nothing.
pub proof fn lemma_backup_not_found(
    source: SourceModel,
    version: u64,
    max_chunk_size: u64,
    store: Map<Seq<u8>, Seq<u8>>,
    attempt: u64,
)
    requires
        version != source.version,
        first_free_attempt(store, version, attempt),
    ensures
        backup_run(
            backup_start(backup_initial(version, max_chunk_size)).0,
            backup_start(backup_initial(version, max_chunk_size)).1,
            source,
            store,
        ) == (BackupRequestModel::Failed { error: BackupError::NotFoundError }, store),
{
    let m0 = backup_initial(version, max_chunk_size);
    lemma_backup_run_probes(m0, source, store, attempt);
    let m1 = BackupModel { phase: BackupPhase::AwaitStateRoot, attempt, ..m0 };
    let r1 = BackupRequestModel::GetLatestStateRoot;
    let (reply, kept) = backup_answer(source, store, r1);
    let (m2, r2) = backup_step(m1, reply);
    assert(backup_run(m1, r1, source, store) == backup_run(m2, r2, source, kept));
    assert(backup_run(m2, r2, source, kept) == (r2, kept));
}

/// A run of the controller in which every reply was the answer of the
/// service of `source` and of a storage that keeps what it is given is the
/// run of [`backup_run`]: from where it stands after the replies, it ends
/// as the whole run ends.
pub proof fn lemma_backup_replies_ideal(
    m: BackupModel,
    replies: Seq<BackupReplyModel>,
    source: SourceModel,
    store: Map<Seq<u8>, Seq<u8>>,
)
    requires
        backup_replies_ideal(m, replies, source, store),
    ensures
        backup_closing(backup_after(m, replies).1) <==> backup_after(m, replies).0.phase
            == BackupPhase::Closed,
        backup_run(backup_start(m).0, backup_start(m).1, source, store) == backup_run(
            backup_after(m, replies).0,
            backup_after(m, replies).1,
            source,
            backup_store_after(m, replies, source, store),
        ),
    decreases replies.len(),
{
    if replies.len() > 0 {
        let earlier = replies.drop_last();
        lemma_backup_replies_ideal(m, earlier, source, store);
        let (state, request) = backup_after(m, earlier);
        let held = backup_store_after(m, earlier, source, store);
        lemma_backup_step_progress(state, replies.last());
        assert(backup_run(state, request, source, held) == backup_run(
            backup_step(state, replies.last()).0,
            backup_step(state, replies.last()).1,
            source,
            backup_answer(source, held, request).1,
        ));
    }
}

/// What `run_backup` gives where the parties work. Take a run of a fresh
/// controller that ended with `result`, as [`backup_ran`] says of every
/// run. If every reply in it was the answer of the service of a valid
/// snapshot at the version asked for and of a storage that keeps what it is
/// given and was ready, then the run succeeded, its result is the handle of
/// the manifest of the version, and the storage holds the backup: every
/// chunk of the snapshot and the manifest.
pub proof fn lemma_backup_of_working_parties(
    source: SourceModel,
    max_chunk_size: u64,
    store: Map<Seq<u8>, Seq<u8>>,
    attempt: u64,
    replies: Seq<BackupReplyModel>,
    result: Result<Seq<u8>, BackupError>,
)
    requires
        source_valid(source),
        max_chunk_size >= 1,
        store_ready(store, source, max_chunk_size, attempt),
        backup_result(
            backup_after(backup_initial(source.version, max_chunk_size), replies).1,
        ) == Some(result),
        backup_replies_ideal(
            backup_initial(source.version, max_chunk_size),
            replies,
            source,
            store,
        ),
    ensures
        result == Ok::<Seq<u8>, BackupError>(manifest_identifier(source.version)),
        backup_store_after(
            backup_initial(source.version, max_chunk_size),
            replies,
            source,
            store,
        ) == store_with_backup(store, source, max_chunk_size, attempt),
        store_holds_backup(
            store_with_backup(store, source, max_chunk_size, attempt),
            source,
            max_chunk_size,
            attempt,
        ),
{
    let m = backup_initial(source.version, max_chunk_size);
    lemma_backup_replies_ideal(m, replies, source, store);
    lemma_backup_completes(source, max_chunk_size, store, attempt);
    lemma_store_with_backup_holds(store, source, max_chunk_size, attempt);
    let (state, request) = backup_after(m, replies);
    let held = backup_store_after(m, replies, source, store);
    assert(backup_run(state, request, source, held) == (request, held));
}

} // verus!
