//! The chunk verifier: the running check that chunks arrive whole and in
//! key order.
//!
//! A verifier looks at the chunks of one run in the order in which they are
//! cut or replayed. It accepts a chunk if the chunk is not empty and no
//! larger than the chunk size, holds its entries in key order, starts above
//! the last key of the chunk before it, and does not follow a chunk that
//! was not full. A backup run uses it on what the service streams and takes
//! the bounds it returns into the manifest; a restore run uses it on what
//! it reads and holds the bounds against the manifest. Folding the proof
//! fragments into the root hash is left to the ledger.

use crate::chunking::{concat, lemma_concat_front, split};
use crate::error::BackupError;
use crate::manifest::ChunkRef;
use crate::record::{
    ascending, copy_bytes, in_key_order, key_less, key_lt, lemma_key_lt_transitive,
    record_models, same_bytes, RecordModel, StateRecord,
};
use vstd::prelude::*;

verus! {

/// The keys of the first and last entry of a chunk, and the number of its
/// entries.
#[derive(Clone, Debug, PartialEq, Eq)]
pub struct ChunkBounds {
    pub first_key: Vec<u8>,
    pub last_key: Vec<u8>,
    pub entry_count: u64,
}

/// What a [`ChunkBounds`] holds, as mathematical values.
pub struct BoundsModel {
    pub first_key: Seq<u8>,
    pub last_key: Seq<u8>,
    pub entry_count: u64,
}

impl View for ChunkBounds {
    type V = BoundsModel;

    open spec fn view(&self) -> BoundsModel {
        BoundsModel {
            first_key: self.first_key@,
            last_key: self.last_key@,
            entry_count: self.entry_count,
        }
    }
}

/// The bounds of a chunk that is not empty.
pub open spec fn bounds_of(records: Seq<RecordModel>) -> BoundsModel {
    BoundsModel {
        first_key: records[0].key,
        last_key: records.last().key,
        entry_count: records.len() as u64,
    }
}

impl ChunkBounds {
    /// Whether these are the bounds that the manifest gives for a chunk.
    pub fn matches(&self, chunk: &ChunkRef) -> (r: bool)
        ensures
            r == (self@.first_key == chunk@.first_key && self@.last_key == chunk@.last_key
                && self@.entry_count == chunk@.entry_count),
    {
        self.entry_count == chunk.entry_count && same_bytes(&self.first_key, &chunk.first_key)
            && same_bytes(&self.last_key, &chunk.last_key)
    }
}

/// The state of a verifier between two chunks.
pub struct VerifierModel {
    /// The chunk size of the run.
    pub max_chunk_size: u64,
    /// The last key of the last chunk accepted, if any was.
    pub last_key: Option<Seq<u8>>,
    /// The number of entries accepted so far.
    pub entries: u64,
    /// Whether a chunk that was not full has been accepted: it was the last.
    pub closed: bool,
}

/// The verifier at the start of a run.
pub open spec fn fresh(max_chunk_size: u64) -> VerifierModel {
    VerifierModel { max_chunk_size, last_key: None, entries: 0, closed: false }
}

/// Whether the verifier in state `v` accepts `records` as the next chunk.
pub open spec fn accepts(v: VerifierModel, records: Seq<RecordModel>) -> bool {
    &&& !v.closed
    &&& 1 <= records.len() <= v.max_chunk_size
    &&& ascending(records)
    &&& v.last_key matches Some(k) ==> key_lt(k, records[0].key)
    &&& v.entries + records.len() <= u64::MAX
}

/// The state of the verifier after it has accepted `records`.
pub open spec fn after(v: VerifierModel, records: Seq<RecordModel>) -> VerifierModel {
    VerifierModel {
        max_chunk_size: v.max_chunk_size,
        last_key: Some(records.last().key),
        entries: (v.entries + records.len()) as u64,
        closed: records.len() < v.max_chunk_size,
    }
}

/// Whether the verifier in state `v` accepts the chunks one after the
/// other.
pub open spec fn accepts_all(v: VerifierModel, chunks: Seq<Seq<RecordModel>>) -> bool
    decreases chunks.len(),
{
    if chunks.len() == 0 {
        true
    } else {
        accepts(v, chunks[0]) && accepts_all(after(v, chunks[0]), chunks.drop_first())
    }
}

/// Records in key order, followed by records in key order that start above
/// the last of the first, are in key order.
pub proof fn lemma_ascending_append(a: Seq<RecordModel>, b: Seq<RecordModel>)
    requires
        ascending(a),
        ascending(b),
        a.len() > 0 && b.len() > 0 ==> key_lt(a.last().key, b[0].key),
    ensures
        ascending(a + b),
{
    let s = a + b;
    assert forall|i: int, j: int| 0 <= i < j < s.len() implies key_lt(
        #[trigger] s[i].key,
        #[trigger] s[j].key,
    ) by {
        if j < a.len() {
            assert(key_lt(a[i].key, a[j].key));
        } else if i >= a.len() {
            assert(key_lt(b[i - a.len()].key, b[j - a.len()].key));
        } else {
            if i < a.len() - 1 {
                assert(key_lt(a[i].key, a[a.len() - 1].key));
                lemma_key_lt_transitive(a[i].key, a.last().key, b[0].key);
            }
            if j > a.len() {
                assert(key_lt(b[0].key, b[j - a.len()].key));
                lemma_key_lt_transitive(s[i].key, b[0].key, s[j].key);
            }
        }
    }
}

/// Chunks that a verifier accepted one after the other hold, read in a row,
/// entries in key order: nothing twice, nothing out of place. `before` is
/// what the verifier had accepted when it was in state `v`.
pub proof fn lemma_accepted_in_order(
    v: VerifierModel,
    before: Seq<RecordModel>,
    chunks: Seq<Seq<RecordModel>>,
)
    requires
        ascending(before),
        before.len() == 0 ==> v.last_key is None,
        before.len() > 0 ==> v.last_key == Some(before.last().key),
        accepts_all(v, chunks),
    ensures
        ascending(before + concat(chunks)),
    decreases chunks.len(),
{
    if chunks.len() == 0 {
        assert(before + concat(chunks) =~= before);
    } else {
        let c = chunks[0];
        lemma_ascending_append(before, c);
        lemma_accepted_in_order(after(v, c), before + c, chunks.drop_first());
        lemma_concat_front(chunks);
        assert(before + concat(chunks) =~= (before + c) + concat(chunks.drop_first()));
    }
}

/// A fresh verifier accepts nothing but entries in key order.
pub proof fn lemma_accepted_from_fresh(max_chunk_size: u64, chunks: Seq<Seq<RecordModel>>)
    requires
        accepts_all(fresh(max_chunk_size), chunks),
    ensures
        ascending(concat(chunks)),
{
    lemma_accepted_in_order(fresh(max_chunk_size), Seq::empty(), chunks);
    assert(Seq::<RecordModel>::empty() + concat(chunks) =~= concat(chunks));
}

/// A verifier that has not seen a short chunk accepts the chunks that
/// entries in key order are cut into, if they start above its last key.
pub proof fn lemma_split_accepted(v: VerifierModel, entries: Seq<RecordModel>)
    requires
        v.max_chunk_size >= 1,
        !v.closed,
        ascending(entries),
        v.entries + entries.len() <= u64::MAX,
        v.last_key is Some && entries.len() > 0 ==> key_lt(v.last_key.unwrap(), entries[0].key),
    ensures
        accepts_all(v, split(entries, v.max_chunk_size as nat)),
    decreases entries.len(),
{
    let max = v.max_chunk_size as nat;
    let chunks = split(entries, max);
    if entries.len() == 0 {
    } else if entries.len() <= max {
        assert(chunks[0] == entries);
        assert(chunks.drop_first() =~= Seq::<Seq<RecordModel>>::empty());
        assert(accepts_all(after(v, entries), chunks.drop_first()));
    } else {
        let head = entries.subrange(0, max as int);
        let tail = entries.subrange(max as int, entries.len() as int);
        assert(chunks.drop_first() =~= split(tail, max));
        assert forall|i: int, j: int| 0 <= i < j < head.len() implies key_lt(
            #[trigger] head[i].key,
            #[trigger] head[j].key,
        ) by {
            assert(key_lt(entries[i].key, entries[j].key));
        }
        assert forall|i: int, j: int| 0 <= i < j < tail.len() implies key_lt(
            #[trigger] tail[i].key,
            #[trigger] tail[j].key,
        ) by {
            assert(key_lt(entries[i + max].key, entries[j + max].key));
        }
        assert(key_lt(entries[max - 1].key, entries[max as int].key));
        lemma_split_accepted(after(v, head), tail);
        assert(chunks[0] == head);
        assert(accepts(v, head));
        assert(accepts_all(after(v, head), chunks.drop_first()));
    }
}

/// The running check over the chunks of one run.
#[derive(Debug)]
pub struct ChunkVerifier {
    max_chunk_size: u64,
    last_key: Option<Vec<u8>>,
    entries: u64,
    closed: bool,
}

impl View for ChunkVerifier {
    type V = VerifierModel;

    closed spec fn view(&self) -> VerifierModel {
        VerifierModel {
            max_chunk_size: self.max_chunk_size,
            last_key: match self.last_key {
                Some(k) => Some(k@),
                None => None,
            },
            entries: self.entries,
            closed: self.closed,
        }
    }
}

impl ChunkVerifier {
    /// The verifier for a run with the chunk size given.
    pub fn new(max_chunk_size: u64) -> (v: ChunkVerifier)
        ensures
            v@ == fresh(max_chunk_size),
    {
        ChunkVerifier { max_chunk_size, last_key: None, entries: 0, closed: false }
    }

    /// The number of entries accepted so far.
    pub fn entries(&self) -> (n: u64)
        ensures
            n == self@.entries,
    {
        self.entries
    }

    /// Whether a chunk that was not full has been accepted.
    pub fn is_closed(&self) -> (b: bool)
        ensures
            b == self@.closed,
    {
        self.closed
    }

    /// Checks the next chunk. An accepted chunk moves the verifier on and
    /// gives its bounds; a chunk that is not accepted is a corruption and
    /// leaves the verifier as it was.
    pub fn check(&mut self, records: &Vec<StateRecord>) -> (r: Result<ChunkBounds, BackupError>)
        ensures
            match r {
                Ok(bounds) => {
                    &&& accepts(old(self)@, record_models(records@))
                    &&& final(self)@ == after(old(self)@, record_models(records@))
                    &&& bounds@ == bounds_of(record_models(records@))
                },
                Err(e) => {
                    &&& e == BackupError::CorruptionError
                    &&& !accepts(old(self)@, record_models(records@))
                    &&& final(self)@ == old(self)@
                },
            },
    {
        let ghost models = record_models(records@);
        let n = records.len();
        if self.closed || n == 0 || n as u64 > self.max_chunk_size {
            return Err(BackupError::CorruptionError);
        }
        if !in_key_order(records) {
            return Err(BackupError::CorruptionError);
        }
        assert(models[0] == records@[0]@);
        assert(models.last() == records@[n - 1]@);
        match &self.last_key {
            Some(k) => {
                if !key_less(k, &records[0].key) {
                    return Err(BackupError::CorruptionError);
                }
            },
            None => {},
        }
        let total = match self.entries.checked_add(n as u64) {
            Some(t) => t,
            None => {
                return Err(BackupError::CorruptionError);
            },
        };
        let bounds = ChunkBounds {
            first_key: copy_bytes(&records[0].key),
            last_key: copy_bytes(&records[n - 1].key),
            entry_count: n as u64,
        };
        self.last_key = Some(copy_bytes(&records[n - 1].key));
        self.entries = total;
        self.closed = (n as u64) < self.max_chunk_size;
        Ok(bounds)
    }
}

} // verus!
