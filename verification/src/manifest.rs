//! The manifest: the sealed description of one finished backup.
//!
//! A manifest names the version and root hash of the snapshot, the chunk
//! size the run was made with, and its chunks in the order in which a
//! restore replays them. It is made once, when the last chunk of a run has
//! been stored, and never changed.

use crate::error::BackupError;
use crate::hash::HashValue;
use crate::record::{copy_bytes, key_less, key_lt, same_bytes};
use vstd::prelude::*;

verus! {

/// What a manifest says of one chunk: where it is stored, the keys of its
/// first and last entry, and how many entries it holds.
#[derive(Clone, Debug, PartialEq, Eq)]
pub struct ChunkRef {
    pub handle: Vec<u8>,
    pub first_key: Vec<u8>,
    pub last_key: Vec<u8>,
    pub entry_count: u64,
}

/// What a [`ChunkRef`] holds, as mathematical values.
pub struct ChunkRefModel {
    pub handle: Seq<u8>,
    pub first_key: Seq<u8>,
    pub last_key: Seq<u8>,
    pub entry_count: u64,
}

impl View for ChunkRef {
    type V = ChunkRefModel;

    open spec fn view(&self) -> ChunkRefModel {
        ChunkRefModel {
            handle: self.handle@,
            first_key: self.first_key@,
            last_key: self.last_key@,
            entry_count: self.entry_count,
        }
    }
}

impl ChunkRef {
    /// A copy of the reference.
    pub fn duplicate(&self) -> (r: ChunkRef)
        ensures
            r@ == self@,
    {
        ChunkRef {
            handle: copy_bytes(&self.handle),
            first_key: copy_bytes(&self.first_key),
            last_key: copy_bytes(&self.last_key),
            entry_count: self.entry_count,
        }
    }
}

/// The models of a sequence of chunk references, in the same order.
pub open spec fn chunk_ref_models(chunks: Seq<ChunkRef>) -> Seq<ChunkRefModel> {
    Seq::new(chunks.len(), |i: int| chunks[i]@)
}

/// A copy of the chunk references.
pub fn copy_chunk_refs(chunks: &Vec<ChunkRef>) -> (r: Vec<ChunkRef>)
    ensures
        chunk_ref_models(r@) == chunk_ref_models(chunks@),
{
    let mut r: Vec<ChunkRef> = Vec::new();
    let mut i: usize = 0;
    while i < chunks.len()
        invariant
            i <= chunks.len(),
            r@.len() == i,
            forall|j: int| 0 <= j < i ==> (#[trigger] r@[j])@ == chunks@[j]@,
        decreases chunks.len() - i,
    {
        r.push(chunks[i].duplicate());
        i += 1;
    }
    assert(chunk_ref_models(r@) =~= chunk_ref_models(chunks@));
    r
}

/// What a [`Manifest`] holds, as mathematical values.
pub struct ManifestModel {
    pub version: u64,
    pub root_hash: Seq<u8>,
    pub max_chunk_size: u64,
    pub chunks: Seq<ChunkRefModel>,
}

/// The number of entries that the chunks hold together.
pub open spec fn entry_sum(chunks: Seq<ChunkRefModel>) -> nat
    decreases chunks.len(),
{
    if chunks.len() == 0 {
        0
    } else {
        entry_sum(chunks.drop_last()) + chunks.last().entry_count as nat
    }
}

/// A chunk reference that can stand in a manifest made with chunk size
/// `max`: it holds at least one entry and at most `max`, and its two keys
/// are the same for one entry and in order for more.
pub open spec fn chunk_ref_valid(c: ChunkRefModel, max: u64) -> bool {
    &&& 1 <= c.entry_count <= max
    &&& c.entry_count == 1 ==> c.first_key == c.last_key
    &&& c.entry_count > 1 ==> key_lt(c.first_key, c.last_key)
    &&& c.handle.len() <= u64::MAX
    &&& c.first_key.len() <= u64::MAX
    &&& c.last_key.len() <= u64::MAX
}

/// Chunk references that can follow one another in a manifest made with
/// chunk size `max`: each is valid, every chunk but the last is full, and
/// each chunk starts above the last key of the one before it.
pub open spec fn chunk_refs_valid(chunks: Seq<ChunkRefModel>, max: u64) -> bool {
    &&& forall|i: int| 0 <= i < chunks.len() ==> chunk_ref_valid(#[trigger] chunks[i], max)
    &&& forall|i: int|
        0 <= i < chunks.len() - 1 ==> (#[trigger] chunks[i]).entry_count == max && key_lt(
            chunks[i].last_key,
            chunks[i + 1].first_key,
        )
}

/// A manifest that describes a backup: a digest of 32 bytes, a chunk size of
/// at least one, chunk references that can follow one another, and a number
/// of chunks and of entries that a `u64` can hold.
pub open spec fn manifest_valid(m: ManifestModel) -> bool {
    &&& m.root_hash.len() == 32
    &&& m.max_chunk_size >= 1
    &&& chunk_refs_valid(m.chunks, m.max_chunk_size)
    &&& m.chunks.len() <= u64::MAX
    &&& entry_sum(m.chunks) <= u64::MAX
}

/// The entries of the first chunks are among the entries of all.
pub proof fn lemma_entry_sum_prefix(chunks: Seq<ChunkRefModel>, k: int)
    requires
        0 <= k <= chunks.len(),
    ensures
        entry_sum(chunks.subrange(0, k)) <= entry_sum(chunks),
    decreases chunks.len() - k,
{
    if k == chunks.len() {
        assert(chunks.subrange(0, k) =~= chunks);
    } else {
        lemma_entry_sum_prefix(chunks, k + 1);
        assert(chunks.subrange(0, k + 1).drop_last() =~= chunks.subrange(0, k));
    }
}

/// Checks that the chunk references can follow one another in a manifest
/// made with chunk size `max`, and counts their entries.
pub fn count_entries(chunks: &Vec<ChunkRef>, max: u64) -> (r: Option<u64>)
    ensures
        match r {
            Some(total) => chunk_refs_valid(chunk_ref_models(chunks@), max) && total == entry_sum(
                chunk_ref_models(chunks@),
            ),
            None => !chunk_refs_valid(chunk_ref_models(chunks@), max) || entry_sum(
                chunk_ref_models(chunks@),
            ) > u64::MAX,
        },
{
    let ghost models = chunk_ref_models(chunks@);
    let mut total: u64 = 0;
    let mut i: usize = 0;
    assert(models.subrange(0, 0) =~= Seq::<ChunkRefModel>::empty());
    while i < chunks.len()
        invariant
            i <= chunks.len(),
            models == chunk_ref_models(chunks@),
            chunk_refs_valid(models.subrange(0, i as int), max),
            total == entry_sum(models.subrange(0, i as int)),
        decreases chunks.len() - i,
    {
        let c = &chunks[i];
        assert(models[i as int] == c@);
        if c.entry_count < 1 || c.entry_count > max {
            return None;
        }
        if c.entry_count == 1 {
            if !same_bytes(&c.first_key, &c.last_key) {
                return None;
            }
        } else {
            if !key_less(&c.first_key, &c.last_key) {
                return None;
            }
        }
        if i > 0 {
            let p = &chunks[i - 1];
            assert(models[i - 1] == p@);
            if p.entry_count != max || !key_less(&p.last_key, &c.first_key) {
                return None;
            }
        }
        proof {
            let before = models.subrange(0, i as int);
            let after = models.subrange(0, i + 1);
            assert(after.drop_last() =~= before);
            assert forall|j: int| 0 <= j < after.len() implies chunk_ref_valid(
                #[trigger] after[j],
                max,
            ) by {
                if j < i {
                    assert(chunk_ref_valid(before[j], max));
                } else {
                    assert(c.handle@.len() == c.handle.len());
                    assert(c.first_key@.len() == c.first_key.len());
                    assert(c.last_key@.len() == c.last_key.len());
                }
            }
            assert forall|j: int| 0 <= j < after.len() - 1 implies (#[trigger] after[j]).entry_count
                == max && key_lt(after[j].last_key, after[j + 1].first_key) by {
                if j < i - 1 {
                    assert(before[j].entry_count == max && key_lt(
                        before[j].last_key,
                        before[j + 1].first_key,
                    ));
                }
            }
        }
        match total.checked_add(c.entry_count) {
            Some(t) => {
                total = t;
            },
            None => {
                proof {
                    lemma_entry_sum_prefix(models, i + 1);
                }
                return None;
            },
        }
        i += 1;
    }
    assert(models.subrange(0, i as int) =~= models);
    Some(total)
}

/// The sealed description of a finished backup. Every value of this type is
/// a valid manifest: see [`manifest_valid`].
#[derive(Debug, PartialEq, Eq)]
pub struct Manifest {
    version: u64,
    root_hash: HashValue,
    max_chunk_size: u64,
    chunks: Vec<ChunkRef>,
}

impl View for Manifest {
    type V = ManifestModel;

    closed spec fn view(&self) -> ManifestModel {
        ManifestModel {
            version: self.version,
            root_hash: self.root_hash@,
            max_chunk_size: self.max_chunk_size,
            chunks: chunk_ref_models(self.chunks@),
        }
    }
}

impl Manifest {
    /// What holds of every manifest.
    #[verifier::type_invariant]
    pub open spec fn sealed(self) -> bool {
        manifest_valid(self@)
    }

    /// Seals a manifest over the chunks of a run. The chunks must be able to
    /// follow one another under the chunk size given; anything else is
    /// refused as a corruption.
    pub fn seal(version: u64, root_hash: HashValue, max_chunk_size: u64, chunks: Vec<ChunkRef>) -> (r:
        Result<Manifest, BackupError>)
        ensures
            match r {
                Ok(m) => m@ == (ManifestModel {
                    version,
                    root_hash: root_hash@,
                    max_chunk_size,
                    chunks: chunk_ref_models(chunks@),
                }) && manifest_valid(m@),
                Err(e) => e == BackupError::CorruptionError && !manifest_valid(
                    ManifestModel {
                        version,
                        root_hash: root_hash@,
                        max_chunk_size,
                        chunks: chunk_ref_models(chunks@),
                    },
                ),
            },
    {
        if max_chunk_size < 1 {
            return Err(BackupError::CorruptionError);
        }
        proof {
            root_hash.lemma_length();
        }
        match count_entries(&chunks, max_chunk_size) {
            None => Err(BackupError::CorruptionError),
            Some(_) => {
                assert(chunks@.len() == chunks.len());
                Ok(Manifest { version, root_hash, max_chunk_size, chunks })
            },
        }
    }

    /// The version of the snapshot.
    pub fn version(&self) -> (v: u64)
        ensures
            v == self@.version,
    {
        self.version
    }

    /// The root hash of the snapshot.
    pub fn root_hash(&self) -> (h: HashValue)
        ensures
            h@ == self@.root_hash,
    {
        self.root_hash
    }

    /// The chunk size the backup was made with.
    pub fn max_chunk_size(&self) -> (n: u64)
        ensures
            n == self@.max_chunk_size,
            n >= 1,
    {
        proof {
            use_type_invariant(self);
        }
        self.max_chunk_size
    }

    /// The chunks in replay order.
    pub fn chunks(&self) -> (r: &Vec<ChunkRef>)
        ensures
            chunk_ref_models(r@) == self@.chunks,
    {
        &self.chunks
    }

    /// The number of chunks.
    pub fn chunk_count(&self) -> (n: usize)
        ensures
            n == self@.chunks.len(),
    {
        self.chunks.len()
    }

    /// The chunk at place `index` in replay order, if there is one.
    pub fn chunk(&self, index: usize) -> (r: Option<ChunkRef>)
        ensures
            match r {
                Some(c) => index < self@.chunks.len() && c@ == self@.chunks[index as int],
                None => index >= self@.chunks.len(),
            },
    {
        if index < self.chunks.len() {
            Some(self.chunks[index].duplicate())
        } else {
            None
        }
    }

    /// The number of entries in the snapshot.
    pub fn entry_total(&self) -> (n: u64)
        ensures
            n == entry_sum(self@.chunks),
    {
        proof {
            use_type_invariant(self);
        }
        match count_entries(&self.chunks, self.max_chunk_size) {
            Some(total) => total,
            None => {
                assert(false);
                0
            },
        }
    }
}

} // verus!
