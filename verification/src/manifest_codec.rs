//! The stored form of a manifest.
//!
//! A manifest is written as: the version, the 32 bytes of the root hash, the
//! chunk size, the number of entries in the snapshot, the number of chunks,
//! and then each chunk reference as three length-prefixed byte strings
//! (handle, first key, last key) and its entry count. Every number is a
//! `u64`. A manifest has one stored form, and only the stored form of a
//! valid manifest is read back.

use crate::error::BackupError;
use crate::hash::HashValue;
use crate::manifest::{
    chunk_ref_models, chunk_ref_valid, entry_sum, manifest_valid, ChunkRef, ChunkRefModel,
    Manifest, ManifestModel,
};
use crate::wire::{
    blob_bytes, lemma_take_blob_canonical, lemma_take_blob_of_bytes, lemma_take_u64_canonical,
    lemma_take_u64_of_bytes, put_blob, put_u64, read_blob, read_fixed, read_u64, take_blob,
    take_fixed, take_u64, u64_bytes,
};
use vstd::prelude::*;

verus! {

/// The stored form of one chunk reference.
pub open spec fn chunk_ref_bytes(c: ChunkRefModel) -> Seq<u8> {
    blob_bytes(c.handle) + blob_bytes(c.first_key) + blob_bytes(c.last_key) + u64_bytes(
        c.entry_count,
    )
}

/// The stored forms of the chunk references, one after the other.
pub open spec fn chunk_refs_bytes(chunks: Seq<ChunkRefModel>) -> Seq<u8>
    decreases chunks.len(),
{
    if chunks.len() == 0 {
        Seq::empty()
    } else {
        chunk_refs_bytes(chunks.drop_last()) + chunk_ref_bytes(chunks.last())
    }
}

/// The fields that stand before the chunk references.
pub open spec fn header_bytes(m: ManifestModel) -> Seq<u8> {
    u64_bytes(m.version) + m.root_hash + u64_bytes(m.max_chunk_size) + u64_bytes(
        entry_sum(m.chunks) as u64,
    ) + u64_bytes(m.chunks.len() as u64)
}

/// The stored form of a manifest.
pub open spec fn manifest_bytes(m: ManifestModel) -> Seq<u8> {
    header_bytes(m) + chunk_refs_bytes(m.chunks)
}

/// Takes one chunk reference off the front of `s`.
pub open spec fn take_chunk_ref(s: Seq<u8>) -> Option<(ChunkRefModel, Seq<u8>)> {
    match take_blob(s) {
        Some((handle, s1)) => match take_blob(s1) {
            Some((first_key, s2)) => match take_blob(s2) {
                Some((last_key, s3)) => match take_u64(s3) {
                    Some((entry_count, s4)) => Some(
                        (ChunkRefModel { handle, first_key, last_key, entry_count }, s4),
                    ),
                    None => None,
                },
                None => None,
            },
            None => None,
        },
        None => None,
    }
}

/// Takes `n` chunk references off the front of `s`.
pub open spec fn take_chunk_refs(s: Seq<u8>, n: nat) -> Option<(Seq<ChunkRefModel>, Seq<u8>)>
    decreases n,
{
    if n == 0 {
        Some((Seq::empty(), s))
    } else {
        match take_chunk_ref(s) {
            Some((c, rest)) => match take_chunk_refs(rest, (n - 1) as nat) {
                Some((more, tail)) => Some((seq![c] + more, tail)),
                None => None,
            },
            None => None,
        }
    }
}

/// The numbers and the digest at the front of a stored manifest.
pub struct Header {
    pub version: u64,
    pub root_hash: Seq<u8>,
    pub max_chunk_size: u64,
    pub entries: u64,
    pub chunks: u64,
}

/// Takes the header off the front of `s`.
pub open spec fn take_header(s: Seq<u8>) -> Option<(Header, Seq<u8>)> {
    match take_u64(s) {
        Some((version, s1)) => match take_fixed(s1, 32) {
            Some((root_hash, s2)) => match take_u64(s2) {
                Some((max_chunk_size, s3)) => match take_u64(s3) {
                    Some((entries, s4)) => match take_u64(s4) {
                        Some((chunks, s5)) => Some(
                            (Header { version, root_hash, max_chunk_size, entries, chunks }, s5),
                        ),
                        None => None,
                    },
                    None => None,
                },
                None => None,
            },
            None => None,
        },
        None => None,
    }
}

/// The manifest that `s` is the stored form of, if it is one: a header, as
/// many chunk references as the header says, nothing after them, and
/// together a valid manifest with as many entries as the header says.
pub open spec fn parse_manifest(s: Seq<u8>) -> Option<ManifestModel> {
    match take_header(s) {
        Some((h, rest)) => match take_chunk_refs(rest, h.chunks as nat) {
            Some((chunks, tail)) => {
                let m = ManifestModel {
                    version: h.version,
                    root_hash: h.root_hash,
                    max_chunk_size: h.max_chunk_size,
                    chunks,
                };
                if tail.len() == 0 && manifest_valid(m) && entry_sum(chunks) == h.entries {
                    Some(m)
                } else {
                    None
                }
            },
            None => None,
        },
        None => None,
    }
}

/// The stored form of a sequence of chunk references starts with that of
/// its first.
pub proof fn lemma_chunk_refs_bytes_front(chunks: Seq<ChunkRefModel>)
    requires
        chunks.len() > 0,
    ensures
        chunk_refs_bytes(chunks) == chunk_ref_bytes(chunks[0]) + chunk_refs_bytes(
            chunks.drop_first(),
        ),
    decreases chunks.len(),
{
    if chunks.len() == 1 {
        assert(chunks.drop_last() =~= Seq::<ChunkRefModel>::empty());
        assert(chunks.drop_first() =~= Seq::<ChunkRefModel>::empty());
        assert(chunk_refs_bytes(chunks) =~= chunk_ref_bytes(chunks[0]) + chunk_refs_bytes(
            chunks.drop_first(),
        ));
    } else {
        let init = chunks.drop_last();
        lemma_chunk_refs_bytes_front(init);
        assert(init.drop_first() =~= chunks.drop_first().drop_last());
        assert(chunks.drop_first().last() == chunks.last());
        assert(chunk_refs_bytes(chunks) =~= chunk_ref_bytes(chunks[0]) + chunk_refs_bytes(
            chunks.drop_first(),
        ));
    }
}

/// A chunk reference that was written is read back.
pub proof fn lemma_take_chunk_ref_of_bytes(c: ChunkRefModel, rest: Seq<u8>)
    requires
        c.handle.len() <= u64::MAX,
        c.first_key.len() <= u64::MAX,
        c.last_key.len() <= u64::MAX,
    ensures
        take_chunk_ref(chunk_ref_bytes(c) + rest) == Some((c, rest)),
{
    let s3 = u64_bytes(c.entry_count) + rest;
    let s2 = blob_bytes(c.last_key) + s3;
    let s1 = blob_bytes(c.first_key) + s2;
    lemma_take_blob_of_bytes(c.handle, s1);
    lemma_take_blob_of_bytes(c.first_key, s2);
    lemma_take_blob_of_bytes(c.last_key, s3);
    lemma_take_u64_of_bytes(c.entry_count, rest);
    assert(chunk_ref_bytes(c) + rest =~= blob_bytes(c.handle) + s1);
}

/// A chunk reference that was read stands at the front in its one stored
/// form.
pub proof fn lemma_take_chunk_ref_canonical(s: Seq<u8>)
    requires
        take_chunk_ref(s) is Some,
    ensures
        s == chunk_ref_bytes(take_chunk_ref(s).unwrap().0) + take_chunk_ref(s).unwrap().1,
{
    let (handle, s1) = take_blob(s).unwrap();
    let (first_key, s2) = take_blob(s1).unwrap();
    let (last_key, s3) = take_blob(s2).unwrap();
    let (entry_count, s4) = take_u64(s3).unwrap();
    lemma_take_blob_canonical(s);
    lemma_take_blob_canonical(s1);
    lemma_take_blob_canonical(s2);
    lemma_take_u64_canonical(s3);
    assert(s =~= (blob_bytes(handle) + blob_bytes(first_key) + blob_bytes(last_key) + u64_bytes(
        entry_count,
    )) + s4);
}

/// Chunk references that were written are read back.
pub proof fn lemma_take_chunk_refs_of_bytes(chunks: Seq<ChunkRefModel>, max: u64, rest: Seq<u8>)
    requires
        forall|i: int| 0 <= i < chunks.len() ==> chunk_ref_valid(#[trigger] chunks[i], max),
    ensures
        take_chunk_refs(chunk_refs_bytes(chunks) + rest, chunks.len()) == Some((chunks, rest)),
    decreases chunks.len(),
{
    if chunks.len() == 0 {
        assert(chunk_refs_bytes(chunks) + rest =~= rest);
        assert(chunks =~= Seq::<ChunkRefModel>::empty());
    } else {
        let first = chunks[0];
        let more = chunks.drop_first();
        assert(chunk_ref_valid(first, max));
        assert forall|i: int| 0 <= i < more.len() implies chunk_ref_valid(
            #[trigger] more[i],
            max,
        ) by {
            assert(more[i] == chunks[i + 1]);
        }
        lemma_chunk_refs_bytes_front(chunks);
        lemma_take_chunk_ref_of_bytes(first, chunk_refs_bytes(more) + rest);
        lemma_take_chunk_refs_of_bytes(more, max, rest);
        assert(chunk_refs_bytes(chunks) + rest =~= chunk_ref_bytes(first) + (chunk_refs_bytes(more)
            + rest));
        assert(seq![first] + more =~= chunks);
    }
}

/// Chunk references that were read stand at the front in their one stored
/// form.
pub proof fn lemma_take_chunk_refs_canonical(s: Seq<u8>, n: nat)
    requires
        take_chunk_refs(s, n) is Some,
    ensures
        take_chunk_refs(s, n).unwrap().0.len() == n,
        s == chunk_refs_bytes(take_chunk_refs(s, n).unwrap().0) + take_chunk_refs(
            s,
            n,
        ).unwrap().1,
    decreases n,
{
    if n == 0 {
        assert(s =~= chunk_refs_bytes(Seq::<ChunkRefModel>::empty()) + s);
    } else {
        let (c, rest) = take_chunk_ref(s).unwrap();
        let (more, tail) = take_chunk_refs(rest, (n - 1) as nat).unwrap();
        lemma_take_chunk_ref_canonical(s);
        lemma_take_chunk_refs_canonical(rest, (n - 1) as nat);
        let all = seq![c] + more;
        assert(all.drop_first() =~= more);
        lemma_chunk_refs_bytes_front(all);
        assert(s =~= (chunk_ref_bytes(c) + chunk_refs_bytes(more)) + tail);
    }
}

/// The header that was written is read back.
pub proof fn lemma_take_header_of_bytes(m: ManifestModel, rest: Seq<u8>)
    requires
        m.root_hash.len() == 32,
    ensures
        take_header(header_bytes(m) + rest) == Some(
            (
                Header {
                    version: m.version,
                    root_hash: m.root_hash,
                    max_chunk_size: m.max_chunk_size,
                    entries: entry_sum(m.chunks) as u64,
                    chunks: m.chunks.len() as u64,
                },
                rest,
            ),
        ),
{
    let s5 = rest;
    let s4 = u64_bytes(m.chunks.len() as u64) + s5;
    let s3 = u64_bytes(entry_sum(m.chunks) as u64) + s4;
    let s2 = u64_bytes(m.max_chunk_size) + s3;
    let s1 = m.root_hash + s2;
    lemma_take_u64_of_bytes(m.version, s1);
    lemma_take_u64_of_bytes(m.max_chunk_size, s3);
    lemma_take_u64_of_bytes(entry_sum(m.chunks) as u64, s4);
    lemma_take_u64_of_bytes(m.chunks.len() as u64, s5);
    assert(header_bytes(m) + rest =~= u64_bytes(m.version) + s1);
    assert(s1.subrange(0, 32) =~= m.root_hash);
    assert(s1.subrange(32, s1.len() as int) =~= s2);
}

/// The stored form of a valid manifest is read back as that manifest.
pub proof fn lemma_parse_of_manifest_bytes(m: ManifestModel)
    requires
        manifest_valid(m),
    ensures
        parse_manifest(manifest_bytes(m)) == Some(m),
{
    let rest = chunk_refs_bytes(m.chunks);
    lemma_take_header_of_bytes(m, rest);
    lemma_take_chunk_refs_of_bytes(m.chunks, m.max_chunk_size, Seq::empty());
    assert(rest + Seq::<u8>::empty() =~= rest);
}

/// Only the stored form of a manifest is read as that manifest: two byte
/// sequences that are read as the same manifest are the same.
pub proof fn lemma_manifest_bytes_canonical(s: Seq<u8>)
    requires
        parse_manifest(s) is Some,
    ensures
        s == manifest_bytes(parse_manifest(s).unwrap()),
        manifest_valid(parse_manifest(s).unwrap()),
{
    let (version, s1) = take_u64(s).unwrap();
    let (root_hash, s2) = take_fixed(s1, 32).unwrap();
    let (max_chunk_size, s3) = take_u64(s2).unwrap();
    let (entries, s4) = take_u64(s3).unwrap();
    let (n, s5) = take_u64(s4).unwrap();
    let (chunks, tail) = take_chunk_refs(s5, n as nat).unwrap();
    let m = parse_manifest(s).unwrap();
    lemma_take_u64_canonical(s);
    lemma_take_u64_canonical(s2);
    lemma_take_u64_canonical(s3);
    lemma_take_u64_canonical(s4);
    lemma_take_chunk_refs_canonical(s5, n as nat);
    assert(s1 =~= root_hash + s2);
    assert(s5 =~= chunk_refs_bytes(chunks));
    assert(s =~= header_bytes(m) + chunk_refs_bytes(chunks));
}

/// Writes a manifest in its stored form.
pub fn encode_manifest(manifest: &Manifest) -> (out: Vec<u8>)
    ensures
        out@ == manifest_bytes(manifest@),
{
    let chunks = manifest.chunks();
    let ghost models = manifest@.chunks;
    let mut out: Vec<u8> = Vec::new();
    put_u64(&mut out, manifest.version());
    let mut root = manifest.root_hash().to_vec();
    out.append(&mut root);
    put_u64(&mut out, manifest.max_chunk_size());
    put_u64(&mut out, manifest.entry_total());
    put_u64(&mut out, chunks.len() as u64);
    let ghost head = out@;
    assert(head =~= header_bytes(manifest@));
    let mut i: usize = 0;
    assert(models.subrange(0, 0) =~= Seq::<ChunkRefModel>::empty());
    assert(out@ =~= head + chunk_refs_bytes(models.subrange(0, 0)));
    while i < chunks.len()
        invariant
            i <= chunks.len(),
            models == chunk_ref_models(chunks@),
            out@ == head + chunk_refs_bytes(models.subrange(0, i as int)),
        decreases chunks.len() - i,
    {
        let c = &chunks[i];
        let ghost before = out@;
        put_blob(&mut out, &c.handle);
        put_blob(&mut out, &c.first_key);
        put_blob(&mut out, &c.last_key);
        put_u64(&mut out, c.entry_count);
        proof {
            let upto = models.subrange(0, i + 1);
            assert(upto.drop_last() =~= models.subrange(0, i as int));
            assert(upto.last() == c@);
            assert(out@ =~= before + chunk_ref_bytes(c@));
            assert(out@ =~= head + chunk_refs_bytes(upto));
        }
        i += 1;
    }
    assert(models.subrange(0, i as int) =~= models);
    out
}

/// Reads one chunk reference at the front of `buf`.
pub fn read_chunk_ref<'a>(buf: &'a [u8]) -> (r: Option<(ChunkRef, &'a [u8])>)
    ensures
        match r {
            Some((c, rest)) => take_chunk_ref(buf@) == Some((c@, rest@)),
            None => take_chunk_ref(buf@) is None,
        },
{
    let (handle, s1) = match read_blob(buf) {
        Some(p) => p,
        None => { return None; },
    };
    let (first_key, s2) = match read_blob(s1) {
        Some(p) => p,
        None => { return None; },
    };
    let (last_key, s3) = match read_blob(s2) {
        Some(p) => p,
        None => { return None; },
    };
    let (entry_count, s4) = match read_u64(s3) {
        Some(p) => p,
        None => { return None; },
    };
    Some((ChunkRef { handle, first_key, last_key, entry_count }, s4))
}

/// Reads a manifest from its stored form. Anything that is not the stored
/// form of a valid manifest is a corruption: a missing field, bytes after
/// the last chunk reference, chunk references that cannot follow one
/// another, or chunks that do not hold the number of entries the header
/// gives (so also: no chunks at all for a snapshot that had entries).
pub fn decode_manifest(bytes: &[u8]) -> (r: Result<Manifest, BackupError>)
    ensures
        match r {
            Ok(m) => parse_manifest(bytes@) == Some(m@),
            Err(e) => e == BackupError::CorruptionError && parse_manifest(bytes@) is None,
        },
{
    let (version, s1) = match read_u64(bytes) {
        Some(p) => p,
        None => { return Err(BackupError::CorruptionError); },
    };
    let (root_bytes, s2) = match read_fixed(s1, 32) {
        Some(p) => p,
        None => { return Err(BackupError::CorruptionError); },
    };
    let (max_chunk_size, s3) = match read_u64(s2) {
        Some(p) => p,
        None => { return Err(BackupError::CorruptionError); },
    };
    let (entries, s4) = match read_u64(s3) {
        Some(p) => p,
        None => { return Err(BackupError::CorruptionError); },
    };
    let (n, body) = match read_u64(s4) {
        Some(p) => p,
        None => { return Err(BackupError::CorruptionError); },
    };
    let root_hash = match HashValue::from_slice(root_bytes) {
        Some(h) => h,
        None => { return Err(BackupError::CorruptionError); },
    };
    let ghost header = Header {
        version,
        root_hash: root_hash@,
        max_chunk_size,
        entries,
        chunks: n,
    };
    assert(take_header(bytes@) == Some((header, body@)));
    let mut chunks: Vec<ChunkRef> = Vec::new();
    let mut rest: &[u8] = body;
    let mut i: u64 = 0;
    assert(chunk_ref_models(chunks@) =~= Seq::<ChunkRefModel>::empty());
    while i < n
        invariant
            i <= n,
            chunks@.len() == i,
            take_header(bytes@) == Some((header, body@)),
            header.chunks == n,
            take_chunk_refs(body@, n as nat) == match take_chunk_refs(rest@, (n - i) as nat) {
                Some((more, tail)) => Some((chunk_ref_models(chunks@) + more, tail)),
                None => None,
            },
        decreases n - i,
    {
        let ghost before = chunk_ref_models(chunks@);
        match read_chunk_ref(rest) {
            None => {
                return Err(BackupError::CorruptionError);
            },
            Some((c, tail)) => {
                let ghost m = c@;
                chunks.push(c);
                rest = tail;
                proof {
                    assert(chunk_ref_models(chunks@) =~= before.push(m));
                    match take_chunk_refs(tail@, (n - i - 1) as nat) {
                        Some((more, end)) => {
                            assert(before + (seq![m] + more) =~= before.push(m) + more);
                        },
                        None => {},
                    }
                }
            },
        }
        i += 1;
    }
    assert(chunk_ref_models(chunks@) + Seq::<ChunkRefModel>::empty() =~= chunk_ref_models(
        chunks@,
    ));
    if rest.len() != 0 {
        return Err(BackupError::CorruptionError);
    }
    match Manifest::seal(version, root_hash, max_chunk_size, chunks) {
        Err(_) => Err(BackupError::CorruptionError),
        Ok(m) => {
            if m.entry_total() != entries {
                return Err(BackupError::CorruptionError);
            }
            Ok(m)
        },
    }
}

} // verus!
