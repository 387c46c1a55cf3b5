//! The stored form of a chunk: the number of its records, then each record
//! as three length-prefixed byte strings (key, value, proof fragment).

use crate::error::BackupError;
use crate::record::{record_models, RecordModel, StateRecord};
use crate::wire::{
    blob_bytes, lemma_take_blob_canonical, lemma_take_blob_of_bytes, lemma_take_u64_canonical,
    lemma_take_u64_of_bytes, put_blob, put_u64, read_blob, read_u64, take_blob, take_u64,
    u64_bytes,
};
use vstd::prelude::*;

verus! {

/// A record whose three byte strings are short enough to be written behind a
/// `u64` length. Every record held in memory is.
pub open spec fn record_fits(r: RecordModel) -> bool {
    r.key.len() <= u64::MAX && r.value.len() <= u64::MAX && r.proof.len() <= u64::MAX
}

/// The stored form of one record.
pub open spec fn record_bytes(r: RecordModel) -> Seq<u8> {
    blob_bytes(r.key) + blob_bytes(r.value) + blob_bytes(r.proof)
}

/// The stored forms of the records, one after the other.
pub open spec fn records_bytes(records: Seq<RecordModel>) -> Seq<u8>
    decreases records.len(),
{
    if records.len() == 0 {
        Seq::empty()
    } else {
        records_bytes(records.drop_last()) + record_bytes(records.last())
    }
}

/// The stored form of a chunk.
pub open spec fn chunk_bytes(records: Seq<RecordModel>) -> Seq<u8> {
    u64_bytes(records.len() as u64) + records_bytes(records)
}

/// Takes one record off the front of `s`.
pub open spec fn take_record(s: Seq<u8>) -> Option<(RecordModel, Seq<u8>)> {
    match take_blob(s) {
        Some((key, s1)) => match take_blob(s1) {
            Some((value, s2)) => match take_blob(s2) {
                Some((proof, s3)) => Some((RecordModel { key, value, proof }, s3)),
                None => None,
            },
            None => None,
        },
        None => None,
    }
}

/// Takes `n` records off the front of `s`.
pub open spec fn take_records(s: Seq<u8>, n: nat) -> Option<(Seq<RecordModel>, Seq<u8>)>
    decreases n,
{
    if n == 0 {
        Some((Seq::empty(), s))
    } else {
        match take_record(s) {
            Some((r, rest)) => match take_records(rest, (n - 1) as nat) {
                Some((more, tail)) => Some((seq![r] + more, tail)),
                None => None,
            },
            None => None,
        }
    }
}

/// The records that `s` is the stored form of, if it is one: a count, that
/// many records, and nothing after them.
pub open spec fn parse_chunk(s: Seq<u8>) -> Option<Seq<RecordModel>> {
    match take_u64(s) {
        Some((n, rest)) => match take_records(rest, n as nat) {
            Some((records, tail)) => if tail.len() == 0 {
                Some(records)
            } else {
                None
            },
            None => None,
        },
        None => None,
    }
}

/// The stored form of a sequence of records starts with that of its first.
pub proof fn lemma_records_bytes_front(records: Seq<RecordModel>)
    requires
        records.len() > 0,
    ensures
        records_bytes(records) == record_bytes(records[0]) + records_bytes(records.drop_first()),
    decreases records.len(),
{
    if records.len() == 1 {
        assert(records.drop_last() =~= Seq::<RecordModel>::empty());
        assert(records.drop_first() =~= Seq::<RecordModel>::empty());
        assert(records_bytes(records) =~= record_bytes(records[0]) + records_bytes(
            records.drop_first(),
        ));
    } else {
        let init = records.drop_last();
        lemma_records_bytes_front(init);
        assert(init.drop_first() =~= records.drop_first().drop_last());
        assert(records.drop_first().last() == records.last());
        assert(records_bytes(records) =~= record_bytes(records[0]) + records_bytes(
            records.drop_first(),
        ));
    }
}

/// A record that was written is read back.
pub proof fn lemma_take_record_of_bytes(r: RecordModel, rest: Seq<u8>)
    requires
        record_fits(r),
    ensures
        take_record(record_bytes(r) + rest) == Some((r, rest)),
{
    let s2 = blob_bytes(r.proof) + rest;
    let s1 = blob_bytes(r.value) + s2;
    lemma_take_blob_of_bytes(r.key, s1);
    lemma_take_blob_of_bytes(r.value, s2);
    lemma_take_blob_of_bytes(r.proof, rest);
    assert(record_bytes(r) + rest =~= blob_bytes(r.key) + s1);
}

/// A record that was read stands at the front in its one stored form.
pub proof fn lemma_take_record_canonical(s: Seq<u8>)
    requires
        take_record(s) is Some,
    ensures
        record_fits(take_record(s).unwrap().0),
        s == record_bytes(take_record(s).unwrap().0) + take_record(s).unwrap().1,
{
    let (key, s1) = take_blob(s).unwrap();
    let (value, s2) = take_blob(s1).unwrap();
    let (proof, s3) = take_blob(s2).unwrap();
    lemma_take_blob_canonical(s);
    lemma_take_blob_canonical(s1);
    lemma_take_blob_canonical(s2);
    assert(s =~= (blob_bytes(key) + blob_bytes(value) + blob_bytes(proof)) + s3);
}

/// Records that were written are read back.
pub proof fn lemma_take_records_of_bytes(records: Seq<RecordModel>, rest: Seq<u8>)
    requires
        forall|i: int| 0 <= i < records.len() ==> record_fits(#[trigger] records[i]),
    ensures
        take_records(records_bytes(records) + rest, records.len()) == Some((records, rest)),
    decreases records.len(),
{
    if records.len() == 0 {
        assert(records_bytes(records) + rest =~= rest);
        assert(records =~= Seq::<RecordModel>::empty());
    } else {
        let first = records[0];
        let more = records.drop_first();
        lemma_records_bytes_front(records);
        lemma_take_record_of_bytes(first, records_bytes(more) + rest);
        lemma_take_records_of_bytes(more, rest);
        assert(records_bytes(records) + rest =~= record_bytes(first) + (records_bytes(more)
            + rest));
        assert(seq![first] + more =~= records);
    }
}

/// Records that were read stand at the front in their one stored form.
pub proof fn lemma_take_records_canonical(s: Seq<u8>, n: nat)
    requires
        take_records(s, n) is Some,
    ensures
        take_records(s, n).unwrap().0.len() == n,
        s == records_bytes(take_records(s, n).unwrap().0) + take_records(s, n).unwrap().1,
        forall|i: int|
            0 <= i < n ==> record_fits(#[trigger] take_records(s, n).unwrap().0[i]),
    decreases n,
{
    if n == 0 {
        assert(s =~= records_bytes(Seq::<RecordModel>::empty()) + s);
    } else {
        let (r, rest) = take_record(s).unwrap();
        let (more, tail) = take_records(rest, (n - 1) as nat).unwrap();
        lemma_take_record_canonical(s);
        lemma_take_records_canonical(rest, (n - 1) as nat);
        let all = seq![r] + more;
        assert(all.drop_first() =~= more);
        lemma_records_bytes_front(all);
        assert(s =~= (record_bytes(r) + records_bytes(more)) + tail);
        assert forall|i: int| 0 <= i < n implies record_fits(#[trigger] all[i]) by {
            if i > 0 {
                assert(all[i] == more[i - 1]);
            }
        }
    }
}

/// The stored form of a chunk is read back as that chunk.
pub proof fn lemma_parse_of_chunk_bytes(records: Seq<RecordModel>)
    requires
        records.len() <= u64::MAX,
        forall|i: int| 0 <= i < records.len() ==> record_fits(#[trigger] records[i]),
    ensures
        parse_chunk(chunk_bytes(records)) == Some(records),
{
    lemma_take_u64_of_bytes(records.len() as u64, records_bytes(records));
    lemma_take_records_of_bytes(records, Seq::empty());
    assert(records_bytes(records) + Seq::<u8>::empty() =~= records_bytes(records));
}

/// Only the stored form of a chunk is read as that chunk: a byte sequence
/// that differs from it in any place is read as other records or not at
/// all.
pub proof fn lemma_chunk_bytes_canonical(s: Seq<u8>)
    requires
        parse_chunk(s) is Some,
    ensures
        s == chunk_bytes(parse_chunk(s).unwrap()),
{
    let (n, rest) = take_u64(s).unwrap();
    lemma_take_u64_canonical(s);
    lemma_take_records_canonical(rest, n as nat);
    let (records, tail) = take_records(rest, n as nat).unwrap();
    assert(rest =~= records_bytes(records));
}

/// Writes a chunk in its stored form.
pub fn encode_chunk(records: &Vec<StateRecord>) -> (out: Vec<u8>)
    ensures
        out@ == chunk_bytes(record_models(records@)),
{
    let ghost models = record_models(records@);
    let mut out: Vec<u8> = Vec::new();
    put_u64(&mut out, records.len() as u64);
    let ghost head = out@;
    let mut i: usize = 0;
    assert(models.subrange(0, 0) =~= Seq::<RecordModel>::empty());
    assert(out@ =~= head + records_bytes(models.subrange(0, 0)));
    while i < records.len()
        invariant
            i <= records.len(),
            models == record_models(records@),
            head == u64_bytes(records.len() as u64),
            out@ == head + records_bytes(models.subrange(0, i as int)),
        decreases records.len() - i,
    {
        let r = &records[i];
        let ghost before = out@;
        put_blob(&mut out, &r.key);
        put_blob(&mut out, &r.value);
        put_blob(&mut out, &r.proof);
        proof {
            let upto = models.subrange(0, i + 1);
            assert(upto.drop_last() =~= models.subrange(0, i as int));
            assert(upto.last() == r@);
            assert(out@ =~= before + record_bytes(r@));
            assert(out@ =~= head + records_bytes(upto));
        }
        i += 1;
    }
    assert(models.subrange(0, i as int) =~= models);
    out
}

/// Reads one record at the front of `buf`.
pub fn read_record<'a>(buf: &'a [u8]) -> (r: Option<(StateRecord, &'a [u8])>)
    ensures
        match r {
            Some((record, rest)) => take_record(buf@) == Some((record@, rest@)),
            None => take_record(buf@) is None,
        },
{
    let (key, s1) = match read_blob(buf) {
        Some(p) => p,
        None => { return None; },
    };
    let (value, s2) = match read_blob(s1) {
        Some(p) => p,
        None => { return None; },
    };
    let (proof, s3) = match read_blob(s2) {
        Some(p) => p,
        None => { return None; },
    };
    Some((StateRecord { key, value, proof }, s3))
}

/// Reads a chunk from its stored form. Anything that is not the stored form
/// of a sequence of records is a corruption: a short or overlong input, a
/// length that runs past the end, a count that does not match.
pub fn decode_chunk(bytes: &[u8]) -> (r: Result<Vec<StateRecord>, BackupError>)
    ensures
        match r {
            Ok(records) => parse_chunk(bytes@) == Some(record_models(records@)),
            Err(e) => e == BackupError::CorruptionError && parse_chunk(bytes@) is None,
        },
{
    let (n, body) = match read_u64(bytes) {
        Some(p) => p,
        None => { return Err(BackupError::CorruptionError); },
    };
    let mut records: Vec<StateRecord> = Vec::new();
    let mut rest: &[u8] = body;
    let mut i: u64 = 0;
    assert(record_models(records@) =~= Seq::<RecordModel>::empty());
    while i < n
        invariant
            i <= n,
            records@.len() == i,
            take_u64(bytes@) == Some((n, body@)),
            take_records(body@, n as nat) == match take_records(rest@, (n - i) as nat) {
                Some((more, tail)) => Some((record_models(records@) + more, tail)),
                None => None,
            },
        decreases n - i,
    {
        let ghost before = record_models(records@);
        let ghost at = rest@;
        match read_record(rest) {
            None => {
                return Err(BackupError::CorruptionError);
            },
            Some((record, tail)) => {
                let ghost m = record@;
                records.push(record);
                rest = tail;
                proof {
                    assert(record_models(records@) =~= before.push(m));
                    match take_records(tail@, (n - i - 1) as nat) {
                        Some((more, end)) => {
                            assert(before + (seq![m] + more) =~= before.push(m) + more);
                        },
                        None => {},
                    }
                }
            },
        }
        i += 1;
    }
    assert(record_models(records@) + Seq::<RecordModel>::empty() =~= record_models(records@));
    if rest.len() != 0 {
        return Err(BackupError::CorruptionError);
    }
    Ok(records)
}

} // verus!
