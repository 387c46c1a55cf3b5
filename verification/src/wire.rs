//! The two building blocks of every stored artifact: a `u64` in eight
//! little-endian bytes, and a byte string behind its length.
//!
//! Each block has a spec function that says what it encodes to, a spec
//! function that says what a reader takes off the front of a byte sequence,
//! and the executable writer and reader.

use vstd::bytes::*;
use vstd::prelude::*;
use vstd::slice::*;

verus! {

/// The eight bytes that stand for `x`.
pub open spec fn u64_bytes(x: u64) -> Seq<u8> {
    spec_u64_to_le_bytes(x)
}

/// A byte string on the wire: its length as a `u64`, then its bytes.
pub open spec fn blob_bytes(b: Seq<u8>) -> Seq<u8> {
    u64_bytes(b.len() as u64) + b
}

/// Takes a `u64` off the front of `s`: the number and what follows it.
pub open spec fn take_u64(s: Seq<u8>) -> Option<(u64, Seq<u8>)> {
    if s.len() >= 8 {
        Some((spec_u64_from_le_bytes(s.subrange(0, 8)), s.subrange(8, s.len() as int)))
    } else {
        None
    }
}

/// Takes a length-prefixed byte string off the front of `s`.
pub open spec fn take_blob(s: Seq<u8>) -> Option<(Seq<u8>, Seq<u8>)> {
    match take_u64(s) {
        Some((n, rest)) => if n <= rest.len() {
            Some((rest.subrange(0, n as int), rest.subrange(n as int, rest.len() as int)))
        } else {
            None
        },
        None => None,
    }
}

/// Takes exactly `n` bytes off the front of `s`.
pub open spec fn take_fixed(s: Seq<u8>, n: nat) -> Option<(Seq<u8>, Seq<u8>)> {
    if n <= s.len() {
        Some((s.subrange(0, n as int), s.subrange(n as int, s.len() as int)))
    } else {
        None
    }
}

/// What was written as a `u64` is read back, and the rest is untouched.
pub proof fn lemma_take_u64_of_bytes(x: u64, rest: Seq<u8>)
    ensures
        u64_bytes(x).len() == 8,
        take_u64(u64_bytes(x) + rest) == Some((x, rest)),
{
    lemma_auto_spec_u64_to_from_le_bytes();
    let s = u64_bytes(x) + rest;
    assert(s.subrange(0, 8) =~= u64_bytes(x));
    assert(s.subrange(8, s.len() as int) =~= rest);
}

/// A `u64` that was read stands at the front in its one encoding.
pub proof fn lemma_take_u64_canonical(s: Seq<u8>)
    requires
        take_u64(s) is Some,
    ensures
        s == u64_bytes(take_u64(s).unwrap().0) + take_u64(s).unwrap().1,
{
    lemma_auto_spec_u64_to_from_le_bytes();
    let head = s.subrange(0, 8);
    assert(u64_bytes(spec_u64_from_le_bytes(head)) == head);
    assert(s =~= head + s.subrange(8, s.len() as int));
}

/// What was written as a byte string is read back, and the rest is
/// untouched.
pub proof fn lemma_take_blob_of_bytes(b: Seq<u8>, rest: Seq<u8>)
    requires
        b.len() <= u64::MAX,
    ensures
        take_blob(blob_bytes(b) + rest) == Some((b, rest)),
{
    let n = b.len() as u64;
    lemma_take_u64_of_bytes(n, b + rest);
    assert(blob_bytes(b) + rest =~= u64_bytes(n) + (b + rest));
    assert((b + rest).subrange(0, n as int) =~= b);
    assert((b + rest).subrange(n as int, (b + rest).len() as int) =~= rest);
}

/// A byte string that was read stands at the front in its one encoding.
pub proof fn lemma_take_blob_canonical(s: Seq<u8>)
    requires
        take_blob(s) is Some,
    ensures
        take_blob(s).unwrap().0.len() <= u64::MAX,
        s == blob_bytes(take_blob(s).unwrap().0) + take_blob(s).unwrap().1,
{
    lemma_take_u64_canonical(s);
    let (n, rest) = take_u64(s).unwrap();
    let (b, tail) = take_blob(s).unwrap();
    assert(rest =~= b + tail);
    assert(s =~= (u64_bytes(n) + b) + tail);
}

/// Appends the eight bytes of `x` to `out`.
pub fn put_u64(out: &mut Vec<u8>, x: u64)
    ensures
        final(out)@ == old(out)@ + u64_bytes(x),
{
    let mut bytes = u64_to_le_bytes(x);
    out.append(&mut bytes);
}

/// Appends `b` to `out`, behind its length.
pub fn put_blob(out: &mut Vec<u8>, b: &Vec<u8>)
    ensures
        final(out)@ == old(out)@ + blob_bytes(b@),
{
    let n: u64 = b.len() as u64;
    put_u64(out, n);
    let mut i: usize = 0;
    while i < b.len()
        invariant
            i <= b.len(),
            out@ == old(out)@ + u64_bytes(n) + b@.subrange(0, i as int),
        decreases b.len() - i,
    {
        out.push(b[i]);
        assert(b@.subrange(0, i + 1) =~= b@.subrange(0, i as int).push(b@[i as int]));
        i += 1;
    }
    assert(b@.subrange(0, b.len() as int) =~= b@);
    assert(out@ =~= old(out)@ + blob_bytes(b@));
}

/// Reads a `u64` at the front of `buf`.
pub fn read_u64<'a>(buf: &'a [u8]) -> (r: Option<(u64, &'a [u8])>)
    ensures
        match r {
            Some((x, rest)) => take_u64(buf@) == Some((x, rest@)),
            None => take_u64(buf@) is None,
        },
{
    if buf.len() < 8 {
        return None;
    }
    let x = u64_from_le_bytes(slice_subrange(buf, 0, 8));
    let rest = slice_subrange(buf, 8, buf.len());
    Some((x, rest))
}

/// Reads exactly `n` bytes at the front of `buf`.
pub fn read_fixed<'a>(buf: &'a [u8], n: usize) -> (r: Option<(&'a [u8], &'a [u8])>)
    ensures
        match r {
            Some((b, rest)) => take_fixed(buf@, n as nat) == Some((b@, rest@)),
            None => take_fixed(buf@, n as nat) is None,
        },
{
    if buf.len() < n {
        return None;
    }
    Some((slice_subrange(buf, 0, n), slice_subrange(buf, n, buf.len())))
}

/// Reads a length-prefixed byte string at the front of `buf`.
pub fn read_blob<'a>(buf: &'a [u8]) -> (r: Option<(Vec<u8>, &'a [u8])>)
    ensures
        match r {
            Some((b, rest)) => take_blob(buf@) == Some((b@, rest@)),
            None => take_blob(buf@) is None,
        },
{
    match read_u64(buf) {
        None => None,
        Some((n, rest)) => {
            if n > rest.len() as u64 {
                return None;
            }
            let len: usize = n as usize;
            let b = slice_to_vec(slice_subrange(rest, 0, len));
            let tail = slice_subrange(rest, len, rest.len());
            Some((b, tail))
        },
    }
}

} // verus!
