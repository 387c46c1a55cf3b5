//! The identifiers under which a run asks storage to keep its artifacts.
//!
//! Chunks live under `chunks/`, manifests under `manifests/`. A chunk is
//! named by the version of its snapshot, the attempt that wrote it and its
//! place in the run; a manifest by the version alone, so that a version is
//! sealed at most once. Numbers are written in decimal.

use vstd::prelude::*;

verus! {

/// The decimal digits of `n` in ASCII, most significant first.
pub open spec fn decimal(n: nat) -> Seq<u8>
    decreases n,
{
    if n < 10 {
        seq![(48 + n) as u8]
    } else {
        decimal(n / 10).push((48 + n % 10) as u8)
    }
}

/// The bytes of `chunks/`.
pub open spec fn chunk_area() -> Seq<u8> {
    seq![99u8, 104u8, 117u8, 110u8, 107u8, 115u8, 47u8]
}

/// The bytes of `manifests/`.
pub open spec fn manifest_area() -> Seq<u8> {
    seq![109u8, 97u8, 110u8, 105u8, 102u8, 101u8, 115u8, 116u8, 115u8, 47u8]
}

/// The identifier of a chunk: `chunks/<version>/<attempt>/<index>`.
pub open spec fn chunk_identifier(version: u64, attempt: u64, index: u64) -> Seq<u8> {
    chunk_area() + decimal(version as nat) + seq![47u8] + decimal(attempt as nat) + seq![47u8]
        + decimal(index as nat)
}

/// The identifier of the manifest of a version: `manifests/<version>`.
pub open spec fn manifest_identifier(version: u64) -> Seq<u8> {
    manifest_area() + decimal(version as nat)
}

/// A number has at least one digit, and more than one from ten on.
pub proof fn lemma_decimal_len(n: nat)
    ensures
        decimal(n).len() >= 1,
        n >= 10 ==> decimal(n).len() >= 2,
    decreases n,
{
    if n >= 10 {
        lemma_decimal_len(n / 10);
    }
}

/// Ten to the power of `d`.
pub open spec fn power_of_ten(d: nat) -> nat
    decreases d,
{
    if d == 0 {
        1
    } else {
        10 * power_of_ten((d - 1) as nat)
    }
}

/// A number below ten to the power of `d` has at most `d` digits.
pub proof fn lemma_decimal_digits(n: nat, d: nat)
    requires
        d >= 1,
        n < power_of_ten(d),
    ensures
        decimal(n).len() <= d,
    decreases d,
{
    if n >= 10 {
        if d == 1 {
            assert(power_of_ten(1) == 10) by {
                reveal_with_fuel(power_of_ten, 2);
            }
        } else {
            lemma_decimal_digits(n / 10, (d - 1) as nat);
        }
    }
}

/// No `u64` has more than twenty digits.
pub proof fn lemma_decimal_u64(n: u64)
    ensures
        decimal(n as nat).len() <= 20,
{
    assert(power_of_ten(20) == 100000000000000000000nat) by {
        reveal_with_fuel(power_of_ten, 21);
    }
    lemma_decimal_digits(n as nat, 20);
}

/// The identifier of a chunk is short.
pub proof fn lemma_chunk_identifier_len(version: u64, attempt: u64, index: u64)
    ensures
        chunk_identifier(version, attempt, index).len() <= 69,
{
    lemma_decimal_u64(version);
    lemma_decimal_u64(attempt);
    lemma_decimal_u64(index);
}

/// Different numbers have different digits.
pub proof fn lemma_decimal_injective(a: nat, b: nat)
    requires
        decimal(a) == decimal(b),
    ensures
        a == b,
    decreases a,
{
    lemma_decimal_len(a);
    lemma_decimal_len(b);
    if a < 10 || b < 10 {
        assert(decimal(a).len() == 1 && decimal(b).len() == 1);
        assert(a < 10 && b < 10);
        assert(decimal(a)[0] == (48 + a) as u8);
        assert(decimal(b)[0] == (48 + b) as u8);
    } else {
        let da = decimal(a / 10);
        let db = decimal(b / 10);
        assert(decimal(a).last() == (48 + a % 10) as u8);
        assert(decimal(b).last() == (48 + b % 10) as u8);
        assert(a % 10 == b % 10);
        assert(da =~= decimal(a).drop_last());
        assert(db =~= decimal(b).drop_last());
        lemma_decimal_injective(a / 10, b / 10);
        assert(a == 10 * (a / 10) + a % 10);
        assert(b == 10 * (b / 10) + b % 10);
    }
}

/// The chunks of one attempt have different identifiers.
pub proof fn lemma_chunk_identifier_injective(version: u64, attempt: u64, i: u64, j: u64)
    requires
        chunk_identifier(version, attempt, i) == chunk_identifier(version, attempt, j),
    ensures
        i == j,
{
    let head = chunk_area() + decimal(version as nat) + seq![47u8] + decimal(attempt as nat)
        + seq![47u8];
    let a = head + decimal(i as nat);
    let b = head + decimal(j as nat);
    assert(a == b);
    assert(decimal(i as nat) =~= a.subrange(head.len() as int, a.len() as int));
    assert(decimal(j as nat) =~= b.subrange(head.len() as int, b.len() as int));
    lemma_decimal_injective(i as nat, j as nat);
}

/// No chunk has the identifier of a manifest.
pub proof fn lemma_chunk_is_no_manifest(version: u64, attempt: u64, index: u64, other: u64)
    ensures
        chunk_identifier(version, attempt, index) != manifest_identifier(other),
{
    assert(chunk_identifier(version, attempt, index)[0] == 99u8);
    assert(manifest_identifier(other)[0] == 109u8);
}

/// Appends the decimal digits of `n` to `out`.
pub fn put_decimal(out: &mut Vec<u8>, n: u64)
    ensures
        final(out)@ == old(out)@ + decimal(n as nat),
    decreases n,
{
    if n >= 10 {
        put_decimal(out, n / 10);
    }
    let digit: u8 = (n % 10) as u8;
    out.push(48 + digit);
    assert(out@ =~= old(out)@ + decimal(n as nat));
}

/// Appends the bytes of `chunks/` to `out`.
fn put_chunk_area(out: &mut Vec<u8>)
    ensures
        final(out)@ == old(out)@ + chunk_area(),
{
    out.push(99);
    out.push(104);
    out.push(117);
    out.push(110);
    out.push(107);
    out.push(115);
    out.push(47);
    assert(final(out)@ =~= old(out)@ + chunk_area());
}

/// Appends the bytes of `manifests/` to `out`.
fn put_manifest_area(out: &mut Vec<u8>)
    ensures
        final(out)@ == old(out)@ + manifest_area(),
{
    out.push(109);
    out.push(97);
    out.push(110);
    out.push(105);
    out.push(102);
    out.push(101);
    out.push(115);
    out.push(116);
    out.push(115);
    out.push(47);
    assert(final(out)@ =~= old(out)@ + manifest_area());
}

/// The identifier of chunk `index` of attempt `attempt` at `version`.
pub fn make_chunk_identifier(version: u64, attempt: u64, index: u64) -> (id: Vec<u8>)
    ensures
        id@ == chunk_identifier(version, attempt, index),
{
    let mut id: Vec<u8> = Vec::new();
    put_chunk_area(&mut id);
    put_decimal(&mut id, version);
    id.push(47);
    put_decimal(&mut id, attempt);
    id.push(47);
    put_decimal(&mut id, index);
    assert(id@ =~= chunk_identifier(version, attempt, index));
    id
}

/// The identifier of the manifest of `version`.
pub fn make_manifest_identifier(version: u64) -> (id: Vec<u8>)
    ensures
        id@ == manifest_identifier(version),
{
    let mut id: Vec<u8> = Vec::new();
    put_manifest_area(&mut id);
    put_decimal(&mut id, version);
    assert(id@ =~= manifest_identifier(version));
    id
}

} // verus!
