//! How a snapshot is cut into chunks.
//!
//! Chunks are cut by count alone: the first `max` entries, the next `max`,
//! and so on, the last chunk taking what is left. The cut depends on nothing
//! but the entries and `max`, so two runs over the same snapshot with the
//! same chunk size cut it alike.

use vstd::prelude::*;

verus! {

/// The chunks of `entries` under chunk size `max`, in order.
pub open spec fn split<T>(entries: Seq<T>, max: nat) -> Seq<Seq<T>>
    decreases entries.len(),
{
    if max == 0 || entries.len() == 0 {
        Seq::empty()
    } else if entries.len() <= max {
        seq![entries]
    } else {
        seq![entries.subrange(0, max as int)] + split(
            entries.subrange(max as int, entries.len() as int),
            max,
        )
    }
}

/// The chunks one after the other.
pub open spec fn concat<T>(chunks: Seq<Seq<T>>) -> Seq<T>
    decreases chunks.len(),
{
    if chunks.len() == 0 {
        Seq::empty()
    } else {
        concat(chunks.drop_last()) + chunks.last()
    }
}

/// The number of chunks that `n` entries make under chunk size `max`.
pub open spec fn chunk_count(n: nat, max: nat) -> nat {
    if n == 0 || max == 0 {
        0
    } else {
        ((n - 1) / max as int + 1) as nat
    }
}

/// The chunks one after the other, seen from the front.
pub proof fn lemma_concat_front<T>(chunks: Seq<Seq<T>>)
    requires
        chunks.len() > 0,
    ensures
        concat(chunks) == chunks[0] + concat(chunks.drop_first()),
    decreases chunks.len(),
{
    if chunks.len() == 1 {
        assert(chunks.drop_last() =~= Seq::<Seq<T>>::empty());
        assert(chunks.drop_first() =~= Seq::<Seq<T>>::empty());
        assert(concat(chunks) =~= chunks[0] + concat(chunks.drop_first()));
    } else {
        let init = chunks.drop_last();
        lemma_concat_front(init);
        assert(init.drop_first() =~= chunks.drop_first().drop_last());
        assert(chunks.drop_first().last() == chunks.last());
        assert(concat(chunks) =~= chunks[0] + concat(chunks.drop_first()));
    }
}

/// The chunks one after the other are the chunks before chunk `j`, chunk
/// `j`, and the chunks behind it.
pub proof fn lemma_concat_parts<T>(chunks: Seq<Seq<T>>, j: int)
    requires
        0 <= j < chunks.len(),
    ensures
        concat(chunks) == concat(chunks.subrange(0, j)) + chunks[j] + concat(
            chunks.subrange(j + 1, chunks.len() as int),
        ),
    decreases chunks.len(),
{
    let n = chunks.len() as int;
    let init = chunks.drop_last();
    if j == n - 1 {
        assert(chunks.subrange(0, j) =~= init);
        assert(chunks.subrange(j + 1, n) =~= Seq::<Seq<T>>::empty());
        assert(concat(chunks) =~= concat(init) + chunks[j] + concat(chunks.subrange(j + 1, n)));
    } else {
        lemma_concat_parts(init, j);
        let behind = chunks.subrange(j + 1, n);
        assert(behind.drop_last() =~= init.subrange(j + 1, n - 1));
        assert(behind.last() == chunks.last());
        assert(init.subrange(0, j) =~= chunks.subrange(0, j));
        assert(concat(chunks) =~= concat(chunks.subrange(0, j)) + chunks[j] + concat(behind));
    }
}

/// Where one chunk is exchanged and the chunks read in a row stay the
/// same, the chunk stayed the same.
pub proof fn lemma_concat_cancel<T>(chunks: Seq<Seq<T>>, j: int, other: Seq<T>)
    requires
        0 <= j < chunks.len(),
        concat(chunks.update(j, other)) == concat(chunks),
    ensures
        other == chunks[j],
{
    let n = chunks.len() as int;
    let changed = chunks.update(j, other);
    lemma_concat_parts(chunks, j);
    lemma_concat_parts(changed, j);
    assert(changed.subrange(0, j) =~= chunks.subrange(0, j));
    assert(changed.subrange(j + 1, n) =~= chunks.subrange(j + 1, n));
    let before = concat(chunks.subrange(0, j));
    let behind = concat(chunks.subrange(j + 1, n));
    let a = before + chunks[j] + behind;
    let b = before + other + behind;
    assert(a == b);
    assert(a.len() == b.len());
    assert(other.len() == chunks[j].len());
    assert forall|i: int| 0 <= i < other.len() implies other[i] == chunks[j][i] by {
        assert(a[before.len() + i] == chunks[j][i]);
        assert(b[before.len() + i] == other[i]);
    }
    assert(other =~= chunks[j]);
}

/// Cutting loses and adds nothing: the chunks of a snapshot, one after the
/// other, are the snapshot.
pub proof fn lemma_split_concat<T>(entries: Seq<T>, max: nat)
    requires
        max >= 1,
    ensures
        concat(split(entries, max)) == entries,
    decreases entries.len(),
{
    let chunks = split(entries, max);
    if entries.len() == 0 {
        assert(entries =~= Seq::<T>::empty());
    } else if entries.len() <= max {
        assert(chunks.drop_last() =~= Seq::<Seq<T>>::empty());
        assert(chunks.last() == entries);
        assert(concat(chunks.drop_last()) =~= Seq::<T>::empty());
        assert(concat(chunks) =~= entries);
    } else {
        let head = entries.subrange(0, max as int);
        let tail = entries.subrange(max as int, entries.len() as int);
        lemma_split_concat(tail, max);
        lemma_concat_front(chunks);
        assert(chunks.drop_first() =~= split(tail, max));
        assert(head + tail =~= entries);
    }
}

/// No chunk is empty and none holds more than `max` entries; every chunk
/// but the last holds exactly `max`.
pub proof fn lemma_split_sizes<T>(entries: Seq<T>, max: nat)
    requires
        max >= 1,
    ensures
        forall|i: int|
            0 <= i < split(entries, max).len() ==> 1 <= (#[trigger] split(entries, max)[i]).len()
                <= max,
        forall|i: int|
            0 <= i < split(entries, max).len() - 1 ==> (#[trigger] split(entries, max)[i]).len()
                == max,
    decreases entries.len(),
{
    if entries.len() > max {
        let tail = entries.subrange(max as int, entries.len() as int);
        lemma_split_sizes(tail, max);
        let chunks = split(entries, max);
        assert forall|i: int| 0 <= i < chunks.len() implies 1 <= (#[trigger] chunks[i]).len()
            <= max by {
            if i > 0 {
                assert(chunks[i] == split(tail, max)[i - 1]);
            }
        }
        assert forall|i: int| 0 <= i < chunks.len() - 1 implies (#[trigger] chunks[i]).len()
            == max by {
            if i > 0 {
                assert(chunks[i] == split(tail, max)[i - 1]);
            }
        }
    }
}

/// A snapshot of `n` entries is cut into `chunk_count(n, max)` chunks.
pub proof fn lemma_split_count<T>(entries: Seq<T>, max: nat)
    requires
        max >= 1,
    ensures
        split(entries, max).len() == chunk_count(entries.len(), max),
    decreases entries.len(),
{
    let n = entries.len() as int;
    let m = max as int;
    if n == 0 {
    } else if n <= m {
        assert((n - 1) / m == 0) by (nonlinear_arith)
            requires
                0 <= n - 1 < m,
        ;
    } else {
        let tail = entries.subrange(m, n);
        lemma_split_count(tail, max);
        assert((n - 1) / m == (n - m - 1) / m + 1) by (nonlinear_arith)
            requires
                m >= 1,
                n > m,
        ;
    }
}

/// Where chunk `i` lies in the snapshot: it is the entries from `i * max`
/// up to `i * max + max`, or up to the end of the snapshot if that comes
/// first.
pub proof fn lemma_split_chunk<T>(entries: Seq<T>, max: nat, i: int)
    requires
        max >= 1,
        0 <= i < split(entries, max).len(),
    ensures
        i * max < entries.len(),
        split(entries, max)[i] == entries.subrange(
            i * max,
            if i * max + max <= entries.len() {
                i * max + max
            } else {
                entries.len() as int
            },
        ),
    decreases entries.len(),
{
    let n = entries.len() as int;
    let m = max as int;
    if n <= m {
        assert(i == 0);
        assert(i * m == 0);
        assert(entries.subrange(0, n) =~= entries);
    } else if i == 0 {
        assert(i * m == 0);
    } else {
        let tail = entries.subrange(m, n);
        assert(split(entries, max)[i] == split(tail, max)[i - 1]);
        lemma_split_chunk(tail, max, i - 1);
        assert((i - 1) * m + m == i * m) by (nonlinear_arith);
        let lo = (i - 1) * m;
        let hi = if lo + m <= tail.len() {
            lo + m
        } else {
            tail.len() as int
        };
        assert(tail.subrange(lo, hi) =~= entries.subrange(lo + m, hi + m));
    }
}

/// With a chunk size of one, every entry is a chunk of its own.
pub proof fn lemma_split_by_one<T>(entries: Seq<T>)
    ensures
        split(entries, 1).len() == entries.len(),
        forall|i: int| 0 <= i < entries.len() ==> #[trigger] split(entries, 1)[i] == seq![entries[i]],
{
    lemma_split_count(entries, 1);
    assert forall|i: int| 0 <= i < entries.len() implies #[trigger] split(entries, 1)[i]
        == seq![entries[i]] by {
        lemma_split_chunk(entries, 1, i);
        assert(i * 1 == i) by (nonlinear_arith);
        assert(entries.subrange(i, i + 1) =~= seq![entries[i]]);
    }
}

/// A snapshot that is not empty and no longer than the chunk size is one
/// chunk.
pub proof fn lemma_split_oversized<T>(entries: Seq<T>, max: nat)
    requires
        1 <= entries.len() <= max,
    ensures
        split(entries, max) == seq![entries],
        chunk_count(entries.len(), max) == 1,
{
    lemma_split_count(entries, max);
}

/// An empty snapshot has no chunks.
pub proof fn lemma_split_empty<T>(entries: Seq<T>, max: nat)
    requires
        entries.len() == 0,
    ensures
        split(entries, max).len() == 0,
        chunk_count(0, max) == 0,
{
}

/// The number of chunks that `total` entries make under chunk size
/// `max_chunk_size`; none under a chunk size of zero.
pub fn count_chunks(total: u64, max_chunk_size: u64) -> (n: u64)
    ensures
        n == chunk_count(total as nat, max_chunk_size as nat),
{
    if total == 0 || max_chunk_size == 0 {
        0
    } else {
        (total - 1) / max_chunk_size + 1
    }
}

/// The index range `[start, end)` of chunk `index` in a snapshot of `total`
/// entries, if the snapshot has such a chunk.
pub fn chunk_range(total: u64, max_chunk_size: u64, index: u64) -> (r: Option<(u64, u64)>)
    ensures
        match r {
            Some((start, end)) => {
                &&& index < chunk_count(total as nat, max_chunk_size as nat)
                &&& start == index * max_chunk_size
                &&& end == if start + max_chunk_size <= total {
                    start + max_chunk_size
                } else {
                    total as int
                }
                &&& start < end
            },
            None => index >= chunk_count(total as nat, max_chunk_size as nat),
        },
{
    if index >= count_chunks(total, max_chunk_size) {
        return None;
    }
    let ghost n = total as int;
    let ghost m = max_chunk_size as int;
    let ghost i = index as int;
    assert(i * m <= n - 1 && i * m >= 0) by (nonlinear_arith)
        requires
            m >= 1,
            n >= 1,
            0 <= i <= (n - 1) / m,
    ;
    let start: u64 = index * max_chunk_size;
    let end: u64 = if total - start >= max_chunk_size {
        start + max_chunk_size
    } else {
        total
    };
    Some((start, end))
}

} // verus!
