use snapshot_backup::chunking::{chunk_range, count_chunks};

#[test]
fn count_chunks_rounds_up() {
    assert_eq!(count_chunks(0, 500), 0);
    assert_eq!(count_chunks(1, 500), 1);
    assert_eq!(count_chunks(500, 500), 1);
    assert_eq!(count_chunks(501, 500), 2);
    assert_eq!(count_chunks(1000, 500), 2);
    assert_eq!(count_chunks(1001, 500), 3);
    assert_eq!(count_chunks(u64::MAX, 1), u64::MAX);
    assert_eq!(count_chunks(u64::MAX, u64::MAX), 1);
}

#[test]
fn count_chunks_of_chunk_size_zero_is_zero() {
    assert_eq!(count_chunks(7, 0), 0);
}

#[test]
fn chunk_size_one_gives_one_chunk_per_entry() {
    for n in 0..50u64 {
        assert_eq!(count_chunks(n, 1), n);
        for i in 0..n {
            assert_eq!(chunk_range(n, 1, i), Some((i, i + 1)));
        }
        assert_eq!(chunk_range(n, 1, n), None);
    }
}

#[test]
fn oversized_chunk_size_gives_one_chunk() {
    for n in 1..50u64 {
        for max in n..n + 5 {
            assert_eq!(count_chunks(n, max), 1);
            assert_eq!(chunk_range(n, max, 0), Some((0, n)));
            assert_eq!(chunk_range(n, max, 1), None);
        }
    }
}

#[test]
fn chunk_ranges_tile_the_snapshot() {
    for n in 0..40u64 {
        for max in 1..12u64 {
            let count = count_chunks(n, max);
            let mut next = 0u64;
            for i in 0..count {
                let (start, end) = chunk_range(n, max, i).unwrap();
                assert_eq!(start, next);
                assert!(end > start);
                assert!(end - start <= max);
                if i + 1 < count {
                    assert_eq!(end - start, max);
                }
                next = end;
            }
            assert_eq!(next, n);
            assert_eq!(chunk_range(n, max, count), None);
        }
    }
}

#[test]
fn chunk_range_exact_values() {
    assert_eq!(chunk_range(1001, 500, 0), Some((0, 500)));
    assert_eq!(chunk_range(1001, 500, 1), Some((500, 1000)));
    assert_eq!(chunk_range(1001, 500, 2), Some((1000, 1001)));
    assert_eq!(chunk_range(1001, 500, 3), None);
    assert_eq!(chunk_range(0, 500, 0), None);
}
