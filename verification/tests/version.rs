use snapshot_backup::version::next_first_version;

#[test]
fn the_next_block_starts_behind_the_block() {
    assert_eq!(next_first_version(0, 3), Some(3));
    assert_eq!(next_first_version(3, 2), Some(5));
    assert_eq!(next_first_version(5, 4), Some(9));
    assert_eq!(next_first_version(7, 0), Some(7));
    assert_eq!(next_first_version(0, 0), Some(0));
}

#[test]
fn the_versions_of_a_ledger_run_out() {
    assert_eq!(next_first_version(u64::MAX, 0), Some(u64::MAX));
    assert_eq!(next_first_version(u64::MAX - 1, 1), Some(u64::MAX));
    assert_eq!(next_first_version(u64::MAX, 1), None);
    assert_eq!(next_first_version(u64::MAX - 1, 2), None);
    assert_eq!(next_first_version(1, usize::MAX), if usize::BITS < 64 { Some(1 + usize::MAX as u64) } else { None });
}
