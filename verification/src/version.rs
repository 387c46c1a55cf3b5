//! Versions: the numbers under which a ledger commits its transactions.
//!
//! Every transaction has a version of its own, and the versions are handed
//! out in order: a block of transactions that starts at one version takes
//! as many versions as it has transactions, and the next block starts
//! behind it.

use vstd::prelude::*;

verus! {

/// The version at which the block starts that follows a block of `len`
/// transactions which starts at `first_version`; none where the ledger has
/// run out of versions.
pub fn next_first_version(first_version: u64, len: usize) -> (r: Option<u64>)
    ensures
        r == (if first_version + len <= u64::MAX {
            Some((first_version + len) as u64)
        } else {
            None::<u64>
        }),
{
    first_version.checked_add(len as u64)
}

} // verus!
