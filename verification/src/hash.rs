//! 256-bit digests.

use vstd::prelude::*;

verus! {

/// A 256-bit digest as the ledger computed it. This crate never hashes: it
/// stores digests, hands them on and compares them.
#[derive(Clone, Copy, Debug, PartialEq, Eq)]
pub struct HashValue {
    pub bytes: [u8; 32],
}

impl View for HashValue {
    type V = Seq<u8>;

    open spec fn view(&self) -> Seq<u8> {
        self.bytes@
    }
}

impl HashValue {
    pub fn new(bytes: [u8; 32]) -> (h: HashValue)
        ensures
            h@ == bytes@,
    {
        HashValue { bytes }
    }

    /// A digest has 32 bytes.
    pub proof fn lemma_length(&self)
        ensures
            self@.len() == 32,
    {
        vstd::array::array_len_matches_n(&self.bytes);
    }

    /// Byte-wise equality of two digests.
    pub fn same(&self, other: &HashValue) -> (r: bool)
        ensures
            r == (self@ == other@),
    {
        let mut i: usize = 0;
        while i < 32
            invariant
                i <= 32,
                forall|j: int| 0 <= j < i ==> self.bytes@[j] == other.bytes@[j],
            decreases 32 - i,
        {
            if self.bytes[i] != other.bytes[i] {
                return false;
            }
            i += 1;
        }
        assert(self@ =~= other@);
        true
    }

    /// The digest held in a sequence of exactly 32 bytes.
    pub fn from_slice(bytes: &[u8]) -> (r: Option<HashValue>)
        ensures
            match r {
                Some(h) => bytes@.len() == 32 && h@ == bytes@,
                None => bytes@.len() != 32,
            },
    {
        if bytes.len() != 32 {
            return None;
        }
        let mut out: [u8; 32] = [0u8; 32];
        let mut i: usize = 0;
        while i < 32
            invariant
                i <= 32,
                bytes@.len() == 32,
                forall|j: int| 0 <= j < i ==> out@[j] == bytes@[j],
            decreases 32 - i,
        {
            out[i] = bytes[i];
            i += 1;
        }
        assert(out@ =~= bytes@);
        Some(HashValue { bytes: out })
    }

    /// The 32 bytes of the digest.
    pub fn to_vec(&self) -> (v: Vec<u8>)
        ensures
            v@ == self@,
    {
        let mut v: Vec<u8> = Vec::new();
        let mut i: usize = 0;
        while i < 32
            invariant
                i <= 32,
                v@.len() == i,
                forall|j: int| 0 <= j < i ==> v@[j] == self.bytes@[j],
            decreases 32 - i,
        {
            v.push(self.bytes[i]);
            i += 1;
        }
        assert(v@ =~= self@);
        v
    }
}

} // verus!
