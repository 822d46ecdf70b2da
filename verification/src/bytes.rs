//! Fixed-size identifiers: coin ids, puzzle hashes and launcher ids.

use vstd::prelude::*;

verus! {

/// A 32-byte identifier.
#[derive(Debug, Clone, Copy)]
pub struct Bytes32 {
    pub data: [u8; 32],
}

impl View for Bytes32 {
    type V = Seq<u8>;

    open spec fn view(&self) -> Seq<u8> {
        self.data@
    }
}

impl Bytes32 {
    /// Wraps 32 bytes.
    pub fn new(data: [u8; 32]) -> (b: Bytes32)
        ensures
            b.data == data,
    {
        Bytes32 { data }
    }

    /// The bytes themselves.
    pub fn to_bytes(&self) -> (data: [u8; 32])
        ensures
            data == self.data,
    {
        self.data
    }

    /// Whether two identifiers hold the same bytes.
    pub fn same(&self, other: &Bytes32) -> (eq: bool)
        ensures
            eq == (*self == *other),
            eq == (self@ == other@),
    {
        let mut i: usize = 0;
        while i < 32
            invariant
                i <= 32,
                forall|j: int| 0 <= j < i ==> self.data[j] == other.data[j],
            decreases 32 - i,
        {
            if self.data[i] != other.data[i] {
                return false;
            }
            i += 1;
        }
        assert(self.data =~= other.data);
        true
    }
}

} // verus!
