//! Poseidon31 digests.
use vstd::prelude::*;

use crate::fields::m31::{zeros, M31};

verus! {

/// A Poseidon31 digest.
#[derive(Clone, Copy, Debug, PartialEq, Eq)]
pub struct Poseidon31Hash(pub [M31; 8]);

impl View for Poseidon31Hash {
    type V = Seq<M31>;

    open spec fn view(&self) -> Seq<M31> {
        self.0@
    }
}

impl Default for Poseidon31Hash {
    fn default() -> (r: Poseidon31Hash)
        ensures
            r@ == zeros(8),
    {
        let r = Poseidon31Hash([M31(0); 8]);
        assert(r@ =~= zeros(8));
        r
    }
}

impl Poseidon31Hash {
    /// Whether two digests are the same.
    pub fn same(&self, other: &Poseidon31Hash) -> (r: bool)
        ensures
            r == (self@ == other@),
    {
        let mut i: usize = 0;
        while i < 8
            invariant
                i <= 8,
                forall|k: int| 0 <= k < i ==> self@[k] == other@[k],
            decreases 8 - i,
        {
            if self.0[i].0 != other.0[i].0 {
                assert(self@[i as int] != other@[i as int]);
                return false;
            }
            i = i + 1;
        }
        assert(self@ =~= other@);
        true
    }
}

} // verus!
