//! What a Merkle tree asks of its hash function.
use vstd::prelude::*;

use crate::fields::m31::BaseField;

verus! {

/// The views of a pair of children hashes, where there is one.
pub open spec fn children_view<H: View>(children: Option<(H, H)>) -> Option<(H::V, H::V)> {
    match children {
        Some((left, right)) => Some((left@, right@)),
        None => None,
    }
}

/// The hash function of a Merkle tree that holds columns at every layer.
pub trait MerkleHasher: Sized {
    /// The hash of a node.
    type Hash: Copy + View;

    /// The hash of a node with the given children and column values.
    spec fn node(
        children: Option<(<Self::Hash as View>::V, <Self::Hash as View>::V)>,
        values: Seq<BaseField>,
    ) -> <Self::Hash as View>::V;

    /// Hashes a node, which has children or column values.
    fn hash_node(
        children_hashes: Option<(Self::Hash, Self::Hash)>,
        column_values: &[BaseField],
    ) -> (r: Self::Hash)
        requires
            children_hashes is Some || column_values@.len() > 0,
        ensures
            r@ == Self::node(children_view(children_hashes), column_values@),
    ;

    /// Whether two hashes are the same.
    fn same_hash(first: &Self::Hash, second: &Self::Hash) -> (r: bool)
        ensures
            r == (first@ == second@),
    ;
}

} // verus!
