//! Merkle trees on SHA-256 that Bitcoin script can check.
use vstd::prelude::*;

use crate::fields::m31::{BaseField, M31};
use crate::timed::BTCSha256Channel;
use crate::vcs::btc_sha256_hash::{BTCSha256Hash, BTCSha256Hasher};
use crate::vcs::ops::MerkleHasher;
use crate::vcs::sha256_hash::{hash_num, num_chain, sha256_digest};

pub use crate::vcs::bitcoin_num_to_bytes;

verus! {

/// The hash of a column: the digest chain over its values, from the last to the first.
pub open spec fn column_hash(values: Seq<M31>) -> Seq<u8> {
    num_chain(values.reverse(), seq![])
}

/// Hashes nodes with SHA-256.
#[derive(Clone, Copy, Debug, PartialEq, Eq, Structural)]
pub struct BTCSha256MerkleHasher;

impl Default for BTCSha256MerkleHasher {
    fn default() -> (r: BTCSha256MerkleHasher)
        ensures
            r == BTCSha256MerkleHasher,
    {
        BTCSha256MerkleHasher
    }
}

impl BTCSha256MerkleHasher {
    fn hash_column(column_values: &[BaseField]) -> (r: [u8; 32])
        requires
            column_values@.len() > 0,
        ensures
            r@ == column_hash(column_values@),
    {
        let len: usize = column_values.len();
        let ghost back = column_values@.reverse();
        let nothing: Vec<u8> = Vec::new();
        let mut hash = hash_num(column_values[len - 1], nothing.as_slice());
        proof {
            let one = back.take(1);
            assert(one.drop_last().len() == 0);
            assert(num_chain(one.drop_last(), seq![]) == nothing@);
        }
        let mut i: usize = 1;
        while i < len
            invariant
                1 <= i <= len,
                len == column_values@.len(),
                back == column_values@.reverse(),
                hash@ == num_chain(back.take(i as int), seq![]),
            decreases len - i,
        {
            assert(back.take(i + 1).drop_last() =~= back.take(i as int));
            hash = hash_num(column_values[len - 1 - i], hash.as_slice());
            i = i + 1;
        }
        assert(back.take(i as int) =~= back);
        hash
    }
}

impl MerkleHasher for BTCSha256MerkleHasher {
    type Hash = BTCSha256Hash;

    // There are three possibilities: children only, children and column values, and column
    // values only.
    open spec fn node(children: Option<(Seq<u8>, Seq<u8>)>, values: Seq<BaseField>) -> Seq<u8> {
        match children {
            Some((left, right)) => if values.len() == 0 {
                sha256_digest(left + right)
            } else {
                sha256_digest(sha256_digest(left + right) + column_hash(values))
            },
            None => column_hash(values),
        }
    }

    fn hash_node(
        children_hashes: Option<(BTCSha256Hash, BTCSha256Hash)>,
        column_values: &[BaseField],
    ) -> (r: BTCSha256Hash) {
        match children_hashes {
            Some((left, right)) => {
                let hash_tree = BTCSha256Hasher::concat_and_hash(&left, &right);
                if column_values.len() == 0 {
                    hash_tree
                } else {
                    let hash_column = BTCSha256MerkleHasher::hash_column(column_values);
                    BTCSha256Hasher::concat_and_hash(
                        &hash_tree,
                        &crate::vcs::sha256_hash::Sha256Hash(hash_column),
                    )
                }
            },
            None => crate::vcs::sha256_hash::Sha256Hash(
                BTCSha256MerkleHasher::hash_column(column_values),
            ),
        }
    }

    fn same_hash(first: &BTCSha256Hash, second: &BTCSha256Hash) -> (r: bool) {
        first.same(second)
    }
}

/// Mixes roots into a channel.
#[derive(Clone, Copy, Debug, PartialEq, Eq, Structural)]
pub struct BTCSha256MerkleChannel;

impl Default for BTCSha256MerkleChannel {
    fn default() -> (r: BTCSha256MerkleChannel)
        ensures
            r == BTCSha256MerkleChannel,
    {
        BTCSha256MerkleChannel
    }
}

impl BTCSha256MerkleChannel {
    /// Mixes `root` into the digest of `channel`.
    pub fn mix_root(channel: &mut BTCSha256Channel, root: BTCSha256Hash)
        requires
            old(channel)@.n_challenges < usize::MAX,
        ensures
            final(channel)@ == old(channel)@.after_messages(
                1,
                sha256_digest(old(channel)@.digest + root@),
            ),
    {
        let digest = channel.digest();
        channel.update_digest(BTCSha256Hasher::concat_and_hash(&digest, &root));
    }
}

/// The hash of a node with children and column values is the digest of the hash of the node
/// without the values and that of the node without the children.
pub proof fn node_in_parts(children: (Seq<u8>, Seq<u8>), values: Seq<BaseField>)
    requires
        values.len() > 0,
    ensures
        BTCSha256MerkleHasher::node(Some(children), values) == sha256_digest(
            BTCSha256MerkleHasher::node(Some(children), seq![]) + BTCSha256MerkleHasher::node(
                None,
                values,
            ),
        ),
{
}

} // verus!
