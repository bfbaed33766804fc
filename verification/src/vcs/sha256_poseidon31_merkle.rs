//! Merkle trees on SHA-256 that hash wide columns with Poseidon31 first.
use vstd::prelude::*;

use crate::channel::sha256_poseidon31;
use crate::channel::DrawState;
use crate::fields::m31::{zeros, BaseField, M31};
use crate::timed::sha256_poseidon31::Sha256Poseidon31Channel;
use crate::vcs::ops::MerkleHasher;
use crate::vcs::poseidon31_merkle::Poseidon31MerkleHasher;
use crate::vcs::poseidon31_ref::sponge_state;
use crate::vcs::sha256_hash::{hash_nums, num_chain, sha256_digest, Sha256Hash, Sha256Hasher};

verus! {

/// The values that the digest chain of a column runs over: the column values, or, where there are
/// more than eight, the rate of the Poseidon31 sponge that absorbed them.
pub open spec fn chain_values(values: Seq<M31>) -> Seq<M31> {
    if values.len() <= 8 {
        values
    } else {
        sponge_state(values, zeros(8)).take(8)
    }
}

/// The hash of a column: the digest chain over its values, or over those that stand for them.
pub open spec fn column_hash(values: Seq<M31>) -> Seq<u8> {
    num_chain(chain_values(values), seq![])
}

/// Hashes nodes with SHA-256, and wide columns with Poseidon31.
#[derive(Clone, Copy, Debug, PartialEq, Eq, Structural)]
pub struct Sha256Poseidon31MerkleHasher;

impl Default for Sha256Poseidon31MerkleHasher {
    fn default() -> (r: Sha256Poseidon31MerkleHasher)
        ensures
            r == Sha256Poseidon31MerkleHasher,
    {
        Sha256Poseidon31MerkleHasher
    }
}

impl Sha256Poseidon31MerkleHasher {
    fn hash_column(column_values: &[BaseField]) -> (r: [u8; 32])
        requires
            column_values@.len() > 0,
        ensures
            r@ == column_hash(column_values@),
    {
        if column_values.len() <= 8 {
            hash_nums(column_values, None)
        } else {
            let data = Poseidon31MerkleHasher::hash_column_get_rate(column_values);
            hash_nums(data.0.as_slice(), None)
        }
    }
}

impl MerkleHasher for Sha256Poseidon31MerkleHasher {
    type Hash = Sha256Hash;

    // There are three possibilities: children only, children and column values, and column
    // values only.
    open spec fn node(children: Option<(Seq<u8>, Seq<u8>)>, values: Seq<BaseField>) -> Seq<u8> {
        match children {
            Some((left, right)) => if values.len() == 0 {
                sha256_digest(left + right)
            } else {
                sha256_digest(sha256_digest(left + right) + column_hash(values))
            },
            None => column_hash(values),
        }
    }

    fn hash_node(
        children_hashes: Option<(Sha256Hash, Sha256Hash)>,
        column_values: &[BaseField],
    ) -> (r: Sha256Hash) {
        match children_hashes {
            Some((left, right)) => {
                let hash_tree = Sha256Hasher::concat_and_hash(&left, &right);
                if column_values.len() == 0 {
                    hash_tree
                } else {
                    let hash_column = Sha256Poseidon31MerkleHasher::hash_column(column_values);
                    Sha256Hasher::concat_and_hash(&hash_tree, &Sha256Hash(hash_column))
                }
            },
            None => Sha256Hash(Sha256Poseidon31MerkleHasher::hash_column(column_values)),
        }
    }

    fn same_hash(first: &Sha256Hash, second: &Sha256Hash) -> (r: bool) {
        first.same(second)
    }
}

/// Mixes roots into a channel.
#[derive(Clone, Copy, Debug, PartialEq, Eq, Structural)]
pub struct Sha256Poseidon31MerkleChannel;

impl Default for Sha256Poseidon31MerkleChannel {
    fn default() -> (r: Sha256Poseidon31MerkleChannel)
        ensures
            r == Sha256Poseidon31MerkleChannel,
    {
        Sha256Poseidon31MerkleChannel
    }
}

impl Sha256Poseidon31MerkleChannel {
    /// Mixes `root` into the digest of `channel`.
    pub fn mix_root(channel: &mut Sha256Poseidon31Channel, root: Sha256Hash)
        requires
            old(channel)@.n_challenges < usize::MAX,
        ensures
            final(channel)@ == old(channel)@.after_messages(
                1,
                sha256_digest(old(channel)@.digest + root@),
            ),
    {
        let digest = channel.digest();
        channel.update_digest(Sha256Hasher::concat_and_hash(&digest, &root));
    }

    /// Mixes `root` into the digest of a channel that counts draws.
    pub fn mix_root_counted(
        channel: &mut sha256_poseidon31::Sha256Poseidon31Channel,
        root: Sha256Hash,
    )
        ensures
            final(channel)@ == (DrawState {
                digest: sha256_digest(old(channel)@.digest + root@),
                n_draws: 0,
            }),
    {
        let digest = channel.digest();
        channel.update_digest(Sha256Hasher::concat_and_hash(&digest, &root));
    }
}

/// The hash of a node with children and column values is the digest of the hash of the node
/// without the values and that of the node without the children.
pub proof fn node_in_parts(children: (Seq<u8>, Seq<u8>), values: Seq<BaseField>)
    requires
        values.len() > 0,
    ensures
        Sha256Poseidon31MerkleHasher::node(Some(children), values) == sha256_digest(
            Sha256Poseidon31MerkleHasher::node(Some(children), seq![])
                + Sha256Poseidon31MerkleHasher::node(None, values),
        ),
{
}

} // verus!
