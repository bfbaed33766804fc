//! Merkle trees on the Poseidon2 permutation.
use vstd::prelude::*;

use crate::channel::poseidon31;
use crate::channel::DrawState;
use crate::fields::m31::{zeros, BaseField, M31};
use crate::fields::qm31::{flatten, qm31_at};
use crate::timed::poseidon31::Poseidon31Channel;
use crate::vcs::ops::MerkleHasher;
use crate::vcs::poseidon31_hash::Poseidon31Hash;
use crate::vcs::poseidon31_ref::{
    absorbed, chunk_at, compression, first_chunk, join_state, later_chunks, poseidon2,
    sponge_state, Poseidon31CRH,
};

verus! {

/// The digest after compressing the chunks of eight of `values` into `digest`, one by one.
pub open spec fn compressed(digest: Seq<M31>, values: Seq<M31>) -> Seq<M31>
    decreases values.len(),
{
    if values.len() == 0 {
        digest
    } else {
        compressed(compression(digest + first_chunk(values)), later_chunks(values))
    }
}

/// The hash of a column: its first chunk of eight, with the others compressed into it.
pub open spec fn column_hash(values: Seq<M31>) -> Seq<M31> {
    compressed(first_chunk(values), later_chunks(values))
}

/// Hashes nodes with the Poseidon31 compression function.
#[derive(Clone, Copy, Debug, PartialEq, Eq, Structural)]
pub struct Poseidon31MerkleHasher;

impl Default for Poseidon31MerkleHasher {
    fn default() -> (r: Poseidon31MerkleHasher)
        ensures
            r == Poseidon31MerkleHasher,
    {
        Poseidon31MerkleHasher
    }
}

impl Poseidon31MerkleHasher {
    /// Hashes a column.
    pub fn hash_column(column_values: &[BaseField]) -> (r: Poseidon31Hash)
        requires
            column_values@.len() > 0,
        ensures
            r@ == column_hash(column_values@),
    {
        let len: usize = column_values.len();
        let mut digest = chunk_at(column_values, 0);
        assert(column_values@.skip(0) =~= column_values@);
        let mut at: usize = if len < 8 {
            len
        } else {
            8
        };
        while at < len
            invariant
                at <= len,
                len == column_values@.len(),
                column_hash(column_values@) == compressed(
                    digest@,
                    column_values@.skip(at as int),
                ),
            decreases len - at,
        {
            let ghost rest = column_values@.skip(at as int);
            let chunk = chunk_at(column_values, at);
            digest = Poseidon31CRH::compress(&join_state(&digest, &chunk));
            if len - at <= 8 {
                at = len;
            } else {
                at = at + 8;
            }
            assert(column_values@.skip(at as int) =~= later_chunks(rest));
        }
        Poseidon31Hash(digest)
    }

    /// The rate of the sponge that absorbed a column.
    pub fn hash_column_get_rate(column_values: &[BaseField]) -> (r: Poseidon31Hash)
        requires
            column_values@.len() > 0,
        ensures
            r@ == sponge_state(column_values@, zeros(8)).take(8),
    {
        let len: usize = column_values.len();
        let mut capacity = [M31(0); 8];
        assert(capacity@ =~= zeros(8));
        let mut at: usize = 0;
        assert(column_values@.skip(0) =~= column_values@);
        while len - at > 8
            invariant
                at < len,
                len == column_values@.len(),
                sponge_state(column_values@, zeros(8)) == sponge_state(
                    column_values@.skip(at as int),
                    capacity@,
                ),
            decreases len - at,
        {
            let ghost rest = column_values@.skip(at as int);
            let chunk = chunk_at(column_values, at);
            capacity = Poseidon31CRH::permute_get_capacity(&join_state(&chunk, &capacity));
            at = at + 8;
            assert(column_values@.skip(at as int) =~= later_chunks(rest));
        }
        let chunk = chunk_at(column_values, at);
        Poseidon31Hash(Poseidon31CRH::permute_get_rate(&join_state(&chunk, &capacity)))
    }

    /// The capacity of the sponge that absorbed a column.
    pub fn hash_column_get_capacity(column_values: &[BaseField]) -> (r: Poseidon31Hash)
        ensures
            r@ == absorbed(column_values@, zeros(8)),
    {
        let capacity = [M31(0); 8];
        assert(capacity@ =~= zeros(8));
        Poseidon31Hash(Poseidon31CRH::absorb(column_values, &capacity))
    }
}

impl MerkleHasher for Poseidon31MerkleHasher {
    type Hash = Poseidon31Hash;

    open spec fn node(children: Option<(Seq<M31>, Seq<M31>)>, values: Seq<BaseField>) -> Seq<M31> {
        match children {
            Some((left, right)) => if values.len() == 0 {
                compression(left + right)
            } else {
                compression(compression(left + right) + column_hash(values))
            },
            None => column_hash(values),
        }
    }

    fn hash_node(
        children_hashes: Option<(Poseidon31Hash, Poseidon31Hash)>,
        column_values: &[BaseField],
    ) -> (r: Poseidon31Hash) {
        match children_hashes {
            Some((left, right)) => {
                let hash_tree = Poseidon31CRH::compress(&join_state(&left.0, &right.0));
                if column_values.len() == 0 {
                    Poseidon31Hash(hash_tree)
                } else {
                    let hash_column = Poseidon31MerkleHasher::hash_column(column_values);
                    Poseidon31Hash(
                        Poseidon31CRH::compress(&join_state(&hash_tree, &hash_column.0)),
                    )
                }
            },
            None => Poseidon31MerkleHasher::hash_column(column_values),
        }
    }

    fn same_hash(first: &Poseidon31Hash, second: &Poseidon31Hash) -> (r: bool) {
        first.same(second)
    }
}

/// Mixes Poseidon31 roots into a channel.
#[derive(Clone, Copy, Debug, PartialEq, Eq, Structural)]
pub struct Poseidon31MerkleChannel;

impl Default for Poseidon31MerkleChannel {
    fn default() -> (r: Poseidon31MerkleChannel)
        ensures
            r == Poseidon31MerkleChannel,
    {
        Poseidon31MerkleChannel
    }
}

impl Poseidon31MerkleChannel {
    /// Mixes `root` into the digest of `channel`.
    pub fn mix_root(channel: &mut Poseidon31Channel, root: Poseidon31Hash)
        requires
            old(channel)@.n_challenges < usize::MAX,
        ensures
            final(channel)@ == old(channel)@.after_messages(
                1,
                poseidon2(root@ + old(channel)@.digest).skip(8),
            ),
    {
        let channel_digest = channel.digest();
        let state = join_state(&root.0, &channel_digest);
        channel.update_digest(Poseidon31CRH::permute_get_capacity(&state));
    }

    /// Mixes `root` into the digest of a channel that counts draws.
    pub fn mix_root_counted(channel: &mut poseidon31::Poseidon31Channel, root: Poseidon31Hash)
        ensures
            final(channel)@ == (DrawState {
                digest: poseidon2(root@ + old(channel)@.digest).skip(8),
                n_draws: 0,
            }),
    {
        let channel_digest = channel.digest();
        let state = join_state(&root.0, &channel_digest);
        channel.update_digest(Poseidon31CRH::permute_get_capacity(&state));
    }
}

/// A digest has eight elements after any number of compressions.
proof fn compressed_len(digest: Seq<M31>, values: Seq<M31>)
    requires
        digest.len() == 8,
    ensures
        compressed(digest, values).len() == 8,
    decreases values.len(),
{
    if values.len() > 0 {
        compressed_len(compression(digest + first_chunk(values)), later_chunks(values));
    }
}

/// The hash of a node has eight elements.
pub proof fn node_len(children: Option<(Seq<M31>, Seq<M31>)>, values: Seq<BaseField>)
    ensures
        Poseidon31MerkleHasher::node(children, values).len() == 8,
{
    compressed_len(first_chunk(values), later_chunks(values));
}

/// The hash of a node with children and column values compresses the hash of the node without the
/// values and that of the node without the children.
pub proof fn node_in_parts(children: (Seq<M31>, Seq<M31>), values: Seq<BaseField>)
    requires
        values.len() > 0,
    ensures
        Poseidon31MerkleHasher::node(Some(children), values) == compression(
            Poseidon31MerkleHasher::node(Some(children), seq![]) + Poseidon31MerkleHasher::node(
                None,
                values,
            ),
        ),
{
}

/// Mixing a root into a channel is mixing in its two secure field elements.
pub proof fn root_is_message(root: Seq<M31>, digest: Seq<M31>)
    requires
        root.len() == 8,
    ensures
        poseidon2(root + digest).skip(8) == absorbed(
            flatten(seq![qm31_at(root, 0), qm31_at(root, 4)]),
            digest,
        ),
{
    assert(flatten(seq![qm31_at(root, 0), qm31_at(root, 4)]) =~= root);
    assert(first_chunk(root) =~= root);
    let next = poseidon2(root + digest).skip(8);
    assert(absorbed(later_chunks(root), next) == next);
}

} // verus!
