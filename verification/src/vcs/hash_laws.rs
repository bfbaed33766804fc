//! Laws of the hash functions: what a permutation, a sponge, a digest chain and a node hash are
//! made of, step by step.
use vstd::arithmetic::power::*;
use vstd::arithmetic::power2::*;
use vstd::prelude::*;

use crate::channel::binding::{chain_binds, chains_collide, chains_uneven};
use crate::fields::m31::{m31, zeros, BaseField, M31};
use crate::vcs::btc_sha256_merkle;
use crate::vcs::btc_sha256_merkle::BTCSha256MerkleHasher;
use crate::vcs::ops::MerkleHasher;
use crate::vcs::poseidon31_merkle;
use crate::vcs::poseidon31_merkle::Poseidon31MerkleHasher;
use crate::vcs::poseidon31_ref::{
    absorbed, compression, external_layer, first_chunk, full_rounds, internal_layer, later_chunks,
    m4_block, m4_row, partial_rounds, poseidon2, sbox, sponge_state, total,
    FIRST_FOUR_ROUND_RC, LAST_FOUR_ROUNDS_RC, MAT_DIAG16_M_1, PARTIAL_ROUNDS_RC,
};
use crate::vcs::script_num;
use crate::vcs::sha256_hash::{num_chain, sha256_digest, zero_digest};
use crate::vcs::sha256_poseidon31_merkle;
use crate::vcs::sha256_poseidon31_merkle::Sha256Poseidon31MerkleHasher;

verus! {

/// The external layer in equations. `x` holds the sums of the elements at the same place in their
/// blocks of four.
pub proof fn external_equations(state: Seq<M31>, k: int, x: Seq<int>)
    requires
        state.len() == 16,
        0 <= k < 4,
        x.len() == 4,
        forall|j: int|
            0 <= j < 4 ==> #[trigger] x[j] == state[j].0 + state[j + 4].0 + state[j + 8].0 + state[j
                + 12].0,
    ensures
        ({
            let a = state[4 * k].0 + x[0];
            let b = state[4 * k + 1].0 + x[1];
            let c = state[4 * k + 2].0 + x[2];
            let d = state[4 * k + 3].0 + x[3];
            let r = external_layer(state);
            &&& r.len() == 16
            &&& r[4 * k].0 == (5 * a + 7 * b + c + 3 * d) % 0x7fff_ffff
            &&& r[4 * k + 1].0 == (4 * a + 6 * b + c + d) % 0x7fff_ffff
            &&& r[4 * k + 2].0 == (a + 3 * b + 5 * c + 7 * d) % 0x7fff_ffff
            &&& r[4 * k + 3].0 == (a + b + 4 * c + 6 * d) % 0x7fff_ffff
        }),
{
    external_row(state, k, 0, x);
    external_row(state, k, 1, x);
    external_row(state, k, 2, x);
    external_row(state, k, 3, x);
}

proof fn external_row(state: Seq<M31>, k: int, r: int, x: Seq<int>)
    requires
        state.len() == 16,
        0 <= k < 4,
        0 <= r < 4,
        x.len() == 4,
        forall|j: int|
            0 <= j < 4 ==> #[trigger] x[j] == state[j].0 + state[j + 4].0 + state[j + 8].0 + state[j
                + 12].0,
    ensures
        external_layer(state)[4 * k + r].0 == m4_row(
            r,
            state[4 * k].0 + x[0],
            state[4 * k + 1].0 + x[1],
            state[4 * k + 2].0 + x[2],
            state[4 * k + 3].0 + x[3],
        ) % 0x7fff_ffff,
{
    let here = m4_block(state, k, r);
    let sum = m4_block(state, 0, r) + m4_block(state, 1, r) + m4_block(state, 2, r) + m4_block(
        state,
        3,
        r,
    );
    assert((4 * k + r) / 4 == k && (4 * k + r) % 4 == r);
    assert(external_layer(state)[4 * k + r] == m31(here + sum));
    assert(here == m4_row(
        r,
        state[4 * k].0 as int,
        state[4 * k + 1].0 as int,
        state[4 * k + 2].0 as int,
        state[4 * k + 3].0 as int,
    )) by {
        reveal(m4_block);
    }
    assert(sum == m4_row(r, x[0], x[1], x[2], x[3])) by {
        reveal(m4_block);
    }
}

/// The internal layer in equations: each element, times three or a power of two, and the sum of
/// all.
pub proof fn internal_equations(state: Seq<M31>, i: int)
    requires
        state.len() == 16,
        0 <= i < 16,
    ensures
        ({
            let sum = state[0].0 + state[1].0 + state[2].0 + state[3].0 + state[4].0 + state[5].0
                + state[6].0 + state[7].0 + state[8].0 + state[9].0 + state[10].0 + state[11].0
                + state[12].0 + state[13].0 + state[14].0 + state[15].0;
            &&& internal_layer(state).len() == 16
            &&& i == 0 ==> internal_layer(state)[i].0 == (3 * state[0].0 + sum) % 0x7fff_ffff
            &&& i > 0 ==> internal_layer(state)[i].0 == (pow2((i + 1) as nat) * state[i].0 + sum)
                % 0x7fff_ffff
        }),
{
    reveal_with_fuel(total, 17);
    lemma2_to64();
    let d = MAT_DIAG16_M_1@[i] as int;
    assert(i > 0 ==> d == pow2((i + 1) as nat));
    if i > 0 {
        assert(d * state[i].0 == pow2((i + 1) as nat) * state[i].0);
    }
}

/// The S-box is the fifth power of the sum with the round constant.
pub proof fn sbox_fifth_power(x: M31, rc: u32)
    ensures
        sbox(x, rc).0 == pow(x.0 + rc, 5) % 0x7fff_ffff,
{
    let y = x.0 + rc;
    reveal(pow);
    reveal_with_fuel(pow, 6);
    assert(pow(y, 5) == y * (y * (y * (y * (y * 1)))));
    assert(y * (y * (y * (y * (y * 1)))) == y * y * y * y * y) by (nonlinear_arith);
}

/// The permutation is a run of 22 rounds behind a first external layer. Four full rounds put every
/// element through the S-box and the state through the external layer, fourteen partial rounds put
/// the first element through the S-box and the state through the internal layer, and four more full
/// rounds follow.
pub proof fn permutation_rounds(state: Seq<M31>) -> (states: Seq<Seq<M31>>)
    ensures
        states.len() == 23,
        states[0] == external_layer(state),
        states[22] == poseidon2(state),
        forall|r: int|
            0 <= r < 4 ==> #[trigger] states[r + 1] == external_layer(
                Seq::new(16, |i: int| sbox(states[r][i], FIRST_FOUR_ROUND_RC@[r]@[i])),
            ),
        forall|r: int|
            4 <= r < 18 ==> #[trigger] states[r + 1] == internal_layer(
                states[r].update(0, sbox(states[r][0], PARTIAL_ROUNDS_RC@[r - 4])),
            ),
        forall|r: int|
            18 <= r < 22 ==> #[trigger] states[r + 1] == external_layer(
                Seq::new(16, |i: int| sbox(states[r][i], LAST_FOUR_ROUNDS_RC@[r - 18]@[i])),
            ),
{
    reveal(poseidon2);
    let start = external_layer(state);
    let middle = full_rounds(start, FIRST_FOUR_ROUND_RC, 4);
    let end = partial_rounds(middle, 14);
    let states = Seq::new(
        23,
        |k: int|
            if k <= 4 {
                full_rounds(start, FIRST_FOUR_ROUND_RC, k as nat)
            } else if k <= 18 {
                partial_rounds(middle, (k - 4) as nat)
            } else {
                full_rounds(end, LAST_FOUR_ROUNDS_RC, (k - 18) as nat)
            },
    );
    assert(partial_rounds(middle, 0) == middle);
    assert(full_rounds(end, LAST_FOUR_ROUNDS_RC, 0) == end);
    assert forall|r: int| 0 <= r < 4 implies #[trigger] states[r + 1] == external_layer(
        Seq::new(16, |i: int| sbox(states[r][i], FIRST_FOUR_ROUND_RC@[r]@[i])),
    ) by {
        assert(states[r] == full_rounds(start, FIRST_FOUR_ROUND_RC, r as nat));
        assert(Seq::new(16, |i: int| sbox(states[r][i], FIRST_FOUR_ROUND_RC@[r]@[i])) =~= Seq::new(
            16,
            |i: int|
                sbox(
                    full_rounds(start, FIRST_FOUR_ROUND_RC, r as nat)[i],
                    FIRST_FOUR_ROUND_RC@[r]@[i],
                ),
        ));
    }
    assert forall|r: int| 4 <= r < 18 implies #[trigger] states[r + 1] == internal_layer(
        states[r].update(0, sbox(states[r][0], PARTIAL_ROUNDS_RC@[r - 4])),
    ) by {
        assert(states[r] == partial_rounds(middle, (r - 4) as nat));
    }
    assert forall|r: int| 18 <= r < 22 implies #[trigger] states[r + 1] == external_layer(
        Seq::new(16, |i: int| sbox(states[r][i], LAST_FOUR_ROUNDS_RC@[r - 18]@[i])),
    ) by {
        assert(states[r] == full_rounds(end, LAST_FOUR_ROUNDS_RC, (r - 18) as nat));
        assert(Seq::new(16, |i: int| sbox(states[r][i], LAST_FOUR_ROUNDS_RC@[r - 18]@[i]))
            =~= Seq::new(
            16,
            |i: int|
                sbox(
                    full_rounds(end, LAST_FOUR_ROUNDS_RC, (r - 18) as nat)[i],
                    LAST_FOUR_ROUNDS_RC@[r - 18]@[i],
                ),
        ));
    }
    states
}

/// A compression adds the first half of its input to that of the permuted input.
pub proof fn compression_feeds_forward(state: Seq<M31>, i: int)
    requires
        state.len() == 16,
        0 <= i < 8,
    ensures
        compression(state).len() == 8,
        compression(state)[i].0 == (poseidon2(state)[i].0 + state[i].0) % 0x7fff_ffff,
{
}

/// A sponge that absorbs nothing keeps its capacity. One that absorbs at most eight values permutes
/// the state that holds them, zeros up to the eighth element, and the capacity.
pub proof fn sponge_absorbs_chunk(values: Seq<M31>, capacity: Seq<M31>, state: Seq<M31>)
    requires
        0 < values.len() <= 8,
        capacity.len() == 8,
        state.len() == 16,
        forall|i: int| 0 <= i < values.len() ==> #[trigger] state[i] == values[i],
        forall|i: int| values.len() <= i < 8 ==> #[trigger] state[i] == M31(0),
        forall|i: int| 8 <= i < 16 ==> #[trigger] state[i] == capacity[i - 8],
    ensures
        absorbed(seq![], capacity) == capacity,
        absorbed(values, capacity) == poseidon2(state).skip(8),
        sponge_state(values, capacity) == poseidon2(state),
{
    assert(first_chunk(values) + capacity =~= state);
    let next = poseidon2(state).skip(8);
    assert(later_chunks(values).len() == 0);
    assert(absorbed(later_chunks(values), next) == next);
}

/// A sponge that absorbs values in two parts, the first of which fills its chunks, ends in the
/// state that it ends in when it absorbs them at once: no value is left out.
pub proof fn sponge_in_parts(first: Seq<M31>, rest: Seq<M31>, capacity: Seq<M31>)
    requires
        first.len() % 8 == 0,
        rest.len() > 0,
    ensures
        sponge_state(first + rest, capacity) == sponge_state(rest, absorbed(first, capacity)),
    decreases first.len(),
{
    if first.len() == 0 {
        assert(first + rest =~= rest);
    } else {
        let all = first + rest;
        assert(all.take(8) =~= first.take(8));
        assert(later_chunks(all) =~= later_chunks(first) + rest);
        sponge_in_parts(
            later_chunks(first),
            rest,
            poseidon2(first_chunk(first) + capacity).skip(8),
        );
    }
}

/// A digest chain over one more value hashes its script encoding in front of the chain before it,
/// and a chain over nothing is its seed.
pub proof fn chain_link(values: Seq<M31>, v: M31, seed: Seq<u8>)
    ensures
        num_chain(seq![], seed) == seed,
        num_chain(values.push(v), seed) == sha256_digest(
            script_num(v.0 as nat) + num_chain(values, seed),
        ),
{
    assert(values.push(v).drop_last() =~= values);
}

/// The digest of a fresh channel is 32 zeros.
pub proof fn fresh_digest(i: int)
    requires
        0 <= i < 32,
    ensures
        zero_digest().len() == 32,
        zero_digest()[i] == 0,
{
}

/// The hash of a Bitcoin node without values is the digest of its children. The leaf with one value
/// is the digest of its encoding, and that with one more in front is the digest of its encoding and
/// of the leaf behind it.
pub proof fn btc_sha256_nodes(left: Seq<u8>, right: Seq<u8>, v: M31, rest: Seq<BaseField>)
    ensures
        BTCSha256MerkleHasher::node(Some((left, right)), seq![]) == sha256_digest(left + right),
        BTCSha256MerkleHasher::node(None, seq![v]) == sha256_digest(script_num(v.0 as nat)),
        rest.len() > 0 ==> BTCSha256MerkleHasher::node(None, seq![v] + rest) == sha256_digest(
            script_num(v.0 as nat) + BTCSha256MerkleHasher::node(None, rest),
        ),
{
    let nothing: Seq<u8> = seq![];
    assert(seq![v].reverse() =~= seq![].push(v));
    chain_link(seq![], v, nothing);
    assert(script_num(v.0 as nat) + nothing =~= script_num(v.0 as nat));
    assert((seq![v] + rest).reverse() =~= rest.reverse().push(v));
    chain_link(rest.reverse(), v, nothing);
}

/// The hash of a node of the SHA-256 tree with Poseidon31 without values is the digest of its
/// children. The leaf with one value is the digest of its encoding, and that with one more behind,
/// up to eight, is the digest of its encoding and of the leaf before it.
pub proof fn sha256_poseidon31_nodes(left: Seq<u8>, right: Seq<u8>, rest: Seq<BaseField>, v: M31)
    ensures
        Sha256Poseidon31MerkleHasher::node(Some((left, right)), seq![]) == sha256_digest(
            left + right,
        ),
        Sha256Poseidon31MerkleHasher::node(None, seq![v]) == sha256_digest(
            script_num(v.0 as nat),
        ),
        0 < rest.len() < 8 ==> Sha256Poseidon31MerkleHasher::node(None, rest.push(v))
            == sha256_digest(
            script_num(v.0 as nat) + Sha256Poseidon31MerkleHasher::node(None, rest),
        ),
{
    let nothing: Seq<u8> = seq![];
    assert(seq![v] =~= seq![].push(v));
    chain_link(seq![], v, nothing);
    assert(script_num(v.0 as nat) + nothing =~= script_num(v.0 as nat));
    chain_link(rest, v, nothing);
}

/// A leaf with more than eight values has the hash of the leaf with the eight elements that the
/// sponge holds in its rate once it has absorbed all of the values, whatever their number.
pub proof fn wide_leaf(values: Seq<BaseField>)
    requires
        values.len() > 8,
    ensures
        Sha256Poseidon31MerkleHasher::node(None, values) == Sha256Poseidon31MerkleHasher::node(
            None,
            sponge_state(values, zeros(8)).take(8),
        ),
{
    crate::vcs::poseidon31_ref::sponge_state_capacity(values, zeros(8));
}

/// A leaf binds its values: two leaves with the same number of values and the same hash have the
/// same values, or else two different inputs of the sponge with the same rate are named, or the two
/// digest chains come upon a collision or through links of different lengths.
pub proof fn leaf_binds(first: Seq<BaseField>, second: Seq<BaseField>)
    requires
        first.len() == second.len() > 0,
        Sha256Poseidon31MerkleHasher::node(None, first) == Sha256Poseidon31MerkleHasher::node(
            None,
            second,
        ),
    ensures
        first.len() <= 8 ==> first == second || chains_collide(first, seq![], second, seq![])
            || chains_uneven(first, seq![], second, seq![]),
        first.len() > 8 ==> ({
            let a = sponge_state(first, zeros(8)).take(8);
            let b = sponge_state(second, zeros(8)).take(8);
            first == second || (first != second && a == b) || chains_collide(a, seq![], b, seq![])
                || chains_uneven(a, seq![], b, seq![])
        }),
{
    if first.len() <= 8 {
        chain_binds(first, seq![], second, seq![]);
    } else {
        crate::vcs::poseidon31_ref::sponge_state_capacity(first, zeros(8));
        crate::vcs::poseidon31_ref::sponge_state_capacity(second, zeros(8));
        chain_binds(
            sponge_state(first, zeros(8)).take(8),
            seq![],
            sponge_state(second, zeros(8)).take(8),
            seq![],
        );
    }
}

/// The hash of a Poseidon31 node without values is the compression of its children. A leaf with at
/// most eight values holds them, with zeros behind. One with values behind full chunks is the
/// compression of the leaf with the chunks and the leaf with the values behind them.
pub proof fn poseidon31_nodes(
    left: Seq<M31>,
    right: Seq<M31>,
    chunks: Seq<BaseField>,
    rest: Seq<BaseField>,
    i: int,
)
    requires
        chunks.len() % 8 == 0,
        chunks.len() > 0,
        0 < rest.len() <= 8,
        0 <= i < 8,
    ensures
        Poseidon31MerkleHasher::node(Some((left, right)), seq![]) == compression(left + right),
        Poseidon31MerkleHasher::node(None, rest).len() == 8,
        i < rest.len() ==> Poseidon31MerkleHasher::node(None, rest)[i] == rest[i],
        i >= rest.len() ==> Poseidon31MerkleHasher::node(None, rest)[i] == M31(0),
        Poseidon31MerkleHasher::node(None, chunks + rest) == compression(
            Poseidon31MerkleHasher::node(None, chunks) + Poseidon31MerkleHasher::node(None, rest),
        ),
{
    assert(later_chunks(rest).len() == 0);
    assert(poseidon31_merkle::compressed(first_chunk(rest), later_chunks(rest)) == first_chunk(
        rest,
    ));
    let all = chunks + rest;
    assert(all.take(8) =~= chunks.take(8));
    assert(later_chunks(all) =~= later_chunks(chunks) + rest);
    compressed_append(first_chunk(chunks), later_chunks(chunks), rest);
}

proof fn compressed_append(digest: Seq<M31>, chunks: Seq<M31>, rest: Seq<M31>)
    requires
        chunks.len() % 8 == 0,
        0 < rest.len() <= 8,
    ensures
        poseidon31_merkle::compressed(digest, chunks + rest) == compression(
            poseidon31_merkle::compressed(digest, chunks) + first_chunk(rest),
        ),
    decreases chunks.len(),
{
    if chunks.len() == 0 {
        assert(chunks + rest =~= rest);
        let next = compression(digest + first_chunk(rest));
        assert(later_chunks(rest).len() == 0);
        assert(poseidon31_merkle::compressed(next, later_chunks(rest)) == next);
    } else {
        let all = chunks + rest;
        assert(all.take(8) =~= chunks.take(8));
        assert(later_chunks(all) =~= later_chunks(chunks) + rest);
        compressed_append(compression(digest + first_chunk(chunks)), later_chunks(chunks), rest);
    }
}

/// The hash of a column is the hash of the leaf with its values, in each of the three trees.
pub proof fn column_is_leaf(values: Seq<BaseField>)
    ensures
        btc_sha256_merkle::column_hash(values) == BTCSha256MerkleHasher::node(None, values),
        poseidon31_merkle::column_hash(values) == Poseidon31MerkleHasher::node(None, values),
        sha256_poseidon31_merkle::column_hash(values) == Sha256Poseidon31MerkleHasher::node(
            None,
            values,
        ),
{
}

/// A chunk holds the first eight values, and zeros where there are fewer.
pub proof fn chunk_padded(values: Seq<M31>, i: int)
    requires
        0 <= i < 8,
    ensures
        first_chunk(values).len() == 8,
        i < values.len() ==> first_chunk(values)[i] == values[i],
        i >= values.len() ==> first_chunk(values)[i] == M31(0),
{
}

} // verus!
