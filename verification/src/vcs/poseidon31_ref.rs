//! The Poseidon2 permutation of width 16 over the Mersenne-31 field.
//!
//! Eight full rounds, four before and four after fourteen partial rounds, with the S-box `x^5`.
use vstd::arithmetic::div_mod::*;
use vstd::prelude::*;

use crate::fields::m31::{m31, zeros, M31, P};

verus! {

/// The round constants of the full rounds before the partial rounds.
pub const FIRST_FOUR_ROUND_RC: [[u32; 16]; 4] = [
    [
        0x768bab52, 0x70e0ab7d, 0x3d266c8a, 0x6da42045, 0x600fef22, 0x41dace6b, 0x64f9bdd4, 0x5d42d4fe,
        0x76b1516d, 0x6fc9a717, 0x70ac4fb6, 0x00194ef6, 0x22b644e2, 0x1f7916d5, 0x47581be2, 0x2710a123,
    ],
    [
        0x6284e867, 0x018d3afe, 0x5df99ef3, 0x4c1e467b, 0x566f6abc, 0x2994e427, 0x538a6d42, 0x5d7bf2cf,
        0x7fda2dab, 0x0fd854c4, 0x46922fca, 0x3d7763a1, 0x19fd05ca, 0x0a4bbb43, 0x15075851, 0x3d903d76,
    ],
    [
        0x2d290ff7, 0x40809fa0, 0x59dac6ec, 0x127927a2, 0x6bbf0ea0, 0x0294140f, 0x24742976, 0x6e84c081,
        0x22484f4a, 0x354cae59, 0x0453ffe1, 0x3f47a3cc, 0x0088204e, 0x6066e109, 0x3b7c4b80, 0x6b55665d,
    ],
    [
        0x3bc4b897, 0x735bf378, 0x508daf42, 0x1884fc2b, 0x7214f24c, 0x7498be0a, 0x1a60e640, 0x3303f928,
        0x29b46376, 0x5c96bb68, 0x65d097a5, 0x1d358e9f, 0x4a9a9017, 0x4724cf76, 0x347af70f, 0x1e77e59a,
    ],
];

/// The round constants of the partial rounds.
pub const PARTIAL_ROUNDS_RC: [u32; 14] = [
    0x7f7ec4bf, 0x0421926f, 0x5198e669, 0x34db3148, 0x4368bafd, 0x66685c7f, 0x78d3249a,
    0x60187881, 0x76dad67a, 0x0690b437, 0x1ea95311, 0x40e5369a, 0x38f103fc, 0x1d226a21,
];

/// The round constants of the full rounds after the partial rounds.
pub const LAST_FOUR_ROUNDS_RC: [[u32; 16]; 4] = [
    [
        0x57090613, 0x1fa42108, 0x17bbef50, 0x1ff7e11c, 0x047b24ca, 0x4e140275, 0x4fa086f5, 0x079b309c,
        0x1159bd47, 0x6d37e4e5, 0x075d8dce, 0x12121ca0, 0x7f6a7c40, 0x68e182ba, 0x5493201b, 0x0444a80e,
    ],
    [
        0x0064f4c6, 0x6467abe6, 0x66975762, 0x2af68f9b, 0x345b33be, 0x1b70d47f, 0x053db717, 0x381189cb,
        0x43b915f8, 0x20df3694, 0x0f459d26, 0x77a0e97b, 0x2f73e739, 0x1876c2f9, 0x65a0e29a, 0x4cabefbe,
    ],
    [
        0x5abd1268, 0x4d34a760, 0x12771799, 0x69a0c9ac, 0x39091e55, 0x7f611cd0, 0x3af055da, 0x7ac0bbdf,
        0x6e0f3a24, 0x41e3b6f7, 0x49b3756d, 0x568bc538, 0x20c079d8, 0x1701c72c, 0x7670dc6c, 0x5a439035,
    ],
    [
        0x7c93e00e, 0x561fbb4d, 0x1178907b, 0x02737406, 0x32fb24f1, 0x6323b60a, 0x6ab12418, 0x42c99cea,
        0x155a0b97, 0x53d1c6aa, 0x2bd20347, 0x279b3d73, 0x4f5f3c70, 0x0245af6c, 0x238359d3, 0x49966a59,
    ],
];

/// The diagonal of the internal matrix, less one: three, then the powers of two from four on.
pub const MAT_DIAG16_M_1: [u32; 16] = [
    3, 4, 8, 16, 32, 64, 128, 256, 512, 1024, 2048, 4096, 8192, 16384, 32768, 65536,
];

/// Row `r` of the matrix `M4` applied to four values.
pub open spec fn m4_row(r: int, a: int, b: int, c: int, d: int) -> int {
    if r == 0 {
        5 * a + 7 * b + c + 3 * d
    } else if r == 1 {
        4 * a + 6 * b + c + d
    } else if r == 2 {
        a + 3 * b + 5 * c + 7 * d
    } else {
        a + b + 4 * c + 6 * d
    }
}

/// Row `r` of `M4` applied to the block `k` of four elements of `state`.
#[verifier::opaque]
pub open spec fn m4_block(state: Seq<M31>, k: int, r: int) -> int {
    m4_row(
        r,
        state[4 * k].0 as int,
        state[4 * k + 1].0 as int,
        state[4 * k + 2].0 as int,
        state[4 * k + 3].0 as int,
    )
}

/// The external matrix, the block circulant of `2 M4, M4, M4, M4`, applied to `state`.
pub open spec fn external_layer(state: Seq<M31>) -> Seq<M31> {
    Seq::new(
        16,
        |i: int|
            m31(
                m4_block(state, i / 4, i % 4) + m4_block(state, 0, i % 4) + m4_block(
                    state,
                    1,
                    i % 4,
                ) + m4_block(state, 2, i % 4) + m4_block(state, 3, i % 4),
            ),
    )
}

/// The sum of the first `n` elements of `state`, as integers.
pub open spec fn total(state: Seq<M31>, n: nat) -> int
    decreases n,
{
    if n == 0 {
        0
    } else {
        total(state, (n - 1) as nat) + state[n - 1].0
    }
}

/// The internal matrix, all ones but for its diagonal, applied to `state`.
pub open spec fn internal_layer(state: Seq<M31>) -> Seq<M31> {
    Seq::new(16, |i: int| m31(MAT_DIAG16_M_1@[i] * state[i].0 + total(state, 16)))
}

/// The S-box on the sum of `x` and the round constant `rc`.
pub open spec fn sbox(x: M31, rc: u32) -> M31 {
    let y = x.0 + rc;
    m31(y * y * y * y * y)
}

/// One full round.
pub open spec fn full_round(state: Seq<M31>, rc: Seq<u32>) -> Seq<M31> {
    external_layer(Seq::new(16, |i: int| sbox(state[i], rc[i])))
}

/// The first `n` rounds of the full rounds with the constants `rc`.
pub open spec fn full_rounds(state: Seq<M31>, rc: [[u32; 16]; 4], n: nat) -> Seq<M31>
    decreases n,
{
    if n == 0 {
        state
    } else {
        full_round(full_rounds(state, rc, (n - 1) as nat), rc@[n - 1]@)
    }
}

/// One partial round.
pub open spec fn partial_round(state: Seq<M31>, rc: u32) -> Seq<M31> {
    internal_layer(state.update(0, sbox(state[0], rc)))
}

/// The first `n` partial rounds.
pub open spec fn partial_rounds(state: Seq<M31>, n: nat) -> Seq<M31>
    decreases n,
{
    if n == 0 {
        state
    } else {
        partial_round(partial_rounds(state, (n - 1) as nat), PARTIAL_ROUNDS_RC@[n - 1])
    }
}

/// The permutation.
#[verifier::opaque]
pub open spec fn poseidon2(state: Seq<M31>) -> Seq<M31> {
    full_rounds(
        partial_rounds(full_rounds(external_layer(state), FIRST_FOUR_ROUND_RC, 4), 14),
        LAST_FOUR_ROUNDS_RC,
        4,
    )
}

/// `x^5`, where `x` is the sum of an element and a round constant.
fn pow5(x: M31, rc: u32) -> (r: M31)
    ensures
        r == sbox(x, rc),
        r.0 < P,
{
    let ghost p = P as int;
    let ghost y = x.0 + rc;
    let y1: u64 = (x.0 as u64 + rc as u64) % (P as u64);
    assert(y1 * y1 <= 0x7fffffff * 0x7fffffff) by (nonlinear_arith)
        requires
            y1 <= 0x7fffffff,
    ;
    let y2: u64 = (y1 * y1) % (P as u64);
    assert(y2 * y2 <= 0x7fffffff * 0x7fffffff) by (nonlinear_arith)
        requires
            y2 <= 0x7fffffff,
    ;
    let y4: u64 = (y2 * y2) % (P as u64);
    assert(y4 * y1 <= 0x7fffffff * 0x7fffffff) by (nonlinear_arith)
        requires
            y4 <= 0x7fffffff,
            y1 <= 0x7fffffff,
    ;
    proof {
        lemma_mul_mod_noop(y, y, p);
        assert(y2 == (y * y) % p);
        lemma_mul_mod_noop(y * y, y * y, p);
        assert(y4 == ((y * y) * (y * y)) % p);
        lemma_mul_mod_noop((y * y) * (y * y), y, p);
        assert((y * y) * (y * y) * y == y * y * y * y * y) by (nonlinear_arith);
    }
    M31::reduce(y4 * y1)
}

/// `M4` on the block `k` of `state`, by few additions. The results are small enough to be reduced
/// later.
fn apply_m4(state: &[M31; 16], k: usize) -> (r: [u64; 4])
    requires
        k < 4,
    ensures
        r@[0] == m4_block(state@, k as int, 0),
        r@[1] == m4_block(state@, k as int, 1),
        r@[2] == m4_block(state@, k as int, 2),
        r@[3] == m4_block(state@, k as int, 3),
        forall|i: int| 0 <= i < 4 ==> #[trigger] r@[i] <= 16 * u32::MAX,
{
    reveal(m4_block);
    let a: u64 = state[4 * k].0 as u64;
    let b: u64 = state[4 * k + 1].0 as u64;
    let c: u64 = state[4 * k + 2].0 as u64;
    let d: u64 = state[4 * k + 3].0 as u64;
    let t0: u64 = a + b;
    let t1: u64 = c + d;
    let t2: u64 = b + b + t1;
    let t3: u64 = d + d + t0;
    let t4: u64 = 4 * t1 + t3;
    let t5: u64 = 4 * t0 + t2;
    let t6: u64 = t3 + t5;
    let t7: u64 = t2 + t4;
    [t6, t5, t7, t4]
}

/// Applies the external matrix.
fn apply_external_round_matrix(state: &mut [M31; 16])
    ensures
        final(state)@ == external_layer(old(state)@),
{
    let ghost s = state@;
    let p0 = apply_m4(state, 0);
    let p1 = apply_m4(state, 1);
    let p2 = apply_m4(state, 2);
    let p3 = apply_m4(state, 3);
    let t0: u64 = p0[0] + p1[0] + p2[0] + p3[0];
    let t1: u64 = p0[1] + p1[1] + p2[1] + p3[1];
    let t2: u64 = p0[2] + p1[2] + p2[2] + p3[2];
    let t3: u64 = p0[3] + p1[3] + p2[3] + p3[3];
    *state = [
        M31::reduce(p0[0] + t0),
        M31::reduce(p0[1] + t1),
        M31::reduce(p0[2] + t2),
        M31::reduce(p0[3] + t3),
        M31::reduce(p1[0] + t0),
        M31::reduce(p1[1] + t1),
        M31::reduce(p1[2] + t2),
        M31::reduce(p1[3] + t3),
        M31::reduce(p2[0] + t0),
        M31::reduce(p2[1] + t1),
        M31::reduce(p2[2] + t2),
        M31::reduce(p2[3] + t3),
        M31::reduce(p3[0] + t0),
        M31::reduce(p3[1] + t1),
        M31::reduce(p3[2] + t2),
        M31::reduce(p3[3] + t3),
    ];
    proof {
        let target = external_layer(s);
        assert(state@[0] == target[0]);
        assert(state@[1] == target[1]);
        assert(state@[2] == target[2]);
        assert(state@[3] == target[3]);
        assert(state@[4] == target[4]);
        assert(state@[5] == target[5]);
        assert(state@[6] == target[6]);
        assert(state@[7] == target[7]);
        assert(state@[8] == target[8]);
        assert(state@[9] == target[9]);
        assert(state@[10] == target[10]);
        assert(state@[11] == target[11]);
        assert(state@[12] == target[12]);
        assert(state@[13] == target[13]);
        assert(state@[14] == target[14]);
        assert(state@[15] == target[15]);
        assert(state@ =~= target);
    }
}

/// Applies the internal matrix.
fn apply_internal_round_matrix(state: &mut [M31; 16])
    ensures
        final(state)@ == internal_layer(old(state)@),
{
    let ghost s = state@;
    let mut sum: u64 = 0;
    let mut i: usize = 0;
    while i < 16
        invariant
            0 <= i <= 16,
            state@ == s,
            sum == total(s, i as nat),
            sum <= i * u32::MAX,
        decreases 16 - i,
    {
        sum = sum + state[i].0 as u64;
        i = i + 1;
    }
    let ghost target = internal_layer(s);
    let low: u64 = sum % (P as u64);
    let mut k: usize = 0;
    while k < 16
        invariant
            0 <= k <= 16,
            low == total(s, 16) % (P as int),
            low < P,
            s.len() == 16,
            target == internal_layer(s),
            forall|i: int| 0 <= i < k ==> #[trigger] state@[i] == target[i],
            forall|i: int| k <= i < 16 ==> #[trigger] state@[i] == s[i],
        decreases 16 - k,
    {
        let d: u64 = MAT_DIAG16_M_1[k] as u64;
        let x: u64 = state[k].0 as u64;
        assert(d * x <= 0xffffffff * 0xffffffff) by (nonlinear_arith)
            requires
                d <= 0xffffffff,
                x <= 0xffffffff,
        ;
        proof {
            lemma_add_mod_noop_right(d * x, total(s, 16), P as int);
        }
        state[k] = M31::reduce(d * x + low);
        k = k + 1;
    }
    assert(state@ =~= target);
}

/// Applies the full rounds with the constants `rc`.
fn apply_full_rounds(state: &mut [M31; 16], rc: &[[u32; 16]; 4])
    ensures
        final(state)@ == full_rounds(old(state)@, *rc, 4),
{
    let ghost s = state@;
    let mut r: usize = 0;
    while r < 4
        invariant
            0 <= r <= 4,
            state@ == full_rounds(s, *rc, r as nat),
        decreases 4 - r,
    {
        let ghost before = state@;
        let ghost after = Seq::new(16, |i: int| sbox(before[i], rc@[r as int]@[i]));
        let mut i: usize = 0;
        while i < 16
            invariant
                0 <= i <= 16,
                0 <= r < 4,
                after == Seq::new(16, |i: int| sbox(before[i], rc@[r as int]@[i])),
                forall|k: int| 0 <= k < i ==> #[trigger] state@[k] == after[k],
                forall|k: int| i <= k < 16 ==> #[trigger] state@[k] == before[k],
            decreases 16 - i,
        {
            state[i] = pow5(state[i], rc[r][i]);
            i = i + 1;
        }
        assert(state@ =~= after);
        apply_external_round_matrix(state);
        r = r + 1;
    }
}

/// Applies the permutation.
pub fn poseidon2_permute(state: &mut [M31; 16])
    ensures
        final(state)@ == poseidon2(old(state)@),
{
    reveal(poseidon2);
    apply_external_round_matrix(state);
    apply_full_rounds(state, &FIRST_FOUR_ROUND_RC);
    let ghost s = state@;
    let mut r: usize = 0;
    while r < 14
        invariant
            0 <= r <= 14,
            state@ == partial_rounds(s, r as nat),
        decreases 14 - r,
    {
        let ghost before = state@;
        state[0] = pow5(state[0], PARTIAL_ROUNDS_RC[r]);
        assert(state@ =~= before.update(0, sbox(before[0], PARTIAL_ROUNDS_RC@[r as int])));
        apply_internal_round_matrix(state);
        r = r + 1;
    }
    apply_full_rounds(state, &LAST_FOUR_ROUNDS_RC);
}

/// The permutation keeps the width of the state.
pub proof fn poseidon2_len(state: Seq<M31>)
    ensures
        poseidon2(state).len() == 16,
{
    reveal(poseidon2);
}

/// Every element of a permuted state is canonical.
pub proof fn poseidon2_canonical(state: Seq<M31>, i: int)
    requires
        0 <= i < 16,
    ensures
        poseidon2(state)[i].0 < P,
{
    reveal(poseidon2);
}

/// The permuted state with the rate fed forward, cut to the rate.
pub open spec fn compression(state: Seq<M31>) -> Seq<M31> {
    Seq::new(8, |i: int| m31(poseidon2(state)[i].0 + state[i].0))
}

/// `values` with zeros behind them, up to `n` elements.
pub open spec fn padded(values: Seq<M31>, n: nat) -> Seq<M31> {
    values + zeros((n - values.len()) as nat)
}

/// The length of the chunk that comes first when `values` is cut into chunks of eight.
pub open spec fn first_chunk_len(values: Seq<M31>) -> int {
    if values.len() < 8 {
        values.len() as int
    } else {
        8
    }
}

/// The first chunk of eight of `values`, padded with zeros.
pub open spec fn first_chunk(values: Seq<M31>) -> Seq<M31> {
    padded(values.take(first_chunk_len(values)), 8)
}

/// What follows the first chunk of eight of `values`.
pub open spec fn later_chunks(values: Seq<M31>) -> Seq<M31> {
    values.skip(first_chunk_len(values))
}

/// The capacity left once `values` went through the sponge in chunks of eight, each of which
/// replaces the rate, from the capacity `capacity` on.
pub open spec fn absorbed(values: Seq<M31>, capacity: Seq<M31>) -> Seq<M31>
    decreases values.len(),
{
    if values.len() == 0 {
        capacity
    } else {
        absorbed(later_chunks(values), poseidon2(first_chunk(values) + capacity).skip(8))
    }
}

/// The state left once `values`, which is not empty, went through the sponge.
pub open spec fn sponge_state(values: Seq<M31>, capacity: Seq<M31>) -> Seq<M31>
    decreases values.len(),
{
    let state = poseidon2(first_chunk(values) + capacity);
    if values.len() <= 8 {
        state
    } else {
        sponge_state(later_chunks(values), state.skip(8))
    }
}

/// The capacity of the state that the sponge ends with is the one that absorbing leaves.
pub proof fn sponge_state_capacity(values: Seq<M31>, capacity: Seq<M31>)
    requires
        values.len() > 0,
    ensures
        sponge_state(values, capacity).skip(8) == absorbed(values, capacity),
        sponge_state(values, capacity).len() == 16,
    decreases values.len(),
{
    let state = poseidon2(first_chunk(values) + capacity);
    poseidon2_len(first_chunk(values) + capacity);
    if values.len() > 8 {
        sponge_state_capacity(later_chunks(values), state.skip(8));
    } else {
        assert(absorbed(later_chunks(values), state.skip(8)) == state.skip(8));
    }
}

/// Absorbing in two parts is absorbing the whole, where the first part fills its chunks.
pub proof fn absorbed_concat(first: Seq<M31>, second: Seq<M31>, capacity: Seq<M31>)
    requires
        first.len() % 8 == 0,
    ensures
        absorbed(first + second, capacity) == absorbed(second, absorbed(first, capacity)),
    decreases first.len(),
{
    if first.len() == 0 {
        assert(first + second =~= second);
    } else {
        let both = first + second;
        assert(both.take(8) =~= first.take(8));
        assert(later_chunks(both) =~= later_chunks(first) + second);
        absorbed_concat(
            later_chunks(first),
            second,
            poseidon2(first_chunk(first) + capacity).skip(8),
        );
    }
}

/// The state with the given rate and capacity.
pub fn join_state(rate: &[M31; 8], capacity: &[M31; 8]) -> (r: [M31; 16])
    ensures
        r@ == rate@ + capacity@,
{
    let r = [
        rate[0],
        rate[1],
        rate[2],
        rate[3],
        rate[4],
        rate[5],
        rate[6],
        rate[7],
        capacity[0],
        capacity[1],
        capacity[2],
        capacity[3],
        capacity[4],
        capacity[5],
        capacity[6],
        capacity[7],
    ];
    assert(r@ =~= rate@ + capacity@);
    r
}

/// The first eight elements of a state.
pub fn state_rate(state: &[M31; 16]) -> (r: [M31; 8])
    ensures
        r@ == state@.take(8),
{
    let r = [
        state[0],
        state[1],
        state[2],
        state[3],
        state[4],
        state[5],
        state[6],
        state[7],
    ];
    assert(r@ =~= state@.take(8));
    r
}

/// The last eight elements of a state.
pub fn state_capacity(state: &[M31; 16]) -> (r: [M31; 8])
    ensures
        r@ == state@.skip(8),
{
    let r = [
        state[8],
        state[9],
        state[10],
        state[11],
        state[12],
        state[13],
        state[14],
        state[15],
    ];
    assert(r@ =~= state@.skip(8));
    r
}

/// At most eight elements of `values` from position `at` on, padded with zeros.
pub fn chunk_at(values: &[M31], at: usize) -> (r: [M31; 8])
    requires
        at <= values@.len(),
    ensures
        r@ == first_chunk(values@.skip(at as int)),
{
    let mut r = [M31(0); 8];
    let mut i: usize = 0;
    while i < 8 && i < values.len() - at
        invariant
            i <= 8,
            at + i <= values@.len(),
            forall|k: int| 0 <= k < i ==> #[trigger] r@[k] == values@[at + k],
            forall|k: int| i <= k < 8 ==> #[trigger] r@[k] == M31(0),
        decreases 8 - i,
    {
        r[i] = values[at + i];
        i = i + 1;
    }
    assert(r@ =~= first_chunk(values@.skip(at as int)));
    r
}

/// The Poseidon2 collision-resistant hash.
#[derive(Clone, Copy, Debug, PartialEq, Eq, Structural)]
pub struct Poseidon31CRH;

impl Poseidon31CRH {
    /// Compresses sixteen elements to eight.
    pub fn compress(state: &[M31; 16]) -> (r: [M31; 8])
        ensures
            r@ == compression(state@),
    {
        let mut permuted = *state;
        poseidon2_permute(&mut permuted);
        let r = [
            permuted[0].add(state[0]),
            permuted[1].add(state[1]),
            permuted[2].add(state[2]),
            permuted[3].add(state[3]),
            permuted[4].add(state[4]),
            permuted[5].add(state[5]),
            permuted[6].add(state[6]),
            permuted[7].add(state[7]),
        ];
        assert(r@ =~= compression(state@));
        r
    }

    /// The rate of the permuted state.
    pub fn permute_get_rate(state: &[M31; 16]) -> (r: [M31; 8])
        ensures
            r@ == poseidon2(state@).take(8),
    {
        let mut permuted = *state;
        poseidon2_permute(&mut permuted);
        state_rate(&permuted)
    }

    /// The capacity of the permuted state.
    pub fn permute_get_capacity(state: &[M31; 16]) -> (r: [M31; 8])
        ensures
            r@ == poseidon2(state@).skip(8),
    {
        let mut permuted = *state;
        poseidon2_permute(&mut permuted);
        state_capacity(&permuted)
    }

    /// Absorbs `values` in chunks of eight from the capacity `capacity` on, and returns the
    /// capacity that this leaves.
    pub fn absorb(values: &[M31], capacity: &[M31; 8]) -> (r: [M31; 8])
        ensures
            r@ == absorbed(values@, capacity@),
    {
        let mut cap = *capacity;
        let mut at: usize = 0;
        assert(values@.skip(0) =~= values@);
        while at < values.len()
            invariant
                at <= values@.len(),
                absorbed(values@, capacity@) == absorbed(values@.skip(at as int), cap@),
            decreases values@.len() - at,
        {
            let ghost rest = values@.skip(at as int);
            let chunk = chunk_at(values, at);
            cap = Poseidon31CRH::permute_get_capacity(&join_state(&chunk, &cap));
            if values.len() - at <= 8 {
                at = values.len();
            } else {
                at = at + 8;
            }
            assert(values@.skip(at as int) =~= later_chunks(rest));
        }
        cap
    }
}

} // verus!
