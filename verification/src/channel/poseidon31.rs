//! A channel on the Poseidon2 permutation.
use vstd::prelude::*;

use crate::bytes::{
    count_trailing_zeros, le_bytes, le_value, trailing_zeros_bound,
    trailing_zeros_divides, u32_to_le_bytes,
};
use crate::channel::sha256::ends_in_zeros;
use crate::channel::DrawState;
use crate::fields::m31::{m31, zeros, BaseField, M31, P};
use crate::fields::qm31::{flatten, flatten_felts, qm31_at, SecureField, QM31};
use crate::vcs::poseidon31_ref::{absorbed, join_state, padded, poseidon2, Poseidon31CRH};

verus! {

/// The number of bytes that a digest takes.
pub const POSEIDON31_BYTES_PER_HASH: usize = 32;

/// The number of base field elements in a digest.
pub const FELTS_PER_HASH: usize = 8;

/// The bytes of `felts`, four of each.
pub open spec fn felt_bytes(felts: Seq<M31>) -> Seq<u8> {
    Seq::new(4 * felts.len(), |i: int| le_bytes(felts[i / 4].0 as nat, 4)[i % 4])
}

/// The elements that draw number `n` yields.
pub open spec fn base_felts(digest: Seq<M31>, n: nat) -> Seq<M31> {
    poseidon2(padded(seq![m31(n as int)], 8) + digest).take(8)
}

/// `k` secure field elements, two of each draw, from draw number `n` on.
pub open spec fn secure_felts(digest: Seq<M31>, n: nat, k: nat) -> Seq<QM31> {
    Seq::new(k, |j: int| qm31_at(base_felts(digest, (n + j / 2) as nat), 4 * (j % 2)))
}

/// The rate that holds a 64-bit number, in parts of 22, 21 and 21 bits, the low one first.
pub open spec fn u64_rate(value: u64) -> Seq<M31> {
    padded(
        seq![
            m31((value % 0x40_0000) as int),
            m31((value / 0x40_0000 % 0x20_0000) as int),
            m31((value / 0x800_0000_0000 % 0x20_0000) as int),
        ],
        8,
    )
}

/// The number that the first four elements of the capacity represent once `nonce` went through
/// the permutation.
pub open spec fn pow_value(digest: Seq<M31>, nonce: u64) -> nat {
    le_value(felt_bytes(poseidon2(u64_rate(nonce) + digest).subrange(8, 12)))
}

/// The digest after mixing in `value`.
pub open spec fn mixed_u64(digest: Seq<M31>, value: u64) -> Seq<M31> {
    poseidon2(u64_rate(value) + digest).skip(8)
}

/// The digest after mixing in `data`, one by one.
pub open spec fn mixed_u32s(digest: Seq<M31>, data: Seq<u32>) -> Seq<M31>
    decreases data.len(),
{
    if data.len() == 0 {
        digest
    } else {
        mixed_u64(mixed_u32s(digest, data.drop_last()), data.last() as u64)
    }
}

/// The bytes of `felts`, four of each.
pub fn felts_to_bytes(felts: &[M31]) -> (r: Vec<u8>)
    ensures
        r@ == felt_bytes(felts@),
{
    let mut r: Vec<u8> = Vec::new();
    let mut i: usize = 0;
    while i < felts.len()
        invariant
            i <= felts@.len(),
            r@ == felt_bytes(felts@.take(i as int)),
        decreases felts@.len() - i,
    {
        let b = u32_to_le_bytes(felts[i].0);
        r.push(b[0]);
        r.push(b[1]);
        r.push(b[2]);
        r.push(b[3]);
        i = i + 1;
        assert(r@ =~= felt_bytes(felts@.take(i as int)));
    }
    assert(felts@.take(i as int) =~= felts@);
    r
}

/// Whether the number that the first four elements of `capacity` represent ends in at least
/// `n_bits` zero bits.
pub fn check_pow(capacity: &[M31; 8], n_bits: u32) -> (r: bool)
    ensures
        r == ends_in_zeros(le_value(felt_bytes(capacity@.take(4))), n_bits as nat),
{
    let low = [capacity[0], capacity[1], capacity[2], capacity[3]];
    assert(low@ =~= capacity@.take(4));
    let bytes = felts_to_bytes(low.as_slice());
    let n_zeros: u32 = count_trailing_zeros(bytes.as_slice());
    proof {
        let v = le_value(bytes@);
        trailing_zeros_bound(v, 128);
        if n_bits <= 128 {
            trailing_zeros_divides(v, 128, n_bits as nat);
        }
    }
    n_zeros >= n_bits
}

/// Splits a number into parts of 22, 21 and 21 bits, the low one first, followed by zeros.
fn split_u64(value: u64) -> (r: [M31; 8])
    ensures
        r@ == u64_rate(value),
{
    let zero = M31::zero();
    let r = [
        M31::from((value % 0x40_0000) as u32),
        M31::from((value / 0x40_0000 % 0x20_0000) as u32),
        M31::from((value / 0x800_0000_0000 % 0x20_0000) as u32),
        zero,
        zero,
        zero,
        zero,
        zero,
    ];
    assert(r@ =~= u64_rate(value));
    r
}

/// A channel that can be used to draw random elements from a Poseidon31 hash.
///
/// Note: this channel does not separate domains. All operations use the same hash context.
#[derive(Debug)]
pub struct Poseidon31Channel {
    digest: [M31; 8],
    n_draws: u32,
}

impl View for Poseidon31Channel {
    type V = DrawState<Seq<M31>>;

    closed spec fn view(&self) -> DrawState<Seq<M31>> {
        DrawState { digest: self.digest@, n_draws: self.n_draws as nat }
    }
}

impl Clone for Poseidon31Channel {
    fn clone(&self) -> (r: Poseidon31Channel)
        ensures
            r@ == self@,
    {
        Poseidon31Channel { digest: self.digest, n_draws: self.n_draws }
    }
}

impl Default for Poseidon31Channel {
    fn default() -> (r: Poseidon31Channel)
        ensures
            r@ == (DrawState { digest: zeros(8), n_draws: 0 }),
    {
        let r = Poseidon31Channel { digest: [M31(0); 8], n_draws: 0 };
        assert(r.digest@ =~= zeros(8));
        r
    }
}

impl Poseidon31Channel {
    /// The number of bytes that a digest takes.
    pub const BYTES_PER_HASH: usize = POSEIDON31_BYTES_PER_HASH;

    /// The current digest.
    pub fn digest(&self) -> (r: [M31; 8])
        ensures
            r@ == self@.digest,
    {
        self.digest
    }

    /// The number of draws since the last message.
    pub fn n_draws(&self) -> (r: u32)
        ensures
            r == self@.n_draws,
    {
        self.n_draws
    }

    /// Replaces the digest and starts counting draws anew.
    pub fn update_digest(&mut self, new_digest: [M31; 8])
        ensures
            final(self)@ == (DrawState { digest: new_digest@, n_draws: 0 }),
    {
        self.digest = new_digest;
        self.n_draws = 0;
    }

    fn draw_base_felts(&mut self) -> (r: [BaseField; FELTS_PER_HASH])
        requires
            old(self)@.n_draws < P,
        ensures
            r@ == base_felts(old(self)@.digest, old(self)@.n_draws),
            final(self)@ == (DrawState { n_draws: old(self)@.n_draws + 1, ..old(self)@ }),
    {
        let zero = M31::zero();
        let n_sent = M31::from(self.n_draws);
        let rate = [n_sent, zero, zero, zero, zero, zero, zero, zero];
        assert(rate@ =~= padded(seq![n_sent], 8));
        self.n_draws = self.n_draws + 1;
        // The elements come from the rate: the capacity never leaves the channel.
        Poseidon31CRH::permute_get_rate(&join_state(&rate, &self.digest))
    }

    /// Whether `nonce` proves work of `n_bits` bits on the current digest.
    pub fn verify_pow_nonce(&self, n_bits: u32, nonce: u64) -> (r: bool)
        ensures
            r == ends_in_zeros(pow_value(self@.digest, nonce), n_bits as nat),
    {
        let rate = split_u64(nonce);
        let state = join_state(&rate, &self.digest);
        let capacity = Poseidon31CRH::permute_get_capacity(&state);
        assert(capacity@.take(4) =~= poseidon2(state@).subrange(8, 12)) by {
            crate::vcs::poseidon31_ref::poseidon2_len(state@);
        }
        check_pow(&capacity, n_bits)
    }

    /// Mixes `felts` into the digest, two at a time.
    pub fn mix_felts(&mut self, felts: &[SecureField])
        ensures
            final(self)@ == (DrawState {
                digest: absorbed(flatten(felts@), old(self)@.digest),
                n_draws: 0,
            }),
    {
        let elems = flatten_felts(felts);
        let new_digest = Poseidon31CRH::absorb(elems.as_slice(), &self.digest);
        self.update_digest(new_digest);
    }

    /// Mixes `value` into the digest.
    pub fn mix_u64(&mut self, value: u64)
        ensures
            final(self)@ == (DrawState {
                digest: mixed_u64(old(self)@.digest, value),
                n_draws: 0,
            }),
    {
        let rate = split_u64(value);
        let new_digest = Poseidon31CRH::permute_get_capacity(&join_state(&rate, &self.digest));
        self.update_digest(new_digest);
    }

    /// Mixes `data` into the digest, one by one.
    pub fn mix_u32s(&mut self, data: &[u32])
        ensures
            final(self)@.digest == mixed_u32s(old(self)@.digest, data@),
            final(self)@.n_draws == (if data@.len() == 0 {
                old(self)@.n_draws
            } else {
                0
            }),
    {
        let ghost start = self@;
        let mut i: usize = 0;
        while i < data.len()
            invariant
                i <= data@.len(),
                self@.digest == mixed_u32s(start.digest, data@.take(i as int)),
                self@.n_draws == (if i == 0 {
                    start.n_draws
                } else {
                    0
                }),
            decreases data@.len() - i,
        {
            assert(data@.take(i + 1).drop_last() =~= data@.take(i as int));
            self.mix_u64(data[i] as u64);
            i = i + 1;
        }
        assert(data@.take(i as int) =~= data@);
    }

    /// Draws a secure field element.
    pub fn draw_secure_felt(&mut self) -> (r: SecureField)
        requires
            old(self)@.n_draws < P,
        ensures
            r == qm31_at(base_felts(old(self)@.digest, old(self)@.n_draws), 0),
            final(self)@ == (DrawState { n_draws: old(self)@.n_draws + 1, ..old(self)@ }),
    {
        let felts = self.draw_base_felts();
        SecureField::from_m31(felts[0], felts[1], felts[2], felts[3])
    }

    /// Draws `n_felts` secure field elements.
    pub fn draw_secure_felts(&mut self, n_felts: usize) -> (r: Vec<SecureField>)
        requires
            old(self)@.n_draws + (n_felts + 1) / 2 <= P,
        ensures
            r@ == secure_felts(old(self)@.digest, old(self)@.n_draws, n_felts as nat),
            final(self)@ == (DrawState {
                n_draws: old(self)@.n_draws + ((n_felts + 1) / 2) as nat,
                ..old(self)@
            }),
    {
        let ghost start = self@;
        let mut res: Vec<SecureField> = Vec::new();
        let mut felts: [BaseField; FELTS_PER_HASH] = [M31(0); FELTS_PER_HASH];
        let mut i: usize = 0;
        while i < n_felts
            invariant
                i <= n_felts,
                start.n_draws + (n_felts + 1) / 2 <= P,
                self@ == (DrawState { n_draws: start.n_draws + ((i + 1) / 2) as nat, ..start }),
                i % 2 == 1 ==> felts@ == base_felts(start.digest, (start.n_draws + i / 2) as nat),
                res@ == secure_felts(start.digest, start.n_draws, i as nat),
            decreases n_felts - i,
        {
            if i % 2 == 0 {
                felts = self.draw_base_felts();
                res.push(SecureField::from_m31(felts[0], felts[1], felts[2], felts[3]));
            } else {
                res.push(SecureField::from_m31(felts[4], felts[5], felts[6], felts[7]));
            }
            i = i + 1;
            assert(res@ =~= secure_felts(start.digest, start.n_draws, i as nat));
        }
        res
    }

    /// Draws 32 bytes, of which every fourth has its top bit clear.
    pub fn draw_random_bytes(&mut self) -> (r: Vec<u8>)
        requires
            old(self)@.n_draws < P,
        ensures
            r@ == felt_bytes(base_felts(old(self)@.digest, old(self)@.n_draws)),
            final(self)@ == (DrawState { n_draws: old(self)@.n_draws + 1, ..old(self)@ }),
    {
        let felts = self.draw_base_felts();
        felts_to_bytes(felts.as_slice())
    }
}

} // verus!
