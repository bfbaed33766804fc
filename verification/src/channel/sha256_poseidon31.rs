//! A SHA-256 channel that compresses long messages with Poseidon31 first.
use vstd::prelude::*;

use crate::bytes::le_bytes;
use crate::channel::sha256::{
    base_felts, ends_in_zeros, felts_of_hash, mixed_felts, mixed_words, pow_value, secure_felts,
    words_of_hash, Sha256Channel,
};
use crate::channel::DrawState;
use crate::fields::m31::{zeros, M31};
use crate::fields::qm31::{flatten, flatten_felts, qm31_at, SecureField, QM31};
use crate::vcs::poseidon31_merkle::Poseidon31MerkleHasher;
use crate::vcs::poseidon31_ref::{absorbed, join_state, poseidon2, Poseidon31CRH};
use crate::vcs::sha256_hash::{sha256_digest, zero_digest, Sha256Hash};

verus! {

/// The eight elements that stand for a long message.
pub open spec fn message_hash(felts: Seq<QM31>) -> Seq<M31> {
    poseidon2(zeros(8) + absorbed(flatten(felts), zeros(8))).take(8)
}

/// What is mixed in for a message: the message, or, where it has more than two elements, the two
/// elements that stand for it.
pub open spec fn short_message(felts: Seq<QM31>) -> Seq<QM31> {
    if felts.len() <= 2 {
        felts
    } else {
        seq![qm31_at(message_hash(felts), 0), qm31_at(message_hash(felts), 4)]
    }
}

/// A SHA-256 channel that compresses long messages with Poseidon31 first.
#[derive(Debug)]
pub struct Sha256Poseidon31Channel {
    pub(crate) inner: Sha256Channel,
}

impl View for Sha256Poseidon31Channel {
    type V = DrawState<Seq<u8>>;

    closed spec fn view(&self) -> DrawState<Seq<u8>> {
        self.inner@
    }
}

impl Clone for Sha256Poseidon31Channel {
    fn clone(&self) -> (r: Sha256Poseidon31Channel)
        ensures
            r@ == self@,
    {
        Sha256Poseidon31Channel { inner: self.inner.clone() }
    }
}

impl Default for Sha256Poseidon31Channel {
    fn default() -> (r: Sha256Poseidon31Channel)
        ensures
            r@ == (DrawState { digest: zero_digest(), n_draws: 0 }),
    {
        Sha256Poseidon31Channel { inner: Sha256Channel::default() }
    }
}

/// The two elements that stand for a long message.
pub fn compress_message(felts: &[SecureField]) -> (r: [SecureField; 2])
    ensures
        r@ == seq![qm31_at(message_hash(felts@), 0), qm31_at(message_hash(felts@), 4)],
{
    let elems = flatten_felts(felts);
    let capacity = Poseidon31MerkleHasher::hash_column_get_capacity(elems.as_slice());
    let rate = [M31(0); 8];
    assert(rate@ =~= zeros(8));
    let hash = Poseidon31CRH::permute_get_rate(&join_state(&rate, &capacity.0));
    let r = [
        SecureField::from_m31(hash[0], hash[1], hash[2], hash[3]),
        SecureField::from_m31(hash[4], hash[5], hash[6], hash[7]),
    ];
    assert(r@ =~= seq![qm31_at(message_hash(felts@), 0), qm31_at(message_hash(felts@), 4)]);
    r
}

impl Sha256Poseidon31Channel {
    /// The number of bytes in a digest.
    pub const BYTES_PER_HASH: usize = 32;

    /// The current digest.
    pub fn digest(&self) -> (r: Sha256Hash)
        ensures
            r@ == self@.digest,
    {
        self.inner.digest()
    }

    /// The number of draws since the last message.
    pub fn n_draws(&self) -> (r: u32)
        ensures
            r == self@.n_draws,
    {
        self.inner.n_draws()
    }

    /// Replaces the digest and starts counting draws anew.
    pub fn update_digest(&mut self, new_digest: Sha256Hash)
        ensures
            final(self)@ == (DrawState { digest: new_digest@, n_draws: 0 }),
    {
        self.inner.update_digest(new_digest);
    }

    /// Whether `nonce` proves work of `n_bits` bits on the current digest.
    pub fn verify_pow_nonce(&self, n_bits: u32, nonce: u64) -> (r: bool)
        ensures
            r == ends_in_zeros(
                pow_value(sha256_digest(self@.digest + le_bytes(nonce as nat, 8))),
                n_bits as nat,
            ),
    {
        self.inner.verify_pow_nonce(n_bits, nonce)
    }

    /// Mixes `felts` into the digest, compressed to two elements where there are more.
    pub fn mix_felts(&mut self, felts: &[SecureField])
        ensures
            final(self)@.digest == mixed_felts(old(self)@.digest, short_message(felts@)),
            felts@.len() <= 2 ==> final(self)@.digest == mixed_felts(old(self)@.digest, felts@),
            final(self)@.n_draws == (if felts@.len() == 0 {
                old(self)@.n_draws
            } else {
                0
            }),
    {
        if felts.len() <= 2 {
            self.inner.mix_felts(felts);
        } else {
            let short = compress_message(felts);
            self.inner.mix_felts(short.as_slice());
        }
    }

    /// Mixes the eight bytes of `value` into the digest.
    pub fn mix_u64(&mut self, value: u64)
        ensures
            final(self)@ == (DrawState {
                digest: sha256_digest(
                    le_bytes(value as nat, 8) + Seq::new(24, |i: int| 0u8) + old(self)@.digest,
                ),
                ..old(self)@
            }),
    {
        self.inner.mix_u64(value);
    }

    /// Mixes `data` into the digest, in blocks of eight words.
    pub fn mix_u32s(&mut self, data: &[u32])
        ensures
            final(self)@ == (DrawState {
                digest: mixed_words(old(self)@.digest, data@),
                ..old(self)@
            }),
    {
        self.inner.mix_u32s(data);
    }

    /// Draws a secure field element.
    pub fn draw_secure_felt(&mut self) -> (r: SecureField)
        requires
            old(self)@.n_draws < u32::MAX,
        ensures
            r == qm31_at(base_felts(old(self)@.digest, old(self)@.n_draws), 0),
            r == qm31_at(
                felts_of_hash(
                    sha256_digest(old(self)@.digest + le_bytes(old(self)@.n_draws, 4)),
                ),
                0,
            ),
            final(self)@ == (DrawState { n_draws: old(self)@.n_draws + 1, ..old(self)@ }),
    {
        self.inner.draw_secure_felt()
    }

    /// Draws `n_felts` secure field elements.
    pub fn draw_secure_felts(&mut self, n_felts: usize) -> (r: Vec<SecureField>)
        requires
            old(self)@.n_draws + (n_felts + 1) / 2 <= u32::MAX,
        ensures
            r@ == secure_felts(old(self)@.digest, old(self)@.n_draws, n_felts as nat),
            final(self)@ == (DrawState {
                n_draws: old(self)@.n_draws + ((n_felts + 1) / 2) as nat,
                ..old(self)@
            }),
    {
        self.inner.draw_secure_felts(n_felts)
    }

    /// Draws eight words.
    pub fn draw_u32s(&mut self) -> (r: Vec<u32>)
        requires
            old(self)@.n_draws < u32::MAX,
        ensures
            r@ == words_of_hash(
                sha256_digest(old(self)@.digest + le_bytes(old(self)@.n_draws, 4) + seq![0u8]),
            ),
            final(self)@ == (DrawState { n_draws: old(self)@.n_draws + 1, ..old(self)@ }),
    {
        self.inner.draw_u32s()
    }
}

} // verus!
