//! A channel on SHA-256 with protocol time.
use vstd::prelude::*;

use crate::bytes::{
    count_trailing_zeros, le_bytes, le_value, trailing_zeros, u64_to_le_bytes,
};
use crate::channel::sha256::{
    felts_from_hash, felts_of_hash, mixed_felts, sha256_qm31, FELTS_PER_HASH,
};
use crate::fields::m31::BaseField;
use crate::fields::qm31::{qm31_at, SecureField, QM31};
use crate::timed::{ChannelTime, TimedState};
use crate::vcs::sha256_hash::{
    sha256_concat, sha256_digest, zero_digest, Sha256Hash, Sha256Hasher,
};

verus! {

/// The digest that draw number `n` yields.
pub open spec fn drawn_hash(digest: Seq<u8>, n: nat) -> Seq<u8> {
    sha256_digest(digest + le_bytes(n, 8))
}

/// `k` secure field elements, two of each draw, from draw number `n` on.
pub open spec fn drawn_felts(digest: Seq<u8>, n: nat, k: nat) -> Seq<QM31> {
    Seq::new(
        k,
        |j: int| qm31_at(felts_of_hash(drawn_hash(digest, (n + j / 2) as nat)), 4 * (j % 2)),
    )
}

/// A channel that can be used to draw random elements from a SHA256 hash.
#[derive(Debug)]
pub struct Sha256Channel {
    digest: Sha256Hash,
    /// The messages and draws so far.
    pub channel_time: ChannelTime,
}

impl View for Sha256Channel {
    type V = TimedState<Seq<u8>>;

    closed spec fn view(&self) -> TimedState<Seq<u8>> {
        TimedState {
            digest: self.digest@,
            n_challenges: self.channel_time.n_challenges as nat,
            n_sent: self.channel_time.n_sent as nat,
        }
    }
}

impl Clone for Sha256Channel {
    fn clone(&self) -> (r: Sha256Channel)
        ensures
            r@ == self@,
    {
        Sha256Channel { digest: self.digest, channel_time: self.channel_time }
    }
}

impl Default for Sha256Channel {
    fn default() -> (r: Sha256Channel)
        ensures
            r@ == TimedState::start(zero_digest()),
    {
        Sha256Channel { digest: Sha256Hash::default(), channel_time: ChannelTime::default() }
    }
}

impl Sha256Channel {
    /// The number of bytes in a digest.
    pub const BYTES_PER_HASH: usize = 32;

    /// The current digest.
    pub fn digest(&self) -> (r: Sha256Hash)
        ensures
            r@ == self@.digest,
    {
        self.digest
    }

    /// The messages and draws so far.
    pub fn time(&self) -> (r: ChannelTime)
        ensures
            r.n_challenges == self@.n_challenges,
            r.n_sent == self@.n_sent,
    {
        self.channel_time
    }

    /// Replaces the digest and counts a message.
    pub fn update_digest(&mut self, new_digest: Sha256Hash)
        requires
            old(self)@.n_challenges < usize::MAX,
        ensures
            final(self)@ == old(self)@.after_messages(1, new_digest@),
    {
        self.digest = new_digest;
        self.channel_time.inc_challenges();
    }

    fn draw_hash(&mut self) -> (r: [u8; 32])
        requires
            old(self)@.n_sent < usize::MAX,
        ensures
            r@ == drawn_hash(old(self)@.digest, old(self)@.n_sent),
            final(self)@ == old(self)@.after_draws(1),
    {
        let counter = u64_to_le_bytes(self.channel_time.n_sent as u64);
        let hash = sha256_concat(self.digest.0.as_slice(), counter.as_slice());
        self.channel_time.inc_sent();
        hash
    }

    fn draw_base_felts(&mut self) -> (r: [BaseField; FELTS_PER_HASH])
        requires
            old(self)@.n_sent < usize::MAX,
        ensures
            r@ == felts_of_hash(drawn_hash(old(self)@.digest, old(self)@.n_sent)),
            final(self)@ == old(self)@.after_draws(1),
    {
        let hash = self.draw_hash();
        felts_from_hash(&hash)
    }

    /// The number of trailing zero bits of the first half of the digest.
    pub fn trailing_zeros(&self) -> (r: u32)
        ensures
            r == trailing_zeros(le_value(self@.digest.take(16)), 128),
    {
        let half = vstd::slice::slice_subrange(self.digest.0.as_slice(), 0, 16);
        assert(half@ =~= self@.digest.take(16));
        count_trailing_zeros(half)
    }

    /// Mixes `felts` into the digest, one message each.
    pub fn mix_felts(&mut self, felts: &[SecureField])
        requires
            old(self)@.n_challenges + felts@.len() <= usize::MAX,
        ensures
            final(self)@ == old(self)@.after_messages(
                felts@.len(),
                mixed_felts(old(self)@.digest, felts@),
            ),
    {
        let ghost start = self@;
        let mut i: usize = 0;
        while i < felts.len()
            invariant
                i <= felts@.len(),
                start.n_challenges + felts@.len() <= usize::MAX,
                self@ == start.after_messages(
                    i as nat,
                    mixed_felts(start.digest, felts@.take(i as int)),
                ),
            decreases felts@.len() - i,
        {
            assert(felts@.take(i + 1).drop_last() =~= felts@.take(i as int));
            let felt_hash = sha256_qm31(&felts[i]);
            let hash = sha256_concat(felt_hash.as_slice(), self.digest.0.as_slice());
            self.update_digest(Sha256Hash(hash));
            i = i + 1;
        }
        assert(felts@.take(i as int) =~= felts@);
    }

    /// Mixes the eight bytes of `value` into the digest, without counting a message.
    pub fn mix_u64(&mut self, value: u64)
        ensures
            final(self)@ == (TimedState {
                digest: sha256_digest(
                    le_bytes(value as nat, 8) + Seq::new(24, |i: int| 0u8) + old(self)@.digest,
                ),
                ..old(self)@
            }),
    {
        let bytes = u64_to_le_bytes(value);
        let mut hash = [0u8; 32];
        let mut i: usize = 0;
        while i < 8
            invariant
                i <= 8,
                forall|k: int| 0 <= k < i ==> #[trigger] hash@[k] == bytes@[k],
                forall|k: int| i <= k < 32 ==> #[trigger] hash@[k] == 0u8,
            decreases 8 - i,
        {
            hash[i] = bytes[i];
            i = i + 1;
        }
        assert(hash@ =~= le_bytes(value as nat, 8) + Seq::new(24, |i: int| 0u8));
        self.digest = Sha256Hasher::concat_and_hash(&Sha256Hash(hash), &self.digest);
    }

    /// Draws a secure field element.
    pub fn draw_felt(&mut self) -> (r: SecureField)
        requires
            old(self)@.n_sent < usize::MAX,
        ensures
            r == qm31_at(
                felts_of_hash(
                    sha256_digest(old(self)@.digest + le_bytes(old(self)@.n_sent, 8)),
                ),
                0,
            ),
            final(self)@ == old(self)@.after_draws(1),
    {
        let felts = self.draw_base_felts();
        SecureField::from_m31(felts[0], felts[1], felts[2], felts[3])
    }

    /// Draws `n_felts` secure field elements.
    pub fn draw_felts(&mut self, n_felts: usize) -> (r: Vec<SecureField>)
        requires
            old(self)@.n_sent + (n_felts + 1) / 2 <= usize::MAX,
        ensures
            r@ == drawn_felts(old(self)@.digest, old(self)@.n_sent, n_felts as nat),
            final(self)@ == old(self)@.after_draws(((n_felts + 1) / 2) as nat),
    {
        let ghost start = self@;
        let n_hashes: usize = n_felts / 2 + n_felts % 2;
        let mut res: Vec<SecureField> = Vec::new();
        let mut i: usize = 0;
        while i < n_hashes
            invariant
                i <= n_hashes,
                start.n_sent + n_hashes <= usize::MAX,
                self@ == start.after_draws(i as nat),
                res@ == drawn_felts(start.digest, start.n_sent, (2 * i) as nat),
            decreases n_hashes - i,
        {
            let t = self.draw_base_felts();
            res.push(SecureField::from_m31(t[0], t[1], t[2], t[3]));
            res.push(SecureField::from_m31(t[4], t[5], t[6], t[7]));
            i = i + 1;
            assert(res@ =~= drawn_felts(start.digest, start.n_sent, (2 * i) as nat));
        }
        res.truncate(n_felts);
        assert(res@ =~= drawn_felts(start.digest, start.n_sent, n_felts as nat));
        res
    }

    /// Draws 32 bytes.
    pub fn draw_random_bytes(&mut self) -> (r: Vec<u8>)
        requires
            old(self)@.n_sent < usize::MAX,
        ensures
            r@ == sha256_digest(old(self)@.digest + le_bytes(old(self)@.n_sent, 8)),
            r@ == drawn_hash(old(self)@.digest, old(self)@.n_sent),
            r@.len() == 32,
            final(self)@ == old(self)@.after_draws(1),
    {
        let hash = self.draw_hash();
        vstd::slice::slice_to_vec(hash.as_slice())
    }
}

} // verus!
