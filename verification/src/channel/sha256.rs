//! A channel on SHA-256.
use vstd::arithmetic::power2::*;
use vstd::prelude::*;

use crate::bytes::{
    count_trailing_zeros, le_bytes, le_value, trailing_zeros_bound,
    trailing_zeros_divides, u32_from_le_bytes, u32_to_le_bytes, u64_to_le_bytes,
};
use crate::channel::laws::{halves, sha256_mix_u64_halves};
use crate::channel::DrawState;
use crate::fields::m31::{m31, BaseField, M31, P};
use crate::fields::qm31::{qm31_at, SecureField, QM31};
use crate::vcs::sha256_hash::{
    hash_nums, num_chain, sha256_concat, sha256_digest, zero_digest, Sha256Hash, Sha256Hasher,
};

verus! {

/// The number of base field elements that one digest yields.
pub const FELTS_PER_HASH: usize = 8;

/// The field element that the first four bytes of `hash` yield: their number cut to 31 bits.
pub open spec fn extracted(hash: Seq<u8>) -> M31 {
    m31((le_value(hash.take(4)) % 0x8000_0000) as int)
}

/// The eight field elements that a digest yields.
pub open spec fn felts_of_hash(hash: Seq<u8>) -> Seq<M31> {
    Seq::new(8, |i: int| extracted(hash.subrange(4 * i, 4 * i + 4)))
}

/// The eight 32-bit words of a digest.
pub open spec fn words_of_hash(hash: Seq<u8>) -> Seq<u32> {
    Seq::new(8, |i: int| le_value(hash.subrange(4 * i, 4 * i + 4)) as u32)
}

/// The first sixteen bytes of a digest as a number, most significant byte first.
pub open spec fn pow_value(hash: Seq<u8>) -> nat {
    le_value(hash.take(16).reverse())
}

/// Whether `v`, a number of 128 bits, ends in at least `n_bits` zero bits.
pub open spec fn ends_in_zeros(v: nat, n_bits: nat) -> bool {
    n_bits <= 128 && v % pow2(n_bits) == 0
}

/// The elements that draw number `n` yields.
pub open spec fn base_felts(digest: Seq<u8>, n: nat) -> Seq<M31> {
    felts_of_hash(sha256_digest(digest + le_bytes(n, 4)))
}

/// `k` secure field elements, two of each draw, from draw number `n` on.
pub open spec fn secure_felts(digest: Seq<u8>, n: nat, k: nat) -> Seq<QM31> {
    Seq::new(k, |j: int| qm31_at(base_felts(digest, (n + j / 2) as nat), 4 * (j % 2)))
}

/// The digest after mixing in `felts`.
pub open spec fn mixed_felts(digest: Seq<u8>, felts: Seq<QM31>) -> Seq<u8>
    decreases felts.len(),
{
    if felts.len() == 0 {
        digest
    } else {
        sha256_digest(
            num_chain(felts.last().coords(), seq![]) + mixed_felts(digest, felts.drop_last()),
        )
    }
}

/// The block of 32 bytes that holds at most eight words, followed by zeros.
pub open spec fn word_block(words: Seq<u32>) -> Seq<u8> {
    Seq::new(
        32,
        |i: int|
            if i / 4 < words.len() {
                le_bytes(words[i / 4] as nat, 4)[i % 4]
            } else {
                0u8
            },
    )
}

/// The number of words in the first block of `data`.
pub open spec fn block_words(data: Seq<u32>) -> int {
    if data.len() < 8 {
        data.len() as int
    } else {
        8
    }
}

/// The digest after mixing in `data`, in blocks of eight words.
pub open spec fn mixed_words(digest: Seq<u8>, data: Seq<u32>) -> Seq<u8>
    decreases data.len(),
{
    if data.len() == 0 {
        digest
    } else {
        let n = block_words(data);
        mixed_words(sha256_digest(word_block(data.take(n)) + digest), data.skip(n))
    }
}

/// Extracts a field element from the first four bytes of `hash`.
pub fn extract_common(hash: &[u8]) -> (r: M31)
    requires
        hash@.len() >= 4,
    ensures
        r == extracted(hash@),
        r.0 < P,
{
    let word: u32 = u32_from_le_bytes(hash, 0);
    assert(hash@.subrange(0, 4) =~= hash@.take(4));
    let low: u32 = word % 0x8000_0000;
    M31::reduce(low as u64)
}

/// Extracts eight field elements from a digest.
pub fn felts_from_hash(hash: &[u8; 32]) -> (r: [BaseField; FELTS_PER_HASH])
    ensures
        r@ == felts_of_hash(hash@),
{
    let mut r = [M31(0); FELTS_PER_HASH];
    let mut i: usize = 0;
    while i < FELTS_PER_HASH
        invariant
            i <= 8,
            FELTS_PER_HASH == 8,
            forall|k: int| 0 <= k < i ==> #[trigger] r@[k] == felts_of_hash(hash@)[k],
        decreases 8 - i,
    {
        let word = vstd::slice::slice_subrange(hash.as_slice(), 4 * i, 4 * i + 4);
        r[i] = extract_common(word);
        i = i + 1;
    }
    assert(r@ =~= felts_of_hash(hash@));
    r
}

/// Splits a digest into its eight words.
pub fn words_from_hash(hash: &[u8; 32]) -> (r: Vec<u32>)
    ensures
        r@ == words_of_hash(hash@),
{
    let mut r: Vec<u32> = Vec::new();
    let mut i: usize = 0;
    while i < 8
        invariant
            i <= 8,
            r@.len() == i,
            forall|k: int| 0 <= k < i ==> #[trigger] r@[k] == words_of_hash(hash@)[k],
        decreases 8 - i,
    {
        let word: u32 = u32_from_le_bytes(hash.as_slice(), 4 * i);
        r.push(word);
        i = i + 1;
    }
    assert(r@ =~= words_of_hash(hash@));
    r
}

/// Whether the first sixteen bytes of a digest end in at least `n_bits` zero bits.
pub fn check_pow(hash: &[u8; 32], n_bits: u32) -> (r: bool)
    ensures
        r == ends_in_zeros(pow_value(hash@), n_bits as nat),
{
    let mut bytes = [0u8; 16];
    let mut i: usize = 0;
    while i < 16
        invariant
            i <= 16,
            forall|k: int| 0 <= k < i ==> #[trigger] bytes@[k] == hash@[15 - k],
        decreases 16 - i,
    {
        bytes[i] = hash[15 - i];
        i = i + 1;
    }
    assert(bytes@ =~= hash@.take(16).reverse());
    let n_zeros: u32 = count_trailing_zeros(bytes.as_slice());
    proof {
        trailing_zeros_bound(pow_value(hash@), 128);
        if n_bits <= 128 {
            trailing_zeros_divides(pow_value(hash@), 128, n_bits as nat);
        }
    }
    n_zeros >= n_bits
}

/// The digest chain over the four coordinates of `v`.
pub fn sha256_qm31(v: &QM31) -> (r: [u8; 32])
    ensures
        r@ == num_chain(v.coords(), seq![]),
{
    hash_nums(v.to_m31_array().as_slice(), None)
}

/// A channel that can be used to draw random elements from a SHA256 hash.
#[derive(Debug)]
pub struct Sha256Channel {
    digest: Sha256Hash,
    n_draws: u32,
}

impl View for Sha256Channel {
    type V = DrawState<Seq<u8>>;

    closed spec fn view(&self) -> DrawState<Seq<u8>> {
        DrawState { digest: self.digest@, n_draws: self.n_draws as nat }
    }
}

impl Clone for Sha256Channel {
    fn clone(&self) -> (r: Sha256Channel)
        ensures
            r@ == self@,
    {
        Sha256Channel { digest: self.digest, n_draws: self.n_draws }
    }
}

impl Default for Sha256Channel {
    fn default() -> (r: Sha256Channel)
        ensures
            r@ == (DrawState { digest: zero_digest(), n_draws: 0 }),
    {
        Sha256Channel { digest: Sha256Hash::default(), n_draws: 0 }
    }
}

impl Sha256Channel {
    /// The number of bytes in a digest.
    pub const BYTES_PER_HASH: usize = 32;

    /// The current digest.
    pub fn digest(&self) -> (r: Sha256Hash)
        ensures
            r@ == self@.digest,
    {
        self.digest
    }

    /// The number of draws since the last message.
    pub fn n_draws(&self) -> (r: u32)
        ensures
            r == self@.n_draws,
    {
        self.n_draws
    }

    /// Replaces the digest and starts counting draws anew.
    pub fn update_digest(&mut self, new_digest: Sha256Hash)
        ensures
            final(self)@ == (DrawState { digest: new_digest@, n_draws: 0 }),
    {
        self.digest = new_digest;
        self.n_draws = 0;
    }

    fn draw_base_felts(&mut self) -> (r: [BaseField; FELTS_PER_HASH])
        requires
            old(self)@.n_draws < u32::MAX,
        ensures
            r@ == base_felts(old(self)@.digest, old(self)@.n_draws),
            final(self)@ == (DrawState { n_draws: old(self)@.n_draws + 1, ..old(self)@ }),
    {
        let counter = u32_to_le_bytes(self.n_draws);
        let hash = sha256_concat(self.digest.0.as_slice(), counter.as_slice());
        self.n_draws = self.n_draws + 1;
        felts_from_hash(&hash)
    }

    /// Whether `nonce` proves work of `n_bits` bits on the current digest.
    pub fn verify_pow_nonce(&self, n_bits: u32, nonce: u64) -> (r: bool)
        ensures
            r == ends_in_zeros(
                pow_value(sha256_digest(self@.digest + le_bytes(nonce as nat, 8))),
                n_bits as nat,
            ),
    {
        let nonce_bytes = u64_to_le_bytes(nonce);
        let hash = sha256_concat(self.digest.0.as_slice(), nonce_bytes.as_slice());
        check_pow(&hash, n_bits)
    }

    /// Mixes `felts` into the digest, one by one.
    pub fn mix_felts(&mut self, felts: &[SecureField])
        ensures
            final(self)@.digest == mixed_felts(old(self)@.digest, felts@),
            final(self)@.n_draws == (if felts@.len() == 0 {
                old(self)@.n_draws
            } else {
                0
            }),
    {
        let ghost start = self@;
        let mut i: usize = 0;
        while i < felts.len()
            invariant
                i <= felts@.len(),
                self@.digest == mixed_felts(start.digest, felts@.take(i as int)),
                self@.n_draws == (if i == 0 {
                    start.n_draws
                } else {
                    0
                }),
            decreases felts@.len() - i,
        {
            assert(felts@.take(i + 1).drop_last() =~= felts@.take(i as int));
            let felt_hash = sha256_qm31(&felts[i]);
            let hash = sha256_concat(felt_hash.as_slice(), self.digest.0.as_slice());
            self.update_digest(Sha256Hash(hash));
            i = i + 1;
        }
        assert(felts@.take(i as int) =~= felts@);
    }

    /// Mixes the eight bytes of `value` into the digest.
    pub fn mix_u64(&mut self, value: u64)
        ensures
            final(self)@ == (DrawState {
                digest: sha256_digest(
                    le_bytes(value as nat, 8) + Seq::new(24, |i: int| 0u8) + old(self)@.digest,
                ),
                ..old(self)@
            }),
    {
        let low: u32 = (value % 0x1_0000_0000) as u32;
        let high: u32 = (value / 0x1_0000_0000) as u32;
        let words = [low, high];
        proof {
            assert(words@ =~= halves(value));
            sha256_mix_u64_halves(self@.digest, value);
        }
        self.mix_u32s(words.as_slice());
    }

    /// Mixes `data` into the digest, in blocks of eight words.
    pub fn mix_u32s(&mut self, data: &[u32])
        ensures
            final(self)@ == (DrawState {
                digest: mixed_words(old(self)@.digest, data@),
                ..old(self)@
            }),
    {
        let ghost start = self@;
        let mut at: usize = 0;
        assert(data@.skip(0) =~= data@);
        while at < data.len()
            invariant
                at <= data@.len(),
                self@.n_draws == start.n_draws,
                mixed_words(start.digest, data@) == mixed_words(
                    self@.digest,
                    data@.skip(at as int),
                ),
            decreases data@.len() - at,
        {
            let ghost rest = data@.skip(at as int);
            let end: usize = if data.len() - at < 8 {
                data.len()
            } else {
                at + 8
            };
            let block = words_to_block(vstd::slice::slice_subrange(data, at, end));
            assert(data@.subrange(at as int, end as int) =~= rest.take(block_words(rest)));
            assert(data@.skip(end as int) =~= rest.skip(block_words(rest)));
            self.digest = Sha256Hasher::concat_and_hash(&Sha256Hash(block), &self.digest);
            at = end;
        }
    }

    /// Draws a secure field element.
    pub fn draw_secure_felt(&mut self) -> (r: SecureField)
        requires
            old(self)@.n_draws < u32::MAX,
        ensures
            r == qm31_at(base_felts(old(self)@.digest, old(self)@.n_draws), 0),
            r == qm31_at(
                felts_of_hash(
                    sha256_digest(old(self)@.digest + le_bytes(old(self)@.n_draws, 4)),
                ),
                0,
            ),
            final(self)@ == (DrawState { n_draws: old(self)@.n_draws + 1, ..old(self)@ }),
    {
        let felts = self.draw_base_felts();
        SecureField::from_m31(felts[0], felts[1], felts[2], felts[3])
    }

    /// Draws `n_felts` secure field elements.
    pub fn draw_secure_felts(&mut self, n_felts: usize) -> (r: Vec<SecureField>)
        requires
            old(self)@.n_draws + (n_felts + 1) / 2 <= u32::MAX,
        ensures
            r@ == secure_felts(old(self)@.digest, old(self)@.n_draws, n_felts as nat),
            final(self)@ == (DrawState {
                n_draws: old(self)@.n_draws + ((n_felts + 1) / 2) as nat,
                ..old(self)@
            }),
    {
        let ghost start = self@;
        let n_hashes: usize = n_felts / 2 + n_felts % 2;
        let mut res: Vec<SecureField> = Vec::new();
        let mut i: usize = 0;
        while i < n_hashes
            invariant
                i <= n_hashes,
                start.n_draws + n_hashes <= u32::MAX,
                self@ == (DrawState { n_draws: start.n_draws + i as nat, ..start }),
                res@ == secure_felts(start.digest, start.n_draws, (2 * i) as nat),
            decreases n_hashes - i,
        {
            let t = self.draw_base_felts();
            res.push(SecureField::from_m31(t[0], t[1], t[2], t[3]));
            res.push(SecureField::from_m31(t[4], t[5], t[6], t[7]));
            i = i + 1;
            assert(res@ =~= secure_felts(start.digest, start.n_draws, (2 * i) as nat));
        }
        res.truncate(n_felts);
        assert(res@ =~= secure_felts(start.digest, start.n_draws, n_felts as nat));
        res
    }

    /// Draws eight words. A zero byte keeps their hash apart from that of other messages.
    pub fn draw_u32s(&mut self) -> (r: Vec<u32>)
        requires
            old(self)@.n_draws < u32::MAX,
        ensures
            r@ == words_of_hash(
                sha256_digest(old(self)@.digest + le_bytes(old(self)@.n_draws, 4) + seq![0u8]),
            ),
            final(self)@ == (DrawState { n_draws: old(self)@.n_draws + 1, ..old(self)@ }),
    {
        let mut suffix: Vec<u8> = Vec::new();
        let counter = u32_to_le_bytes(self.n_draws);
        suffix.extend_from_slice(counter.as_slice());
        suffix.push(0);
        assert(self.digest@ + suffix@ =~= self.digest@ + counter@ + seq![0u8]);
        let hash = sha256_concat(self.digest.0.as_slice(), suffix.as_slice());
        self.n_draws = self.n_draws + 1;
        words_from_hash(&hash)
    }
}

/// Writes at most eight words into a block of 32 bytes.
pub fn words_to_block(words: &[u32]) -> (r: [u8; 32])
    requires
        words@.len() <= 8,
    ensures
        r@ == word_block(words@),
{
    let mut r = [0u8; 32];
    let mut i: usize = 0;
    while i < words.len()
        invariant
            i <= words@.len() <= 8,
            forall|k: int| 0 <= k < 4 * i ==> #[trigger] r@[k] == word_block(words@)[k],
            forall|k: int| 4 * i <= k < 32 ==> #[trigger] r@[k] == 0u8,
        decreases words@.len() - i,
    {
        let b = u32_to_le_bytes(words[i]);
        r[4 * i] = b[0];
        r[4 * i + 1] = b[1];
        r[4 * i + 2] = b[2];
        r[4 * i + 3] = b[3];
        i = i + 1;
    }
    assert(r@ =~= word_block(words@));
    r
}

} // verus!
