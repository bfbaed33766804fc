//! Laws of the channels: what messages and draws compose to, and which inputs they keep apart.
use vstd::arithmetic::div_mod::*;
use vstd::arithmetic::power2::*;
use vstd::prelude::*;

use crate::bytes::{le_bytes, le_bytes_join, le_bytes_len, le_value, le_value_of_le_bytes};
use crate::channel::poseidon31;
use crate::channel::sha256;
use crate::channel::sha256_poseidon31;
use crate::fields::m31::{zeros, M31, P};
use crate::fields::qm31::{flatten, qm31_at, QM31};
use crate::vcs::btc_sha256_merkle::BTCSha256MerkleHasher;
use crate::vcs::ops::MerkleHasher;
use crate::vcs::poseidon31_ref::{absorbed, absorbed_concat, padded, poseidon2_canonical};
use crate::vcs::sha256_hash::{num_chain, sha256_digest};
use crate::vcs::sha256_poseidon31_merkle::Sha256Poseidon31MerkleHasher;

verus! {

/// Mixing felts into a SHA-256 digest in two messages is mixing them in one.
pub proof fn sha256_mix_felts_concat(digest: Seq<u8>, first: Seq<QM31>, second: Seq<QM31>)
    ensures
        sha256::mixed_felts(digest, first + second) == sha256::mixed_felts(
            sha256::mixed_felts(digest, first),
            second,
        ),
    decreases second.len(),
{
    if second.len() == 0 {
        assert(first + second =~= first);
    } else {
        assert((first + second).drop_last() =~= first + second.drop_last());
        sha256_mix_felts_concat(digest, first, second.drop_last());
    }
}

/// Mixing words into a SHA-256 digest in two messages is mixing them in one, where the first
/// message fills its blocks of eight.
pub proof fn sha256_mix_u32s_concat(digest: Seq<u8>, first: Seq<u32>, second: Seq<u32>)
    requires
        first.len() % 8 == 0,
    ensures
        sha256::mixed_words(digest, first + second) == sha256::mixed_words(
            sha256::mixed_words(digest, first),
            second,
        ),
    decreases first.len(),
{
    if first.len() == 0 {
        assert(first + second =~= second);
    } else {
        let all = first + second;
        assert(all.take(8) =~= first.take(8));
        assert(all.skip(8) =~= first.skip(8) + second);
        sha256_mix_u32s_concat(
            sha256_digest(sha256::word_block(first.take(8)) + digest),
            first.skip(8),
            second,
        );
    }
}

/// The two words of a 64-bit number, the low one first.
pub open spec fn halves(value: u64) -> Seq<u32> {
    seq![(value % 0x1_0000_0000) as u32, (value / 0x1_0000_0000) as u32]
}

/// Mixing in a number is mixing in its two words.
pub proof fn sha256_mix_u64_halves(digest: Seq<u8>, value: u64)
    ensures
        sha256::mixed_words(digest, halves(value)) == sha256_digest(
            le_bytes(value as nat, 8) + Seq::new(24, |i: int| 0u8) + digest,
        ),
{
    let words = halves(value);
    let low = words[0] as nat;
    let high = words[1] as nat;
    lemma2_to64();
    le_bytes_len(low, 4);
    le_bytes_len(high, 4);
    le_bytes_len(value as nat, 8);
    assert(pow2(32) * high == 0x1_0000_0000 * high) by (nonlinear_arith)
        requires
            pow2(32) == 0x1_0000_0000,
    ;
    le_bytes_join(low, high, 4, 4);
    assert(sha256::word_block(words) =~= le_bytes(value as nat, 8) + Seq::new(24, |i: int| 0u8));
    assert(words.take(2) =~= words);
    let next = sha256_digest(sha256::word_block(words) + digest);
    assert(sha256::mixed_words(next, words.skip(2)) == next);
}

/// Felts that are drawn from a SHA-256 channel in two steps are those drawn at once, where the
/// first step uses up its draws.
pub proof fn sha256_draws_concat(digest: Seq<u8>, n: nat, first: nat, second: nat)
    requires
        first % 2 == 0,
    ensures
        sha256::secure_felts(digest, n, first + second) == sha256::secure_felts(digest, n, first)
            + sha256::secure_felts(digest, n + first / 2, second),
{
    let all = sha256::secure_felts(digest, n, first + second);
    let parts = sha256::secure_felts(digest, n, first) + sha256::secure_felts(
        digest,
        n + first / 2,
        second,
    );
    assert forall|j: int| 0 <= j < all.len() implies all[j] == parts[j] by {
        if j >= first {
            assert(j / 2 == first / 2 + (j - first) / 2);
            assert(j % 2 == (j - first) % 2);
        }
    }
    assert(all =~= parts);
}

/// Drawing fewer felts from a SHA-256 channel gives a prefix, and drawing one gives the first.
pub proof fn sha256_draws_prefix(digest: Seq<u8>, n: nat, k: nat, m: nat)
    requires
        k <= m,
    ensures
        sha256::secure_felts(digest, n, m).take(k as int) == sha256::secure_felts(digest, n, k),
        m > 0 ==> sha256::secure_felts(digest, n, m)[0] == qm31_at(
            sha256::base_felts(digest, n),
            0,
        ),
{
    assert(sha256::secure_felts(digest, n, m).take(k as int) =~= sha256::secure_felts(
        digest,
        n,
        k,
    ));
}

/// The elements that a SHA-256 channel draws are canonical.
pub proof fn sha256_draws_canonical(digest: Seq<u8>, n: nat, k: nat, j: int, c: int)
    requires
        0 <= j < k,
        0 <= c < 4,
    ensures
        sha256::secure_felts(digest, n, k)[j].coords()[c].0 < P,
{
    let hash = sha256_digest(digest + le_bytes((n + j / 2) as nat, 4));
    let at = 4 * (j % 2) + c;
    assert(sha256::secure_felts(digest, n, k)[j].coords()[c] == sha256::felts_of_hash(hash)[at]);
}

/// The felts of a digest are its words, cut to 31 bits and reduced.
pub proof fn felts_are_words(hash: Seq<u8>, i: int)
    requires
        hash.len() == 32,
        0 <= i < 8,
    ensures
        sha256::felts_of_hash(hash)[i].0 == sha256::words_of_hash(hash)[i] % 0x8000_0000 % P,
{
    let word = hash.subrange(4 * i, 4 * i + 4);
    assert(word.take(4) =~= word);
    word_value(word);
}

/// Four bytes make a number of 32 bits.
proof fn word_value(word: Seq<u8>)
    requires
        word.len() == 4,
    ensures
        le_value(word) < 0x1_0000_0000,
{
    let a = word.drop_first();
    let b = a.drop_first();
    let c = b.drop_first();
    assert(c.drop_first().len() == 0);
    assert(le_value(c.drop_first()) == 0);
    assert(le_value(c) == c[0]);
    assert(le_value(b) == b[0] + 256 * le_value(c));
    assert(le_value(a) == a[0] + 256 * le_value(b));
}

/// A digest that proves work proves less work too; it always proves none, and never more than
/// 128 bits.
pub proof fn work_monotone(v: nat, n_bits: nat, less: nat)
    requires
        less <= n_bits,
    ensures
        sha256::ends_in_zeros(v, n_bits) ==> sha256::ends_in_zeros(v, less),
        sha256::ends_in_zeros(v, 0),
        n_bits > 128 ==> !sha256::ends_in_zeros(v, n_bits),
{
    lemma2_to64();
    if sha256::ends_in_zeros(v, n_bits) {
        let rest = (n_bits - less) as nat;
        lemma_pow2_adds(less, rest);
        lemma_pow2_pos(less);
        lemma_pow2_pos(rest);
        lemma_mod_mod(v as int, pow2(less) as int, pow2(rest) as int);
        lemma_small_mod(0, pow2(less));
    }
}

/// What is hashed for a draw of felts.
pub open spec fn felts_input(digest: Seq<u8>, n: nat) -> Seq<u8> {
    digest + le_bytes(n, 4)
}

/// What is hashed for a draw of words.
pub open spec fn words_input(digest: Seq<u8>, n: nat) -> Seq<u8> {
    digest + le_bytes(n, 4) + seq![0u8]
}

/// The inputs of a SHA-256 channel's draws are kept apart: those of felts from those of words, and
/// both from those of a nonce and of a message, where `block` stands for the words or the felt of
/// the message; and each from those with another count of draws.
pub proof fn sha256_inputs_apart(
    digest: Seq<u8>,
    other: Seq<u8>,
    n: nat,
    m: nat,
    nonce: u64,
    block: Seq<u8>,
)
    requires
        digest.len() == 32,
        other.len() == 32,
        block.len() == 32,
        n <= u32::MAX,
        m <= u32::MAX,
    ensures
        felts_input(digest, n) != words_input(other, m),
        felts_input(digest, n) != other + le_bytes(nonce as nat, 8),
        words_input(digest, n) != other + le_bytes(nonce as nat, 8),
        felts_input(digest, n) != block + other,
        words_input(digest, n) != block + other,
        felts_input(digest, n) == felts_input(other, m) ==> digest == other && n == m,
        words_input(digest, n) == words_input(other, m) ==> digest == other && n == m,
{
    le_bytes_len(n, 4);
    le_bytes_len(m, 4);
    le_bytes_len(nonce as nat, 8);
    lemma2_to64();
    le_value_of_le_bytes(n, 4);
    le_value_of_le_bytes(m, 4);
    lemma_small_mod(n, pow2(32));
    lemma_small_mod(m, pow2(32));
    assert(felts_input(digest, n).len() == 36);
    assert(words_input(digest, n).len() == 37);
    assert(words_input(other, m).len() == 37);
    assert((other + le_bytes(nonce as nat, 8)).len() == 40);
    assert((block + other).len() == 64);
    if felts_input(digest, n) == felts_input(other, m) {
        assert(digest =~= felts_input(digest, n).take(32));
        assert(other =~= felts_input(other, m).take(32));
        assert(le_bytes(n, 4) =~= felts_input(digest, n).skip(32));
        assert(le_bytes(m, 4) =~= felts_input(other, m).skip(32));
    }
    if words_input(digest, n) == words_input(other, m) {
        assert(digest =~= words_input(digest, n).take(32));
        assert(other =~= words_input(other, m).take(32));
        assert(le_bytes(n, 4) =~= words_input(digest, n).subrange(32, 36));
        assert(le_bytes(m, 4) =~= words_input(other, m).subrange(32, 36));
    }
}

/// The hash of an element in a message is that of the leaf with its coordinates, in both SHA-256
/// trees; the one for Bitcoin script takes them from the last to the first.
pub proof fn felt_hash_is_leaf_hash(v: QM31)
    ensures
        Sha256Poseidon31MerkleHasher::node(None, v.coords()) == num_chain(v.coords(), seq![]),
        BTCSha256MerkleHasher::node(None, v.coords().reverse()) == num_chain(
            v.coords(),
            seq![],
        ),
{
    assert(v.coords().reverse().reverse() =~= v.coords());
}

/// Mixing felts into a Poseidon31 digest in two messages is mixing them in one, where the first
/// message holds an even number of them.
pub proof fn poseidon31_mix_felts_concat(digest: Seq<M31>, first: Seq<QM31>, second: Seq<QM31>)
    requires
        first.len() % 2 == 0,
    ensures
        absorbed(flatten(first + second), digest) == absorbed(
            flatten(second),
            absorbed(flatten(first), digest),
        ),
{
    assert(flatten(first + second) =~= flatten(first) + flatten(second));
    absorbed_concat(flatten(first), flatten(second), digest);
}

/// Mixing words into a Poseidon31 digest in two messages is mixing them in one, and mixing in one
/// word is mixing in the number.
pub proof fn poseidon31_mix_u32s_concat(
    digest: Seq<M31>,
    first: Seq<u32>,
    second: Seq<u32>,
    word: u32,
)
    ensures
        poseidon31::mixed_u32s(digest, first + second) == poseidon31::mixed_u32s(
            poseidon31::mixed_u32s(digest, first),
            second,
        ),
        poseidon31::mixed_u32s(digest, seq![word]) == poseidon31::mixed_u64(digest, word as u64),
    decreases second.len(),
{
    assert(seq![word].drop_last().len() == 0);
    assert(poseidon31::mixed_u32s(digest, seq![word].drop_last()) == digest);
    if second.len() == 0 {
        assert(first + second =~= first);
    } else {
        assert((first + second).drop_last() =~= first + second.drop_last());
        poseidon31_mix_u32s_concat(digest, first, second.drop_last(), word);
    }
}

/// The parts of a 64-bit number determine it: no two numbers are mixed in, or tried as a nonce, in
/// the same form.
pub proof fn u64_rate_injective(v: u64, w: u64)
    requires
        poseidon31::u64_rate(v) == poseidon31::u64_rate(w),
    ensures
        v == w,
{
    let a = poseidon31::u64_rate(v);
    let b = poseidon31::u64_rate(w);
    assert(a[0] == b[0] && a[1] == b[1] && a[2] == b[2]);
    assert(v % 0x40_0000 == w % 0x40_0000);
    assert(v / 0x40_0000 % 0x20_0000 == w / 0x40_0000 % 0x20_0000);
    assert(v / 0x800_0000_0000 % 0x20_0000 == w / 0x800_0000_0000 % 0x20_0000);
    assert(v == v % 0x40_0000 + 0x40_0000 * (v / 0x40_0000 % 0x20_0000) + 0x800_0000_0000 * (v
        / 0x800_0000_0000 % 0x20_0000));
    assert(w == w % 0x40_0000 + 0x40_0000 * (w / 0x40_0000 % 0x20_0000) + 0x800_0000_0000 * (w
        / 0x800_0000_0000 % 0x20_0000));
}

/// Felts that are drawn from a Poseidon31 channel in two steps are those drawn at once, where the
/// first step uses up its draws.
pub proof fn poseidon31_draws_concat(digest: Seq<M31>, n: nat, first: nat, second: nat)
    requires
        first % 2 == 0,
    ensures
        poseidon31::secure_felts(digest, n, first + second) == poseidon31::secure_felts(
            digest,
            n,
            first,
        ) + poseidon31::secure_felts(digest, n + first / 2, second),
{
    let all = poseidon31::secure_felts(digest, n, first + second);
    let parts = poseidon31::secure_felts(digest, n, first) + poseidon31::secure_felts(
        digest,
        n + first / 2,
        second,
    );
    assert forall|j: int| 0 <= j < all.len() implies all[j] == parts[j] by {
        if j >= first {
            assert(j / 2 == first / 2 + (j - first) / 2);
            assert(j % 2 == (j - first) % 2);
        }
    }
    assert(all =~= parts);
}

/// Drawing fewer felts from a Poseidon31 channel gives a prefix, and drawing one gives the first.
pub proof fn poseidon31_draws_prefix(digest: Seq<M31>, n: nat, k: nat, m: nat)
    requires
        k <= m,
    ensures
        poseidon31::secure_felts(digest, n, m).take(k as int) == poseidon31::secure_felts(
            digest,
            n,
            k,
        ),
        m > 0 ==> poseidon31::secure_felts(digest, n, m)[0] == qm31_at(
            poseidon31::base_felts(digest, n),
            0,
        ),
{
    assert(poseidon31::secure_felts(digest, n, m).take(k as int) =~= poseidon31::secure_felts(
        digest,
        n,
        k,
    ));
}

/// The elements that a Poseidon31 channel draws are canonical.
pub proof fn poseidon31_draws_canonical(digest: Seq<M31>, n: nat, k: nat, j: int, c: int)
    requires
        0 <= j < k,
        0 <= c < 4,
    ensures
        poseidon31::secure_felts(digest, n, k)[j].coords()[c].0 < P,
{
    let count = (n + j / 2) as nat;
    let state = padded(seq![crate::fields::m31::m31(count as int)], 8) + digest;
    let at = 4 * (j % 2) + c;
    poseidon2_canonical(state, at);
    crate::vcs::poseidon31_ref::poseidon2_len(state);
    assert(poseidon31::secure_felts(digest, n, k)[j].coords()[c] == poseidon31::base_felts(
        digest,
        count,
    )[at]);
}

/// Every fourth byte that a Poseidon31 channel draws has its top bit clear, and four bytes give
/// back their element.
pub proof fn poseidon31_random_bytes(felts: Seq<M31>, i: int)
    requires
        0 <= i < felts.len(),
        felts[i].0 < P,
    ensures
        poseidon31::felt_bytes(felts).len() == 4 * felts.len(),
        poseidon31::felt_bytes(felts)[4 * i + 3] < 0x80,
        le_value(poseidon31::felt_bytes(felts).subrange(4 * i, 4 * i + 4)) == felts[i].0,
{
    let v = felts[i].0 as nat;
    let bytes = le_bytes(v, 4);
    le_bytes_len(v, 4);
    assert(poseidon31::felt_bytes(felts).subrange(4 * i, 4 * i + 4) =~= bytes);
    lemma2_to64();
    le_value_of_le_bytes(v, 4);
    lemma_small_mod(v, pow2(32));
    let a = bytes.drop_first();
    let b = a.drop_first();
    let c = b.drop_first();
    assert(c.drop_first().len() == 0);
    assert(le_value(c.drop_first()) == 0);
    assert(le_value(c) == c[0]);
    assert(le_value(b) == b[0] + 256 * le_value(c));
    assert(le_value(a) == a[0] + 256 * le_value(b));
    assert(c[0] == bytes[3]);
}

/// What stands for a long message in the channel that compresses messages is what a fresh
/// Poseidon31 channel draws once the message is mixed in.
pub proof fn long_message_is_poseidon31_draw(felts: Seq<QM31>)
    requires
        felts.len() > 2,
    ensures
        sha256_poseidon31::short_message(felts) == poseidon31::secure_felts(
            absorbed(flatten(felts), zeros(8)),
            0,
            2,
        ),
{
    assert(padded(seq![crate::fields::m31::m31(0)], 8) =~= zeros(8));
    assert(sha256_poseidon31::short_message(felts) =~= poseidon31::secure_felts(
        absorbed(flatten(felts), zeros(8)),
        0,
        2,
    ));
}

} // verus!
