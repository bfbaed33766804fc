//! Laws of draws, messages and proofs of work, in bytes and elements: what a digest yields, what
//! goes into a hash, and when a proof of work holds.
use vstd::arithmetic::div_mod::*;
use vstd::arithmetic::power2::*;
use vstd::prelude::*;

use crate::bytes::{
    le_bytes, le_bytes_digit, le_bytes_len, le_bytes_of_le_value, le_value, le_value_append,
    le_value_of_le_bytes, low_bits_zero,
};
use crate::channel::binding::{collide, felts_collide, felts_uneven, mixed_felts_bind};
use crate::channel::laws::{felts_are_words, felts_input, sha256_inputs_apart, words_input};
use crate::channel::poseidon31;
use crate::channel::sha256;
use crate::channel::sha256_poseidon31::{message_hash, short_message};
use crate::fields::m31::{m31, zeros, M31};
use crate::fields::qm31::{flatten, QM31};
use crate::vcs::poseidon31_ref::{absorbed, padded, poseidon2, poseidon2_len};
use crate::vcs::script_num;
use crate::vcs::sha256_hash::{num_chain, sha256_digest};

verus! {

/// Four bytes and the number that they represent.
proof fn four_bytes(b: Seq<u8>)
    requires
        b.len() == 4,
    ensures
        le_value(b) == b[0] + 256 * b[1] + 65536 * b[2] + 16777216 * b[3],
{
    reveal_with_fuel(le_value, 5);
    assert(b.drop_first().drop_first().drop_first().drop_first().len() == 0);
}

/// The words of a digest, byte by byte: all eight, and written out they give the digest back.
pub proof fn words_of_digest(hash: Seq<u8>, i: int)
    requires
        hash.len() == 32,
        0 <= i < 8,
    ensures
        sha256::words_of_hash(hash).len() == 8,
        sha256::words_of_hash(hash)[i] == hash[4 * i] + 256 * hash[4 * i + 1] + 65536 * hash[4 * i
            + 2] + 16777216 * hash[4 * i + 3],
        sha256::word_block(sha256::words_of_hash(hash)) == hash,
{
    let words = sha256::words_of_hash(hash);
    word_of_digest(hash, i);
    assert forall|k: int| 0 <= k < 32 implies #[trigger] sha256::word_block(words)[k]
        == hash[k] by {
        word_of_digest(hash, k / 4);
    }
    assert(sha256::word_block(words) =~= hash);
}

proof fn word_of_digest(hash: Seq<u8>, i: int)
    requires
        hash.len() == 32,
        0 <= i < 8,
    ensures
        sha256::words_of_hash(hash)[i] == hash[4 * i] + 256 * hash[4 * i + 1] + 65536 * hash[4 * i
            + 2] + 16777216 * hash[4 * i + 3],
        le_bytes(sha256::words_of_hash(hash)[i] as nat, 4) == hash.subrange(4 * i, 4 * i + 4),
{
    let s = hash.subrange(4 * i, 4 * i + 4);
    four_bytes(s);
    le_bytes_of_le_value(s);
}

/// Cutting the top bit off four bytes.
proof fn cut_top(word: int, a: int, b: int, c: int, d: int)
    requires
        0 <= a < 256,
        0 <= b < 256,
        0 <= c < 256,
        0 <= d < 256,
        word == a + 256 * b + 65536 * c + 16777216 * d,
    ensures
        word % 0x8000_0000 == a + 256 * b + 65536 * c + 16777216 * (d % 128),
{
}

/// Digests with the same words are the same.
pub proof fn words_determine_digest(first: Seq<u8>, second: Seq<u8>)
    requires
        first.len() == second.len() == 32,
        sha256::words_of_hash(first) == sha256::words_of_hash(second),
    ensures
        first == second,
{
    words_of_digest(first, 0);
    words_of_digest(second, 0);
}

/// The felts of a digest, byte by byte: all eight, each of four bytes without their top bit.
pub proof fn felts_of_digest(hash: Seq<u8>, i: int)
    requires
        hash.len() == 32,
        0 <= i < 8,
    ensures
        sha256::felts_of_hash(hash).len() == 8,
        sha256::felts_of_hash(hash)[i].0 == (hash[4 * i] + 256 * hash[4 * i + 1] + 65536 * hash[4
            * i + 2] + 16777216 * (hash[4 * i + 3] as int % 128)) % 0x7fff_ffff,
        sha256::extracted(hash.subrange(4 * i, 32)) == sha256::felts_of_hash(hash)[i],
{
    word_of_digest(hash, i);
    felts_are_words(hash, i);
    cut_top(
        sha256::words_of_hash(hash)[i] as int,
        hash[4 * i] as int,
        hash[4 * i + 1] as int,
        hash[4 * i + 2] as int,
        hash[4 * i + 3] as int,
    );
    let word = hash.subrange(4 * i, 4 * i + 4);
    assert(hash.subrange(4 * i, 32).take(4) =~= word);
    assert(word.take(4) =~= word);
}

/// A block holds its words, four bytes of each with the low one first, and zeros behind them.
pub proof fn block_of_words(words: Seq<u32>, i: int, b: nat)
    requires
        words.len() <= 8,
        0 <= i < 8,
        b < 4,
    ensures
        sha256::word_block(words).len() == 32,
        i < words.len() ==> sha256::word_block(words)[4 * i + b] == words[i] as nat / pow2(8 * b)
            % 256,
        i >= words.len() ==> sha256::word_block(words)[4 * i + b] == 0,
{
    if i < words.len() {
        le_bytes_digit(words[i] as nat, 4, b);
        assert((4 * i + b) / 4 == i && (4 * i + b) % 4 == b);
    }
}

/// A coordinate that the channel draws, in bytes: draw `n + j / 2` hashes the digest and the four
/// bytes of its number, and yields two elements, each of sixteen bytes.
pub proof fn drawn_coordinate(digest: Seq<u8>, n: nat, k: nat, j: int, c: int, hash: Seq<u8>)
    requires
        0 <= j < k,
        0 <= c < 4,
        hash == sha256_digest(digest + le_bytes((n + j / 2) as nat, 4)),
        hash.len() == 32,
    ensures
        sha256::secure_felts(digest, n, k).len() == k,
        ({
            let at = 16 * (j % 2) + 4 * c;
            sha256::secure_felts(digest, n, k)[j].coords()[c].0 == (hash[at] + 256 * hash[at + 1]
                + 65536 * hash[at + 2] + 16777216 * (hash[at + 3] as int % 128)) % 0x7fff_ffff
        }),
{
    let i = 4 * (j % 2) + c;
    felts_of_digest(hash, i);
    assert(sha256::secure_felts(digest, n, k)[j].coords()[c] == sha256::felts_of_hash(hash)[i]);
}

/// Two draws of felts that hash to one digest are the same draw, or else a collision is named; so
/// for two draws of words, and a draw of felts and one of words always name one.
pub proof fn draws_bind(digest: Seq<u8>, n: nat, other: Seq<u8>, m: nat)
    requires
        digest.len() == 32,
        other.len() == 32,
        n <= u32::MAX,
        m <= u32::MAX,
    ensures
        sha256_digest(digest + le_bytes(n, 4)) == sha256_digest(other + le_bytes(m, 4)) ==> (digest
            == other && n == m) || collide(digest + le_bytes(n, 4), other + le_bytes(m, 4)),
        sha256_digest(digest + le_bytes(n, 4) + seq![0u8]) == sha256_digest(
            other + le_bytes(m, 4) + seq![0u8],
        ) ==> (digest == other && n == m) || collide(
            digest + le_bytes(n, 4) + seq![0u8],
            other + le_bytes(m, 4) + seq![0u8],
        ),
        sha256_digest(digest + le_bytes(n, 4)) == sha256_digest(
            other + le_bytes(m, 4) + seq![0u8],
        ) ==> collide(digest + le_bytes(n, 4), other + le_bytes(m, 4) + seq![0u8]),
{
    sha256_inputs_apart(digest, other, n, m, 0, digest);
    assert(felts_input(digest, n) == digest + le_bytes(n, 4));
    assert(felts_input(other, m) == other + le_bytes(m, 4));
    assert(words_input(digest, n) == digest + le_bytes(n, 4) + seq![0u8]);
    assert(words_input(other, m) == other + le_bytes(m, 4) + seq![0u8]);
}

/// Mixing in one felt hashes the digest chain over its four coordinates, from the first to the
/// last, in front of the digest. Mixing in none keeps the digest.
pub proof fn mixed_felt(digest: Seq<u8>, v: QM31)
    ensures
        sha256::mixed_felts(digest, seq![]) == digest,
        ({
            let a = sha256_digest(script_num(v.0.0.0 as nat));
            let b = sha256_digest(script_num(v.0.1.0 as nat) + a);
            let c = sha256_digest(script_num(v.1.0.0 as nat) + b);
            let d = sha256_digest(script_num(v.1.1.0 as nat) + c);
            &&& num_chain(v.coords(), seq![]) == d
            &&& sha256::mixed_felts(digest, seq![v]) == sha256_digest(d + digest)
        }),
{
    let s = v.coords();
    let nothing: Seq<u8> = seq![];
    reveal_with_fuel(num_chain, 5);
    let s3 = s.drop_last();
    let s2 = s3.drop_last();
    let s1 = s2.drop_last();
    assert(s1.drop_last().len() == 0);
    assert(num_chain(s1.drop_last(), nothing) == nothing);
    assert(script_num(v.0.0.0 as nat) + nothing =~= script_num(v.0.0.0 as nat));
    assert(num_chain(s1, nothing) == sha256_digest(script_num(v.0.0.0 as nat) + nothing));
    assert(s2.last() == v.0.1 && s3.last() == v.1.0 && s.last() == v.1.1);
    assert(seq![v].drop_last().len() == 0);
    assert(sha256::mixed_felts(digest, seq![v].drop_last()) == digest);
}

/// Mixing in at most eight words hashes their block in front of the digest. Mixing in none keeps
/// the digest.
pub proof fn mixed_block(digest: Seq<u8>, words: Seq<u32>)
    requires
        0 < words.len() <= 8,
    ensures
        sha256::mixed_words(digest, seq![]) == digest,
        sha256::mixed_words(digest, words) == sha256_digest(sha256::word_block(words) + digest),
{
    assert(words.take(words.len() as int) =~= words);
    let next = sha256_digest(sha256::word_block(words) + digest);
    assert(sha256::mixed_words(next, words.skip(words.len() as int)) == next);
}

/// A digest proves work of `n` bits where the last `n / 8` of its first sixteen bytes are zero and
/// the one before them ends in the zero bits that are left; there are at most 128 bits to prove.
pub proof fn work_in_bytes(hash: Seq<u8>, n: nat)
    requires
        hash.len() == 32,
    ensures
        sha256::ends_in_zeros(sha256::pow_value(hash), n) <==> n <= 128 && (forall|i: int|
            16 - n / 8 <= i < 16 ==> hash[i] == 0) && (n < 128 ==> hash[15 - n / 8] as nat % pow2(
            n % 8,
        ) == 0),
{
    if n <= 128 {
        let s = hash.take(16).reverse();
        low_bits_zero(s, n);
        assert forall|i: int| 0 <= i < 16 implies #[trigger] s[i] == hash[15 - i] by {}
        if sha256::ends_in_zeros(sha256::pow_value(hash), n) {
            assert forall|i: int| 16 - n / 8 <= i < 16 implies hash[i] == 0 by {
                assert(s[15 - i] == 0);
            }
        }
    }
}

/// The parts of a number in a Poseidon31 rate make up the number: 22 bits, 21 bits and 21 bits,
/// with zeros behind them.
pub proof fn u64_in_parts(value: u64, i: int)
    requires
        3 <= i < 8,
    ensures
        poseidon31::u64_rate(value).len() == 8,
        poseidon31::u64_rate(value)[0].0 < 0x40_0000,
        poseidon31::u64_rate(value)[1].0 < 0x20_0000,
        poseidon31::u64_rate(value)[2].0 < 0x20_0000,
        value == poseidon31::u64_rate(value)[0].0 + 0x40_0000 * poseidon31::u64_rate(value)[1].0
            + 0x800_0000_0000 * poseidon31::u64_rate(value)[2].0,
        poseidon31::u64_rate(value)[i] == M31(0),
{
}

/// The parts of a number are determined by it.
proof fn parts_of_u64(value: int, a: int, b: int, c: int)
    requires
        0 <= a < 0x40_0000,
        0 <= b < 0x20_0000,
        0 <= c < 0x20_0000,
        value == a + 0x40_0000 * b + 0x800_0000_0000 * c,
    ensures
        value % 0x40_0000 == a,
        value / 0x40_0000 % 0x20_0000 == b,
        value / 0x800_0000_0000 % 0x20_0000 == c,
{
    let rest = b + 0x20_0000 * c;
    assert(value == a + 0x40_0000 * rest);
    assert(value / 0x40_0000 == rest);
    assert(rest % 0x20_0000 == b);
    let low = a + 0x40_0000 * b;
    assert(0 <= low < 0x800_0000_0000);
    assert(value == low + 0x800_0000_0000 * c);
    assert(value / 0x800_0000_0000 == c);
}

/// The state that holds the parts of a number, zeros and a digest.
proof fn state_of_u64(digest: Seq<M31>, value: u64, state: Seq<M31>)
    requires
        digest.len() == 8,
        state.len() == 16,
        state[0].0 < 0x40_0000,
        state[1].0 < 0x20_0000,
        state[2].0 < 0x20_0000,
        value == state[0].0 + 0x40_0000 * state[1].0 + 0x800_0000_0000 * state[2].0,
        forall|i: int| 3 <= i < 8 ==> #[trigger] state[i] == M31(0),
        forall|i: int| 8 <= i < 16 ==> #[trigger] state[i] == digest[i - 8],
    ensures
        poseidon31::u64_rate(value) + digest == state,
{
    parts_of_u64(
        value as int,
        state[0].0 as int,
        state[1].0 as int,
        state[2].0 as int,
    );
    let rate = poseidon31::u64_rate(value);
    assert(rate[0] == state[0]);
    assert(rate[1] == state[1]);
    assert(rate[2] == state[2]);
    assert(rate + digest =~= state);
}

/// Mixing a number into a Poseidon31 digest permutes the state that holds its parts, zeros, and the
/// digest, and keeps the last eight elements. Mixing in no words keeps the digest.
pub proof fn poseidon31_mixed_u64(digest: Seq<M31>, value: u64, state: Seq<M31>)
    requires
        digest.len() == 8,
        state.len() == 16,
        state[0].0 < 0x40_0000,
        state[1].0 < 0x20_0000,
        state[2].0 < 0x20_0000,
        value == state[0].0 + 0x40_0000 * state[1].0 + 0x800_0000_0000 * state[2].0,
        forall|i: int| 3 <= i < 8 ==> #[trigger] state[i] == M31(0),
        forall|i: int| 8 <= i < 16 ==> #[trigger] state[i] == digest[i - 8],
    ensures
        poseidon31::mixed_u64(digest, value) == poseidon2(state).skip(8),
        poseidon31::mixed_u32s(digest, seq![]) == digest,
{
    state_of_u64(digest, value, state);
}

/// A coordinate that a Poseidon31 channel draws: draw `n + j / 2` permutes the state that holds its
/// number, zeros, and the digest, and yields two elements, from the first eight.
pub proof fn poseidon31_drawn_coordinate(
    digest: Seq<M31>,
    n: nat,
    k: nat,
    j: int,
    c: int,
    state: Seq<M31>,
)
    requires
        0 <= j < k,
        0 <= c < 4,
        digest.len() == 8,
        state.len() == 16,
        state[0].0 == (n + j / 2) % 0x7fff_ffff,
        forall|i: int| 1 <= i < 8 ==> #[trigger] state[i] == M31(0),
        forall|i: int| 8 <= i < 16 ==> #[trigger] state[i] == digest[i - 8],
    ensures
        poseidon31::secure_felts(digest, n, k).len() == k,
        poseidon31::secure_felts(digest, n, k)[j].coords()[c] == poseidon2(state)[4 * (j % 2) + c],
        poseidon31::base_felts(digest, (n + j / 2) as nat) == poseidon2(state).take(8),
{
    let count = (n + j / 2) as nat;
    poseidon2_len(state);
    assert(padded(seq![m31(count as int)], 8) + digest =~= state);
    assert(poseidon31::base_felts(digest, count) == poseidon2(state).take(8));
}

/// The bytes of felts are four of each, the low one first.
pub proof fn bytes_of_felts(felts: Seq<M31>, i: int, b: nat)
    requires
        0 <= i < felts.len(),
        b < 4,
    ensures
        poseidon31::felt_bytes(felts).len() == 4 * felts.len(),
        poseidon31::felt_bytes(felts)[4 * i + b] == felts[i].0 as nat / pow2(8 * b) % 256,
{
    le_bytes_digit(felts[i].0 as nat, 4, b);
    assert((4 * i + b) / 4 == i && (4 * i + b) % 4 == b);
}

/// Felts represent a number that ends in `n` zero bits where the first `n / 32` of them are zero
/// and the next one ends in the zero bits that are left.
proof fn felts_low_bits(felts: Seq<M31>, n: nat)
    requires
        n <= 32 * felts.len(),
    ensures
        le_value(poseidon31::felt_bytes(felts)) % pow2(n) == 0 <==> (forall|i: int|
            0 <= i < n / 32 ==> felts[i].0 == 0) && (n / 32 < felts.len() ==> felts[(n
            / 32) as int].0 as nat % pow2(n % 32) == 0),
    decreases felts.len(),
{
    lemma2_to64();
    if felts.len() == 0 {
        assert(poseidon31::felt_bytes(felts).len() == 0);
        assert(le_value(poseidon31::felt_bytes(felts)) == 0);
    } else {
        let rest = felts.skip(1);
        let a = felts[0].0 as nat;
        let v = le_value(poseidon31::felt_bytes(felts));
        let w = le_value(poseidon31::felt_bytes(rest));
        le_bytes_len(a, 4);
        assert(poseidon31::felt_bytes(felts) =~= le_bytes(a, 4) + poseidon31::felt_bytes(rest)) by {
            assert forall|i: int| 4 <= i < 4 * felts.len() implies poseidon31::felt_bytes(felts)[i]
                == poseidon31::felt_bytes(rest)[i - 4] by {
                assert((i - 4) / 4 == i / 4 - 1 && (i - 4) % 4 == i % 4);
            }
        }
        le_value_append(le_bytes(a, 4), poseidon31::felt_bytes(rest), 0);
        le_value_of_le_bytes(a, 4);
        lemma_small_mod(a, pow2(32));
        assert(pow2(32) * w == 0x1_0000_0000 * w) by (nonlinear_arith)
            requires
                pow2(32) == 0x1_0000_0000,
        ;
        assert(v == a + 0x1_0000_0000 * w);
        if n < 32 {
            lemma_pow2_pos(n);
            lemma_pow2_adds(n, (32 - n) as nat);
            let m = pow2(n) as int;
            let d = pow2((32 - n) as nat) as int;
            assert(0x1_0000_0000 * w == m * (d * w)) by (nonlinear_arith)
                requires
                    0x1_0000_0000 == m * d,
            ;
            lemma_mod_multiples_vanish(d * w, a as int, m);
            assert(v % pow2(n) == a % pow2(n));
            assert(n % 32 == n && n / 32 == 0);
        } else {
            let m = (n - 32) as nat;
            lemma_pow2_adds(32, m);
            lemma_pow2_pos(m);
            lemma_mod_breakdown(v as int, 0x1_0000_0000, pow2(m) as int);
            felts_low_bits(rest, m);
            assert(v / 0x1_0000_0000 == w && v % 0x1_0000_0000 == a);
            assert(n / 32 == m / 32 + 1 && n % 32 == m % 32);
            if v % pow2(n) == 0 {
                assert(a == 0 && w % pow2(m) == 0);
                assert forall|i: int| 0 <= i < n / 32 implies felts[i].0 == 0 by {
                    if i > 0 {
                        assert(rest[i - 1] == felts[i]);
                    }
                }
            }
            if (forall|i: int| 0 <= i < n / 32 ==> felts[i].0 == 0) && (n / 32 < felts.len()
                ==> felts[(n / 32) as int].0 as nat % pow2(n % 32) == 0) {
                assert(felts[0].0 == 0);
                assert forall|i: int| 0 <= i < m / 32 implies rest[i].0 == 0 by {
                    assert(rest[i] == felts[i + 1]);
                }
            }
        }
    }
}

/// A nonce proves work of `n` bits on a Poseidon31 digest where, once the state that holds the
/// parts of the nonce, zeros and the digest is permuted, the first `n / 32` elements of its second
/// half are zero and the next one ends in the zero bits that are left; there are at most 128 bits
/// to prove.
pub proof fn poseidon31_work(digest: Seq<M31>, nonce: u64, n: nat, state: Seq<M31>)
    requires
        digest.len() == 8,
        state.len() == 16,
        state[0].0 < 0x40_0000,
        state[1].0 < 0x20_0000,
        state[2].0 < 0x20_0000,
        nonce == state[0].0 + 0x40_0000 * state[1].0 + 0x800_0000_0000 * state[2].0,
        forall|i: int| 3 <= i < 8 ==> #[trigger] state[i] == M31(0),
        forall|i: int| 8 <= i < 16 ==> #[trigger] state[i] == digest[i - 8],
    ensures
        ({
            let permuted = poseidon2(state);
            sha256::ends_in_zeros(poseidon31::pow_value(digest, nonce), n) <==> n <= 128
                && (forall|i: int| 8 <= i < 8 + n / 32 ==> #[trigger] permuted[i].0 == 0) && (n < 128
                ==> permuted[(8 + n / 32) as int].0 as nat % pow2(n % 32) == 0)
        }),
{
    state_of_u64(digest, nonce, state);
    poseidon2_len(state);
    let felts = poseidon2(state).subrange(8, 12);
    if n <= 128 {
        felts_low_bits(felts, n);
        assert forall|i: int| 0 <= i < 4 implies #[trigger] felts[i] == poseidon2(state)[8
            + i] by {}
        if sha256::ends_in_zeros(poseidon31::pow_value(digest, nonce), n) {
            assert forall|i: int| 8 <= i < 8 + n / 32 implies #[trigger] poseidon2(state)[i].0
                == 0 by {
                assert(felts[i - 8].0 == 0);
            }
        }
        if forall|i: int| 8 <= i < 8 + n / 32 ==> #[trigger] poseidon2(state)[i].0 == 0 {
            assert forall|i: int| 0 <= i < n / 32 implies felts[i].0 == 0 by {
                assert(poseidon2(state)[8 + i].0 == 0);
            }
        }
    }
}

/// A message of at most two felts is mixed into the channel that compresses messages as it is: the
/// digest behind it is the one that the plain SHA-256 channel has behind it.
pub proof fn short_message_as_it_is(digest: Seq<u8>, message: Seq<QM31>)
    requires
        message.len() <= 2,
    ensures
        sha256::mixed_felts(digest, short_message(message)) == sha256::mixed_felts(digest, message),
        short_message(message) == message,
{
}

/// The channel that compresses messages binds them: two messages of one length that end in one
/// digest are the same, from the same digest on, or else they come upon a collision of SHA-256 or
/// through digests of different lengths, or they are two different long messages with the same two
/// elements in their place.
pub proof fn compressed_messages_bind(
    x: Seq<u8>,
    first: Seq<QM31>,
    y: Seq<u8>,
    second: Seq<QM31>,
)
    requires
        first.len() == second.len(),
        sha256::mixed_felts(x, short_message(first)) == sha256::mixed_felts(
            y,
            short_message(second),
        ),
    ensures
        first.len() <= 2 ==> (first == second && x == y) || felts_collide(x, first, y, second)
            || felts_uneven(x, first, y, second),
        first.len() > 2 ==> (first == second && x == y) || felts_collide(
            x,
            short_message(first),
            y,
            short_message(second),
        ) || felts_uneven(x, short_message(first), y, short_message(second)) || (first != second
            && x == y && short_message(first) == short_message(second)),
{
    mixed_felts_bind(x, short_message(first), y, short_message(second));
}

/// The element that four bytes or more yield, byte by byte: the first four without their top bit.
pub proof fn extracted_element(hash: Seq<u8>)
    requires
        hash.len() >= 4,
    ensures
        sha256::extracted(hash).0 == (hash[0] + 256 * hash[1] + 65536 * hash[2] + 16777216 * (
        hash[3] as int % 128)) % 0x7fff_ffff,
{
    let word = hash.take(4);
    four_bytes(word);
    cut_top(
        le_value(word) as int,
        hash[0] as int,
        hash[1] as int,
        hash[2] as int,
        hash[3] as int,
    );
}

/// The eight elements that stand for a message, of any length, are the first draw of a fresh
/// Poseidon31 channel that mixed it in.
pub proof fn message_is_first_draw(message: Seq<QM31>)
    ensures
        message_hash(message) == poseidon31::base_felts(
            absorbed(flatten(message), Seq::new(8, |i: int| M31(0))),
            0,
        ),
{
    assert(Seq::new(8, |i: int| M31(0)) =~= zeros(8));
    assert(padded(seq![m31(0)], 8) =~= zeros(8));
}

} // verus!
