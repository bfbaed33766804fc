//! SHA-256 transcripts bind their messages: two that end in one digest hold the same messages, or
//! else they come upon a collision, two different messages with the same digest, or pass through
//! digests of different lengths. The last is ruled out for digests that were computed: they are
//! arrays of 32 bytes.
use vstd::arithmetic::div_mod::lemma_small_mod;
use vstd::arithmetic::power2::*;
use vstd::prelude::*;

use crate::bytes::{le_bytes, le_bytes_len, le_value_of_le_bytes};
use crate::channel::sha256::{block_words, mixed_felts, mixed_words, word_block};
use crate::fields::m31::M31;
use crate::fields::qm31::QM31;
use crate::vcs::script_num;
use crate::vcs::script_num_injective;
use crate::vcs::sha256_hash::{num_chain, sha256_digest};

verus! {

/// Whether two different messages have the same digest.
pub open spec fn collide(first: Seq<u8>, second: Seq<u8>) -> bool {
    first != second && sha256_digest(first) == sha256_digest(second)
}

/// Whether two digest chains hash different messages to the same digest at some link, counted
/// from their ends.
pub open spec fn chains_collide(first: Seq<M31>, x: Seq<u8>, second: Seq<M31>, y: Seq<u8>) -> bool
    decreases first.len(),
{
    if first.len() == 0 || second.len() == 0 {
        false
    } else {
        let p = num_chain(first.drop_last(), x);
        let q = num_chain(second.drop_last(), y);
        collide(script_num(first.last().0 as nat) + p, script_num(second.last().0 as nat) + q)
            || chains_collide(first.drop_last(), x, second.drop_last(), y)
    }
}

/// Whether two digest chains pass, at the same place, through links of different lengths.
pub open spec fn chains_uneven(first: Seq<M31>, x: Seq<u8>, second: Seq<M31>, y: Seq<u8>) -> bool
    decreases first.len(),
{
    if first.len() == 0 || second.len() == 0 {
        false
    } else {
        let p = num_chain(first.drop_last(), x);
        let q = num_chain(second.drop_last(), y);
        p.len() != q.len() || chains_uneven(first.drop_last(), x, second.drop_last(), y)
    }
}

/// Whether two messages of felts come upon a collision when they are mixed in, counted from their
/// ends.
pub open spec fn felts_collide(x: Seq<u8>, first: Seq<QM31>, y: Seq<u8>, second: Seq<QM31>) -> bool
    decreases first.len(),
{
    if first.len() == 0 || second.len() == 0 {
        false
    } else {
        let v = first.last().coords();
        let w = second.last().coords();
        let p = mixed_felts(x, first.drop_last());
        let q = mixed_felts(y, second.drop_last());
        collide(num_chain(v, seq![]) + p, num_chain(w, seq![]) + q) || chains_collide(
            v,
            seq![],
            w,
            seq![],
        ) || felts_collide(x, first.drop_last(), y, second.drop_last())
    }
}

/// Whether two messages of felts pass, at the same place, through digests of different lengths when
/// they are mixed in: digests of the channel, or links of the chain over one felt.
pub open spec fn felts_uneven(x: Seq<u8>, first: Seq<QM31>, y: Seq<u8>, second: Seq<QM31>) -> bool
    decreases first.len(),
{
    if first.len() == 0 || second.len() == 0 {
        false
    } else {
        let p = mixed_felts(x, first.drop_last());
        let q = mixed_felts(y, second.drop_last());
        p.len() != q.len() || chains_uneven(
            first.last().coords(),
            seq![],
            second.last().coords(),
            seq![],
        ) || felts_uneven(x, first.drop_last(), y, second.drop_last())
    }
}

/// Whether two messages of words come upon a collision when they are mixed in.
pub open spec fn words_collide(x: Seq<u8>, first: Seq<u32>, y: Seq<u8>, second: Seq<u32>) -> bool
    decreases first.len(),
{
    if first.len() == 0 {
        false
    } else {
        let n = block_words(first);
        let a = word_block(first.take(n)) + x;
        let b = word_block(second.take(n)) + y;
        collide(a, b) || words_collide(
            sha256_digest(a),
            first.skip(n),
            sha256_digest(b),
            second.skip(n),
        )
    }
}

/// Strings that are equal have equal ends of equal length.
proof fn same_ends(a: Seq<u8>, b: Seq<u8>, x: Seq<u8>, y: Seq<u8>)
    requires
        a + x == b + y,
        x.len() == y.len(),
    ensures
        a == b,
        x == y,
{
    let s = a + x;
    assert((b + y).len() == s.len());
    assert(a =~= s.take(a.len() as int));
    assert(b =~= (b + y).take(b.len() as int));
    assert(x =~= s.skip(a.len() as int));
    assert(y =~= (b + y).skip(b.len() as int));
}

/// A digest chain binds its values and its seed: two chains of one length, from seeds of one
/// length, that end in one digest are the same, or else they come upon a collision or through links
/// of different lengths.
pub proof fn chain_binds(first: Seq<M31>, x: Seq<u8>, second: Seq<M31>, y: Seq<u8>)
    requires
        first.len() == second.len(),
        x.len() == y.len(),
        num_chain(first, x) == num_chain(second, y),
    ensures
        (first == second && x == y) || chains_collide(first, x, second, y) || chains_uneven(
            first,
            x,
            second,
            y,
        ),
    decreases first.len(),
{
    if first.len() == 0 {
        assert(first =~= second);
    } else {
        let a = script_num(first.last().0 as nat);
        let b = script_num(second.last().0 as nat);
        let p = num_chain(first.drop_last(), x);
        let q = num_chain(second.drop_last(), y);
        if !collide(a + p, b + q) && p.len() == q.len() {
            assert(a + p == b + q);
            same_ends(a, b, p, q);
            script_num_injective(first.last().0 as nat, second.last().0 as nat);
            chain_binds(first.drop_last(), x, second.drop_last(), y);
            assert(first =~= first.drop_last().push(first.last()));
            assert(second =~= second.drop_last().push(second.last()));
        }
    }
}

/// Mixing in felts binds them and the digest before them: two messages of one length that end in
/// one digest are the same, from the same digest on, or else they come upon a collision or through
/// digests of different lengths.
pub proof fn mixed_felts_bind(x: Seq<u8>, first: Seq<QM31>, y: Seq<u8>, second: Seq<QM31>)
    requires
        first.len() == second.len(),
        mixed_felts(x, first) == mixed_felts(y, second),
    ensures
        (first == second && x == y) || felts_collide(x, first, y, second) || felts_uneven(
            x,
            first,
            y,
            second,
        ),
    decreases first.len(),
{
    if first.len() == 0 {
        assert(first =~= second);
    } else {
        let a = num_chain(first.last().coords(), seq![]);
        let b = num_chain(second.last().coords(), seq![]);
        let p = mixed_felts(x, first.drop_last());
        let q = mixed_felts(y, second.drop_last());
        if !collide(a + p, b + q) && p.len() == q.len() {
            assert(a + p == b + q);
            same_ends(a, b, p, q);
            chain_binds(first.last().coords(), seq![], second.last().coords(), seq![]);
            mixed_felts_bind(x, first.drop_last(), y, second.drop_last());
            if first.last().coords() == second.last().coords() {
                let v = first.last();
                let w = second.last();
                assert(v.coords()[0] == w.coords()[0]);
                assert(v.coords()[1] == w.coords()[1]);
                assert(v.coords()[2] == w.coords()[2]);
                assert(v.coords()[3] == w.coords()[3]);
                assert(v == w);
            }
            assert(first =~= first.drop_last().push(first.last()));
            assert(second =~= second.drop_last().push(second.last()));
        }
    }
}

/// A block binds its words.
proof fn block_binds(first: Seq<u32>, second: Seq<u32>)
    requires
        first.len() == second.len() <= 8,
        word_block(first) == word_block(second),
    ensures
        first == second,
{
    assert forall|k: int| 0 <= k < first.len() implies first[k] == second[k] by {
        let v = first[k] as nat;
        let w = second[k] as nat;
        le_bytes_len(v, 4);
        le_bytes_len(w, 4);
        assert forall|i: int| 0 <= i < 4 implies le_bytes(v, 4)[i] == le_bytes(w, 4)[i] by {
            assert(word_block(first)[4 * k + i] == le_bytes(v, 4)[i]);
            assert(word_block(second)[4 * k + i] == le_bytes(w, 4)[i]);
        }
        assert(le_bytes(v, 4) =~= le_bytes(w, 4));
        lemma2_to64();
        le_value_of_le_bytes(v, 4);
        le_value_of_le_bytes(w, 4);
        lemma_small_mod(v, pow2(32));
        lemma_small_mod(w, pow2(32));
    }
    assert(first =~= second);
}

/// Mixing in words binds them and the digest before them: two messages of one length that end in
/// one digest are the same, from the same digest on, or else they come upon a collision.
pub proof fn mixed_words_bind(x: Seq<u8>, first: Seq<u32>, y: Seq<u8>, second: Seq<u32>)
    requires
        first.len() == second.len(),
        mixed_words(x, first) == mixed_words(y, second),
    ensures
        (first == second && x == y) || words_collide(x, first, y, second),
    decreases first.len(),
{
    if first.len() == 0 {
        assert(first =~= second);
    } else {
        let n = block_words(first);
        let a = word_block(first.take(n));
        let b = word_block(second.take(n));
        mixed_words_bind(
            sha256_digest(a + x),
            first.skip(n),
            sha256_digest(b + y),
            second.skip(n),
        );
        if sha256_digest(a + x) == sha256_digest(b + y) && !collide(a + x, b + y) {
            assert((a + x).len() == (b + y).len());
            same_ends(a, b, x, y);
            block_binds(first.take(n), second.take(n));
            assert(first =~= first.take(n) + first.skip(n));
            assert(second =~= second.take(n) + second.skip(n));
        }
    }
}

} // verus!
