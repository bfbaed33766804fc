//! Laws of protocol time and of draws under it.
use vstd::arithmetic::div_mod::lemma_small_mod;
use vstd::arithmetic::power2::*;
use vstd::prelude::*;

use crate::bytes::{le_bytes, le_bytes_len, le_value_of_le_bytes};
use crate::channel::binding::collide;
use crate::channel::draw_laws::felts_of_digest;
use crate::channel::sha256::felts_of_hash;
use crate::fields::m31::P;
use crate::fields::qm31::qm31_at;
use crate::timed::sha256::{drawn_felts, drawn_hash};
use crate::timed::TimedState;
use crate::vcs::sha256_hash::sha256_digest;

verus! {

/// Draws add up and leave the digest and the messages alone; messages add up and start the count
/// of draws anew.
pub proof fn time_adds_up<D>(state: TimedState<D>, n: nat, m: nat, first: D, second: D)
    ensures
        state.after_draws(n).after_draws(m) == state.after_draws(n + m),
        state.after_draws(n).digest == state.digest,
        state.after_draws(n).n_challenges == state.n_challenges,
        state.after_messages(n, first).after_messages(m, second) == state.after_messages(
            n + m,
            second,
        ),
        n > 0 ==> state.after_draws(m).after_messages(n, first) == state.after_messages(n, first),
        n > 0 ==> state.after_messages(n, first).n_sent == 0,
{
}

/// Felts that are drawn in two steps are those drawn at once, where the first step uses up its
/// draws; drawing fewer gives a prefix, and drawing one gives the first.
pub proof fn draws_concat(digest: Seq<u8>, n: nat, first: nat, second: nat)
    ensures
        first % 2 == 0 ==> drawn_felts(digest, n, first + second) == drawn_felts(digest, n, first)
            + drawn_felts(digest, n + first / 2, second),
        drawn_felts(digest, n, first + second).take(first as int) == drawn_felts(
            digest,
            n,
            first,
        ),
        first > 0 ==> drawn_felts(digest, n, first)[0] == qm31_at(
            felts_of_hash(drawn_hash(digest, n)),
            0,
        ),
{
    let all = drawn_felts(digest, n, first + second);
    assert(all.take(first as int) =~= drawn_felts(digest, n, first));
    if first % 2 == 0 {
        let parts = drawn_felts(digest, n, first) + drawn_felts(digest, n + first / 2, second);
        assert forall|j: int| 0 <= j < all.len() implies all[j] == parts[j] by {
            if j >= first {
                assert(j / 2 == first / 2 + (j - first) / 2);
                assert(j % 2 == (j - first) % 2);
            }
        }
        assert(all =~= parts);
    }
}

/// The elements that are drawn are canonical.
pub proof fn draws_canonical(digest: Seq<u8>, n: nat, k: nat, j: int, c: int)
    requires
        0 <= j < k,
        0 <= c < 4,
    ensures
        drawn_felts(digest, n, k)[j].coords()[c].0 < P,
{
    let hash = drawn_hash(digest, (n + j / 2) as nat);
    let at = 4 * (j % 2) + c;
    assert(drawn_felts(digest, n, k)[j].coords()[c] == felts_of_hash(hash)[at]);
}

/// What is hashed for a draw is kept apart from what is hashed for a message, where `block` stands
/// for the number or the felt of the message, and from what is hashed for another draw.
pub proof fn inputs_apart(digest: Seq<u8>, other: Seq<u8>, n: u64, m: u64, block: Seq<u8>)
    requires
        digest.len() == 32,
        other.len() == 32,
        block.len() == 32,
    ensures
        digest + le_bytes(n as nat, 8) != block + other,
        digest + le_bytes(n as nat, 8) == other + le_bytes(m as nat, 8) ==> digest == other && n
            == m,
{
    le_bytes_len(n as nat, 8);
    le_bytes_len(m as nat, 8);
    lemma2_to64();
    le_value_of_le_bytes(n as nat, 8);
    le_value_of_le_bytes(m as nat, 8);
    lemma_small_mod(n as nat, pow2(64));
    lemma_small_mod(m as nat, pow2(64));
    let input = digest + le_bytes(n as nat, 8);
    let second = other + le_bytes(m as nat, 8);
    assert(input.len() == 40);
    assert((block + other).len() == 64);
    if input == second {
        assert(digest =~= input.take(32));
        assert(other =~= second.take(32));
        assert(le_bytes(n as nat, 8) =~= input.skip(32));
        assert(le_bytes(m as nat, 8) =~= second.skip(32));
    }
}

/// A draw counts one more draw and changes nothing else; a message puts its digest in place, counts
/// one more message and starts the count of draws anew; a fresh channel has counted nothing.
pub proof fn time_counts<D>(state: TimedState<D>, n: nat, digest: D)
    ensures
        TimedState::start(digest).digest == digest,
        TimedState::start(digest).n_challenges == 0,
        TimedState::start(digest).n_sent == 0,
        state.after_draws(n).digest == state.digest,
        state.after_draws(n).n_challenges == state.n_challenges,
        state.after_draws(n).n_sent == state.n_sent + n,
        state.after_messages(n, digest).digest == digest,
        state.after_messages(n, digest).n_challenges == state.n_challenges + n,
        state.after_messages(n, digest).n_sent == (if n == 0 {
            state.n_sent
        } else {
            0
        }),
{
}

/// A coordinate that the channel draws, in bytes: draw `n + j / 2` hashes the digest and the eight
/// bytes of its number, and yields two elements, each of sixteen bytes.
pub proof fn drawn_coordinate(digest: Seq<u8>, n: nat, k: nat, j: int, c: int, hash: Seq<u8>)
    requires
        0 <= j < k,
        0 <= c < 4,
        hash == sha256_digest(digest + le_bytes((n + j / 2) as nat, 8)),
        hash.len() == 32,
    ensures
        drawn_felts(digest, n, k).len() == k,
        ({
            let at = 16 * (j % 2) + 4 * c;
            drawn_felts(digest, n, k)[j].coords()[c].0 == (hash[at] + 256 * hash[at + 1] + 65536
                * hash[at + 2] + 16777216 * (hash[at + 3] as int % 128)) % 0x7fff_ffff
        }),
{
    let i = 4 * (j % 2) + c;
    felts_of_digest(hash, i);
    assert(drawn_felts(digest, n, k)[j].coords()[c] == felts_of_hash(hash)[i]);
}

/// Two draws that hash to the same bytes are the same draw, from the same digest, or else a
/// collision is named.
pub proof fn draws_bind(digest: Seq<u8>, n: u64, other: Seq<u8>, m: u64)
    requires
        digest.len() == 32,
        other.len() == 32,
        drawn_hash(digest, n as nat) == drawn_hash(other, m as nat),
    ensures
        (digest == other && n == m) || collide(
            digest + le_bytes(n as nat, 8),
            other + le_bytes(m as nat, 8),
        ),
{
    inputs_apart(digest, other, n, m, digest);
}

} // verus!
