//! SHA-256 digests, and chains of them over field elements.
use sha2::Digest;
use vstd::prelude::*;

use crate::fields::m31::M31;
use crate::vcs::{bitcoin_num_to_bytes, script_num};

verus! {

/// The SHA-256 digest of `data`.
pub uninterp spec fn sha256_digest(data: Seq<u8>) -> Seq<u8>;

/// The digest that `sha2::Sha256::digest` computes. It depends on `data` alone. The length of the
/// message in bits has to fit in 64 bits.
#[verifier::external_body]
fn sha256(data: &[u8]) -> (r: [u8; 32])
    requires
        data@.len() < 0x2000_0000_0000_0000,
    ensures
        r@ == sha256_digest(data@),
{
    sha2::Sha256::digest(data).into()
}

/// The digest of `first` and `second`, one after the other.
pub fn sha256_concat(first: &[u8], second: &[u8]) -> (r: [u8; 32])
    requires
        first@.len() + second@.len() < 0x2000_0000_0000_0000,
    ensures
        r@ == sha256_digest(first@ + second@),
{
    let mut data: Vec<u8> = Vec::new();
    data.extend_from_slice(first);
    data.extend_from_slice(second);
    assert(data@ =~= first@ + second@);
    sha256(data.as_slice())
}

/// A SHA-256 digest.
#[derive(Clone, Copy, Debug, PartialEq, Eq)]
pub struct Sha256Hash(pub [u8; 32]);

impl View for Sha256Hash {
    type V = Seq<u8>;

    open spec fn view(&self) -> Seq<u8> {
        self.0@
    }
}

/// The digest of zeros.
pub open spec fn zero_digest() -> Seq<u8> {
    Seq::new(32, |i: int| 0u8)
}

impl Default for Sha256Hash {
    fn default() -> (r: Sha256Hash)
        ensures
            r@ == zero_digest(),
    {
        let r = Sha256Hash([0u8; 32]);
        assert(r@ =~= zero_digest());
        r
    }
}

impl Sha256Hash {
    /// Whether two digests are the same.
    pub fn same(&self, other: &Sha256Hash) -> (r: bool)
        ensures
            r == (self@ == other@),
    {
        let mut i: usize = 0;
        while i < 32
            invariant
                i <= 32,
                forall|k: int| 0 <= k < i ==> self@[k] == other@[k],
            decreases 32 - i,
        {
            if self.0[i] != other.0[i] {
                assert(self@[i as int] != other@[i as int]);
                return false;
            }
            i = i + 1;
        }
        assert(self@ =~= other@);
        true
    }
}

/// Hashes pairs of digests.
#[derive(Clone, Copy, Debug, PartialEq, Eq)]
pub struct Sha256Hasher;

impl Sha256Hasher {
    /// The digest of two digests, one after the other.
    pub fn concat_and_hash(v1: &Sha256Hash, v2: &Sha256Hash) -> (r: Sha256Hash)
        ensures
            r@ == sha256_digest(v1@ + v2@),
    {
        Sha256Hash(sha256_concat(v1.0.as_slice(), v2.0.as_slice()))
    }
}

/// The digest chain over `values` that starts from `seed`: each link hashes the script encoding
/// of one value in front of the link before it.
pub open spec fn num_chain(values: Seq<M31>, seed: Seq<u8>) -> Seq<u8>
    decreases values.len(),
{
    if values.len() == 0 {
        seed
    } else {
        sha256_digest(script_num(values.last().0 as nat) + num_chain(values.drop_last(), seed))
    }
}

/// A chain over `first` and then `second` is the chain over `second` from where that over `first`
/// ends.
pub proof fn num_chain_concat(first: Seq<M31>, second: Seq<M31>, seed: Seq<u8>)
    ensures
        num_chain(first + second, seed) == num_chain(second, num_chain(first, seed)),
    decreases second.len(),
{
    if second.len() == 0 {
        assert(first + second =~= first);
    } else {
        assert((first + second).drop_last() =~= first + second.drop_last());
        assert((first + second).last() == second.last());
        num_chain_concat(first, second.drop_last(), seed);
    }
}

/// One link of a chain.
pub fn hash_num(value: M31, link: &[u8]) -> (r: [u8; 32])
    requires
        link@.len() <= 32,
    ensures
        r@ == sha256_digest(script_num(value.0 as nat) + link@),
{
    let num = bitcoin_num_to_bytes(value);
    sha256_concat(num.as_slice(), link)
}

/// The digest chain over `values` that starts from `seed`, or from nothing.
pub fn hash_nums(values: &[M31], seed: Option<[u8; 32]>) -> (r: [u8; 32])
    requires
        values@.len() > 0,
    ensures
        r@ == num_chain(
            values@,
            match seed {
                Some(s) => s@,
                None => seq![],
            },
        ),
{
    let ghost start: Seq<u8> = match seed {
        Some(s) => s@,
        None => seq![],
    };
    let mut r: [u8; 32] = match seed {
        Some(s) => hash_num(values[0], s.as_slice()),
        None => {
            let nothing: Vec<u8> = Vec::new();
            hash_num(values[0], nothing.as_slice())
        },
    };
    let mut i: usize = 1;
    proof {
        let one = values@.take(1);
        assert(one.drop_last().len() == 0);
        assert(num_chain(one.drop_last(), start) == start);
    }
    while i < values.len()
        invariant
            1 <= i <= values@.len(),
            r@ == num_chain(values@.take(i as int), start),
        decreases values@.len() - i,
    {
        assert(values@.take(i + 1).drop_last() =~= values@.take(i as int));
        r = hash_num(values[i], r.as_slice());
        i = i + 1;
    }
    assert(values@.take(i as int) =~= values@);
    r
}

} // verus!
