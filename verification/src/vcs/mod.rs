//! Vector commitment schemes.
use vstd::arithmetic::power2::*;
use vstd::prelude::*;

use crate::bytes::{le_value, le_value_push_zero};
use crate::fields::m31::M31;

pub mod btc_sha256_hash;
pub mod btc_sha256_merkle;
pub mod hash_laws;
pub mod opening;
pub mod opening_laws;
pub mod ops;
pub mod poseidon31_hash;
pub mod poseidon31_merkle;
pub mod poseidon31_ref;
pub mod query_laws;
pub mod sha256_hash;
pub mod sha256_poseidon31_merkle;
pub mod tree;
pub mod walk;
pub mod witness_laws;

verus! {

/// The base-256 digits of `v`, least significant first, without leading zeros.
pub open spec fn digits(v: nat) -> Seq<u8>
    decreases v,
{
    if v == 0 {
        seq![]
    } else {
        seq![(v % 256) as u8] + digits(v / 256)
    }
}

/// The Bitcoin script encoding of `v`: its digits, and a zero byte behind them where the last
/// digit would otherwise set the sign bit.
pub open spec fn script_num(v: nat) -> Seq<u8> {
    let d = digits(v);
    if d.len() > 0 && d.last() >= 0x80 {
        d.push(0)
    } else {
        d
    }
}

/// The digits read back as the number.
proof fn digits_value(v: nat)
    ensures
        le_value(digits(v)) == v,
    decreases v,
{
    if v > 0 {
        digits_value(v / 256);
        assert(digits(v).drop_first() =~= digits(v / 256));
    }
}

/// The last digit is not zero.
proof fn digits_last(v: nat)
    requires
        v > 0,
    ensures
        digits(v).len() > 0,
        digits(v).last() != 0,
    decreases v,
{
    if v >= 256 {
        digits_last(v / 256);
        assert(digits(v).last() == digits(v / 256).last());
    } else {
        assert(digits(v / 256).len() == 0);
        assert(digits(v) =~= seq![v as u8]);
    }
}

/// A number below `256^n` has at most `n` digits.
proof fn digits_len(v: nat, n: nat)
    requires
        v < pow2(8 * n),
    ensures
        digits(v).len() <= n,
    decreases n,
{
    if n == 0 {
        lemma2_to64();
    } else if v > 0 {
        lemma2_to64();
        lemma_pow2_adds(8, (8 * n - 8) as nat);
        digits_len(v / 256, (n - 1) as nat);
    }
}

/// An encoding reads back as the number that it encodes.
pub proof fn script_num_value(v: nat)
    ensures
        le_value(script_num(v)) == v,
{
    digits_value(v);
    le_value_push_zero(digits(v));
}

/// Different numbers have different encodings.
pub proof fn script_num_injective(v: nat, w: nat)
    requires
        script_num(v) == script_num(w),
    ensures
        v == w,
{
    script_num_value(v);
    script_num_value(w);
}

/// An encoding never sets the sign bit, and its last byte is zero only to keep it clear: the
/// encoding is the shortest one of a number that is not negative. Zero has the empty encoding.
pub proof fn script_num_minimal(v: nat)
    ensures
        script_num(0).len() == 0,
        v > 0 ==> script_num(v).len() > 0,
        v > 0 ==> script_num(v).last() < 0x80,
        v > 0 && script_num(v).last() == 0 ==> script_num(v).len() > 1 && script_num(
            v,
        )[script_num(v).len() - 2] >= 0x80,
{
    if v > 0 {
        digits_last(v);
    }
}

/// The encoding of a 32-bit number has at most five bytes.
pub proof fn script_num_len(v: u32)
    ensures
        script_num(v as nat).len() <= 5,
{
    lemma2_to64();
    digits_len(v as nat, 4);
}

/// The encoding of a canonical field element has at most four bytes.
pub proof fn script_num_len_canonical(v: M31)
    requires
        v.0 < crate::fields::m31::P,
    ensures
        script_num(v.0 as nat).len() <= 4,
{
    lemma2_to64();
    digits_len(v.0 as nat, 4);
    reveal_with_fuel(digits, 6);
}

/// The Bitcoin script encoding of the representative of `v`.
pub fn bitcoin_num_to_bytes(v: M31) -> (bytes: Vec<u8>)
    ensures
        bytes@ == script_num(v.0 as nat),
        bytes@.len() <= 5,
{
    let mut bytes: Vec<u8> = Vec::new();
    let mut rest: u32 = v.0;
    assert(bytes@ + digits(rest as nat) =~= digits(v.0 as nat));
    while rest > 0
        invariant
            bytes@ + digits(rest as nat) == digits(v.0 as nat),
        decreases rest,
    {
        let ghost before = bytes@;
        let ghost tail = digits((rest / 256) as nat);
        let ghost low = (rest % 256) as u8;
        assert(before + (seq![low] + tail) =~= before.push(low) + tail);
        bytes.push((rest % 256) as u8);
        rest = rest / 256;
    }
    assert(bytes@ =~= digits(v.0 as nat));
    if bytes.len() > 0 && bytes[bytes.len() - 1] >= 0x80 {
        bytes.push(0);
    }
    proof {
        script_num_len(v.0);
    }
    bytes
}

} // verus!
