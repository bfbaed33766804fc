//! Little-endian byte strings as numbers.
use vstd::prelude::*;
use vstd::arithmetic::power2::*;

verus! {

/// The number that `bytes` represents, least significant byte first.
pub open spec fn le_value(bytes: Seq<u8>) -> nat
    decreases bytes.len(),
{
    if bytes.len() == 0 {
        0
    } else {
        bytes[0] as nat + 256 * le_value(bytes.drop_first())
    }
}

/// The `n` low bytes of `v`, least significant byte first.
pub open spec fn le_bytes(v: nat, n: nat) -> Seq<u8>
    decreases n,
{
    if n == 0 {
        seq![]
    } else {
        seq![(v % 256) as u8] + le_bytes(v / 256, (n - 1) as nat)
    }
}

/// How many times two divides `v`, counted up to `bits`.
pub open spec fn trailing_zeros(v: nat, bits: nat) -> nat
    decreases bits,
{
    if bits == 0 || v % 2 == 1 {
        0
    } else {
        1 + trailing_zeros(v / 2, (bits - 1) as nat)
    }
}

/// `le_bytes(v, n)` holds `n` bytes.
pub proof fn le_bytes_len(v: nat, n: nat)
    ensures
        le_bytes(v, n).len() == n,
    decreases n,
{
    if n > 0 {
        le_bytes_len(v / 256, (n - 1) as nat);
    }
}

/// Reading back what was written gives the number, cut to as many bytes.
pub proof fn le_value_of_le_bytes(v: nat, n: nat)
    ensures
        le_value(le_bytes(v, n)) == v % pow2(8 * n),
    decreases n,
{
    if n == 0 {
        lemma2_to64();
    } else {
        let rest = le_bytes(v / 256, (n - 1) as nat);
        le_value_of_le_bytes(v / 256, (n - 1) as nat);
        assert(le_bytes(v, n).drop_first() =~= rest);
        lemma_pow2_adds(8, (8 * n - 8) as nat);
        lemma2_to64();
        lemma_pow2_pos((8 * n - 8) as nat);
        vstd::arithmetic::div_mod::lemma_mod_breakdown(
            v as int,
            256,
            pow2((8 * n - 8) as nat) as int,
        );
    }
}

/// The bytes of a number in two parts.
pub proof fn le_bytes_join(v: nat, w: nat, n: nat, m: nat)
    requires
        v < pow2(8 * n),
    ensures
        le_bytes(v + pow2(8 * n) * w, n + m) == le_bytes(v, n) + le_bytes(w, m),
    decreases n,
{
    lemma2_to64();
    if n == 0 {
        assert(pow2(0) * w == w);
        assert(le_bytes(v, n) + le_bytes(w, m) =~= le_bytes(w, m));
    } else {
        let k = pow2((8 * n - 8) as nat);
        lemma_pow2_adds(8, (8 * n - 8) as nat);
        assert(pow2(8 * n) * w == 256 * (k * w)) by (nonlinear_arith)
            requires
                pow2(8 * n) == 256 * k,
        ;
        le_bytes_join(v / 256, w, (n - 1) as nat, m);
        assert(le_bytes(v + pow2(8 * n) * w, n + m) =~= le_bytes(v, n) + le_bytes(w, m));
    }
}

/// Two divides `v` at least `n` times exactly when `2^n` divides `v`.
pub proof fn trailing_zeros_divides(v: nat, bits: nat, n: nat)
    requires
        n <= bits,
    ensures
        trailing_zeros(v, bits) >= n <==> v % pow2(n) == 0,
    decreases n,
{
    lemma2_to64();
    if n > 0 {
        let m = pow2((n - 1) as nat);
        lemma_pow2_pos((n - 1) as nat);
        lemma_pow2_unfold(n);
        vstd::arithmetic::div_mod::lemma_mod_breakdown(v as int, 2, m as int);
        if v % 2 == 0 {
            trailing_zeros_divides(v / 2, (bits - 1) as nat, (n - 1) as nat);
        }
    }
}

/// No more than `bits` zeros are counted.
pub proof fn trailing_zeros_bound(v: nat, bits: nat)
    ensures
        trailing_zeros(v, bits) <= bits,
    decreases bits,
{
    if bits > 0 && v % 2 == 0 {
        trailing_zeros_bound(v / 2, (bits - 1) as nat);
    }
}

/// A low part that is not zero decides the count.
proof fn trailing_zeros_low(low: nat, high: nat, k: nat, bits: nat)
    requires
        0 < low < pow2(k),
    ensures
        trailing_zeros(low + pow2(k) * high, k + bits) == trailing_zeros(low, k),
    decreases k,
{
    lemma2_to64();
    if k > 0 {
        let m = pow2((k - 1) as nat);
        lemma_pow2_unfold(k);
        assert(pow2(k) * high == 2 * (m * high)) by (nonlinear_arith)
            requires
                pow2(k) == 2 * m,
        ;
        let v = low + pow2(k) * high;
        assert(v % 2 == low % 2);
        assert(v / 2 == low / 2 + m * high);
        if low % 2 == 0 {
            trailing_zeros_low(low / 2, high, (k - 1) as nat, bits);
        }
    }
}

/// A low part of zeros counts in full.
proof fn trailing_zeros_high(high: nat, k: nat, bits: nat)
    ensures
        trailing_zeros(pow2(k) * high, k + bits) == k + trailing_zeros(high, bits),
    decreases k,
{
    lemma2_to64();
    if k > 0 {
        let m = pow2((k - 1) as nat);
        lemma_pow2_unfold(k);
        assert(pow2(k) * high == 2 * (m * high)) by (nonlinear_arith)
            requires
                pow2(k) == 2 * m,
        ;
        trailing_zeros_high(high, (k - 1) as nat, bits);
    } else {
        assert(pow2(0) * high == high);
    }
}

/// Appending bytes of zeros at the most significant end does not change the number.
pub proof fn le_value_push_zero(bytes: Seq<u8>)
    ensures
        le_value(bytes.push(0)) == le_value(bytes),
    decreases bytes.len(),
{
    if bytes.len() == 0 {
        assert(bytes.push(0).drop_first() =~= bytes);
    } else {
        assert(bytes.push(0).drop_first() =~= bytes.drop_first().push(0));
        le_value_push_zero(bytes.drop_first());
    }
}

/// One byte represents itself, and the bytes behind a string weigh `256` to its length.
pub proof fn le_value_append(first: Seq<u8>, second: Seq<u8>, byte: u8)
    ensures
        le_value(seq![byte]) == byte,
        le_value(first + second) == le_value(first) + pow2(8 * first.len()) * le_value(second),
    decreases first.len(),
{
    lemma2_to64();
    assert(seq![byte].drop_first().len() == 0);
    assert(le_value(seq![byte].drop_first()) == 0);
    if first.len() == 0 {
        assert(first + second =~= second);
        assert(pow2(0) * le_value(second) == le_value(second));
    } else {
        let rest = first.drop_first();
        assert((first + second).drop_first() =~= rest + second);
        le_value_append(rest, second, byte);
        lemma_pow2_adds(8, 8 * rest.len());
        let w = pow2(8 * rest.len());
        let v = le_value(second);
        assert(pow2(8 * first.len()) == 256 * w);
        assert(256 * (w * v) == (256 * w) * v) by (nonlinear_arith);
    }
}

/// A string represents a number below `256` to its length, and no other string of its length
/// represents the same.
pub proof fn le_value_injective(first: Seq<u8>, second: Seq<u8>)
    ensures
        le_value(first) < pow2(8 * first.len()),
        first.len() == second.len() && le_value(first) == le_value(second) ==> first == second,
    decreases first.len(),
{
    lemma2_to64();
    if first.len() == 0 {
        assert(first.len() == second.len() ==> first =~= second);
    } else {
        let a = first.drop_first();
        lemma_pow2_adds(8, 8 * a.len());
        if second.len() > 0 {
            le_value_injective(a, second.drop_first());
            if first.len() == second.len() && le_value(first) == le_value(second) {
                assert(first =~= seq![first[0]] + a);
                assert(second =~= seq![second[0]] + second.drop_first());
            }
        } else {
            le_value_injective(a, second);
        }
    }
}

/// Writing back what was read gives the bytes.
pub proof fn le_bytes_of_le_value(bytes: Seq<u8>)
    ensures
        le_bytes(le_value(bytes), bytes.len()) == bytes,
{
    let v = le_value(bytes);
    le_bytes_len(v, bytes.len());
    le_value_of_le_bytes(v, bytes.len());
    le_value_injective(bytes, bytes);
    vstd::arithmetic::div_mod::lemma_small_mod(v, pow2(8 * bytes.len()));
    le_value_injective(le_bytes(v, bytes.len()), bytes);
}

/// The bytes of a number are its digits to the base 256.
pub proof fn le_bytes_digit(v: nat, n: nat, i: nat)
    requires
        i < n,
    ensures
        le_bytes(v, n).len() == n,
        le_bytes(v, n)[i as int] == v / pow2(8 * i) % 256,
    decreases n,
{
    lemma2_to64();
    le_bytes_len(v, n);
    if i > 0 {
        le_bytes_digit(v / 256, (n - 1) as nat, (i - 1) as nat);
        lemma_pow2_adds(8, (8 * i - 8) as nat);
        lemma_pow2_pos((8 * i - 8) as nat);
        vstd::arithmetic::div_mod::lemma_div_denominator(
            v as int,
            256,
            pow2((8 * i - 8) as nat) as int,
        );
        assert(8 * ((i - 1) as nat) == (8 * i - 8) as nat);
        assert(le_bytes(v, n)[i as int] == le_bytes(v / 256, (n - 1) as nat)[i - 1]);
    } else {
        assert(pow2(8 * i) == 1);
        assert(v / pow2(8 * i) == v);
        assert(le_bytes(v, n)[0] == (v % 256) as u8);
    }
}

/// A number ends in `n` zero bits where its first `n / 8` bytes are zero and the next one ends in
/// the zero bits that are left.
pub proof fn low_bits_zero(bytes: Seq<u8>, n: nat)
    requires
        n <= 8 * bytes.len(),
    ensures
        le_value(bytes) % pow2(n) == 0 <==> (forall|i: int| 0 <= i < n / 8 ==> bytes[i] == 0) && (n
            / 8 < bytes.len() ==> bytes[(n / 8) as int] as nat % pow2(n % 8) == 0),
    decreases bytes.len(),
{
    lemma2_to64();
    if bytes.len() == 0 {
        assert(le_value(bytes) % pow2(n) == 0);
    } else {
        let rest = bytes.drop_first();
        let b = bytes[0] as nat;
        let v = le_value(bytes);
        let w = le_value(rest);
        assert(v == b + 256 * w);
        if n < 8 {
            lemma_pow2_pos(n);
            lemma_pow2_adds(n, (8 - n) as nat);
            let m = pow2(n) as int;
            let d = pow2((8 - n) as nat) as int;
            assert(256 * w == m * (d * w)) by (nonlinear_arith)
                requires
                    256 == m * d,
            ;
            vstd::arithmetic::div_mod::lemma_mod_multiples_vanish(d * w, b as int, m);
            assert(v % pow2(n) == b % pow2(n));
            assert(n % 8 == n && n / 8 == 0);
        } else {
            let m = (n - 8) as nat;
            lemma_pow2_adds(8, m);
            lemma_pow2_pos(m);
            vstd::arithmetic::div_mod::lemma_mod_breakdown(v as int, 256, pow2(m) as int);
            low_bits_zero(rest, m);
            assert(v / 256 == w && v % 256 == b);
            assert(n / 8 == m / 8 + 1 && n % 8 == m % 8);
            if v % pow2(n) == 0 {
                assert(b == 0 && w % pow2(m) == 0);
                assert forall|i: int| 0 <= i < n / 8 implies bytes[i] == 0 by {
                    if i > 0 {
                        assert(rest[i - 1] == bytes[i]);
                    }
                }
            }
            if (forall|i: int| 0 <= i < n / 8 ==> bytes[i] == 0) && (n / 8 < bytes.len()
                ==> bytes[(n / 8) as int] as nat % pow2(n % 8) == 0) {
                assert(bytes[0] == 0);
                assert forall|i: int| 0 <= i < m / 8 implies rest[i] == 0 by {
                    assert(rest[i] == bytes[i + 1]);
                }
            }
        }
    }
}

/// The four bytes of `v`, least significant byte first.
pub fn u32_to_le_bytes(v: u32) -> (r: [u8; 4])
    ensures
        r@ == le_bytes(v as nat, 4),
{
    let v1: u32 = v / 256;
    let v2: u32 = v1 / 256;
    let v3: u32 = v2 / 256;
    let r = [
        (v % 256) as u8,
        (v1 % 256) as u8,
        (v2 % 256) as u8,
        (v3 % 256) as u8,
    ];
    proof {
        assert(le_bytes(v as nat, 4) == seq![r@[0]] + le_bytes(v1 as nat, 3));
        assert(le_bytes(v1 as nat, 3) == seq![r@[1]] + le_bytes(v2 as nat, 2));
        assert(le_bytes(v2 as nat, 2) == seq![r@[2]] + le_bytes(v3 as nat, 1));
        assert(le_bytes(v3 as nat, 1) == seq![r@[3]] + le_bytes((v3 / 256) as nat, 0));
        assert(r@ =~= le_bytes(v as nat, 4));
    }
    r
}

/// The eight bytes of `v`, least significant byte first.
pub fn u64_to_le_bytes(v: u64) -> (r: [u8; 8])
    ensures
        r@ == le_bytes(v as nat, 8),
{
    let v1: u64 = v / 256;
    let v2: u64 = v1 / 256;
    let v3: u64 = v2 / 256;
    let v4: u64 = v3 / 256;
    let v5: u64 = v4 / 256;
    let v6: u64 = v5 / 256;
    let v7: u64 = v6 / 256;
    let r = [
        (v % 256) as u8,
        (v1 % 256) as u8,
        (v2 % 256) as u8,
        (v3 % 256) as u8,
        (v4 % 256) as u8,
        (v5 % 256) as u8,
        (v6 % 256) as u8,
        (v7 % 256) as u8,
    ];
    proof {
        assert(le_bytes(v as nat, 8) == seq![r@[0]] + le_bytes(v1 as nat, 7));
        assert(le_bytes(v1 as nat, 7) == seq![r@[1]] + le_bytes(v2 as nat, 6));
        assert(le_bytes(v2 as nat, 6) == seq![r@[2]] + le_bytes(v3 as nat, 5));
        assert(le_bytes(v3 as nat, 5) == seq![r@[3]] + le_bytes(v4 as nat, 4));
        assert(le_bytes(v4 as nat, 4) == seq![r@[4]] + le_bytes(v5 as nat, 3));
        assert(le_bytes(v5 as nat, 3) == seq![r@[5]] + le_bytes(v6 as nat, 2));
        assert(le_bytes(v6 as nat, 2) == seq![r@[6]] + le_bytes(v7 as nat, 1));
        assert(le_bytes(v7 as nat, 1) == seq![r@[7]] + le_bytes((v7 / 256) as nat, 0));
        assert(r@ =~= le_bytes(v as nat, 8));
    }
    r
}

/// The number that the four bytes of `bytes` from position `at` on represent.
pub fn u32_from_le_bytes(bytes: &[u8], at: usize) -> (r: u32)
    requires
        at + 4 <= bytes@.len(),
    ensures
        r == le_value(bytes@.subrange(at as int, at + 4)),
{
    proof {
        reveal_with_fuel(le_value, 5);
        let s = bytes@.subrange(at as int, at + 4);
        assert(s.drop_first().drop_first().drop_first().drop_first().len() == 0);
    }
    bytes[at] as u32 + 256 * (bytes[at + 1] as u32) + 65536 * (bytes[at + 2] as u32) + 16777216 * (
    bytes[at + 3] as u32)
}

/// The number of trailing zero bits of the number that `bytes` represents, which is eight times
/// the number of bytes where they are all zero.
pub fn count_trailing_zeros(bytes: &[u8]) -> (r: u32)
    requires
        8 * bytes@.len() <= u32::MAX,
    ensures
        r == trailing_zeros(le_value(bytes@), 8 * bytes@.len()),
{
    let mut i: usize = 0;
    assert(bytes@.skip(0) =~= bytes@);
    while i < bytes.len() && bytes[i] == 0
        invariant
            i <= bytes@.len(),
            8 * bytes@.len() <= u32::MAX,
            trailing_zeros(le_value(bytes@), 8 * bytes@.len()) == 8 * i + trailing_zeros(
                le_value(bytes@.skip(i as int)),
                (8 * (bytes@.len() - i)) as nat,
            ),
        decreases bytes@.len() - i,
    {
        proof {
            let rest = bytes@.skip(i as int);
            assert(rest.drop_first() =~= bytes@.skip(i + 1));
            lemma2_to64();
            trailing_zeros_high(
                le_value(rest.drop_first()),
                8,
                (8 * (bytes@.len() - i) - 8) as nat,
            );
        }
        i = i + 1;
    }
    if i == bytes.len() {
        return 8 * (i as u32);
    }
    let mut byte: u8 = bytes[i];
    let mut n: u32 = 0;
    proof {
        let rest = bytes@.skip(i as int);
        lemma2_to64();
        trailing_zeros_low(
            byte as nat,
            le_value(rest.drop_first()),
            8,
            (8 * (bytes@.len() - i) - 8) as nat,
        );
    }
    while n < 8 && byte % 2 == 0
        invariant
            n <= 8,
            i < bytes@.len(),
            8 * bytes@.len() <= u32::MAX,
            trailing_zeros(bytes@[i as int] as nat, 8) == n + trailing_zeros(
                byte as nat,
                (8 - n) as nat,
            ),
        decreases 8 - n,
    {
        byte = byte / 2;
        n = n + 1;
    }
    8 * (i as u32) + n
}

} // verus!
