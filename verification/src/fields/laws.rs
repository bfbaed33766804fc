//! Laws of the field types: what a representative, a coordinate and a list of coordinates are.
use vstd::prelude::*;
use vstd::std_specs::convert::FromSpec;

use crate::fields::m31::{m31, zeros, M31};
use crate::fields::qm31::{flatten, qm31, qm31_at, QM31};

verus! {

/// The representative of a number is below the modulus and differs from the number by a multiple
/// of it; it is the only one.
pub proof fn representative(n: int, r: M31)
    ensures
        m31(n).0 < 0x7fff_ffff,
        (n - m31(n).0) % 0x7fff_ffff == 0,
        r.0 < 0x7fff_ffff && (n - r.0) % 0x7fff_ffff == 0 ==> m31(n) == r,
{
}

/// An element is its four coordinates, in order.
pub proof fn coordinates(v: QM31, a: M31, b: M31, c: M31, d: M31)
    ensures
        v.coords() == seq![v.0.0, v.0.1, v.1.0, v.1.1],
        qm31(a, b, c, d).coords() == seq![a, b, c, d],
        v == qm31(v.coords()[0], v.coords()[1], v.coords()[2], v.coords()[3]),
{
}

/// The element at a place of a list has the four coordinates from there on.
pub proof fn element_at(s: Seq<M31>, at: int)
    requires
        0 <= at <= s.len() - 4,
    ensures
        qm31_at(s, at).coords() == s.subrange(at, at + 4),
{
    assert(qm31_at(s, at).coords() =~= s.subrange(at, at + 4));
}

/// The coordinates of elements follow one another: those of a list in two parts are those of the
/// parts, and those of one element are its own.
pub proof fn flatten_concat(first: Seq<QM31>, second: Seq<QM31>, v: QM31)
    ensures
        flatten(first + second) == flatten(first) + flatten(second),
        flatten(seq![v]) == v.coords(),
{
    assert(flatten(first + second) =~= flatten(first) + flatten(second));
    assert(flatten(seq![v]) =~= v.coords());
}

/// The coordinates of a list determine it.
pub proof fn flatten_injective(first: Seq<QM31>, second: Seq<QM31>)
    requires
        flatten(first) == flatten(second),
    ensures
        first == second,
{
    assert(flatten(first).len() == 4 * first.len());
    assert(flatten(second).len() == 4 * second.len());
    assert forall|i: int| 0 <= i < first.len() implies first[i] == second[i] by {
        assert(flatten(first)[4 * i] == first[i].coords()[0]);
        assert(flatten(first)[4 * i + 1] == first[i].coords()[1]);
        assert(flatten(first)[4 * i + 2] == first[i].coords()[2]);
        assert(flatten(first)[4 * i + 3] == first[i].coords()[3]);
        assert(flatten(second)[4 * i] == second[i].coords()[0]);
        assert(flatten(second)[4 * i + 1] == second[i].coords()[1]);
        assert(flatten(second)[4 * i + 2] == second[i].coords()[2]);
        assert(flatten(second)[4 * i + 3] == second[i].coords()[3]);
    }
    assert(first =~= second);
}

/// A list of zeros holds zeros alone.
pub proof fn zeros_are_zero(n: nat, i: int)
    requires
        0 <= i < n,
    ensures
        zeros(n).len() == n,
        zeros(n)[i] == M31(0),
{
}

/// A number enters the base field as its representative, and an element of the base field enters
/// the extension as its first coordinate, with zeros behind it.
pub proof fn embeddings(n: u32, v: M31)
    ensures
        <M31 as FromSpec<u32>>::from_spec(n).0 == n % 0x7fff_ffff,
        <QM31 as FromSpec<M31>>::from_spec(v).coords() == seq![v, M31(0), M31(0), M31(0)],
{
}

} // verus!
