//! The prime field of order `2^31 - 1`.
use vstd::prelude::*;

verus! {

/// The modulus, `2^31 - 1`.
pub const P: u32 = 2147483647;

/// An element of the field of order [`P`].
///
/// The canonical representatives are the integers below [`P`]. Every arithmetic operation
/// returns one of those, whatever its operands hold.
#[derive(Clone, Copy, Debug, PartialEq, Eq, PartialOrd, Ord, Hash, Structural)]
pub struct M31(pub u32);

/// The base field.
pub type BaseField = M31;

/// The canonical field element congruent to `n`.
pub open spec fn m31(n: int) -> M31 {
    M31((n % (P as int)) as u32)
}

impl M31 {
    /// The element zero.
    pub fn zero() -> (r: M31)
        ensures
            r == M31(0),
    {
        M31(0)
    }

    /// The element that `value` represents, without a reduction.
    pub fn from_u32_unchecked(value: u32) -> (r: M31)
        ensures
            r == M31(value),
    {
        M31(value)
    }

    /// The canonical representative of `value`.
    pub fn reduce(value: u64) -> (r: M31)
        ensures
            r == m31(value as int),
            r.0 < P,
    {
        M31((value % (P as u64)) as u32)
    }

    /// The sum of two elements.
    pub fn add(self, rhs: M31) -> (r: M31)
        ensures
            r == m31(self.0 + rhs.0),
            r.0 < P,
    {
        M31::reduce(self.0 as u64 + rhs.0 as u64)
    }
}

impl Default for M31 {
    fn default() -> (r: M31)
        ensures
            r == M31(0),
    {
        M31(0)
    }
}

impl From<u32> for M31 {
    fn from(value: u32) -> (r: M31) {
        M31::reduce(value as u64)
    }
}

impl vstd::std_specs::convert::FromSpecImpl<u32> for M31 {
    open spec fn obeys_from_spec() -> bool {
        true
    }

    open spec fn from_spec(value: u32) -> M31 {
        m31(value as int)
    }
}

/// `n` elements zero.
pub open spec fn zeros(n: nat) -> Seq<M31> {
    Seq::new(n, |i: int| M31(0))
}

} // verus!
