//! The degree-four extension of the Mersenne-31 field.
use vstd::prelude::*;

use crate::fields::m31::M31;

verus! {

/// The number of base field coordinates of a [`SecureField`] element.
pub const SECURE_EXTENSION_DEGREE: usize = 4;

/// An element `a + b i` of the complex extension.
#[derive(Clone, Copy, Debug, PartialEq, Eq, PartialOrd, Ord, Hash, Structural)]
pub struct CM31(pub M31, pub M31);

/// An element `a + b u` of the secure extension, with complex coordinates.
#[derive(Clone, Copy, Debug, PartialEq, Eq, PartialOrd, Ord, Hash, Structural)]
pub struct QM31(pub CM31, pub CM31);

/// The field that challenges are drawn from.
pub type SecureField = QM31;

/// The element with the four coordinates `a`, `b`, `c` and `d`.
pub open spec fn qm31(a: M31, b: M31, c: M31, d: M31) -> QM31 {
    QM31(CM31(a, b), CM31(c, d))
}

/// The element whose coordinates stand in `s` from position `at` on.
pub open spec fn qm31_at(s: Seq<M31>, at: int) -> QM31 {
    qm31(s[at], s[at + 1], s[at + 2], s[at + 3])
}

/// All coordinates of `felts`, in order.
pub open spec fn flatten(felts: Seq<QM31>) -> Seq<M31> {
    Seq::new(
        4 * felts.len(),
        |i: int| felts[i / 4].coords()[i % 4],
    )
}

impl QM31 {
    /// The four coordinates over the base field.
    pub open spec fn coords(self) -> Seq<M31> {
        seq![self.0.0, self.0.1, self.1.0, self.1.1]
    }

    /// The element with the four given coordinates.
    pub fn from_m31(a: M31, b: M31, c: M31, d: M31) -> (r: QM31)
        ensures
            r == qm31(a, b, c, d),
    {
        QM31(CM31(a, b), CM31(c, d))
    }

    /// The element whose coordinates are the entries of `array`.
    pub fn from_m31_array(array: [M31; SECURE_EXTENSION_DEGREE]) -> (r: QM31)
        ensures
            r.coords() == array@,
    {
        QM31::from_m31(array[0], array[1], array[2], array[3])
    }

    /// The four coordinates over the base field.
    pub fn to_m31_array(&self) -> (r: [M31; SECURE_EXTENSION_DEGREE])
        ensures
            r@ == self.coords(),
    {
        [self.0.0, self.0.1, self.1.0, self.1.1]
    }
}

/// The coordinates of `felts`, in order.
pub fn flatten_felts(felts: &[QM31]) -> (r: Vec<M31>)
    ensures
        r@ == flatten(felts@),
{
    let mut r: Vec<M31> = Vec::new();
    let mut i: usize = 0;
    while i < felts.len()
        invariant
            i <= felts@.len(),
            r@ == flatten(felts@.take(i as int)),
        decreases felts@.len() - i,
    {
        let v = felts[i];
        r.push(v.0.0);
        r.push(v.0.1);
        r.push(v.1.0);
        r.push(v.1.1);
        i = i + 1;
        assert(r@ =~= flatten(felts@.take(i as int)));
    }
    assert(felts@.take(i as int) =~= felts@);
    r
}

impl From<M31> for QM31 {
    fn from(value: M31) -> (r: QM31) {
        QM31::from_m31(value, M31::zero(), M31::zero(), M31::zero())
    }
}

impl vstd::std_specs::convert::FromSpecImpl<M31> for QM31 {
    open spec fn obeys_from_spec() -> bool {
        true
    }

    open spec fn from_spec(value: M31) -> QM31 {
        qm31(value, M31(0), M31(0), M31(0))
    }
}

} // verus!
