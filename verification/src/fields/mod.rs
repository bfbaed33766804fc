//! The Mersenne-31 field and its degree-four extension.
pub mod laws;
pub mod m31;
pub mod qm31;
