//! Fiat-Shamir channels and Merkle commitments over the Mersenne-31 field,
//! with SHA-256 and Poseidon2 as the hash functions.
pub mod bytes;
pub mod fields;
pub mod vcs;
pub mod channel;
pub mod timed;
