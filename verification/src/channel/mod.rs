//! Channels that count the draws since the last message.
use vstd::prelude::*;

pub mod binding;
pub mod draw_laws;
pub mod laws;
pub mod poseidon31;
pub mod sha256;
pub mod sha256_poseidon31;

verus! {

/// What a channel holds.
#[verifier::ext_equal]
pub struct DrawState<D> {
    /// The digest.
    pub digest: D,
    /// The number of draws since the last message.
    pub n_draws: nat,
}

} // verus!
