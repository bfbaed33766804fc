//! The digests of trees that Bitcoin script can check.
use vstd::prelude::*;

use crate::vcs::sha256_hash::{Sha256Hash, Sha256Hasher};

verus! {

/// A digest of a tree that Bitcoin script can check: plain SHA-256.
pub type BTCSha256Hash = Sha256Hash;

/// Hashes pairs of such digests.
pub type BTCSha256Hasher = Sha256Hasher;

} // verus!
