//! A SHA-256 channel for trees that hash wide columns with Poseidon31.
use vstd::prelude::*;

use crate::timed::sha256::Sha256Channel;
use crate::timed::{ChannelTime, TimedState};
use crate::vcs::sha256_hash::{zero_digest, Sha256Hash};

verus! {

/// A SHA-256 channel for trees that hash wide columns with Poseidon31.
#[derive(Debug)]
pub struct Sha256Poseidon31Channel {
    /// The channel that holds the digest.
    pub inner: Sha256Channel,
}

impl View for Sha256Poseidon31Channel {
    type V = TimedState<Seq<u8>>;

    open spec fn view(&self) -> TimedState<Seq<u8>> {
        self.inner@
    }
}

impl Clone for Sha256Poseidon31Channel {
    fn clone(&self) -> (r: Sha256Poseidon31Channel)
        ensures
            r@ == self@,
    {
        Sha256Poseidon31Channel { inner: self.inner.clone() }
    }
}

impl Default for Sha256Poseidon31Channel {
    fn default() -> (r: Sha256Poseidon31Channel)
        ensures
            r@ == TimedState::start(zero_digest()),
    {
        Sha256Poseidon31Channel { inner: Sha256Channel::default() }
    }
}

impl Sha256Poseidon31Channel {
    /// The current digest.
    pub fn digest(&self) -> (r: Sha256Hash)
        ensures
            r@ == self@.digest,
    {
        self.inner.digest()
    }

    /// The messages and draws so far.
    pub fn time(&self) -> (r: ChannelTime)
        ensures
            r.n_challenges == self@.n_challenges,
            r.n_sent == self@.n_sent,
    {
        self.inner.time()
    }

    /// Replaces the digest and counts a message.
    pub fn update_digest(&mut self, new_digest: Sha256Hash)
        requires
            old(self)@.n_challenges < usize::MAX,
        ensures
            final(self)@ == old(self)@.after_messages(1, new_digest@),
    {
        self.inner.update_digest(new_digest);
    }
}

} // verus!
