//! Channels that keep protocol time: the number of messages, and of draws since the last one.
use vstd::prelude::*;

pub mod laws;
pub mod poseidon31;
pub mod sha256;
pub mod sha256_poseidon31;

verus! {

/// Protocol time.
#[derive(Clone, Copy, Debug, PartialEq, Eq, Structural)]
pub struct ChannelTime {
    /// The number of messages so far.
    pub n_challenges: usize,
    /// The number of draws since the last message.
    pub n_sent: usize,
}

impl Default for ChannelTime {
    fn default() -> (r: ChannelTime)
        ensures
            r == (ChannelTime { n_challenges: 0, n_sent: 0 }),
    {
        ChannelTime { n_challenges: 0, n_sent: 0 }
    }
}

impl ChannelTime {
    /// Counts a draw.
    pub fn inc_sent(&mut self)
        requires
            old(self).n_sent < usize::MAX,
        ensures
            final(self).n_challenges == old(self).n_challenges,
            final(self).n_sent == old(self).n_sent + 1,
    {
        self.n_sent = self.n_sent + 1;
    }

    /// Counts a message.
    pub fn inc_challenges(&mut self)
        requires
            old(self).n_challenges < usize::MAX,
        ensures
            final(self).n_challenges == old(self).n_challenges + 1,
            final(self).n_sent == 0,
    {
        self.n_challenges = self.n_challenges + 1;
        self.n_sent = 0;
    }
}

/// The channel of trees that Bitcoin script can check.
pub type BTCSha256Channel = crate::timed::sha256::Sha256Channel;

/// What a channel with protocol time holds.
#[verifier::ext_equal]
pub struct TimedState<D> {
    /// The digest.
    pub digest: D,
    /// The number of messages so far.
    pub n_challenges: nat,
    /// The number of draws since the last message.
    pub n_sent: nat,
}

impl<D> TimedState<D> {
    /// The state at the start.
    pub open spec fn start(digest: D) -> TimedState<D> {
        TimedState { digest, n_challenges: 0, n_sent: 0 }
    }

    /// The state after `n` draws.
    pub open spec fn after_draws(self, n: nat) -> TimedState<D> {
        TimedState { n_sent: self.n_sent + n, ..self }
    }

    /// The state after `n` messages, which leave `digest`.
    pub open spec fn after_messages(self, n: nat, digest: D) -> TimedState<D> {
        TimedState {
            digest,
            n_challenges: self.n_challenges + n,
            n_sent: if n == 0 {
                self.n_sent
            } else {
                0
            },
        }
    }
}

} // verus!
