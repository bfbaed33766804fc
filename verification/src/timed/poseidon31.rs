//! A Poseidon31 digest with protocol time.
use vstd::prelude::*;

use crate::fields::m31::{zeros, M31};
use crate::timed::{ChannelTime, TimedState};

verus! {

/// A channel whose digest is a Poseidon31 hash.
#[derive(Debug)]
pub struct Poseidon31Channel {
    digest: [M31; 8],
    /// The messages and draws so far.
    pub channel_time: ChannelTime,
}

impl View for Poseidon31Channel {
    type V = TimedState<Seq<M31>>;

    closed spec fn view(&self) -> TimedState<Seq<M31>> {
        TimedState {
            digest: self.digest@,
            n_challenges: self.channel_time.n_challenges as nat,
            n_sent: self.channel_time.n_sent as nat,
        }
    }
}

impl Clone for Poseidon31Channel {
    fn clone(&self) -> (r: Poseidon31Channel)
        ensures
            r@ == self@,
    {
        Poseidon31Channel { digest: self.digest, channel_time: self.channel_time }
    }
}

impl Default for Poseidon31Channel {
    fn default() -> (r: Poseidon31Channel)
        ensures
            r@ == TimedState::start(zeros(8)),
    {
        let r = Poseidon31Channel { digest: [M31(0); 8], channel_time: ChannelTime::default() };
        assert(r.digest@ =~= zeros(8));
        r
    }
}

impl Poseidon31Channel {
    /// The current digest.
    pub fn digest(&self) -> (r: [M31; 8])
        ensures
            r@ == self@.digest,
    {
        self.digest
    }

    /// The messages and draws so far.
    pub fn time(&self) -> (r: ChannelTime)
        ensures
            r.n_challenges == self@.n_challenges,
            r.n_sent == self@.n_sent,
    {
        self.channel_time
    }

    /// Replaces the digest and counts a message.
    pub fn update_digest(&mut self, new_digest: [M31; 8])
        requires
            old(self)@.n_challenges < usize::MAX,
        ensures
            final(self)@ == old(self)@.after_messages(1, new_digest@),
    {
        self.digest = new_digest;
        self.channel_time.inc_challenges();
    }
}

} // verus!
