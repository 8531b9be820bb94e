//! Sessions: what is remembered of one user on one device between requests.

use vstd::prelude::*;
use std::collections::VecDeque;
use std::time::Instant;
use crate::context::ids::{DeviceId, UserId};
use crate::context::message::AgentMessage;

verus! {

/// A session with no activity for this many seconds is over.
pub const SESSION_IDLE_TIMEOUT_SECS: u64 = 15;

/// The most messages a session keeps.
pub const SESSION_MAX_MESSAGES: usize = 128;

/// A moment on the monotonic clock, carried through unopened.
#[verifier::external_type_specification]
#[verifier::external_body]
pub struct ExInstant(Instant);

#[derive(Clone, Debug, Eq, PartialEq, Hash)]
pub struct SessionKey {
    pub device_id: DeviceId,
    pub user_id: UserId,
}

pub struct SessionState {
    pub last_activity: Instant,
    pub messages: VecDeque<AgentMessage>,
}

/// `std::time::Instant::now`: the present moment on the monotonic clock.
/// Nothing is claimed of it.
#[verifier::external_body]
fn present_moment() -> (now: Instant) {
    Instant::now()
}

impl SessionState {
    /// A session that starts now, with no messages.
    pub fn new() -> (session: SessionState)
        ensures
            session.messages@ == Seq::<AgentMessage>::empty(),
    {
        SessionState { last_activity: present_moment(), messages: VecDeque::new() }
    }
}

} // verus!
