//! What a run carries along: identifiers, messages, payload references and
//! the window of recent messages.

use vstd::prelude::*;
use std::collections::VecDeque;
use std::collections::vec_deque::Iter;
use crate::graph::NodeId;

pub mod blob;
pub mod ids;
pub mod message;
pub mod runtime;
pub mod session;
pub mod window;

use ids::{RunId, UserId};
use message::AgentMessage;

verus! {

/// An instruction to the runner of a graph.
#[derive(Clone, Debug)]
pub enum Control {
    RetryNode(NodeId),
    SkipNode(NodeId),
    Continue,
}

/// The context of one run for one user: the most recent messages, oldest first.
pub struct AgentContext {
    pub run_id: RunId,
    pub user_id: UserId,
    pub capacity: usize,
    pub msg_que: VecDeque<AgentMessage>,
}

impl AgentContext {
    /// An empty context that keeps `capacity` messages.
    pub fn new(run_id: RunId, user_id: UserId, capacity: usize) -> (context: AgentContext)
        ensures
            context.run_id == run_id,
            context.user_id == user_id,
            context.capacity == capacity,
            context.msg_que@ == Seq::<AgentMessage>::empty(),
    {
        AgentContext { run_id, user_id, capacity, msg_que: VecDeque::new() }
    }

    pub fn cap(&self) -> (capacity: usize)
        ensures
            capacity == self.capacity,
    {
        self.capacity
    }

    pub fn len(&self) -> (len: usize)
        ensures
            len == self.msg_que@.len(),
    {
        self.msg_que.len()
    }

    pub fn is_empty(&self) -> (empty: bool)
        ensures
            empty == (self.msg_que@.len() == 0),
    {
        self.msg_que.len() == 0
    }

    /// Adds `msg` as the newest message. A context that holds exactly
    /// `capacity` messages gives up its oldest one first.
    pub fn push(&mut self, msg: AgentMessage)
        ensures
            final(self).run_id == old(self).run_id,
            final(self).user_id == old(self).user_id,
            final(self).capacity == old(self).capacity,
            final(self).msg_que@ == window::pushed(
                old(self).msg_que@,
                old(self).capacity as nat,
                msg,
            ),
    {
        window::push_into(&mut self.msg_que, self.capacity, msg);
    }

    /// The messages, oldest first.
    pub fn messages(&self) -> (messages: &VecDeque<AgentMessage>)
        ensures
            messages == &self.msg_que,
    {
        &self.msg_que
    }

    /// An iterator over the messages, oldest first.
    pub fn iter(&self) -> (iter: Iter<'_, AgentMessage>)
        ensures
            vstd::std_specs::vecdeque::into_iter_elts(iter) == self.msg_que@.as_ref(),
    {
        window::iter_over(&self.msg_que)
    }

    /// The newest message, if there is one.
    pub fn last(&self) -> (newest: Option<&AgentMessage>)
        ensures
            self.msg_que@.len() == 0 ==> newest is None,
            self.msg_que@.len() > 0 ==> newest == Some(&self.msg_que@.last()),
    {
        window::newest_of(&self.msg_que)
    }
}

} // verus!
