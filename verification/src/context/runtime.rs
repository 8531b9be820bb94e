//! The bare message window of a running graph.

use vstd::prelude::*;
use std::collections::VecDeque;
use std::collections::vec_deque::Iter;
use crate::context::message::AgentMessage;
use crate::context::window;
use crate::graph::NodeId;

verus! {

/// An instruction to the runner of a graph.
#[derive(Clone, Debug)]
pub enum Control {
    RetryNode(NodeId),
    SkipNode(NodeId),
    Continue,
}

/// The most recent messages of a run, oldest first.
pub struct AgentContext {
    pub capacity: usize,
    pub que: VecDeque<AgentMessage>,
}

impl AgentContext {
    /// An empty window that keeps `capacity` messages.
    pub fn new(capacity: usize) -> (context: AgentContext)
        ensures
            context.capacity == capacity,
            context.que@ == Seq::<AgentMessage>::empty(),
    {
        AgentContext { capacity, que: VecDeque::new() }
    }

    /// Adds `msg` as the newest message. A window that holds exactly
    /// `capacity` messages gives up its oldest one first.
    pub fn push(&mut self, msg: AgentMessage)
        ensures
            final(self).capacity == old(self).capacity,
            final(self).que@ == window::pushed(old(self).que@, old(self).capacity as nat, msg),
    {
        window::push_into(&mut self.que, self.capacity, msg);
    }

    /// The messages, oldest first.
    pub fn iter(&self) -> (iter: Iter<'_, AgentMessage>)
        ensures
            vstd::std_specs::vecdeque::into_iter_elts(iter) == self.que@.as_ref(),
    {
        window::iter_over(&self.que)
    }
}

} // verus!
