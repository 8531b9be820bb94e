//! A round-robin coordinator over a group of responders: each turn goes to
//! the next responder in strict rotation, and each responder is given what
//! the one before it answered.

use vstd::prelude::*;
use vstd::arithmetic::div_mod::{lemma_add_mod_noop_right, lemma_small_mod};
use crate::actor_model::{ActorCtrl, ActorError};
use crate::actor_model::engine::Received;

verus! {

/// The coordinator's state: how many responders there are and whose turn is next.
#[derive(Clone, Copy, Debug)]
pub struct GroupManagerState {
    agent_count: usize,
    next_idx: usize,
}

/// A request to the coordinator, without the slot its reply goes to.
pub enum ManagerRequest {
    /// Run `max_turns` turns, the first on `initial`.
    Run { initial: String, max_turns: usize },
    /// Acknowledge, then stop the actor.
    Stop,
}

/// What the coordinator does about one request.
pub enum ManagerTurn {
    /// Ask the responders `picked`, in this order, starting with `initial`;
    /// then reply with their answers and go on receiving.
    Run { picked: Vec<usize>, initial: String },
    /// Acknowledge and stop.
    Acknowledge,
}

/// The responder whose turn it is `offset` turns after that of `start`.
pub open spec fn rotated(start: nat, offset: nat, agent_count: nat) -> nat
    recommends
        agent_count > 0,
{
    ((start + offset) as int % agent_count as int) as nat
}

impl GroupManagerState {
    pub closed spec fn spec_agent_count(&self) -> nat {
        self.agent_count as nat
    }

    pub closed spec fn spec_next_idx(&self) -> nat {
        self.next_idx as nat
    }

    /// There is at least one responder, and the next one exists.
    #[verifier::type_invariant]
    closed spec fn inv(&self) -> bool {
        self.next_idx < self.agent_count
    }

    /// The state of a new coordinator: the first responder is next. A group
    /// without responders is refused with `InitError`.
    pub fn new(agent_count: usize) -> (created: Result<GroupManagerState, ActorError>)
        ensures
            agent_count == 0 ==> (created matches Err(e) && e == ActorError::InitError),
            agent_count > 0 ==> (created matches Ok(state) && state.spec_agent_count()
                == agent_count && state.spec_next_idx() == 0),
    {
        if agent_count == 0 {
            return Err(ActorError::InitError);
        }
        Ok(GroupManagerState { agent_count, next_idx: 0 })
    }

    pub fn agent_count(&self) -> (count: usize)
        ensures
            count == self.spec_agent_count(),
            count > 0,
    {
        proof {
            use_type_invariant(self);
        }
        self.agent_count
    }

    pub fn next_idx(&self) -> (next: usize)
        ensures
            next == self.spec_next_idx(),
            next < self.spec_agent_count(),
    {
        proof {
            use_type_invariant(self);
        }
        self.next_idx
    }

    /// Picks the responders of the next `max_turns` turns, in strict
    /// rotation from the one that is next, and moves on by as many turns.
    pub fn pick(&mut self, max_turns: usize) -> (picked: Vec<usize>)
        ensures
            final(self).spec_agent_count() == old(self).spec_agent_count(),
            picked@.len() == max_turns,
            forall|turn: int|
                0 <= turn < max_turns ==> #[trigger] picked@[turn] == rotated(
                    old(self).spec_next_idx(),
                    turn as nat,
                    old(self).spec_agent_count(),
                ),
            final(self).spec_next_idx() == rotated(
                old(self).spec_next_idx(),
                max_turns as nat,
                old(self).spec_agent_count(),
            ),
    {
        proof {
            use_type_invariant(&*self);
        }
        let count: usize = self.agent_count;
        let ghost start: nat = self.next_idx as nat;
        let mut next: usize = self.next_idx;
        let mut picked: Vec<usize> = Vec::new();
        let mut turn: usize = 0;
        proof {
            lemma_small_mod(start, count as nat);
        }
        while turn < max_turns
            invariant
                0 < count,
                turn <= max_turns,
                next < count,
                next == rotated(start, turn as nat, count as nat),
                picked@.len() == turn,
                forall|earlier: int|
                    0 <= earlier < turn ==> #[trigger] picked@[earlier] == rotated(
                        start,
                        earlier as nat,
                        count as nat,
                    ),
            decreases max_turns - turn,
        {
            picked.push(next);
            proof {
                lemma_add_mod_noop_right(1, (start + turn) as int, count as int);
            }
            next = (next + 1) % count;
            turn = turn + 1;
        }
        self.next_idx = next;
        picked
    }
}

/// The coordinator's handler: a run picks its responders now, so that a
/// later run starts where this one ends.
pub fn handle_manager(state: &mut GroupManagerState, request: ManagerRequest) -> (turn: ManagerTurn)
    ensures
        final(state).spec_agent_count() == old(state).spec_agent_count(),
        match request {
            ManagerRequest::Run { initial, max_turns } => {
                &&& turn matches ManagerTurn::Run { picked, initial: first_input }
                &&& first_input == initial
                &&& picked@.len() == max_turns
                &&& forall|k: int|
                    0 <= k < max_turns ==> #[trigger] picked@[k] == rotated(
                        old(state).spec_next_idx(),
                        k as nat,
                        old(state).spec_agent_count(),
                    )
                &&& final(state).spec_next_idx() == rotated(
                    old(state).spec_next_idx(),
                    max_turns as nat,
                    old(state).spec_agent_count(),
                )
            },
            ManagerRequest::Stop => {
                &&& turn is Acknowledge
                &&& final(state).spec_next_idx() == old(state).spec_next_idx()
            },
        },
{
    match request {
        ManagerRequest::Run { initial, max_turns } => {
            let picked = state.pick(max_turns);
            ManagerTurn::Run { picked, initial }
        },
        ManagerRequest::Stop => ManagerTurn::Acknowledge,
    }
}

impl ManagerTurn {
    /// What the loop sees of this turn.
    pub open spec fn spec_received(self) -> Received {
        match self {
            ManagerTurn::Run { .. } => Received::Handled(ActorCtrl::Continue),
            ManagerTurn::Acknowledge => Received::Handled(ActorCtrl::Stop),
        }
    }

    /// What the loop sees of this turn: a run keeps the coordinator going,
    /// also where a responder failed; a stop request stops it.
    pub fn received(&self) -> (seen: Received)
        ensures
            seen == self.spec_received(),
    {
        match self {
            ManagerTurn::Run { .. } => Received::Handled(ActorCtrl::Continue),
            ManagerTurn::Acknowledge => Received::Handled(ActorCtrl::Stop),
        }
    }
}

/// One link of the chain: what a responder gave is recorded and becomes the
/// next responder's input; a failed responder ends the run with what was
/// recorded before it.
pub fn chain(outputs: &mut Vec<String>, responded: Result<String, ActorError>) -> (next_input:
    Option<String>)
    ensures
        responded matches Ok(line) ==> final(outputs)@ == old(outputs)@.push(line)
            && next_input == Some(line),
        responded is Err ==> final(outputs)@ == old(outputs)@ && next_input is None,
{
    match responded {
        Ok(line) => {
            let next = line.clone();
            outputs.push(line);
            Some(next)
        },
        Err(_) => None,
    }
}

/// Strict rotation: each turn goes to the responder after the one before
/// it, and the first responder follows the last.
pub proof fn lemma_rotation_is_strict(start: nat, turn: nat, agent_count: nat)
    requires
        agent_count > 0,
    ensures
        rotated(start, turn, agent_count) < agent_count,
        rotated(start, turn + 1, agent_count) == (rotated(start, turn, agent_count) + 1) as int
            % agent_count as int,
        rotated(start, turn + agent_count, agent_count) == rotated(start, turn, agent_count),
{
    lemma_add_mod_noop_right(1, (start + turn) as int, agent_count as int);
    vstd::arithmetic::div_mod::lemma_mod_bound((start + turn) as int, agent_count as int);
    vstd::arithmetic::div_mod::lemma_mod_multiples_vanish(
        1,
        (start + turn) as int,
        agent_count as int,
    );
    assert(agent_count * 1 + (start + turn) == start + (turn + agent_count)) by (nonlinear_arith);
}

} // verus!
