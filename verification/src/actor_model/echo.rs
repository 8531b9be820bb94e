//! An echo responder: it answers each input with its own name, the number of
//! the turn and the input itself.

use vstd::prelude::*;
use vstd::string::StringExecFns;
use crate::actor_model::ActorCtrl;
use crate::actor_model::engine::Received;
use crate::text::{decimal, push_decimal};

verus! {

/// The state of an echo responder: its name and how many inputs it answered.
pub struct EchoState {
    name: String,
    turns: u64,
}

/// A request to an echo responder, without the slot its reply goes to.
pub enum EchoRequest {
    /// Answer `input`.
    Respond { input: String },
    /// Acknowledge, then stop the actor.
    Stop,
}

/// What the responder does about one request.
pub enum EchoTurn {
    /// Put the line into the reply slot and go on receiving.
    Reply(String),
    /// Acknowledge and stop.
    Acknowledge,
    /// Abort the loop with a fault; the reply slot is discarded unanswered.
    Crash,
}

impl EchoTurn {
    /// What the loop sees of this turn.
    pub open spec fn spec_received(self) -> Received {
        match self {
            EchoTurn::Reply(_) => Received::Handled(ActorCtrl::Continue),
            EchoTurn::Acknowledge => Received::Handled(ActorCtrl::Stop),
            EchoTurn::Crash => Received::Faulted,
        }
    }

    /// What the loop sees of this turn: the handler's signal, or a fault.
    pub fn received(&self) -> (seen: Received)
        ensures
            seen == self.spec_received(),
    {
        match self {
            EchoTurn::Reply(_) => Received::Handled(ActorCtrl::Continue),
            EchoTurn::Acknowledge => Received::Handled(ActorCtrl::Stop),
            EchoTurn::Crash => Received::Faulted,
        }
    }
}

/// The text between the turn's number and the input.
pub open spec fn separator() -> Seq<char> {
    seq![']', ':', ' ']
}

/// The line that a responder called `name` gives in its turn number `turn` to `input`:
/// the name, the turn in square brackets, a colon, a space and the input.
pub open spec fn echo_line(name: Seq<char>, turn: nat, input: Seq<char>) -> Seq<char> {
    name.push('[') + decimal(turn) + separator() + input
}

impl EchoState {
    pub closed spec fn spec_name(&self) -> Seq<char> {
        self.name@
    }

    pub closed spec fn spec_turns(&self) -> nat {
        self.turns as nat
    }

    /// A responder that has answered nothing yet.
    pub fn new(name: &str) -> (state: EchoState)
        ensures
            state.spec_name() == name@,
            state.spec_turns() == 0,
    {
        EchoState { name: String::from_str(name), turns: 0 }
    }

    pub fn name(&self) -> (name: &str)
        ensures
            name@ == self.spec_name(),
    {
        self.name.as_str()
    }

    pub fn turns(&self) -> (turns: u64)
        ensures
            turns == self.spec_turns(),
    {
        self.turns
    }
}

/// The responder's handler. An input is answered with `echo_line` for the
/// turn it opens; the count of turns goes up by one. If the count cannot go
/// up any more the turn is a fault and the state stays.
pub fn handle_echo(state: &mut EchoState, request: EchoRequest) -> (turn: EchoTurn)
    ensures
        final(state).spec_name() == old(state).spec_name(),
        match request {
            EchoRequest::Respond { input } => if old(state).spec_turns() < u64::MAX {
                &&& final(state).spec_turns() == old(state).spec_turns() + 1
                &&& turn matches EchoTurn::Reply(line)
                &&& line@ == echo_line(old(state).spec_name(), old(state).spec_turns() + 1, input@)
            } else {
                &&& final(state).spec_turns() == old(state).spec_turns()
                &&& turn is Crash
            },
            EchoRequest::Stop => {
                &&& final(state).spec_turns() == old(state).spec_turns()
                &&& turn is Acknowledge
            },
        },
{
    match request {
        EchoRequest::Respond { input } => {
            if state.turns == u64::MAX {
                return EchoTurn::Crash;
            }
            state.turns = state.turns + 1;
            proof {
                reveal_strlit("[");
                reveal_strlit("]: ");
            }
            let mut line = state.name.clone();
            line.append("[");
            push_decimal(&mut line, state.turns);
            line.append("]: ");
            line.append(input.as_str());
            assert(line@ =~= echo_line(state.name@, state.turns as nat, input@));
            EchoTurn::Reply(line)
        },
        EchoRequest::Stop => EchoTurn::Acknowledge,
    }
}

/// Every line ends with the input it answers, and starts with the name and
/// the turn's number: fed to the next responder, a line is carried along whole.
pub proof fn lemma_echo_line_chains(name: Seq<char>, turn: nat, input: Seq<char>)
    ensures
        input.is_suffix_of(echo_line(name, turn, input)),
        (name.push('[') + decimal(turn) + separator()).is_prefix_of(echo_line(name, turn, input)),
        echo_line(name, turn, input).len() == name.len() + decimal(turn).len() + 4 + input.len(),
{
    let line = echo_line(name, turn, input);
    let head = name.push('[') + decimal(turn) + separator();
    assert(line =~= head + input);
    assert(line.subrange(line.len() - input.len(), line.len() as int) =~= input);
    assert(line.subrange(0, head.len() as int) =~= head);
}

} // verus!
