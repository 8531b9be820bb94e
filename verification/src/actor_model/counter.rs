//! A counter actor: its state is one signed number, its requests add to it,
//! read it, stop the actor or make it fail.

use vstd::prelude::*;
use std::time::Duration;
use crate::actor_model::ActorCtrl;
use crate::actor_model::engine::{end_after, Received};
use crate::actor_model::{ExitReason, Termination};

verus! {

/// The value of a counter that has handled nothing yet.
pub const INITIAL_COUNT: i64 = 0;

/// A request to the counter, without the slot its reply goes to.
#[derive(Clone, Copy, Debug, PartialEq, Eq)]
pub enum CounterRequest {
    /// Add `delta` and reply with the new value.
    Add { delta: i64 },
    /// Reply with the value.
    Get,
    /// Reply with the value as it is now, but only after `delay`.
    DelayGet { delay: Duration },
    /// Acknowledge, then stop the actor.
    Stop,
    /// Acknowledge, then fail.
    CrashNow,
}

/// What the actor does about one request once its state is updated.
#[derive(Clone, Copy, Debug, PartialEq, Eq)]
pub enum CounterTurn {
    /// Put `value` into the reply slot and go on as `ctrl` says.
    Reply { value: i64, ctrl: ActorCtrl },
    /// Wait for `delay`, then put `value` into the reply slot; go on receiving after that.
    ReplyLater { delay: Duration, value: i64 },
    /// Acknowledge and go on as `ctrl` says.
    Acknowledge { ctrl: ActorCtrl },
    /// Acknowledge, then abort the loop with a fault.
    AcknowledgeAndCrash,
    /// Abort the loop with a fault; the reply slot is discarded unanswered.
    Crash,
}

impl CounterTurn {
    /// What the loop sees of this turn.
    pub open spec fn spec_received(self) -> Received {
        match self {
            CounterTurn::Reply { value, ctrl } => Received::Handled(ctrl),
            CounterTurn::ReplyLater { delay, value } => Received::Handled(ActorCtrl::Continue),
            CounterTurn::Acknowledge { ctrl } => Received::Handled(ctrl),
            CounterTurn::AcknowledgeAndCrash => Received::Faulted,
            CounterTurn::Crash => Received::Faulted,
        }
    }

    /// What the loop sees of this turn: the handler's signal, or a fault.
    pub fn received(&self) -> (seen: Received)
        ensures
            seen == self.spec_received(),
    {
        match self {
            CounterTurn::Reply { value, ctrl } => Received::Handled(*ctrl),
            CounterTurn::ReplyLater { delay, value } => Received::Handled(ActorCtrl::Continue),
            CounterTurn::Acknowledge { ctrl } => Received::Handled(*ctrl),
            CounterTurn::AcknowledgeAndCrash => Received::Faulted,
            CounterTurn::Crash => Received::Faulted,
        }
    }
}

/// Whether `state + delta` is a value of the counter.
pub open spec fn sum_fits(state: i64, delta: i64) -> bool {
    i64::MIN <= state + delta <= i64::MAX
}

/// The counter's value after `request`. Only an addition changes it, and
/// only if the sum is representable.
pub open spec fn counter_after(state: i64, request: CounterRequest) -> i64 {
    match request {
        CounterRequest::Add { delta } => if sum_fits(state, delta) {
            (state + delta) as i64
        } else {
            state
        },
        _ => state,
    }
}

/// What the actor does about `request` in `state`.
pub open spec fn counter_turn(state: i64, request: CounterRequest) -> CounterTurn {
    match request {
        CounterRequest::Add { delta } => if sum_fits(state, delta) {
            CounterTurn::Reply { value: (state + delta) as i64, ctrl: ActorCtrl::Continue }
        } else {
            CounterTurn::Crash
        },
        CounterRequest::Get => CounterTurn::Reply { value: state, ctrl: ActorCtrl::Continue },
        CounterRequest::DelayGet { delay } => CounterTurn::ReplyLater { delay, value: state },
        CounterRequest::Stop => CounterTurn::Acknowledge { ctrl: ActorCtrl::Stop },
        CounterRequest::CrashNow => CounterTurn::AcknowledgeAndCrash,
    }
}

/// The counter's value after a run of requests, handled one after another.
pub open spec fn counter_after_all(state: i64, requests: Seq<CounterRequest>) -> i64
    decreases requests.len(),
{
    if requests.len() == 0 {
        state
    } else {
        counter_after_all(counter_after(state, requests[0]), requests.drop_first())
    }
}

/// The sum of a run of numbers.
pub open spec fn total(deltas: Seq<i64>) -> int
    decreases deltas.len(),
{
    if deltas.len() == 0 {
        0
    } else {
        deltas[0] + total(deltas.drop_first())
    }
}

/// The requests that add each of `deltas` in turn.
pub open spec fn additions(deltas: Seq<i64>) -> Seq<CounterRequest> {
    deltas.map_values(|delta: i64| CounterRequest::Add { delta })
}

/// Whether adding `deltas` one after another to `state` never leaves the range of the counter.
pub open spec fn sums_fit(state: i64, deltas: Seq<i64>) -> bool
    decreases deltas.len(),
{
    deltas.len() > 0 ==> sum_fits(state, deltas[0]) && sums_fit(
        (state + deltas[0]) as i64,
        deltas.drop_first(),
    )
}

/// The counter's handler: updates the state for one request and says what
/// the actor does about it. An addition that would leave the range of the
/// counter is a fault, and leaves the state as it was.
pub fn handle_counter(state: &mut i64, request: CounterRequest) -> (turn: CounterTurn)
    ensures
        turn == counter_turn(*old(state), request),
        *final(state) == counter_after(*old(state), request),
{
    match request {
        CounterRequest::Add { delta } => {
            match state.checked_add(delta) {
                Some(sum) => {
                    *state = sum;
                    CounterTurn::Reply { value: sum, ctrl: ActorCtrl::Continue }
                },
                None => CounterTurn::Crash,
            }
        },
        CounterRequest::Get => CounterTurn::Reply { value: *state, ctrl: ActorCtrl::Continue },
        CounterRequest::DelayGet { delay } => CounterTurn::ReplyLater { delay, value: *state },
        CounterRequest::Stop => CounterTurn::Acknowledge { ctrl: ActorCtrl::Stop },
        CounterRequest::CrashNow => CounterTurn::AcknowledgeAndCrash,
    }
}

/// Requests handled one after another see each other's effects in order:
/// handling a run of requests and then another run leaves the state that
/// handling them as one run does. Which handle a request came through plays
/// no part.
pub proof fn lemma_runs_compose(state: i64, first: Seq<CounterRequest>, second: Seq<CounterRequest>)
    ensures
        counter_after_all(state, first + second) == counter_after_all(
            counter_after_all(state, first),
            second,
        ),
    decreases first.len(),
{
    if first.len() == 0 {
        assert(first + second =~= second);
    } else {
        assert((first + second).drop_first() =~= first.drop_first() + second);
        lemma_runs_compose(counter_after(state, first[0]), first.drop_first(), second);
    }
}

/// Additions accumulate: as long as no sum leaves the range of the counter,
/// a run of additions leaves the start plus the total of what was added.
pub proof fn lemma_additions_accumulate(state: i64, deltas: Seq<i64>)
    requires
        sums_fit(state, deltas),
    ensures
        counter_after_all(state, additions(deltas)) == state + total(deltas),
    decreases deltas.len(),
{
    if deltas.len() > 0 {
        assert(additions(deltas).drop_first() =~= additions(deltas.drop_first()));
        lemma_additions_accumulate((state + deltas[0]) as i64, deltas.drop_first());
    }
}

/// Reading does not disturb the counter, and a read right after an addition
/// sees the value that the addition replied with.
pub proof fn lemma_get_sees_last_add(state: i64, delta: i64)
    requires
        sum_fits(state, delta),
    ensures
        counter_turn(state, CounterRequest::Add { delta }) == (CounterTurn::Reply {
            value: (state + delta) as i64,
            ctrl: ActorCtrl::Continue,
        }),
        counter_turn(counter_after(state, CounterRequest::Add { delta }), CounterRequest::Get) == (
        CounterTurn::Reply { value: (state + delta) as i64, ctrl: ActorCtrl::Continue }),
        counter_after(counter_after(state, CounterRequest::Add { delta }), CounterRequest::Get)
            == state + delta,
{
}

/// A stop request is acknowledged and ends the loop with
/// `StoppedByMessage`; a crash request is acknowledged and ends it with a
/// fault; reading and adding within range keep it going.
pub proof fn lemma_what_ends_the_counter(state: i64, request: CounterRequest)
    ensures
        end_after(counter_turn(state, request).spec_received()) == (match request {
            CounterRequest::Stop => Some(Termination::Clean(ExitReason::StoppedByMessage)),
            CounterRequest::CrashNow => Some(Termination::Panic),
            CounterRequest::Add { delta } => if sum_fits(state, delta) {
                None
            } else {
                Some(Termination::Panic)
            },
            _ => None,
        }),
        counter_turn(state, CounterRequest::Stop) == (CounterTurn::Acknowledge {
            ctrl: ActorCtrl::Stop,
        }),
{
}

} // verus!
