//! The actor engine: a bounded mailbox and the loop's decision after each
//! receive. The loop itself waits on the mailbox and on the handler's
//! continuation, so a runtime drives it; what it decides is settled here.

use vstd::prelude::*;
use crate::actor_model::{ActorCtrl, ActorError, ExitReason, Termination};

verus! {

/// The sending end of a mailbox: the sender of a bounded `tokio` channel.
/// Other tasks fill and drain the channel at any time, so nothing is known
/// here of what it holds, and the proofs see nothing inside this struct.
#[verifier::external_body]
#[verifier::reject_recursive_types(Msg)]
pub struct MailboxSender<Msg> {
    /// The sender itself, for the runtime that waits on it.
    pub inner: tokio::sync::mpsc::Sender<Msg>,
}

/// The receiving end of a mailbox, carried through unopened.
#[verifier::external_type_specification]
#[verifier::external_body]
#[verifier::reject_recursive_types(T)]
pub struct ExMailboxReceiver<T>(tokio::sync::mpsc::Receiver<T>);

/// The largest capacity a mailbox can have: a machine word with its three
/// highest bits clear.
pub open spec fn max_capacity() -> nat {
    (usize::MAX / 8) as nat
}

/// `tokio::sync::mpsc::channel`: makes the two ends of a bounded channel. The
/// function panics for a capacity of zero and for one above the number of
/// permits its semaphore can hold (`usize::MAX >> 3`); both are kept out here.
/// Nothing is claimed of the ends themselves.
#[verifier::external_body]
fn bounded_channel<T>(capacity: usize) -> (ends: (MailboxSender<T>, tokio::sync::mpsc::Receiver<T>))
    requires
        0 < capacity <= max_capacity(),
{
    let (sender, receiver) = tokio::sync::mpsc::channel(capacity);
    (MailboxSender { inner: sender }, receiver)
}

/// Creates the mailbox of an actor. Capacity zero is rejected with
/// `InvalidCapacity`; every other capacity gives the two ends of a mailbox.
pub fn open_mailbox<Msg>(capacity: usize) -> (opened: Result<
    (MailboxSender<Msg>, tokio::sync::mpsc::Receiver<Msg>),
    ActorError,
>)
    requires
        capacity <= max_capacity(),
    ensures
        capacity == 0 ==> (opened matches Err(e) && e == ActorError::InvalidCapacity),
        capacity > 0 ==> opened is Ok,
{
    if capacity == 0 {
        return Err(ActorError::InvalidCapacity);
    }
    Ok(bounded_channel(capacity))
}

/// Whether `capacity` is one that `open_mailbox` takes.
pub fn capacity_in_range(capacity: usize) -> (in_range: bool)
    ensures
        in_range == (capacity <= max_capacity()),
{
    capacity <= usize::MAX / 8
}

/// What the loop saw when it asked the mailbox for the next message.
#[derive(Clone, Copy, Debug, PartialEq, Eq, Structural)]
pub enum Received {
    /// A message was handled, and the handler gave this signal.
    Handled(ActorCtrl),
    /// A message was taken, and the handler failed on it.
    Faulted,
    /// The mailbox has no message and no sender is left.
    Closed,
}

/// How the loop ends after `received`, if it ends.
pub open spec fn end_after(received: Received) -> Option<Termination> {
    match received {
        Received::Handled(ActorCtrl::Continue) => None,
        Received::Handled(ActorCtrl::Stop) => Some(
            Termination::Clean(ExitReason::StoppedByMessage),
        ),
        Received::Faulted => Some(Termination::Panic),
        Received::Closed => Some(Termination::Clean(ExitReason::AllSendersDropped)),
    }
}

/// The loop's decision after one receive. `Continue` keeps it receiving.
/// `Stop` ends it at once with `StoppedByMessage`, whatever is still
/// queued: those messages are dropped with their reply slots. A closed
/// mailbox ends it with `AllSendersDropped`. A fault ends it abnormally,
/// with no exit reason; this is what a supervisor watches for.
pub fn next_step(received: Received) -> (end: Option<Termination>)
    ensures
        end == end_after(received),
{
    match received {
        Received::Handled(ActorCtrl::Continue) => None,
        Received::Handled(ActorCtrl::Stop) => Some(
            Termination::Clean(ExitReason::StoppedByMessage),
        ),
        Received::Faulted => Some(Termination::Panic),
        Received::Closed => Some(Termination::Clean(ExitReason::AllSendersDropped)),
    }
}

/// How a loop ends that receives `seen`, one after another: with the first
/// of them that ends it. What comes after that one is never looked at.
pub open spec fn end_of_run(seen: Seq<Received>) -> Option<Termination>
    decreases seen.len(),
{
    if seen.len() == 0 {
        None
    } else {
        match end_after(seen[0]) {
            Some(end) => Some(end),
            None => end_of_run(seen.drop_first()),
        }
    }
}

/// A loop ends exactly once: what follows the receive that ended it
/// changes nothing.
pub proof fn lemma_loop_ends_once(seen: Seq<Received>, later: Seq<Received>)
    requires
        end_of_run(seen) is Some,
    ensures
        end_of_run(seen + later) == end_of_run(seen),
    decreases seen.len(),
{
    if seen.len() > 0 {
        assert((seen + later)[0] == seen[0]);
        if end_after(seen[0]) is None {
            assert((seen + later).drop_first() =~= seen.drop_first() + later);
            lemma_loop_ends_once(seen.drop_first(), later);
        }
    }
}

/// As long as every handler says `Continue` the loop goes on; it ends
/// cleanly only by a `Stop` or by the mailbox closing, and each clean end
/// has exactly one exit reason.
pub proof fn lemma_clean_ends(received: Received)
    ensures
        end_after(received) is None <==> received == Received::Handled(ActorCtrl::Continue),
        end_after(received) == Some(Termination::Clean(ExitReason::StoppedByMessage))
            <==> received == Received::Handled(ActorCtrl::Stop),
        end_after(received) == Some(Termination::Clean(ExitReason::AllSendersDropped))
            <==> received == Received::Closed,
        end_after(received) == Some(Termination::Panic) <==> received == Received::Faulted,
{
}

} // verus!
