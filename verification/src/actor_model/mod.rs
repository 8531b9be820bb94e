//! Mailbox-based actors: exit reasons, restart policies, send policies and the
//! error taxonomy shared by the engine, the supervisor and the gateway.

use vstd::prelude::*;

pub mod counter;
pub mod echo;
pub mod engine;
pub mod gateway;
pub mod group;
pub mod supervisor;

verus! {

/// Why a construction, a delivery or a reply failed.
#[derive(Clone, Copy, Debug, PartialEq, Eq, Structural)]
pub enum ActorError {
    /// The factory could not produce a first instance.
    InitError,
    /// A mailbox was asked for with capacity zero.
    InvalidCapacity,
    /// A fail-fast delivery found the mailbox full.
    MailboxFull,
    /// The reply slot was discarded before a value was put into it.
    ResponseDropped,
    /// The mailbox is closed for good.
    SendFailed,
    /// No reply arrived before the deadline.
    Timeout,
}

/// What a handler tells the loop after one message.
#[derive(Clone, Copy, Debug, PartialEq, Eq, Structural)]
pub enum ActorCtrl {
    Continue,
    Stop,
}

/// Why an actor's loop returned cleanly.
#[derive(Clone, Copy, Debug, PartialEq, Eq, Structural)]
pub enum ExitReason {
    /// The handler asked for the stop.
    StoppedByMessage,
    /// Every sender was released while the actor was idle.
    AllSendersDropped,
}

/// Bounds how often a supervisor may recreate a crashed actor.
#[derive(Clone, Copy, Debug, PartialEq, Eq, Structural)]
pub enum RestartPolicy {
    /// At most `n` restarts over the whole supervised lifetime.
    MaxRetries { n: usize },
    Never,
}

/// How an actor's task ended.
#[derive(Clone, Copy, Debug, PartialEq, Eq, Structural)]
pub enum Termination {
    Clean(ExitReason),
    Panic,
}

/// Whether delivery waits for room or fails at once.
#[derive(Clone, Copy, Debug, PartialEq, Eq, Structural)]
pub enum SendPolicy {
    Backpressure,
    FailFast,
}

/// The total number of restarts that `policy` grants.
pub open spec fn restart_budget(policy: RestartPolicy) -> nat {
    match policy {
        RestartPolicy::MaxRetries { n } => n as nat,
        RestartPolicy::Never => 0,
    }
}

/// A policy is a predicate over the cumulative count of restarts so far:
/// one more is allowed exactly while the count is below the budget.
pub fn allows_restart(policy: RestartPolicy, attempts_so_far: usize) -> (allowed: bool)
    ensures
        allowed == (attempts_so_far < restart_budget(policy)),
{
    match policy {
        RestartPolicy::MaxRetries { n } => attempts_so_far < n,
        RestartPolicy::Never => false,
    }
}

} // verus!
