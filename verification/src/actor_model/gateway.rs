//! The request/reply gateway: how a delivery is made under each send policy,
//! and which error each way of failing becomes.

use vstd::prelude::*;
use std::time::Duration;
use crate::actor_model::{ActorError, SendPolicy};
use crate::actor_model::engine::MailboxSender;

verus! {

/// The deadline, in milliseconds, of a request that names none.
pub const DEFAULT_TIMEOUT_MS: u64 = 200;

/// What became of a message handed to a mailbox.
#[derive(Clone, Copy, Debug, PartialEq, Eq, Structural)]
pub enum SendOutcome {
    /// The message is in the mailbox.
    Delivered,
    /// The mailbox was full and the caller did not wait.
    Full,
    /// The receiving end is gone.
    Closed,
}

/// `tokio::sync::mpsc::Sender::try_send`: tries to put the message into the
/// channel without waiting, and tells the three outcomes apart. Which one
/// comes depends on what other tasks did to the channel, so nothing is
/// claimed of it.
#[verifier::external_body]
fn try_enqueue<T>(sender: &MailboxSender<T>, message: T) -> (outcome: SendOutcome) {
    match sender.inner.try_send(message) {
        Ok(()) => SendOutcome::Delivered,
        Err(tokio::sync::mpsc::error::TrySendError::Full(_)) => SendOutcome::Full,
        Err(tokio::sync::mpsc::error::TrySendError::Closed(_)) => SendOutcome::Closed,
    }
}

/// The result of a delivery that did not wait: a full mailbox is
/// `MailboxFull`, a closed one `SendFailed`.
pub open spec fn fail_fast_result(outcome: SendOutcome) -> Result<(), ActorError> {
    match outcome {
        SendOutcome::Delivered => Ok(()),
        SendOutcome::Full => Err(ActorError::MailboxFull),
        SendOutcome::Closed => Err(ActorError::SendFailed),
    }
}

/// The result of a delivery that waited for room: it fails only if the
/// mailbox is closed for good, and then with `SendFailed`.
pub open spec fn backpressure_result(accepted: bool) -> Result<(), ActorError> {
    if accepted {
        Ok(())
    } else {
        Err(ActorError::SendFailed)
    }
}

/// Maps the outcome of a non-waiting enqueue to the caller's result.
pub fn after_try_send(outcome: SendOutcome) -> (sent: Result<(), ActorError>)
    ensures
        sent == fail_fast_result(outcome),
{
    match outcome {
        SendOutcome::Delivered => Ok(()),
        SendOutcome::Full => Err(ActorError::MailboxFull),
        SendOutcome::Closed => Err(ActorError::SendFailed),
    }
}

/// Maps the outcome of a waiting send to the caller's result. `accepted` is
/// false when the mailbox closed before room was found.
pub fn after_send(accepted: bool) -> (sent: Result<(), ActorError>)
    ensures
        sent == backpressure_result(accepted),
        sent != Err::<(), ActorError>(ActorError::MailboxFull),
{
    if accepted {
        Ok(())
    } else {
        Err(ActorError::SendFailed)
    }
}

/// How a delivery stands after its first, non-waiting part.
pub enum Delivery<Msg> {
    /// The delivery is over, with this result.
    Settled(Result<(), ActorError>),
    /// The caller is to wait until the mailbox takes the message, or closes.
    Wait(Msg),
}

/// Fail-fast delivery: one enqueue attempt that never waits. The caller is
/// not queued: a full mailbox is reported at once.
pub fn deliver_fail_fast<Msg>(sender: &MailboxSender<Msg>, message: Msg) -> (sent: Result<
    (),
    ActorError,
>)
    ensures
        exists|outcome: SendOutcome| sent == fail_fast_result(outcome),
{
    let outcome = try_enqueue(sender, message);
    after_try_send(outcome)
}

/// The answer that a settled reply slot gives: its value, or
/// `ResponseDropped` if it was discarded without one.
pub open spec fn reply_result<T>(reply: Option<T>) -> Result<T, ActorError> {
    match reply {
        Some(value) => Ok(value),
        None => Err(ActorError::ResponseDropped),
    }
}

/// The answer of a request raced against its deadline: the request's own
/// result if it came first, `Timeout` if the deadline did.
pub open spec fn deadline_result<T>(finished: Option<Result<T, ActorError>>) -> Result<
    T,
    ActorError,
> {
    match finished {
        Some(result) => result,
        None => Err(ActorError::Timeout),
    }
}

/// What the caller gets once the reply slot is settled: the value, or
/// `ResponseDropped` if the slot was discarded without one (the actor died
/// on the message, or dropped the slot).
pub fn after_reply<T>(reply: Option<T>) -> (answer: Result<T, ActorError>)
    ensures
        answer == reply_result(reply),
{
    match reply {
        Some(value) => Ok(value),
        None => Err(ActorError::ResponseDropped),
    }
}

/// What the caller gets from a request raced against its deadline:
/// `finished` holds the request's own result if it came first, and is `None`
/// if the deadline did; then the wait is abandoned with `Timeout`.
pub fn after_deadline<T>(finished: Option<Result<T, ActorError>>) -> (answer: Result<T, ActorError>)
    ensures
        answer == deadline_result(finished),
{
    match finished {
        Some(result) => result,
        None => Err(ActorError::Timeout),
    }
}

/// What the caller gets from a reply slot watched up to a deadline:
/// `replied` is `None` if the deadline passed first, and else holds what the
/// slot was settled with.
pub fn after_timed_reply<T>(replied: Option<Option<T>>) -> (answer: Result<T, ActorError>)
    ensures
        answer == deadline_result(
            match replied {
                Some(reply) => Some(reply_result(reply)),
                None => None,
            },
        ),
{
    match replied {
        Some(reply) => after_reply(reply),
        None => after_deadline(None),
    }
}

/// The per-handle part of a gateway: its default deadline and its send
/// policy. Handles to one actor share the mailbox, not these settings.
#[derive(Clone, Copy, Debug, PartialEq, Eq)]
pub struct Gateway {
    pub default_timeout: Duration,
    pub send_policy: SendPolicy,
}

impl Gateway {
    /// The settings of a new handle: the given default deadline, and `Backpressure`.
    pub fn new(default_timeout: Duration) -> (gateway: Gateway)
        ensures
            gateway == (Gateway { default_timeout, send_policy: SendPolicy::Backpressure }),
    {
        Gateway { default_timeout, send_policy: SendPolicy::Backpressure }
    }

    /// The same settings under another send policy. The handle it was taken
    /// from keeps its own policy.
    pub fn with_policy(&self, policy: SendPolicy) -> (gateway: Gateway)
        ensures
            gateway == (Gateway { default_timeout: self.default_timeout, send_policy: policy }),
    {
        Gateway { default_timeout: self.default_timeout, send_policy: policy }
    }

    /// Begins the delivery of `message` as the handle's policy has it.
    /// Under `FailFast` the message is offered to the mailbox once and the
    /// delivery is settled, whatever came of it. Under `Backpressure`
    /// nothing is tried here: the message is handed back for the caller to
    /// wait on, and `after_send` settles the delivery.
    pub fn begin_delivery<Msg>(&self, sender: &MailboxSender<Msg>, message: Msg) -> (delivery:
        Delivery<Msg>)
        ensures
            self.send_policy == SendPolicy::Backpressure ==> delivery == Delivery::Wait(message),
            self.send_policy == SendPolicy::FailFast ==> (delivery matches Delivery::Settled(sent)
                && exists|outcome: SendOutcome| sent == fail_fast_result(outcome)),
    {
        match self.send_policy {
            SendPolicy::FailFast => Delivery::Settled(deliver_fail_fast(sender, message)),
            SendPolicy::Backpressure => Delivery::Wait(message),
        }
    }

    /// The deadline of one request: the explicit one if given, else the default.
    pub fn effective_timeout(&self, explicit: Option<Duration>) -> (timeout: Duration)
        ensures
            timeout == match explicit {
                Some(deadline) => deadline,
                None => self.default_timeout,
            },
    {
        match explicit {
            Some(deadline) => deadline,
            None => self.default_timeout,
        }
    }
}

/// What a request gives in the end, from what happened on its way:
/// whether the deadline passed first, how the delivery went, and what the
/// reply slot held. The deadline comes before all; a failed delivery comes
/// before the reply.
pub open spec fn request_result<T>(
    in_time: bool,
    sent: Result<(), ActorError>,
    reply: Option<T>,
) -> Result<T, ActorError> {
    deadline_result(
        if in_time {
            Some(
                match sent {
                    Err(error) => Err(error),
                    Ok(()) => reply_result(reply),
                },
            )
        } else {
            None
        },
    )
}

/// Send policies are independent and differ only on a full mailbox: a
/// waiting delivery never reports `MailboxFull`, a non-waiting one reports
/// it exactly for a full mailbox, and both report a closed one as `SendFailed`.
pub proof fn lemma_policies_differ_on_full_only(outcome: SendOutcome, accepted: bool)
    ensures
        backpressure_result(accepted) != Err::<(), ActorError>(ActorError::MailboxFull),
        fail_fast_result(outcome) == Err::<(), ActorError>(ActorError::MailboxFull) <==> outcome
            == SendOutcome::Full,
        fail_fast_result(SendOutcome::Closed) == backpressure_result(false),
        fail_fast_result(SendOutcome::Delivered) == backpressure_result(true),
{
}

/// A request answers with a value only if it was delivered, answered and in
/// time; and then with the very value that was put into the reply slot.
pub proof fn lemma_request_succeeds_only_when_answered<T>(
    in_time: bool,
    sent: Result<(), ActorError>,
    reply: Option<T>,
)
    ensures
        request_result(in_time, sent, reply) is Ok <==> in_time && sent is Ok && reply is Some,
        request_result(in_time, sent, reply) matches Ok(value) ==> reply == Some(value),
        request_result(in_time, sent, reply) == Err::<T, ActorError>(ActorError::Timeout)
            <==> !in_time || sent == Err::<(), ActorError>(ActorError::Timeout),
{
}

} // verus!
