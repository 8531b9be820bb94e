use hudagents::actor_model::counter::{
    handle_counter, CounterRequest, CounterTurn, INITIAL_COUNT,
};
use hudagents::actor_model::echo::{handle_echo, EchoRequest, EchoState, EchoTurn};
use hudagents::actor_model::engine::{
    capacity_in_range, next_step, open_mailbox, MailboxSender, Received,
};
use hudagents::actor_model::gateway::{
    after_deadline, after_reply, after_send, after_timed_reply, after_try_send, deliver_fail_fast,
    Delivery, Gateway, SendOutcome, DEFAULT_TIMEOUT_MS,
};
use hudagents::actor_model::group::{
    chain, handle_manager, GroupManagerState, ManagerRequest, ManagerTurn,
};
use hudagents::actor_model::supervisor::{ActorFactory, MonitorAction, Supervisor};
use hudagents::actor_model::{
    allows_restart, ActorCtrl, ActorError, ExitReason, RestartPolicy, SendPolicy, Termination,
};
use std::cell::Cell;
use std::time::Duration;

/// A counter driven by hand: each request is handled at once, and the
/// reply it would put into the slot is handed back.
struct Counter {
    state: i64,
}

impl Counter {
    fn fresh() -> Counter {
        Counter { state: INITIAL_COUNT }
    }

    fn ask(&mut self, request: CounterRequest) -> CounterTurn {
        handle_counter(&mut self.state, request)
    }

    fn add(&mut self, delta: i64) -> Result<i64, ActorError> {
        match self.ask(CounterRequest::Add { delta }) {
            CounterTurn::Reply { value, .. } => after_reply(Some(value)),
            _ => after_reply(None),
        }
    }

    fn get(&mut self) -> Result<i64, ActorError> {
        match self.ask(CounterRequest::Get) {
            CounterTurn::Reply { value, .. } => after_reply(Some(value)),
            _ => after_reply(None),
        }
    }
}

/// A factory that makes counters and counts how often it was asked; it
/// fails from the call number `fails_from` on.
struct CounterFactory {
    calls: Cell<usize>,
    fails_from: usize,
}

impl CounterFactory {
    fn reliable() -> CounterFactory {
        CounterFactory { calls: Cell::new(0), fails_from: usize::MAX }
    }
}

impl ActorFactory for CounterFactory {
    type Instance = Counter;

    fn create(&self) -> Result<Counter, ActorError> {
        self.calls.set(self.calls.get() + 1);
        if self.calls.get() >= self.fails_from {
            Err(ActorError::InvalidCapacity)
        } else {
            Ok(Counter::fresh())
        }
    }
}

fn started(policy: RestartPolicy, factory: &CounterFactory) -> (Supervisor, Counter) {
    match Supervisor::start(factory, policy) {
        Ok(pair) => pair,
        Err(e) => panic!("the start failed: {e:?}"),
    }
}

#[test]
fn two_counters_do_not_share_state() {
    let mut h1 = Counter::fresh();
    let mut h2 = Counter::fresh();
    assert_eq!(h1.add(1), Ok(1));
    assert_eq!(h2.add(10), Ok(10));
    assert_eq!(h1.add(2), Ok(3));
    assert_eq!(h2.get(), Ok(10));
}

#[test]
fn sequential_requests_see_each_other() {
    let mut handle = Counter::fresh();
    let v1 = handle.add(5).unwrap();
    assert_eq!(v1, 5);
    let v2 = handle.add(-2).unwrap();
    assert_eq!(v2, 3);
    let v3 = handle.get().unwrap();
    assert_eq!(v3, 3);
    assert_eq!(
        handle.ask(CounterRequest::Stop),
        CounterTurn::Acknowledge { ctrl: ActorCtrl::Stop }
    );
}

#[test]
fn a_stop_request_ends_the_loop() {
    let mut handle = Counter::fresh();
    let turn = handle.ask(CounterRequest::Stop);
    assert_eq!(turn, CounterTurn::Acknowledge { ctrl: ActorCtrl::Stop });
    assert_eq!(
        next_step(turn.received()),
        Some(Termination::Clean(ExitReason::StoppedByMessage))
    );
}

#[test]
fn interleaved_additions_accumulate() {
    let mut actor = Counter::fresh();
    let v1 = actor.add(2).unwrap();
    assert_eq!(v1, 2);
    let v2 = actor.add(3).unwrap();
    assert_eq!(v2, 5);
    let v3 = actor.get().unwrap();
    assert_eq!(v3, 5);
    let v4 = actor.add(-1).unwrap();
    assert_eq!(v4, 4);
    let v5 = actor.get().unwrap();
    assert_eq!(v5, 4);
}

#[test]
fn stop_ends_the_loop_with_stopped_by_message() {
    let exit = next_step(Received::Handled(ActorCtrl::Stop));
    assert_eq!(exit, Some(Termination::Clean(ExitReason::StoppedByMessage)));
}

#[test]
fn a_closed_mailbox_ends_the_loop_with_all_senders_dropped() {
    let exit = next_step(Received::Closed);
    assert_eq!(exit, Some(Termination::Clean(ExitReason::AllSendersDropped)));
}

#[test]
fn an_explicit_deadline_overrides_the_default() {
    let gateway = Gateway::new(Duration::from_millis(DEFAULT_TIMEOUT_MS));
    assert_eq!(
        gateway.effective_timeout(Some(Duration::from_millis(50))),
        Duration::from_millis(50)
    );
    assert_eq!(gateway.effective_timeout(None), Duration::from_millis(200));
    let mut handle = Counter::fresh();
    let v1 = after_deadline(Some(handle.get())).unwrap();
    assert_eq!(v1, 0);
}

#[test]
fn a_passed_deadline_is_a_timeout() {
    let mut handle = Counter::fresh();
    let turn = handle.ask(CounterRequest::DelayGet { delay: Duration::from_millis(50) });
    assert_eq!(turn, CounterTurn::ReplyLater { delay: Duration::from_millis(50), value: 0 });
    assert_eq!(turn.received(), Received::Handled(ActorCtrl::Continue));
    let res: Result<i64, ActorError> = after_deadline(None);
    assert!(matches!(res, Err(ActorError::Timeout)));
}

#[test]
fn one_fault_is_restarted_with_fresh_state() {
    let factory = CounterFactory::reliable();
    let (mut supervisor, mut handle) = started(RestartPolicy::MaxRetries { n: 1 }, &factory);
    let _v1 = handle.add(10);
    let crash = handle.ask(CounterRequest::CrashNow);
    assert_eq!(crash, CounterTurn::AcknowledgeAndCrash);
    assert_eq!(next_step(crash.received()), Some(Termination::Panic));

    let mut v3 = None;
    if let MonitorAction::Publish(mut restarted) =
        supervisor.on_termination(&factory, Termination::Panic)
    {
        v3 = restarted.add(1).ok();
    }
    assert_eq!(v3, Some(1));
    assert_eq!(supervisor.restart_attempts(), 1);
    assert!(supervisor.is_monitoring());
    assert_eq!(factory.calls.get(), 2);
}

#[test]
fn never_restarts_nothing() {
    let factory = CounterFactory::reliable();
    let (mut supervisor, mut handle) = started(RestartPolicy::Never, &factory);
    let _v1 = handle.add(10);
    let _v2 = handle.ask(CounterRequest::CrashNow);
    let action = supervisor.on_termination(&factory, Termination::Panic);
    assert!(matches!(action, MonitorAction::Halt));
    assert!(!supervisor.is_monitoring());
    assert_eq!(supervisor.restart_attempts(), 0);
    assert_eq!(factory.calls.get(), 1);

    let (sender, receiver) = open_mailbox::<CounterRequest>(8).unwrap();
    drop(receiver);
    let v3 = deliver_fail_fast(&sender, CounterRequest::Add { delta: 1 });
    assert!(matches!(v3, Err(ActorError::SendFailed)));
    assert!(matches!(after_send(false), Err(ActorError::SendFailed)));
}

#[test]
fn a_used_up_budget_restarts_nothing() {
    let factory = CounterFactory::reliable();
    let (mut supervisor, _first) = started(RestartPolicy::MaxRetries { n: 1 }, &factory);

    let mut v3 = None;
    if let MonitorAction::Publish(mut restarted) =
        supervisor.on_termination(&factory, Termination::Panic)
    {
        v3 = restarted.add(1).ok();
    }
    assert_eq!(v3, Some(1));

    let mut ok = false;
    for _ in 0..10 {
        if let MonitorAction::Publish(_) = supervisor.on_termination(&factory, Termination::Panic) {
            ok = true;
            break;
        }
    }
    assert!(!ok, "unexpected restart after retries exhausted");
    assert!(!supervisor.is_monitoring());
    assert_eq!(supervisor.restart_attempts(), 1);
    assert_eq!(factory.calls.get(), 2);
}

#[test]
fn fail_fast_reports_a_full_mailbox() {
    let (sender, _receiver) = open_mailbox::<CounterRequest>(1).unwrap();
    let handle = Gateway::new(Duration::from_millis(200)).with_policy(SendPolicy::FailFast);
    // enqueue one request (fills queue)
    assert_eq!(deliver_fail_fast(&sender, CounterRequest::Add { delta: 1 }), Ok(()));
    // second request should fail fast
    let res = match handle.begin_delivery(&sender, CounterRequest::Add { delta: 1 }) {
        Delivery::Settled(sent) => sent,
        Delivery::Wait(_) => panic!("a fail-fast handle does not wait"),
    };
    assert!(matches!(res, Err(ActorError::MailboxFull)));
}

#[test]
fn backpressure_waits_for_room() {
    let (sender, mut receiver) = open_mailbox::<CounterRequest>(1).unwrap();
    let counter = Gateway::new(Duration::from_millis(200));
    assert_eq!(deliver_fail_fast(&sender, CounterRequest::Add { delta: 1 }), Ok(()));
    let pending = match counter.begin_delivery(&sender, CounterRequest::Add { delta: 1 }) {
        Delivery::Wait(message) => message,
        Delivery::Settled(_) => panic!("a waiting handle settles nothing on its own"),
    };
    // the actor takes a message, and the waiting one finds room
    assert_eq!(receiver.try_recv().ok(), Some(CounterRequest::Add { delta: 1 }));
    let res = after_send(sender.inner.try_send(pending).is_ok());
    assert!(res.is_ok());
    assert_eq!(after_send(true), Ok(()));
    assert_eq!(after_send(false), Err(ActorError::SendFailed));
}

#[test]
fn handles_keep_their_own_policy() {
    let (sender, mut receiver) = open_mailbox::<CounterRequest>(1).unwrap();
    let counter = Gateway::new(Duration::from_millis(200));
    // default handle = Backpressure
    let h2 = counter.with_policy(SendPolicy::FailFast);
    assert_eq!(counter.send_policy, SendPolicy::Backpressure);
    assert_eq!(h2.send_policy, SendPolicy::FailFast);
    assert_eq!(h2.default_timeout, counter.default_timeout);

    // Fill queue deterministically
    assert_eq!(deliver_fail_fast(&sender, CounterRequest::Add { delta: 1 }), Ok(()));

    // Backpressure handle: will wait
    let pending = counter.begin_delivery(&sender, CounterRequest::Add { delta: 1 });
    assert!(matches!(pending, Delivery::Wait(CounterRequest::Add { delta: 1 })));

    // FailFast handle: should error immediately
    let res = h2.begin_delivery(&sender, CounterRequest::Add { delta: 1 });
    assert!(matches!(res, Delivery::Settled(Err(ActorError::MailboxFull))));

    // Release actor so backpressure can complete
    let mut actor = Counter::fresh();
    let first = receiver.try_recv().unwrap();
    assert_eq!(actor.ask(first), CounterTurn::Reply { value: 1, ctrl: ActorCtrl::Continue });
    if let Delivery::Wait(message) = pending {
        let res_bp = after_send(sender.inner.try_send(message).is_ok());
        assert!(res_bp.is_ok());
    }
    let second = receiver.try_recv().unwrap();
    assert_eq!(actor.ask(second), CounterTurn::Reply { value: 2, ctrl: ActorCtrl::Continue });
}

/// Two responders and a coordinator, driven by hand.
fn run_group(names: &[&str], initial: &str, max_turns: usize) -> Vec<String> {
    let mut agents: Vec<EchoState> = names.iter().map(|name| EchoState::new(name)).collect();
    let mut manager = GroupManagerState::new(agents.len()).unwrap();
    let request = ManagerRequest::Run { initial: initial.to_string(), max_turns };
    let mut outputs = Vec::new();
    if let ManagerTurn::Run { picked, initial } = handle_manager(&mut manager, request) {
        let mut input = initial;
        for at in picked {
            let responded = match handle_echo(&mut agents[at], EchoRequest::Respond { input }) {
                EchoTurn::Reply(line) => Ok(line),
                _ => Err(ActorError::ResponseDropped),
            };
            match chain(&mut outputs, responded) {
                Some(next) => input = next,
                None => break,
            }
        }
    }
    outputs
}

#[test]
fn responders_take_turns_in_rotation() {
    let transcript = run_group(&["alice", "bob"], "hello", 4);
    assert_eq!(transcript.len(), 4);
    assert!(transcript[0].starts_with("alice[1]:"));
    assert!(transcript[1].starts_with("bob[1]:"));
    assert!(transcript[2].starts_with("alice[2]:"));
    assert!(transcript[3].starts_with("bob[2]:"));
}

#[test]
fn each_line_carries_the_line_before_it() {
    let transcript = run_group(&["alice", "bob"], "hello", 4);
    assert_eq!(transcript.len(), 4);
    assert!(transcript[1].ends_with(&transcript[0]));
    assert!(transcript[2].ends_with(&transcript[1]));
    assert!(transcript[3].ends_with(&transcript[2]));
}

#[test]
fn a_stopped_coordinator_takes_no_more_requests() {
    let mut manager = GroupManagerState::new(2).unwrap();
    let stop = handle_manager(&mut manager, ManagerRequest::Stop);
    assert!(matches!(stop, ManagerTurn::Acknowledge));
    assert_eq!(
        next_step(stop.received()),
        Some(Termination::Clean(ExitReason::StoppedByMessage))
    );
    // the mailbox of a stopped coordinator is closed
    let (sender, receiver) = open_mailbox::<ManagerRequest>(8).unwrap();
    drop(receiver);
    let request = ManagerRequest::Run { initial: "hello".to_string(), max_turns: 2 };
    let run_res = deliver_fail_fast(&sender, request);
    assert!(matches!(run_res, Err(ActorError::SendFailed) | Err(ActorError::Timeout)));
}

#[test]
fn the_transcript_of_a_run_is_exact() {
    assert_eq!(
        run_group(&["alice", "bob"], "hello", 4),
        vec![
            "alice[1]: hello",
            "bob[1]: alice[1]: hello",
            "alice[2]: bob[1]: alice[1]: hello",
            "bob[2]: alice[2]: bob[1]: alice[1]: hello",
        ]
    );
    assert_eq!(run_group(&["solo"], "", 2), vec!["solo[1]: ", "solo[2]: solo[1]: "]);
    assert_eq!(run_group(&["a", "b"], "x", 0), Vec::<String>::new());
}

#[test]
fn an_echo_line_numbers_its_turn_in_decimal() {
    let mut state = EchoState::new("echo");
    let mut last = String::new();
    for _ in 0..12 {
        if let EchoTurn::Reply(line) =
            handle_echo(&mut state, EchoRequest::Respond { input: "in".to_string() })
        {
            last = line;
        }
    }
    assert_eq!(last, "echo[12]: in");
    assert_eq!(state.turns(), 12);
    assert_eq!(state.name(), "echo");
    assert!(matches!(handle_echo(&mut state, EchoRequest::Stop), EchoTurn::Acknowledge));
    assert_eq!(state.turns(), 12);
}

#[test]
fn a_later_run_goes_on_where_the_last_one_ended() {
    let mut manager = GroupManagerState::new(3).unwrap();
    assert_eq!(manager.pick(4), vec![0, 1, 2, 0]);
    assert_eq!(manager.next_idx(), 1);
    assert_eq!(manager.pick(0), Vec::<usize>::new());
    assert_eq!(manager.pick(3), vec![1, 2, 0]);
    assert_eq!(manager.next_idx(), 1);
    assert_eq!(manager.agent_count(), 3);
}

#[test]
fn a_group_without_responders_is_refused() {
    assert!(matches!(GroupManagerState::new(0), Err(ActorError::InitError)));
    assert!(GroupManagerState::new(1).is_ok());
}

#[test]
fn a_failed_responder_ends_the_run_with_what_was_said() {
    let mut outputs = vec!["one".to_string()];
    assert_eq!(chain(&mut outputs, Ok("two".to_string())), Some("two".to_string()));
    assert_eq!(chain(&mut outputs, Err(ActorError::Timeout)), None);
    assert_eq!(outputs, vec!["one", "two"]);
}

#[test]
fn spawn_refuses_capacity_zero_and_takes_every_other() {
    assert!(matches!(open_mailbox::<u8>(0), Err(ActorError::InvalidCapacity)));
    for capacity in [1usize, 2, 8, 1024, usize::MAX >> 3] {
        assert!(capacity_in_range(capacity));
        assert!(open_mailbox::<u8>(capacity).is_ok());
    }
    assert!(!capacity_in_range((usize::MAX >> 3) + 1));
    assert!(!capacity_in_range(usize::MAX));
}

#[test]
fn a_mailbox_takes_as_many_messages_as_its_capacity() {
    let (sender, mut receiver) = open_mailbox::<u32>(3).unwrap();
    for message in 0..3 {
        assert_eq!(deliver_fail_fast(&sender, message), Ok(()));
    }
    assert_eq!(deliver_fail_fast(&sender, 3), Err(ActorError::MailboxFull));
    assert_eq!(receiver.try_recv().ok(), Some(0));
    assert_eq!(deliver_fail_fast(&sender, 4), Ok(()));
    let second = MailboxSender { inner: sender.inner.clone() };
    assert_eq!(deliver_fail_fast(&second, 5), Err(ActorError::MailboxFull));
    assert_eq!(receiver.try_recv().ok(), Some(1));
    assert_eq!(receiver.try_recv().ok(), Some(2));
    assert_eq!(receiver.try_recv().ok(), Some(4));
    drop(receiver);
    assert_eq!(deliver_fail_fast(&sender, 6), Err(ActorError::SendFailed));
    assert_eq!(deliver_fail_fast(&second, 7), Err(ActorError::SendFailed));
}

#[test]
fn each_way_of_failing_has_its_error() {
    assert_eq!(after_try_send(SendOutcome::Delivered), Ok(()));
    assert_eq!(after_try_send(SendOutcome::Full), Err(ActorError::MailboxFull));
    assert_eq!(after_try_send(SendOutcome::Closed), Err(ActorError::SendFailed));
    assert_eq!(after_reply(Some(7)), Ok(7));
    assert_eq!(after_reply::<u8>(None), Err(ActorError::ResponseDropped));
    assert_eq!(after_deadline(Some(Ok(7))), Ok(7));
    assert_eq!(after_deadline::<u8>(Some(Err(ActorError::SendFailed))), Err(ActorError::SendFailed));
    assert_eq!(after_deadline::<u8>(None), Err(ActorError::Timeout));
    assert_eq!(after_timed_reply(Some(Some(7))), Ok(7));
    assert_eq!(after_timed_reply::<u8>(Some(None)), Err(ActorError::ResponseDropped));
    assert_eq!(after_timed_reply::<u8>(None), Err(ActorError::Timeout));
}

#[test]
fn the_loop_goes_on_only_after_continue() {
    assert_eq!(next_step(Received::Handled(ActorCtrl::Continue)), None);
    assert_eq!(next_step(Received::Faulted), Some(Termination::Panic));
}

#[test]
fn a_policy_allows_restarts_below_its_budget() {
    assert!(!allows_restart(RestartPolicy::Never, 0));
    assert!(!allows_restart(RestartPolicy::MaxRetries { n: 0 }, 0));
    assert!(allows_restart(RestartPolicy::MaxRetries { n: 3 }, 0));
    assert!(allows_restart(RestartPolicy::MaxRetries { n: 3 }, 2));
    assert!(!allows_restart(RestartPolicy::MaxRetries { n: 3 }, 3));
    assert!(!allows_restart(RestartPolicy::MaxRetries { n: 3 }, usize::MAX));
}

#[test]
fn a_failed_first_construction_is_an_init_error() {
    let factory = CounterFactory { calls: Cell::new(0), fails_from: 1 };
    let refused = Supervisor::start(&factory, RestartPolicy::MaxRetries { n: 5 });
    assert!(matches!(refused, Err(ActorError::InitError)));
    assert_eq!(factory.calls.get(), 1);
    let kept: Result<(Supervisor, u8), ActorError> =
        Supervisor::after_first_create(RestartPolicy::Never, Err(ActorError::Timeout));
    assert!(matches!(kept, Err(ActorError::InitError)));
}

#[test]
fn a_clean_end_is_never_restarted() {
    let factory = CounterFactory::reliable();
    for reason in [ExitReason::StoppedByMessage, ExitReason::AllSendersDropped] {
        let (mut supervisor, _actor) = started(RestartPolicy::MaxRetries { n: 9 }, &factory);
        let calls = factory.calls.get();
        let action = supervisor.on_termination(&factory, Termination::Clean(reason));
        assert!(matches!(action, MonitorAction::Halt));
        assert!(!supervisor.is_monitoring());
        assert!(matches!(
            supervisor.on_termination(&factory, Termination::Panic),
            MonitorAction::Halt
        ));
        assert_eq!(supervisor.restart_attempts(), 0);
        assert_eq!(factory.calls.get(), calls);
    }
}

#[test]
fn a_failed_restart_stops_the_monitor_with_budget_left() {
    let factory = CounterFactory { calls: Cell::new(0), fails_from: 3 };
    let (mut supervisor, _actor) = started(RestartPolicy::MaxRetries { n: 5 }, &factory);
    assert!(matches!(
        supervisor.on_termination(&factory, Termination::Panic),
        MonitorAction::Publish(_)
    ));
    assert!(matches!(supervisor.on_termination(&factory, Termination::Panic), MonitorAction::Halt));
    assert_eq!(supervisor.restart_attempts(), 2);
    assert!(!supervisor.is_monitoring());
    assert!(matches!(supervisor.on_termination(&factory, Termination::Panic), MonitorAction::Halt));
    assert_eq!(factory.calls.get(), 3);
    assert_eq!(supervisor.policy(), RestartPolicy::MaxRetries { n: 5 });
}

#[test]
fn the_budget_is_for_the_whole_lifetime() {
    let factory = CounterFactory::reliable();
    let (mut supervisor, _actor) = started(RestartPolicy::MaxRetries { n: 3 }, &factory);
    let mut restarts = 0;
    for _ in 0..10 {
        if let MonitorAction::Publish(_) = supervisor.on_termination(&factory, Termination::Panic) {
            restarts += 1;
        }
    }
    assert_eq!(restarts, 3);
    assert_eq!(supervisor.restart_attempts(), 3);
}

#[test]
fn a_cancelled_task_stops_the_monitor() {
    let factory = CounterFactory::reliable();
    let (mut supervisor, _actor) = started(RestartPolicy::MaxRetries { n: 3 }, &factory);
    assert!(supervisor.begin_restart(Termination::Panic));
    assert!(matches!(
        supervisor.finish_restart(Ok::<u8, ActorError>(1)),
        MonitorAction::Publish(1)
    ));
    supervisor.on_cancelled();
    assert!(!supervisor.is_monitoring());
    assert!(!supervisor.begin_restart(Termination::Panic));
    assert_eq!(supervisor.restart_attempts(), 1);
}

#[test]
fn an_addition_out_of_range_is_a_fault_and_changes_nothing() {
    let mut state = i64::MAX - 1;
    assert_eq!(
        handle_counter(&mut state, CounterRequest::Add { delta: 1 }),
        CounterTurn::Reply { value: i64::MAX, ctrl: ActorCtrl::Continue }
    );
    let turn = handle_counter(&mut state, CounterRequest::Add { delta: 1 });
    assert_eq!(turn, CounterTurn::Crash);
    assert_eq!(turn.received(), Received::Faulted);
    assert_eq!(state, i64::MAX);
    let mut low = i64::MIN;
    assert_eq!(handle_counter(&mut low, CounterRequest::Add { delta: -1 }), CounterTurn::Crash);
    assert_eq!(low, i64::MIN);
}
