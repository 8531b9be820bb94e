//! The library under a real runtime: actors as tokio tasks, mailboxes as
//! tokio channels, deadlines on the runtime's clock. The harness does the
//! waiting; every decision is the library's.

use hudagents::actor_model::counter::{
    handle_counter, CounterRequest, CounterTurn, INITIAL_COUNT,
};
use hudagents::actor_model::echo::{handle_echo, EchoRequest, EchoState, EchoTurn};
use hudagents::actor_model::engine::{next_step, open_mailbox, MailboxSender, Received};
use hudagents::actor_model::gateway::{
    after_deadline, after_reply, after_send, after_timed_reply, Delivery, Gateway,
    DEFAULT_TIMEOUT_MS,
};
use hudagents::actor_model::group::{
    chain, handle_manager, GroupManagerState, ManagerRequest, ManagerTurn,
};
use hudagents::actor_model::supervisor::{ActorFactory, MonitorAction, Supervisor};
use hudagents::actor_model::{
    ActorCtrl, ActorError, ExitReason, RestartPolicy, SendPolicy, Termination,
};
use std::{future::Future, marker::PhantomData, sync::Arc, time::Duration};
use tokio::{
    sync::{mpsc::Sender, oneshot, RwLock},
    task::JoinHandle,
    time::{sleep, timeout},
};

type Running<Msg> = (Sender<Msg>, JoinHandle<ExitReason>);

fn block_on<F: Future>(future: F) -> F::Output {
    tokio::runtime::Builder::new_current_thread().enable_all().build().unwrap().block_on(future)
}

fn spawn_actor<State, Msg, Handler, Fut>(
    capacity: usize,
    initial_state: State,
    handler: Handler,
) -> Result<Running<Msg>, ActorError>
where
    State: Send + 'static,
    Msg: Send + 'static,
    Handler: FnMut(&mut State, Msg) -> Fut + Send + 'static,
    Fut: Future<Output = Received> + Send + 'static,
{
    let (tx, mut rx) = open_mailbox::<Msg>(capacity)?;
    let join = tokio::spawn(async move {
        let mut state = initial_state;
        let mut handler = handler;
        loop {
            let received = match rx.recv().await {
                Some(msg) => handler(&mut state, msg).await,
                None => Received::Closed,
            };
            match next_step(received) {
                None => {}
                Some(Termination::Clean(reason)) => return reason,
                Some(Termination::Panic) => panic!("the handler failed"),
            }
        }
    });
    Ok((tx.inner, join))
}

struct FnFactory<Msg, F> {
    make: F,
    made: PhantomData<fn() -> Msg>,
}

impl<Msg, F> ActorFactory for FnFactory<Msg, F>
where
    F: Fn() -> Result<Running<Msg>, ActorError>,
{
    type Instance = Running<Msg>;

    fn create(&self) -> Result<Running<Msg>, ActorError> {
        (self.make)()
    }
}

async fn monitor_loop<Msg, F>(
    factory: FnFactory<Msg, F>,
    mut supervisor: Supervisor,
    sender_slot: Arc<RwLock<Sender<Msg>>>,
    mut join: JoinHandle<ExitReason>,
) where
    Msg: Send + 'static,
    F: Fn() -> Result<Running<Msg>, ActorError> + Send + Sync + 'static,
{
    loop {
        let action = match join.await {
            Ok(exit) => supervisor.on_termination(&factory, Termination::Clean(exit)),
            Err(err) if err.is_panic() => supervisor.on_termination(&factory, Termination::Panic),
            Err(_) => {
                supervisor.on_cancelled();
                MonitorAction::Halt
            }
        };
        match action {
            MonitorAction::Halt => return,
            MonitorAction::Publish((new_tx, new_join)) => {
                {
                    let mut slot = sender_slot.write().await;
                    *slot = new_tx;
                }
                join = new_join;
            }
        }
    }
}

async fn start<Msg, F>(make: F, policy: RestartPolicy) -> Result<SupervisorHandle<Msg>, ActorError>
where
    Msg: Send + 'static,
    F: Fn() -> Result<Running<Msg>, ActorError> + Send + Sync + 'static,
{
    let factory = FnFactory { make, made: PhantomData };
    let (supervisor, (tx, join)) = Supervisor::start(&factory, policy)?;
    let sender_slot = Arc::new(RwLock::new(tx));
    tokio::spawn(monitor_loop(factory, supervisor, sender_slot.clone(), join));
    Ok(SupervisorHandle { sender_slot })
}

struct SupervisorHandle<Msg>
where
    Msg: Send + 'static,
{
    sender_slot: Arc<RwLock<Sender<Msg>>>,
}

impl<Msg> SupervisorHandle<Msg>
where
    Msg: Send + 'static,
{
    async fn sender(&self) -> Sender<Msg> {
        let guard = self.sender_slot.read().await;
        let sender = guard.clone();
        drop(guard);
        sender
    }
}

impl<Msg> Clone for SupervisorHandle<Msg>
where
    Msg: Send + 'static,
{
    fn clone(&self) -> Self {
        Self { sender_slot: self.sender_slot.clone() }
    }
}

async fn deliver<Msg>(
    sup: &SupervisorHandle<Msg>,
    gateway: &Gateway,
    msg: Msg,
) -> Result<(), ActorError>
where
    Msg: Send + 'static,
{
    let sender = MailboxSender { inner: sup.sender().await };
    match gateway.begin_delivery(&sender, msg) {
        Delivery::Settled(sent) => sent,
        Delivery::Wait(msg) => after_send(sender.inner.send(msg).await.is_ok()),
    }
}

async fn ask<Msg, T>(
    sup: &SupervisorHandle<Msg>,
    gateway: &Gateway,
    msg: Msg,
    reply_rx: oneshot::Receiver<T>,
) -> Result<T, ActorError>
where
    Msg: Send + 'static,
{
    deliver(sup, gateway, msg).await?;
    let replied = timeout(gateway.default_timeout, reply_rx).await;
    after_timed_reply(replied.ok().map(|reply| reply.ok()))
}

fn default_gateway() -> Gateway {
    Gateway::new(Duration::from_millis(DEFAULT_TIMEOUT_MS))
}

enum CounterMessage {
    Add { delta: i64, reply: oneshot::Sender<i64> },
    Get { reply: oneshot::Sender<i64> },
    DelayGet { delay: Duration, reply: oneshot::Sender<i64> },
    Stop { reply: oneshot::Sender<()> },
    CrashNow { reply: oneshot::Sender<()> },
    /// Blocks the actor until it is released; only the harness sends it.
    Hold { started: oneshot::Sender<()>, release: oneshot::Receiver<()> },
}

enum CounterSlot {
    Value(oneshot::Sender<i64>),
    Done(oneshot::Sender<()>),
}

#[derive(Clone)]
struct CounterHandle {
    sup: SupervisorHandle<CounterMessage>,
    gateway: Gateway,
}

impl CounterHandle {
    fn with_policy(&self, policy: SendPolicy) -> Self {
        Self { sup: self.sup.clone(), gateway: self.gateway.with_policy(policy) }
    }

    async fn request<T>(
        &self,
        make_msg: impl FnOnce(oneshot::Sender<T>) -> CounterMessage,
    ) -> Result<T, ActorError> {
        let (reply_tx, reply_rx) = oneshot::channel();
        let msg = make_msg(reply_tx);
        deliver(&self.sup, &self.gateway, msg).await?;
        after_reply(reply_rx.await.ok())
    }

    async fn request_with_timeout<T>(
        &self,
        timeout_opt: Option<Duration>,
        make_msg: impl FnOnce(oneshot::Sender<T>) -> CounterMessage,
    ) -> Result<T, ActorError> {
        let fut = self.request(make_msg);
        let effective_timeout = self.gateway.effective_timeout(timeout_opt);
        after_deadline(timeout(effective_timeout, fut).await.ok())
    }

    async fn add(&self, delta: i64) -> Result<i64, ActorError> {
        self.request_with_timeout(None, |reply| CounterMessage::Add { delta, reply }).await
    }

    async fn get(&self) -> Result<i64, ActorError> {
        self.request_with_timeout(None, |reply| CounterMessage::Get { reply }).await
    }

    async fn get_with_timeout(&self, duration: Duration) -> Result<i64, ActorError> {
        self.request_with_timeout(Some(duration), |reply| CounterMessage::Get { reply }).await
    }

    async fn stop(&self) -> Result<(), ActorError> {
        self.request_with_timeout(None, |reply| CounterMessage::Stop { reply }).await
    }

    async fn crash_now(&self) -> Result<(), ActorError> {
        self.request_with_timeout(None, |reply| CounterMessage::CrashNow { reply }).await
    }
}

async fn spawn_counter(capacity: usize, policy: RestartPolicy) -> Result<CounterHandle, ActorError> {
    let factory = move || {
        spawn_actor(capacity, INITIAL_COUNT, |state: &mut i64, msg: CounterMessage| {
            let mut hold = None;
            let opened = match msg {
                CounterMessage::Add { delta, reply } => {
                    Some((CounterRequest::Add { delta }, CounterSlot::Value(reply)))
                }
                CounterMessage::Get { reply } => {
                    Some((CounterRequest::Get, CounterSlot::Value(reply)))
                }
                CounterMessage::DelayGet { delay, reply } => {
                    Some((CounterRequest::DelayGet { delay }, CounterSlot::Value(reply)))
                }
                CounterMessage::Stop { reply } => {
                    Some((CounterRequest::Stop, CounterSlot::Done(reply)))
                }
                CounterMessage::CrashNow { reply } => {
                    Some((CounterRequest::CrashNow, CounterSlot::Done(reply)))
                }
                CounterMessage::Hold { started, release } => {
                    hold = Some((started, release));
                    None
                }
            };
            let mut seen = Received::Handled(ActorCtrl::Continue);
            let mut delayed = None;
            if let Some((request, slot)) = opened {
                let turn = handle_counter(state, request);
                seen = turn.received();
                match (turn, slot) {
                    (CounterTurn::Reply { value, .. }, CounterSlot::Value(reply)) => {
                        let _ = reply.send(value);
                    }
                    (CounterTurn::ReplyLater { delay, value }, CounterSlot::Value(reply)) => {
                        delayed = Some((delay, reply, value));
                    }
                    (CounterTurn::Acknowledge { .. }, CounterSlot::Done(reply))
                    | (CounterTurn::AcknowledgeAndCrash, CounterSlot::Done(reply)) => {
                        let _ = reply.send(());
                    }
                    _ => {}
                }
            }
            async move {
                if let Some((started, release)) = hold {
                    let _ = started.send(());
                    let _ = release.await;
                }
                if let Some((delay, reply, value)) = delayed {
                    sleep(delay).await;
                    let _ = reply.send(value);
                }
                seen
            }
        })
    };
    let sup = start(factory, policy).await?;
    Ok(CounterHandle { sup, gateway: default_gateway() })
}

enum EchoAgentMsg {
    Respond { input: String, reply: oneshot::Sender<String> },
    Stop { reply: oneshot::Sender<()> },
}

#[derive(Clone)]
struct EchoAgentHandle {
    sup: SupervisorHandle<EchoAgentMsg>,
    gateway: Gateway,
}

impl EchoAgentHandle {
    async fn respond(&self, input: impl Into<String>) -> Result<String, ActorError> {
        let (reply_tx, reply_rx) = oneshot::channel();
        let msg = EchoAgentMsg::Respond { input: input.into(), reply: reply_tx };
        ask(&self.sup, &self.gateway, msg, reply_rx).await
    }
}

async fn spawn_echo_agent(
    name: &str,
    capacity: usize,
    policy: RestartPolicy,
) -> Result<EchoAgentHandle, ActorError> {
    let name = name.to_string();
    let factory = move || {
        spawn_actor(capacity, EchoState::new(&name), |state: &mut EchoState, msg: EchoAgentMsg| {
            let seen = match msg {
                EchoAgentMsg::Respond { input, reply } => {
                    let turn = handle_echo(state, EchoRequest::Respond { input });
                    let seen = turn.received();
                    if let EchoTurn::Reply(line) = turn {
                        let _ = reply.send(line);
                    }
                    seen
                }
                EchoAgentMsg::Stop { reply } => {
                    let turn = handle_echo(state, EchoRequest::Stop);
                    let _ = reply.send(());
                    turn.received()
                }
            };
            async move { seen }
        })
    };
    let sup = start(factory, policy).await?;
    Ok(EchoAgentHandle { sup, gateway: default_gateway() })
}

enum ManagerMsg {
    Run { initial: String, max_turns: usize, reply: oneshot::Sender<Vec<String>> },
    Stop { reply: oneshot::Sender<()> },
}

struct GroupManagerHandle {
    sup: SupervisorHandle<ManagerMsg>,
    gateway: Gateway,
}

impl GroupManagerHandle {
    async fn run(
        &self,
        initial: impl Into<String>,
        max_turns: usize,
    ) -> Result<Vec<String>, ActorError> {
        let (reply_tx, reply_rx) = oneshot::channel();
        let msg = ManagerMsg::Run { initial: initial.into(), max_turns, reply: reply_tx };
        ask(&self.sup, &self.gateway, msg, reply_rx).await
    }

    async fn stop(&self) -> Result<(), ActorError> {
        let (reply_tx, reply_rx) = oneshot::channel();
        ask(&self.sup, &self.gateway, ManagerMsg::Stop { reply: reply_tx }, reply_rx).await
    }
}

enum ManagerWork {
    Run { picked: Vec<EchoAgentHandle>, initial: String, reply: oneshot::Sender<Vec<String>> },
    Stop { reply: oneshot::Sender<()> },
}

async fn spawn_group_manager(
    agents: Vec<EchoAgentHandle>,
    capacity: usize,
    policy: RestartPolicy,
) -> Result<GroupManagerHandle, ActorError> {
    let rotation = GroupManagerState::new(agents.len())?;
    let factory = move || {
        let agents = agents.clone();
        spawn_actor(capacity, rotation, move |state: &mut GroupManagerState, msg: ManagerMsg| {
            let (seen, work) = match msg {
                ManagerMsg::Run { initial, max_turns, reply } => {
                    let turn = handle_manager(state, ManagerRequest::Run { initial, max_turns });
                    let seen = turn.received();
                    let work = match turn {
                        ManagerTurn::Run { picked, initial } => Some(ManagerWork::Run {
                            picked: picked.into_iter().map(|at| agents[at].clone()).collect(),
                            initial,
                            reply,
                        }),
                        ManagerTurn::Acknowledge => None,
                    };
                    (seen, work)
                }
                ManagerMsg::Stop { reply } => {
                    let turn = handle_manager(state, ManagerRequest::Stop);
                    (turn.received(), Some(ManagerWork::Stop { reply }))
                }
            };
            async move {
                match work {
                    Some(ManagerWork::Run { picked, initial, reply }) => {
                        let mut outputs = Vec::new();
                        let mut input = initial;
                        for agent in picked {
                            match chain(&mut outputs, agent.respond(input).await) {
                                Some(next) => input = next,
                                None => break,
                            }
                        }
                        let _ = reply.send(outputs);
                    }
                    Some(ManagerWork::Stop { reply }) => {
                        let _ = reply.send(());
                    }
                    None => {}
                }
                seen
            }
        })
    };
    let sup = start(factory, policy).await?;
    Ok(GroupManagerHandle { sup, gateway: default_gateway() })
}

#[test]
fn test_parallel_actor_activity() {
    block_on(async {
        let h1 = spawn_counter(8, RestartPolicy::Never).await.unwrap();
        let h2 = spawn_counter(8, RestartPolicy::Never).await.unwrap();

        let t1 = tokio::spawn(async move {
            let _ = h1.add(1).await;
            let _ = h1.add(2).await;
        });

        let t2 = tokio::spawn(async move {
            let _ = h2.add(10).await;
            let _ = h2.get().await;
        });

        let _ = (t1.await, t2.await);
    });
}

#[test]
fn test_counter_add_get_happy_path() {
    block_on(async {
        let handle = spawn_counter(8, RestartPolicy::Never).await.unwrap();

        let v1 = handle.add(5).await.unwrap();
        assert_eq!(v1, 5);

        let v2 = handle.add(-2).await.unwrap();
        assert_eq!(v2, 3);

        let v3 = handle.get().await.unwrap();
        assert_eq!(v3, 3);

        let _ = handle.stop().await;
    });
}

#[test]
fn test_counter_stop_joins() {
    block_on(async {
        let handle = spawn_counter(8, RestartPolicy::Never).await.unwrap();

        let stop_res = handle.stop().await;
        assert!(stop_res.is_ok());
    });
}

#[test]
fn test_counter_handle_clone_works() {
    block_on(async {
        let handle = spawn_counter(8, RestartPolicy::Never).await.unwrap();
        let handle2 = handle.clone();

        let v1 = handle.add(2).await.unwrap();
        assert_eq!(v1, 2);

        let v2 = handle2.add(3).await.unwrap();
        assert_eq!(v2, 5);

        let v3 = handle.get().await.unwrap();
        assert_eq!(v3, 5);

        let v4 = handle2.add(-1).await.unwrap();
        assert_eq!(v4, 4);

        let v5 = handle2.get().await.unwrap();
        assert_eq!(v5, 4);

        let _ = handle.stop().await;
    });
}

#[test]
fn test_exits_with_stop_by_message() {
    block_on(async {
        let (tx, join) = spawn_actor(8, 0_i64, |state: &mut i64, msg: i32| {
            let _ = msg;
            *state += 1;
            std::future::ready(Received::Handled(ActorCtrl::Stop))
        })
        .unwrap();
        tx.send(1).await.unwrap();
        drop(tx);
        let exit = join.await.unwrap();
        assert_eq!(exit, ExitReason::StoppedByMessage);
    });
}

#[test]
fn test_actor_exit_reason_all_senders_dropped() {
    block_on(async {
        let (tx, join) = spawn_actor(8, (), |_: &mut (), _msg: ()| {
            std::future::ready(Received::Handled(ActorCtrl::Continue))
        })
        .unwrap();
        drop(tx);
        let exit = join.await.unwrap();
        assert_eq!(exit, ExitReason::AllSendersDropped);
    });
}

#[test]
fn test_override_path_works() {
    block_on(async {
        let handle = spawn_counter(8, RestartPolicy::Never).await.unwrap();
        let v1 = handle.get_with_timeout(Duration::from_millis(50)).await.unwrap();
        assert_eq!(v1, 0);
        let _ = handle.stop().await;
    });
}

#[test]
fn test_timeout_triggered() {
    block_on(async {
        let handle = spawn_counter(8, RestartPolicy::Never).await.unwrap();

        let res = handle
            .request_with_timeout(Some(Duration::from_millis(10)), |reply| {
                CounterMessage::DelayGet { delay: Duration::from_millis(50), reply }
            })
            .await;
        assert!(matches!(res, Err(ActorError::Timeout)));
    });
}

#[test]
fn test_restarts_once_on_panic() {
    block_on(async {
        let handle = spawn_counter(8, RestartPolicy::MaxRetries { n: 1 }).await.unwrap();
        let _v1 = handle.add(10).await;
        let _v2 = handle.crash_now().await;

        let mut v3 = None;
        for _ in 0..10 {
            match handle.add(1).await {
                Ok(v) => {
                    v3 = Some(v);
                    break;
                }
                Err(ActorError::SendFailed) => tokio::task::yield_now().await,
                Err(e) => panic!("unexpected error: {e:?}"),
            }
        }

        assert_eq!(v3, Some(1));
    });
}

#[test]
fn test_does_not_restart_on_panic_when_never() {
    block_on(async {
        let handle = spawn_counter(8, RestartPolicy::Never).await.unwrap();
        let _v1 = handle.add(10).await;
        let _v2 = handle.crash_now().await;

        let v3 = handle.add(1).await;
        assert!(matches!(v3, Err(ActorError::SendFailed)));
    });
}

#[test]
fn test_stops_restarting_after_max_retries() {
    block_on(async {
        let handle = spawn_counter(8, RestartPolicy::MaxRetries { n: 1 }).await.unwrap();
        let _ = handle.crash_now().await;

        let mut v3 = None;
        for _ in 0..10 {
            match handle.add(1).await {
                Ok(v) => {
                    v3 = Some(v);
                    break;
                }
                Err(ActorError::SendFailed) => tokio::task::yield_now().await,
                Err(e) => panic!("unexpected error: {e:?}"),
            }
        }
        assert_eq!(v3, Some(1));

        let _ = handle.crash_now().await;

        let mut ok = false;
        for _ in 0..10 {
            match handle.add(1).await {
                Ok(_) => {
                    ok = true;
                    break;
                }
                Err(ActorError::SendFailed) => tokio::task::yield_now().await,
                Err(e) => panic!("unexpected error: {e:?}"),
            }
        }
        assert!(!ok, "unexpected restart after retries exhausted");
    });
}

#[test]
fn test_ff_returns_mailboxfull_when_q_full() {
    block_on(async {
        let counter = spawn_counter(1, RestartPolicy::Never).await.unwrap();
        let handle = counter.with_policy(SendPolicy::FailFast);
        // send Hold
        let (started_tx, started_rx) = oneshot::channel();
        let (release_tx, release_rx) = oneshot::channel();

        let sender = counter.sup.sender().await;
        assert!(sender
            .send(CounterMessage::Hold { started: started_tx, release: release_rx })
            .await
            .is_ok());

        // wait until actor is blocked
        let _ = started_rx.await;

        // enqueue one request (fills queue)
        let (dummy_tx, _dummy_rx) = oneshot::channel();
        assert!(sender.send(CounterMessage::Add { delta: 1, reply: dummy_tx }).await.is_ok());

        // second request should fail fast
        let res = handle.add(1).await;
        assert!(matches!(res, Err(ActorError::MailboxFull)));

        // release actor so the test does not hang
        let _ = release_tx.send(());
    });
}

#[test]
fn test_backpressure_does_not_return_mailboxfull() {
    block_on(async {
        let counter = spawn_counter(1, RestartPolicy::Never).await.unwrap();
        let (started_tx, started_rx) = oneshot::channel();
        let (release_tx, release_rx) = oneshot::channel();
        let sender = counter.sup.sender().await;
        assert!(sender
            .send(CounterMessage::Hold { started: started_tx, release: release_rx })
            .await
            .is_ok());

        // Wait until actor is blocked
        let _ = started_rx.await;

        // Fill the queue deterministically (capacity = 1)
        let (dummy_tx, _dummy_rx) = oneshot::channel();
        assert!(sender.send(CounterMessage::Add { delta: 1, reply: dummy_tx }).await.is_ok());
        let h2 = counter.clone();
        let pending = tokio::spawn(async move { h2.add(1).await });
        let _ = release_tx.send(());
        let res = pending.await.unwrap();
        assert!(res.is_ok());
    });
}

#[test]
fn test_cloned_handles_policy_independence() {
    block_on(async {
        let counter = spawn_counter(1, RestartPolicy::Never).await.unwrap();

        // default handle = Backpressure
        let h2 = counter.with_policy(SendPolicy::FailFast);

        // Hold actor
        let (started_tx, started_rx) = oneshot::channel();
        let (release_tx, release_rx) = oneshot::channel();

        let sender = counter.sup.sender().await;
        assert!(sender
            .send(CounterMessage::Hold { started: started_tx, release: release_rx })
            .await
            .is_ok());

        let _ = started_rx.await;

        // Fill queue deterministically
        let (dummy_tx, _dummy_rx) = oneshot::channel();
        assert!(sender.send(CounterMessage::Add { delta: 1, reply: dummy_tx }).await.is_ok());

        // Backpressure handle: will block
        let pending = tokio::spawn(async move { counter.add(1).await });

        // FailFast handle: should error immediately
        let res = h2.add(1).await;
        assert!(matches!(res, Err(ActorError::MailboxFull)));

        // Release actor so backpressure can complete
        let _ = release_tx.send(());
        let res_bp = pending.await.unwrap();
        assert!(res_bp.is_ok());
    });
}

#[test]
fn test_round_robin_order_is_correct() {
    block_on(async {
        let alice = spawn_echo_agent("alice", 8, RestartPolicy::Never).await.unwrap();
        let bob = spawn_echo_agent("bob", 8, RestartPolicy::Never).await.unwrap();
        let mgr = spawn_group_manager(vec![alice, bob], 8, RestartPolicy::Never).await.unwrap();

        let transcript = mgr.run("hello", 4).await.unwrap();

        assert_eq!(transcript.len(), 4);
        assert!(transcript[0].starts_with("alice[1]:"));
        assert!(transcript[1].starts_with("bob[1]:"));
        assert!(transcript[2].starts_with("alice[2]:"));
        assert!(transcript[3].starts_with("bob[2]:"));
    });
}

#[test]
fn test_chaining_correctness() {
    block_on(async {
        let alice = spawn_echo_agent("alice", 8, RestartPolicy::Never).await.unwrap();
        let bob = spawn_echo_agent("bob", 8, RestartPolicy::Never).await.unwrap();
        let mgr = spawn_group_manager(vec![alice, bob], 8, RestartPolicy::Never).await.unwrap();

        let transcript = mgr.run("hello", 4).await.unwrap();

        assert_eq!(transcript.len(), 4);
        assert!(transcript[1].ends_with(&transcript[0]));
        assert!(transcript[2].ends_with(&transcript[1]));
        assert!(transcript[3].ends_with(&transcript[2]));
    });
}

#[test]
fn test_manager_stop_ends_manager() {
    block_on(async {
        let alice = spawn_echo_agent("alice", 8, RestartPolicy::Never).await.unwrap();
        let bob = spawn_echo_agent("bob", 8, RestartPolicy::Never).await.unwrap();
        let mgr = spawn_group_manager(vec![alice, bob], 8, RestartPolicy::Never).await.unwrap();

        let stop_res = mgr.stop().await;
        assert!(stop_res.is_ok());

        let run_res = mgr.run("hello", 2).await;
        assert!(matches!(run_res, Err(ActorError::SendFailed) | Err(ActorError::Timeout)));
    });
}

#[test]
fn a_start_on_capacity_zero_is_an_init_error() {
    block_on(async {
        assert!(matches!(
            spawn_counter(0, RestartPolicy::Never).await,
            Err(ActorError::InitError)
        ));
        let refused = spawn_actor(0, (), |_: &mut (), _msg: ()| {
            std::future::ready(Received::Handled(ActorCtrl::Continue))
        });
        assert!(matches!(refused, Err(ActorError::InvalidCapacity)));
        assert!(matches!(
            spawn_group_manager(vec![], 8, RestartPolicy::Never).await,
            Err(ActorError::InitError)
        ));
    });
}

#[test]
fn a_reply_in_time_is_the_value() {
    block_on(async {
        let handle = spawn_counter(8, RestartPolicy::Never).await.unwrap();
        assert_eq!(handle.add(4).await, Ok(4));
        let late = handle
            .request_with_timeout(Some(Duration::from_millis(200)), |reply| {
                CounterMessage::DelayGet { delay: Duration::from_millis(5), reply }
            })
            .await;
        assert_eq!(late, Ok(4));
    });
}

#[test]
fn an_addition_out_of_range_faults_the_actor() {
    block_on(async {
        let handle = spawn_counter(8, RestartPolicy::MaxRetries { n: 1 }).await.unwrap();
        assert_eq!(handle.add(i64::MAX).await, Ok(i64::MAX));
        assert_eq!(handle.add(1).await, Err(ActorError::ResponseDropped));
        let mut fresh = None;
        for _ in 0..10 {
            match handle.get().await {
                Ok(v) => {
                    fresh = Some(v);
                    break;
                }
                Err(ActorError::SendFailed) => tokio::task::yield_now().await,
                Err(e) => panic!("unexpected error: {e:?}"),
            }
        }
        assert_eq!(fresh, Some(0));
    });
}
