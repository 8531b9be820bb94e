//! Supervision of one actor: when its task ends, decide whether to recreate it.
//!
//! The monitor is a state machine. Its state is the policy, the cumulative
//! count of restart attempts and whether it still watches a live instance; its
//! event is the end of the watched task; its action is to publish a freshly
//! created instance or to halt for good.

use vstd::prelude::*;
use crate::actor_model::{ActorError, RestartPolicy, Termination, allows_restart, restart_budget};

verus! {

/// A repeatable constructor of actor instances. Each call builds a fresh
/// instance from scratch; nothing is carried over from an earlier one.
pub trait ActorFactory {
    /// What a successful construction hands back (for a running actor: the
    /// mailbox sender and the completion handle).
    type Instance;

    fn create(&self) -> Result<Self::Instance, ActorError>;
}

/// What the monitor does after the supervised task ended.
pub enum MonitorAction<I> {
    /// Publish the new instance's sender and watch its completion.
    Publish(I),
    /// Stop for good; the sender that is published stays.
    Halt,
}

/// The mathematical state of a monitor.
pub struct SupervisorState {
    pub policy: RestartPolicy,
    /// Restarts attempted so far, over the whole supervised lifetime.
    pub restart_attempts: nat,
    /// Whether the monitor still watches a live instance.
    pub monitoring: bool,
}

impl SupervisorState {
    /// The restart count never exceeds the policy's budget.
    pub open spec fn within_budget(self) -> bool {
        self.restart_attempts <= restart_budget(self.policy)
    }

    /// The state right after a successful start.
    pub open spec fn fresh(policy: RestartPolicy) -> SupervisorState {
        SupervisorState { policy, restart_attempts: 0, monitoring: true }
    }

    /// Whether the end of the watched task leads to a restart attempt: only a
    /// fault does, only while the monitor is live, and only within the budget.
    pub open spec fn would_restart(self, termination: Termination) -> bool {
        &&& self.monitoring
        &&& termination is Panic
        &&& self.restart_attempts < restart_budget(self.policy)
    }

    /// The state after the watched task ended with `termination`, where
    /// `created` says whether the factory, if it was called, succeeded.
    pub open spec fn after(self, termination: Termination, created: bool) -> SupervisorState {
        if self.would_restart(termination) {
            SupervisorState {
                policy: self.policy,
                restart_attempts: self.restart_attempts + 1,
                monitoring: created,
            }
        } else {
            SupervisorState {
                policy: self.policy,
                restart_attempts: self.restart_attempts,
                monitoring: false,
            }
        }
    }

    /// Whether that turn publishes a new instance.
    pub open spec fn publishes(self, termination: Termination, created: bool) -> bool {
        self.would_restart(termination) && created
    }

    /// The state after a run of turns, each a termination and a factory outcome.
    pub open spec fn after_all(self, turns: Seq<(Termination, bool)>) -> SupervisorState
        decreases turns.len(),
    {
        if turns.len() == 0 {
            self
        } else {
            self.after(turns[0].0, turns[0].1).after_all(turns.drop_first())
        }
    }

    /// How many instances a run of turns publishes.
    pub open spec fn restarts_over(self, turns: Seq<(Termination, bool)>) -> nat
        decreases turns.len(),
    {
        if turns.len() == 0 {
            0
        } else {
            let here: nat = if self.publishes(turns[0].0, turns[0].1) {
                1
            } else {
                0
            };
            here + self.after(turns[0].0, turns[0].1).restarts_over(turns.drop_first())
        }
    }
}

/// The monitor of one supervised actor.
pub struct Supervisor {
    policy: RestartPolicy,
    restart_attempts: usize,
    monitoring: bool,
}

impl View for Supervisor {
    type V = SupervisorState;

    closed spec fn view(&self) -> SupervisorState {
        SupervisorState {
            policy: self.policy,
            restart_attempts: self.restart_attempts as nat,
            monitoring: self.monitoring,
        }
    }
}

impl Supervisor {
    #[verifier::type_invariant]
    closed spec fn inv(&self) -> bool {
        self@.within_budget()
    }

    /// Invokes the factory once. A failure is reported as `InitError` and no
    /// monitoring begins; otherwise the monitor starts with no restart used.
    pub fn start<F: ActorFactory>(factory: &F, policy: RestartPolicy) -> (started: Result<
        (Supervisor, F::Instance),
        ActorError,
    >)
        ensures
            started matches Err(e) ==> e == ActorError::InitError,
            started matches Ok(pair) ==> pair.0@ == SupervisorState::fresh(policy),
    {
        let created = factory.create();
        Self::after_first_create(policy, created)
    }

    /// The outcome of `start` for each result of the first construction.
    pub fn after_first_create<I>(policy: RestartPolicy, created: Result<I, ActorError>) -> (started:
        Result<(Supervisor, I), ActorError>)
        ensures
            created is Err ==> started == Err::<(Supervisor, I), ActorError>(ActorError::InitError),
            created matches Ok(instance) ==> (started matches Ok(pair) && pair.1 == instance
                && pair.0@ == SupervisorState::fresh(policy)),
    {
        match created {
            Ok(instance) => Ok(
                (Supervisor { policy, restart_attempts: 0, monitoring: true }, instance),
            ),
            Err(_) => Err(ActorError::InitError),
        }
    }

    pub fn policy(&self) -> (policy: RestartPolicy)
        ensures
            policy == self@.policy,
    {
        self.policy
    }

    /// The cumulative count of restart attempts; it is never above the budget.
    pub fn restart_attempts(&self) -> (attempts: usize)
        ensures
            attempts == self@.restart_attempts,
            self@.within_budget(),
    {
        proof {
            use_type_invariant(self);
        }
        self.restart_attempts
    }

    pub fn is_monitoring(&self) -> (monitoring: bool)
        ensures
            monitoring == self@.monitoring,
    {
        self.monitoring
    }

    /// First half of a turn: a clean end, or a fault that the policy no longer
    /// covers, stops the monitor for good; a covered fault uses up one restart.
    /// Returns whether the factory is to be called.
    pub fn begin_restart(&mut self, termination: Termination) -> (restart: bool)
        ensures
            restart == old(self)@.would_restart(termination),
            final(self)@ == old(self)@.after(termination, true),
    {
        proof {
            use_type_invariant(&*self);
        }
        if !self.monitoring {
            return false;
        }
        match termination {
            Termination::Clean(_) => {
                self.monitoring = false;
                false
            },
            Termination::Panic => {
                if allows_restart(self.policy, self.restart_attempts) {
                    self.restart_attempts = self.restart_attempts + 1;
                    true
                } else {
                    self.monitoring = false;
                    false
                }
            },
        }
    }

    /// Second half of a turn, after the factory was called: a failed
    /// construction stops the monitor for good, whatever is left of the
    /// budget; a successful one is published and watched.
    pub fn finish_restart<I>(&mut self, created: Result<I, ActorError>) -> (action: MonitorAction<I>)
        ensures
            final(self)@.policy == old(self)@.policy,
            final(self)@.restart_attempts == old(self)@.restart_attempts,
            created matches Ok(instance) ==> action == MonitorAction::Publish(instance)
                && final(self)@.monitoring == old(self)@.monitoring,
            created is Err ==> action == MonitorAction::<I>::Halt && !final(self)@.monitoring,
    {
        proof {
            use_type_invariant(&*self);
        }
        match created {
            Ok(instance) => MonitorAction::Publish(instance),
            Err(_) => {
                self.monitoring = false;
                MonitorAction::Halt
            },
        }
    }

    /// One turn of the monitor: the supervised task ended with `termination`.
    /// The factory is called exactly for a fault that the policy still covers;
    /// the new state is the one that `after` gives for the factory's outcome.
    pub fn on_termination<F: ActorFactory>(&mut self, factory: &F, termination: Termination) -> (action:
        MonitorAction<F::Instance>)
        ensures
            action is Publish ==> old(self)@.would_restart(termination),
            final(self)@ == old(self)@.after(termination, action is Publish),
    {
        if self.begin_restart(termination) {
            let created = factory.create();
            self.finish_restart(created)
        } else {
            MonitorAction::Halt
        }
    }

    /// The watched task was cancelled from outside: the monitor stops for good.
    pub fn on_cancelled(&mut self)
        ensures
            final(self)@.policy == old(self)@.policy,
            final(self)@.restart_attempts == old(self)@.restart_attempts,
            !final(self)@.monitoring,
    {
        proof {
            use_type_invariant(&*self);
        }
        self.monitoring = false;
    }
}

/// Every turn keeps the restart count within the budget.
pub proof fn lemma_turn_keeps_budget(state: SupervisorState, termination: Termination, created: bool)
    requires
        state.within_budget(),
    ensures
        state.after(termination, created).within_budget(),
        state.after(termination, created).policy == state.policy,
        state.after(termination, created).restart_attempts >= state.restart_attempts,
{
}

/// The budget bounds the restarts of a whole supervised lifetime: over any run
/// of turns, the instances published and the attempts already used together
/// never exceed it. The count is never reset by a successful restart.
pub proof fn lemma_restarts_bounded(state: SupervisorState, turns: Seq<(Termination, bool)>)
    requires
        state.within_budget(),
    ensures
        state.restart_attempts + state.restarts_over(turns) <= restart_budget(state.policy),
        state.after_all(turns).within_budget(),
        state.after_all(turns).policy == state.policy,
        state.restart_attempts + state.restarts_over(turns) <= state.after_all(
            turns,
        ).restart_attempts,
    decreases turns.len(),
{
    if turns.len() > 0 {
        let next = state.after(turns[0].0, turns[0].1);
        lemma_turn_keeps_budget(state, turns[0].0, turns[0].1);
        lemma_restarts_bounded(next, turns.drop_first());
    }
}

/// A monitor that has stopped stays stopped: after a clean end, an uncovered
/// fault or a failed construction, no later turn restarts anything.
pub proof fn lemma_halt_is_final(state: SupervisorState, turns: Seq<(Termination, bool)>)
    requires
        !state.monitoring,
    ensures
        state.restarts_over(turns) == 0,
        state.after_all(turns) == state,
    decreases turns.len(),
{
    if turns.len() > 0 {
        assert(state.after(turns[0].0, turns[0].1) == state);
        lemma_halt_is_final(state, turns.drop_first());
    }
}

/// A clean end is never followed by a restart, whatever the policy.
pub proof fn lemma_clean_end_halts(
    state: SupervisorState,
    termination: Termination,
    created: bool,
    later: Seq<(Termination, bool)>,
)
    requires
        termination is Clean,
    ensures
        !state.publishes(termination, created),
        !state.after(termination, created).monitoring,
        state.after(termination, created).restarts_over(later) == 0,
{
    lemma_halt_is_final(state.after(termination, created), later);
}

/// Under `Never` the first fault already leaves the monitor stopped, and
/// nothing is ever restarted.
pub proof fn lemma_never_restarts(state: SupervisorState, turns: Seq<(Termination, bool)>)
    requires
        state.policy == RestartPolicy::Never,
    ensures
        state.restarts_over(turns) == 0,
        turns.len() > 0 ==> !state.after_all(turns).monitoring,
    decreases turns.len(),
{
    if turns.len() > 0 {
        let next = state.after(turns[0].0, turns[0].1);
        assert(!next.monitoring);
        lemma_halt_is_final(next, turns.drop_first());
    }
}

/// With the budget used up, a fault leaves the monitor stopped for good.
pub proof fn lemma_exhausted_budget_halts(
    state: SupervisorState,
    termination: Termination,
    created: bool,
    later: Seq<(Termination, bool)>,
)
    requires
        state.restart_attempts >= restart_budget(state.policy),
    ensures
        !state.publishes(termination, created),
        !state.after(termination, created).monitoring,
        state.after(termination, created).restarts_over(later) == 0,
{
    lemma_halt_is_final(state.after(termination, created), later);
}

} // verus!
