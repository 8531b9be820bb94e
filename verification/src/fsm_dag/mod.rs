//! A turnstile as a finite-state machine, run over a queue of events.

use vstd::prelude::*;
use std::collections::VecDeque;

pub mod kahn;

pub use kahn::kahn;
use kahn::{edges_in_range, kahn_order};

verus! {

/// The turnstile is locked until a coin is paid, and locks again on a push.
#[derive(Debug, Clone, Copy, PartialEq, Eq, Structural)]
pub enum State {
    Locked,
    Unlocked,
}

#[derive(Debug, Clone, Copy, PartialEq, Eq, Structural)]
pub enum Event {
    Coin,
    Push,
}

#[derive(Debug, Clone, Copy, PartialEq, Eq, Structural)]
pub enum Action {
    Unlock,
    Lock,
    Alarm,
    ThankYou,
    /// Asks the runner to queue a coin.
    EnqueueCoin,
    /// Asks the runner to queue a push.
    EnqueuePush,
}

/// What the turnstile has counted so far.
#[derive(Debug, Clone, Copy, PartialEq, Eq, Structural)]
pub struct Ctx {
    pub coins: u32,
    pub pushes: u32,
    pub alarms: u32,
}

/// The counts as unbounded numbers.
pub struct Tally {
    pub coins: nat,
    pub pushes: nat,
    pub alarms: nat,
}

impl Tally {
    /// Whether each count is one that `Ctx` can hold.
    pub open spec fn fits(self) -> bool {
        self.coins <= u32::MAX && self.pushes <= u32::MAX && self.alarms <= u32::MAX
    }

    /// Whether no count of `self` is above that of `other`.
    pub open spec fn at_most(self, other: Tally) -> bool {
        self.coins <= other.coins && self.pushes <= other.pushes && self.alarms <= other.alarms
    }
}

impl View for Ctx {
    type V = Tally;

    open spec fn view(&self) -> Tally {
        Tally { coins: self.coins as nat, pushes: self.pushes as nat, alarms: self.alarms as nat }
    }
}

impl Default for Ctx {
    fn default() -> (ctx: Ctx)
        ensures
            ctx == (Ctx { coins: 0, pushes: 0, alarms: 0 }),
    {
        Ctx { coins: 0, pushes: 0, alarms: 0 }
    }
}

/// The state after `event`: a coin unlocks, a push locks.
pub open spec fn next_state(state: State, event: Event) -> State {
    match event {
        Event::Coin => State::Unlocked,
        Event::Push => State::Locked,
    }
}

/// What the turnstile does about `event` in `state`.
pub open spec fn actions_of(state: State, event: Event) -> Seq<Action> {
    match (state, event) {
        (State::Locked, Event::Coin) => seq![Action::Unlock],
        (State::Locked, Event::Push) => seq![Action::Alarm, Action::EnqueueCoin],
        (State::Unlocked, Event::Coin) => seq![Action::ThankYou],
        (State::Unlocked, Event::Push) => seq![Action::Lock],
    }
}

/// The counts after `event` in `state`: every coin and every push is
/// counted, and a push against the locked turnstile is an alarm too.
pub open spec fn tally_after(tally: Tally, state: State, event: Event) -> Tally {
    match (state, event) {
        (_, Event::Coin) => Tally { coins: tally.coins + 1, ..tally },
        (State::Locked, Event::Push) => Tally {
            pushes: tally.pushes + 1,
            alarms: tally.alarms + 1,
            ..tally
        },
        (State::Unlocked, Event::Push) => Tally { pushes: tally.pushes + 1, ..tally },
    }
}

/// The events that a run of actions asks to be queued, in order.
pub open spec fn requeued(actions: Seq<Action>) -> Seq<Event>
    decreases actions.len(),
{
    if actions.len() == 0 {
        seq![]
    } else {
        let rest = requeued(actions.drop_last());
        match actions.last() {
            Action::EnqueueCoin => rest.push(Event::Coin),
            Action::EnqueuePush => rest.push(Event::Push),
            _ => rest,
        }
    }
}

/// One transition of the turnstile.
pub fn step(state: State, event: Event, ctx: &mut Ctx) -> (moved: (State, Vec<Action>))
    requires
        tally_after(old(ctx)@, state, event).fits(),
    ensures
        moved.0 == next_state(state, event),
        moved.1@ == actions_of(state, event),
        final(ctx)@ == tally_after(old(ctx)@, state, event),
{
    let mut actions: Vec<Action> = Vec::new();
    let next: State = match (state, event) {
        (State::Locked, Event::Coin) => {
            ctx.coins = ctx.coins + 1;
            actions.push(Action::Unlock);
            State::Unlocked
        },
        (State::Locked, Event::Push) => {
            ctx.alarms = ctx.alarms + 1;
            ctx.pushes = ctx.pushes + 1;
            actions.push(Action::Alarm);
            actions.push(Action::EnqueueCoin);
            State::Locked
        },
        (State::Unlocked, Event::Coin) => {
            ctx.coins = ctx.coins + 1;
            actions.push(Action::ThankYou);
            State::Unlocked
        },
        (State::Unlocked, Event::Push) => {
            ctx.pushes = ctx.pushes + 1;
            actions.push(Action::Lock);
            State::Locked
        },
    };
    assert(actions@ =~= actions_of(state, event));
    (next, actions)
}

/// Where a run stands: the state, the counts, the actions taken, the events
/// still queued and the number of steps made.
pub struct Run {
    pub state: State,
    pub tally: Tally,
    pub actions: Seq<Action>,
    pub pending: Seq<Event>,
    pub steps: nat,
}

/// Runs the turnstile from `state` over the queue `pending`, for at most
/// `max_steps` steps: each step takes the event at the head of the queue,
/// and what its actions ask for is queued behind the rest.
pub open spec fn run_from(state: State, pending: Seq<Event>, tally: Tally, max_steps: nat) -> Run
    decreases max_steps,
{
    if max_steps == 0 || pending.len() == 0 {
        Run { state, tally, actions: seq![], pending, steps: 0 }
    } else {
        let event = pending[0];
        let rest = run_from(
            next_state(state, event),
            pending.drop_first() + requeued(actions_of(state, event)),
            tally_after(tally, state, event),
            (max_steps - 1) as nat,
        );
        Run {
            state: rest.state,
            tally: rest.tally,
            actions: actions_of(state, event) + rest.actions,
            pending: rest.pending,
            steps: rest.steps + 1,
        }
    }
}

/// The counts of a run never go down, and no count goes up by more than
/// one in a step: counts that leave room for `max_steps` more fit.
pub proof fn lemma_run_counts_grow(state: State, pending: Seq<Event>, tally: Tally, max_steps: nat)
    ensures
        tally.at_most(run_from(state, pending, tally, max_steps).tally),
        run_from(state, pending, tally, max_steps).steps <= max_steps,
        run_from(state, pending, tally, max_steps).tally.at_most(
            Tally {
                coins: tally.coins + max_steps,
                pushes: tally.pushes + max_steps,
                alarms: tally.alarms + max_steps,
            },
        ),
    decreases max_steps,
{
    if max_steps > 0 && pending.len() > 0 {
        let event = pending[0];
        lemma_run_counts_grow(
            next_state(state, event),
            pending.drop_first() + requeued(actions_of(state, event)),
            tally_after(tally, state, event),
            (max_steps - 1) as nat,
        );
    }
}

/// Queues behind `queue` what `actions` ask for.
fn enqueue_requested(queue: &mut VecDeque<Event>, actions: &Vec<Action>)
    ensures
        final(queue)@ == old(queue)@ + requeued(actions@),
{
    let mut done: usize = 0;
    while done < actions.len()
        invariant
            done <= actions.len(),
            queue@ == old(queue)@ + requeued(actions@.take(done as int)),
        decreases actions.len() - done,
    {
        proof {
            let upto = actions@.take(done + 1);
            assert(upto.drop_last() =~= actions@.take(done as int));
            assert(upto.last() == actions@[done as int]);
        }
        match actions[done] {
            Action::EnqueueCoin => queue.push_back(Event::Coin),
            Action::EnqueuePush => queue.push_back(Event::Push),
            _ => {},
        }
        assert(queue@ =~= old(queue)@ + requeued(actions@.take(done + 1)));
        done = done + 1;
    }
    assert(actions@.take(actions.len() as int) =~= actions@);
}

/// Runs the turnstile over `init_events`, for at most `max_steps` steps.
/// Returns the state reached, every action taken, in order, and whether the
/// run stopped at the bound with events still queued.
pub fn run(init_state: State, init_events: &[Event], ctx: &mut Ctx, max_steps: usize) -> (ended: (
    State,
    Vec<Action>,
    bool,
))
    requires
        run_from(init_state, init_events@, old(ctx)@, max_steps as nat).tally.fits(),
    ensures
        ({
            let model = run_from(init_state, init_events@, old(ctx)@, max_steps as nat);
            &&& ended.0 == model.state
            &&& ended.1@ == model.actions
            &&& ended.2 == (model.steps == max_steps && model.pending.len() > 0)
            &&& final(ctx)@ == model.tally
        }),
{
    let ghost model = run_from(init_state, init_events@, ctx@, max_steps as nat);
    let mut q: VecDeque<Event> = VecDeque::new();
    let mut copied: usize = 0;
    while copied < init_events.len()
        invariant
            copied <= init_events.len(),
            q@ == init_events@.take(copied as int),
        decreases init_events.len() - copied,
    {
        q.push_back(init_events[copied]);
        assert(q@ =~= init_events@.take(copied + 1));
        copied = copied + 1;
    }
    assert(q@ =~= init_events@);
    let mut state = init_state;
    let mut step_counter: usize = 0;
    let mut all_actions: Vec<Action> = Vec::new();
    assert(all_actions@ + model.actions =~= model.actions);
    while step_counter < max_steps
        invariant
            step_counter <= max_steps,
            model.tally.fits(),
            ({
                let rest = run_from(state, q@, ctx@, (max_steps - step_counter) as nat);
                &&& model.state == rest.state
                &&& model.tally == rest.tally
                &&& model.pending == rest.pending
                &&& model.actions == all_actions@ + rest.actions
                &&& model.steps == step_counter + rest.steps
            }),
        ensures
            step_counter == max_steps || q@.len() == 0,
        decreases max_steps - step_counter,
    {
        let ghost before = q@;
        let ghost fuel = (max_steps - step_counter) as nat;
        let event = match q.pop_front() {
            Some(event) => event,
            None => {
                break ;
            },
        };
        assert(q@ =~= before.drop_first());
        proof {
            lemma_run_counts_grow(
                next_state(state, event),
                before.drop_first() + requeued(actions_of(state, event)),
                tally_after(ctx@, state, event),
                (fuel - 1) as nat,
            );
        }
        step_counter = step_counter + 1;
        let (next_step, mut action_for_step) = step(state, event, ctx);
        enqueue_requested(&mut q, &action_for_step);
        let ghost taken = all_actions@;
        all_actions.append(&mut action_for_step);
        proof {
            let after = run_from(next_step, q@, ctx@, (fuel - 1) as nat);
            assert(taken + (actions_of(state, event) + after.actions) =~= all_actions@
                + after.actions);
        }
        state = next_step;
    }
    let hit_cap: bool = step_counter == max_steps && q.len() > 0;
    (state, all_actions, hit_cap)
}

/// The events of one pass over the nodes in `ordered`: node 0 pushes
/// against a locked turnstile, node 2 pays a coin while the turnstile is
/// locked or fewer than three coins were paid; no other node does anything.
pub open spec fn pass_events(state: State, coins: nat, ordered: Seq<usize>) -> Seq<Event>
    decreases ordered.len(),
{
    if ordered.len() == 0 {
        seq![]
    } else {
        let rest = pass_events(state, coins, ordered.drop_last());
        let node = ordered.last();
        if node == 0 && state == State::Locked {
            rest.push(Event::Push)
        } else if node == 2 && (state == State::Locked || coins < 3) {
            rest.push(Event::Coin)
        } else {
            rest
        }
    }
}

/// Where a series of passes stands.
pub struct Passes {
    pub state: State,
    pub tally: Tally,
    pub actions: Seq<Action>,
}

/// Makes up to `max_passes` passes over `ordered`, each a run of at most
/// `max_steps` steps on the events of the pass, and stops after the first
/// pass that leaves the turnstile unlocked.
pub open spec fn passes_from(
    state: State,
    tally: Tally,
    ordered: Seq<usize>,
    max_passes: nat,
    max_steps: nat,
) -> Passes
    decreases max_passes,
{
    if max_passes == 0 {
        Passes { state, tally, actions: seq![] }
    } else {
        let pass = run_from(state, pass_events(state, tally.coins, ordered), tally, max_steps);
        if pass.state == State::Unlocked {
            Passes { state: pass.state, tally: pass.tally, actions: pass.actions }
        } else {
            let rest = passes_from(
                pass.state,
                pass.tally,
                ordered,
                (max_passes - 1) as nat,
                max_steps,
            );
            Passes { state: rest.state, tally: rest.tally, actions: pass.actions + rest.actions }
        }
    }
}

/// What `run_passes` gives for a graph: nothing happens if the graph has no
/// topological order; else the passes are made over the order that `kahn` finds.
pub open spec fn passes_over_graph(
    state: State,
    n: nat,
    edges: Seq<(usize, usize)>,
    max_passes: nat,
    max_steps: nat,
) -> Passes {
    let ordered = kahn_order(n, edges);
    let nothing = Tally { coins: 0, pushes: 0, alarms: 0 };
    if ordered.len() == 0 {
        Passes { state, tally: nothing, actions: seq![] }
    } else {
        passes_from(state, nothing, ordered, max_passes, max_steps)
    }
}

/// The counts of a series of passes never go down.
pub proof fn lemma_pass_counts_grow(
    state: State,
    tally: Tally,
    ordered: Seq<usize>,
    max_passes: nat,
    max_steps: nat,
)
    ensures
        tally.at_most(passes_from(state, tally, ordered, max_passes, max_steps).tally),
    decreases max_passes,
{
    if max_passes > 0 {
        let events = pass_events(state, tally.coins, ordered);
        let pass = run_from(state, events, tally, max_steps);
        lemma_run_counts_grow(state, events, tally, max_steps);
        if pass.state != State::Unlocked {
            lemma_pass_counts_grow(
                pass.state,
                pass.tally,
                ordered,
                (max_passes - 1) as nat,
                max_steps,
            );
        }
    }
}

/// Collects the events of one pass.
fn collect_pass_events(events: &mut Vec<Event>, state: State, coins: u32, ordered: &Vec<usize>)
    ensures
        final(events)@ == pass_events(state, coins as nat, ordered@),
{
    events.clear();
    let mut seen: usize = 0;
    while seen < ordered.len()
        invariant
            seen <= ordered.len(),
            events@ == pass_events(state, coins as nat, ordered@.take(seen as int)),
        decreases ordered.len() - seen,
    {
        proof {
            let upto = ordered@.take(seen + 1);
            assert(upto.drop_last() =~= ordered@.take(seen as int));
            assert(upto.last() == ordered@[seen as int]);
        }
        let node = ordered[seen];
        if node == 0 {
            if state == State::Locked {
                events.push(Event::Push);
            }
        } else if node == 2 {
            if state == State::Locked {
                events.push(Event::Coin);
            } else if coins < 3 {
                events.push(Event::Coin);
            }
        }
        seen = seen + 1;
    }
    assert(ordered@.take(ordered.len() as int) =~= ordered@);
}

/// Drives the turnstile from a graph of nodes: the nodes are put in
/// topological order, and up to `max_passes` passes are made over them, each
/// a run of at most `max_steps_per_pass` steps. Returns the state reached,
/// the counts and every action taken; a graph with a cycle gives the initial
/// state, no counts and no actions.
pub fn run_passes(
    init_state: State,
    num_nodes: usize,
    edges: &[(usize, usize)],
    max_passes: usize,
    max_steps_per_pass: usize,
) -> (ended: (State, Ctx, Vec<Action>))
    requires
        edges_in_range(num_nodes as nat, edges@),
        passes_over_graph(
            init_state,
            num_nodes as nat,
            edges@,
            max_passes as nat,
            max_steps_per_pass as nat,
        ).tally.fits(),
    ensures
        ({
            let model = passes_over_graph(
                init_state,
                num_nodes as nat,
                edges@,
                max_passes as nat,
                max_steps_per_pass as nat,
            );
            &&& ended.0 == model.state
            &&& ended.1@ == model.tally
            &&& ended.2@ == model.actions
        }),
{
    let mut state = init_state;
    let mut ctx: Ctx = Ctx::default();
    let mut all_actions: Vec<Action> = Vec::new();
    let ordered: Vec<usize> = kahn(num_nodes, edges);
    if ordered.len() == 0 {
        return (state, Ctx::default(), Vec::new());
    }
    let ghost model = passes_from(
        init_state,
        ctx@,
        ordered@,
        max_passes as nat,
        max_steps_per_pass as nat,
    );
    let mut events: Vec<Event> = Vec::new();
    let mut pass: usize = 0;
    assert(all_actions@ + model.actions =~= model.actions);
    while pass < max_passes
        invariant
            pass <= max_passes,
            model.tally.fits(),
            model == passes_over_graph(
                init_state,
                num_nodes as nat,
                edges@,
                max_passes as nat,
                max_steps_per_pass as nat,
            ),
            ({
                let rest = passes_from(
                    state,
                    ctx@,
                    ordered@,
                    (max_passes - pass) as nat,
                    max_steps_per_pass as nat,
                );
                &&& model.state == rest.state
                &&& model.tally == rest.tally
                &&& model.actions == all_actions@ + rest.actions
            }),
        decreases max_passes - pass,
    {
        collect_pass_events(&mut events, state, ctx.coins, &ordered);
        let ghost left = (max_passes - pass) as nat;
        let ghost this_pass = run_from(state, events@, ctx@, max_steps_per_pass as nat);
        let ghost taken = all_actions@;
        proof {
            lemma_run_counts_grow(state, events@, ctx@, max_steps_per_pass as nat);
            if this_pass.state != State::Unlocked {
                lemma_pass_counts_grow(
                    this_pass.state,
                    this_pass.tally,
                    ordered@,
                    (left - 1) as nat,
                    max_steps_per_pass as nat,
                );
            }
        }
        let (next_step, mut next_actions, _) = run(
            state,
            events.as_slice(),
            &mut ctx,
            max_steps_per_pass,
        );
        state = next_step;
        all_actions.append(&mut next_actions);
        if state == State::Unlocked {
            assert(all_actions@ =~= taken + this_pass.actions);
            return (state, ctx, all_actions);
        }
        proof {
            let rest = passes_from(
                state,
                ctx@,
                ordered@,
                (left - 1) as nat,
                max_steps_per_pass as nat,
            );
            assert(taken + (this_pass.actions + rest.actions) =~= all_actions@ + rest.actions);
        }
        pass = pass + 1;
    }
    (state, ctx, all_actions)
}

} // verus!
