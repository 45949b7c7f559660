//! Deterministic simulation: drives a [`StateMachine`] through a scripted
//! [`Trace`] of events, records the effects of each step in a
//! [`RecordingSink`], and injects [`Fault`]s at chosen steps. The same trace
//! always produces the same state and effects.

use vstd::prelude::*;

use crate::cell::{effect_views, Effect, EffectSink, EffectView, RecordingSink};
use crate::machine::StateMachine;
use crate::text::{decimal, with_decimal};
use crate::types::Error;

verus! {

/// A fault injected at a given step of a trace.
#[derive(Debug, Clone, Copy, PartialEq, Eq, Structural)]
pub enum Fault {
    /// The transition at this step fails.
    TransitionError,
    /// Effects requested at this step are dropped instead of dispatched.
    DropEffects,
}

/// A scripted sequence of events with optional faults.
#[derive(Debug, Clone)]
pub struct Trace<E> {
    /// Events in order.
    pub events: Vec<E>,
    /// Faults keyed by the step index at which they fire.
    pub faults: Vec<(usize, Fault)>,
}

/// The fault of the first entry of `faults` keyed by `step`, if any.
pub open spec fn first_fault(faults: Seq<(usize, Fault)>, step: int) -> Option<Fault>
    decreases faults.len(),
{
    if faults.len() == 0 {
        None
    } else if faults[0].0 == step {
        Some(faults[0].1)
    } else {
        first_fault(faults.drop_first(), step)
    }
}

/// The fault at a step is that of the first entry keyed by it, wherever that
/// entry stands: when entry `i` is keyed by `step` and no earlier entry is,
/// the fault at `step` is the fault of entry `i`.
pub proof fn lemma_fault_is_first_keyed_entry(faults: Seq<(usize, Fault)>, step: int, i: int)
    requires
        0 <= i < faults.len(),
        faults[i].0 == step,
        forall|j: int| 0 <= j < i ==> (#[trigger] faults[j]).0 != step,
    ensures
        first_fault(faults, step) == Some(faults[i].1),
    decreases i,
{
    if i > 0 {
        let t = faults.drop_first();
        assert(faults[0].0 != step);
        assert(t[i - 1] == faults[i]);
        assert forall|j: int| 0 <= j < i - 1 implies (#[trigger] t[j]).0 != step by {
            assert(t[j] == faults[j + 1]);
        }
        lemma_fault_is_first_keyed_entry(t, step, i - 1);
    }
}

/// No fault fires at a step exactly when no entry is keyed by it.
pub proof fn lemma_no_fault_iff_unkeyed(faults: Seq<(usize, Fault)>, step: int)
    ensures
        first_fault(faults, step) is None <==> forall|j: int| 0 <= j < faults.len() ==> (#[trigger] faults[j]).0 != step,
    decreases faults.len(),
{
    if faults.len() > 0 {
        let t = faults.drop_first();
        lemma_no_fault_iff_unkeyed(t, step);
        if faults[0].0 != step {
            if forall|j: int| 0 <= j < t.len() ==> (#[trigger] t[j]).0 != step {
                assert forall|j: int| 0 <= j < faults.len() implies (#[trigger] faults[j]).0 != step by {
                    if j > 0 {
                        assert(faults[j] == t[j - 1]);
                    }
                }
            } else {
                let j = choose|j: int| 0 <= j < t.len() && (#[trigger] t[j]).0 == step;
                assert(faults[j + 1] == t[j]);
            }
        }
    }
}

impl<E> Trace<E> {
    /// A trace with no faults.
    pub fn new(events: Vec<E>) -> (t: Self)
        ensures
            t.events == events,
            t.faults@ == Seq::<(usize, Fault)>::empty(),
    {
        Trace { events, faults: Vec::new() }
    }

    /// The fault that fires at `step`: that of the first entry keyed by it.
    pub fn fault_at(&self, step: usize) -> (f: Option<&Fault>)
        ensures
            match f {
                Some(fault) => first_fault(self.faults@, step as int) == Some(*fault),
                None => first_fault(self.faults@, step as int) is None,
            },
    {
        let n = self.faults.len();
        let mut i: usize = 0;
        assert(self.faults@.skip(0) == self.faults@);
        while i < n
            invariant
                i <= n,
                n == self.faults@.len(),
                first_fault(self.faults@, step as int) == first_fault(self.faults@.skip(i as int), step as int),
            decreases n - i,
        {
            assert(self.faults@.skip(i as int)[0] == self.faults@[i as int]);
            if self.faults[i].0 == step {
                return Some(&self.faults[i].1);
            }
            assert(self.faults@.skip(i as int).drop_first() == self.faults@.skip(i + 1));
            i = i + 1;
        }
        None
    }
}

/// The error an injected transition fault produces.
pub open spec fn injected_fault() -> Error {
    Error::NotImplemented("injected transition fault")
}

/// The line logged for a successful step.
pub open spec fn step_line(step: int) -> Seq<char> {
    "step "@ + decimal(step as nat)
}

/// What a replay does from `step` on, in `state`, over `n` events whose clones
/// are `c`: the result, the effects it records, and whether `c` held every
/// event the replay reached.
pub open spec fn run<M: StateMachine>(
    m: M,
    state: M::State,
    c: Seq<M::Event>,
    faults: Seq<(usize, Fault)>,
    n: int,
    step: int,
) -> (Result<M::State, Error>, Seq<EffectView>, bool)
    decreases n - step,
{
    if step >= n {
        (Ok(state), Seq::empty(), true)
    } else if first_fault(faults, step) == Some(Fault::TransitionError) {
        (Err(injected_fault()), Seq::empty(), true)
    } else if step < 0 || step >= c.len() {
        (Ok(state), Seq::empty(), false)
    } else {
        match m.transition_result(state, c[step]) {
            Err(e) => (Err(e), Seq::empty(), true),
            Ok(next) => {
                let rest = run(m, next, c, faults, n, step + 1);
                if first_fault(faults, step) == Some(Fault::DropEffects) {
                    rest
                } else {
                    (rest.0, seq![EffectView::Log(step_line(step))] + rest.1, rest.2)
                }
            },
        }
    }
}

proof fn lemma_run_agrees<M: StateMachine>(
    m: M,
    state: M::State,
    c: Seq<M::Event>,
    events: Seq<M::Event>,
    faults: Seq<(usize, Fault)>,
    step: int,
)
    requires
        0 <= step,
        c.len() <= events.len(),
        forall|i: int| step <= i < c.len() ==> c[i] == events[i],
        run(m, state, c, faults, events.len() as int, step).2,
    ensures
        run(m, state, c, faults, events.len() as int, step) == run(m, state, events, faults, events.len() as int, step),
    decreases events.len() - step,
{
    let n = events.len() as int;
    if step < n && first_fault(faults, step) != Some(Fault::TransitionError) && step < c.len() {
        match m.transition_result(state, c[step]) {
            Ok(next) => lemma_run_agrees(m, next, c, events, faults, step + 1),
            Err(_) => {},
        }
    }
}

/// Replay is determined by the trace: a replay whose clones of the events
/// equal the events records the effects, and reaches the result, of the run
/// over the events themselves. So two replays of one trace from one state
/// agree wherever cloning an event gives it back unchanged.
pub proof fn lemma_replay_determined_by_trace<M: StateMachine>(
    m: M,
    initial: M::State,
    c: Seq<M::Event>,
    trace: Trace<M::Event>,
)
    requires
        c.len() <= trace.events@.len(),
        forall|i: int| 0 <= i < c.len() ==> c[i] == trace.events@[i],
        run(m, initial, c, trace.faults@, trace.events@.len() as int, 0).2,
    ensures
        run(m, initial, c, trace.faults@, trace.events@.len() as int, 0) == run(
            m,
            initial,
            trace.events@,
            trace.faults@,
            trace.events@.len() as int,
            0,
        ),
{
    lemma_run_agrees(m, initial, c, trace.events@, trace.faults@, 0);
}

/// Replay depends on the machine only through its transitions: two machines
/// that compute the same transition for every state and event reach the same
/// result, and record the same effects, over every trace from every state.
pub proof fn lemma_run_same_transitions<M1: StateMachine, M2: StateMachine<State = M1::State, Event = M1::Event>>(
    m1: M1,
    m2: M2,
    state: M1::State,
    c: Seq<M1::Event>,
    faults: Seq<(usize, Fault)>,
    n: int,
    step: int,
)
    requires
        forall|s: M1::State, e: M1::Event| #[trigger] m1.transition_result(s, e) == m2.transition_result(s, e),
    ensures
        run(m1, state, c, faults, n, step) == run(m2, state, c, faults, n, step),
    decreases n - step,
{
    if step < n && first_fault(faults, step) != Some(Fault::TransitionError) && 0 <= step < c.len() {
        match m1.transition_result(state, c[step]) {
            Ok(next) => lemma_run_same_transitions(m1, m2, next, c, faults, n, step + 1),
            Err(_) => {},
        }
    }
}

proof fn lemma_run_logs_from<M: StateMachine>(
    m: M,
    state: M::State,
    c: Seq<M::Event>,
    n: int,
    step: int,
)
    requires
        0 <= step <= n,
        c.len() == n,
        run(m, state, c, Seq::empty(), n, step).0 is Ok,
    ensures
        run(m, state, c, Seq::empty(), n, step).1 == Seq::new(
            (n - step) as nat,
            |i: int| EffectView::Log(step_line(step + i)),
        ),
    decreases n - step,
{
    if step < n {
        match m.transition_result(state, c[step]) {
            Ok(next) => {
                lemma_run_logs_from(m, next, c, n, step + 1);
                let rest = run(m, next, c, Seq::empty(), n, step + 1);
                assert(seq![EffectView::Log(step_line(step))] + rest.1 =~= Seq::new(
                    (n - step) as nat,
                    |i: int| EffectView::Log(step_line(step + i)),
                ));
            },
            Err(_) => {},
        }
    } else {
        assert(Seq::<EffectView>::empty() =~= Seq::new(
            (n - step) as nat,
            |i: int| EffectView::Log(step_line(step + i)),
        ));
    }
}

/// A replay with no faults that succeeds logs `step 0`, `step 1`, ... once for
/// each event, in order.
pub proof fn lemma_fault_free_replay_logs_each_step<M: StateMachine>(
    m: M,
    initial: M::State,
    c: Seq<M::Event>,
)
    requires
        run(m, initial, c, Seq::empty(), c.len() as int, 0).0 is Ok,
    ensures
        run(m, initial, c, Seq::empty(), c.len() as int, 0).1 == Seq::new(
            c.len(),
            |i: int| EffectView::Log(step_line(i)),
        ),
{
    lemma_run_logs_from(m, initial, c, c.len() as int, 0);
    assert(Seq::new(c.len(), |i: int| EffectView::Log(step_line(0 + i))) =~= Seq::new(
        c.len(),
        |i: int| EffectView::Log(step_line(i)),
    ));
}

/// Faults fire at their step: when the first fault keyed by a step within the
/// trace is a transition fault, the replay fails.
pub proof fn lemma_transition_fault_fails<M: StateMachine>(
    m: M,
    state: M::State,
    c: Seq<M::Event>,
    faults: Seq<(usize, Fault)>,
    n: int,
    step: int,
    k: int,
)
    requires
        0 <= step <= k < n,
        first_fault(faults, k) == Some(Fault::TransitionError),
        run(m, state, c, faults, n, step).2,
    ensures
        run(m, state, c, faults, n, step).0 is Err,
    decreases k - step,
{
    if step < k && first_fault(faults, step) != Some(Fault::TransitionError) && step < c.len() {
        match m.transition_result(state, c[step]) {
            Ok(next) => lemma_transition_fault_fails(m, next, c, faults, n, step + 1, k),
            Err(_) => {},
        }
    }
}

/// A transition fault keyed by a step within the trace fails the replay,
/// wherever its entry stands in the fault list, provided no earlier entry is
/// keyed by the same step.
pub proof fn lemma_keyed_transition_fault_fails<M: StateMachine>(
    m: M,
    state: M::State,
    c: Seq<M::Event>,
    faults: Seq<(usize, Fault)>,
    n: int,
    i: int,
)
    requires
        0 <= i < faults.len(),
        faults[i].1 == Fault::TransitionError,
        faults[i].0 < n,
        forall|j: int| 0 <= j < i ==> (#[trigger] faults[j]).0 != faults[i].0,
        run(m, state, c, faults, n, 0).2,
    ensures
        run(m, state, c, faults, n, 0).0 is Err,
{
    lemma_fault_is_first_keyed_entry(faults, faults[i].0 as int, i);
    lemma_transition_fault_fails(m, state, c, faults, n, 0, faults[i].0 as int);
}

/// Runs a state machine deterministically.
#[derive(Debug)]
pub struct Simulation<M: StateMachine> {
    machine: M,
    sink: RecordingSink,
}

impl<M: StateMachine> Simulation<M> {
    /// The machine being driven.
    pub closed spec fn machine(&self) -> M {
        self.machine
    }

    /// Effects dispatched so far, in order.
    pub closed spec fn recorded(&self) -> Seq<Effect> {
        self.sink.effects@
    }

    /// Creates a simulation over `machine`, with no effects recorded.
    pub fn new(machine: M) -> (s: Self)
        ensures
            s.machine() == machine,
            s.recorded() == Seq::<Effect>::empty(),
    {
        Simulation { machine, sink: RecordingSink { effects: Vec::new() } }
    }

    /// Effects dispatched so far.
    pub fn effects(&self) -> (e: &[Effect])
        ensures
            e@ == self.recorded(),
    {
        self.sink.effects.as_slice()
    }

    /// Replays `trace` from `initial`, returning the final state.
    ///
    /// At each step the first fault keyed by it decides: a transition fault
    /// fails the replay; dropped effects run the transition but log nothing;
    /// otherwise the transition runs and `step <index>` is logged. A failing
    /// transition ends the replay with its error. The events are cloned as they
    /// are applied: `c` below holds those clones.
    pub fn replay(&mut self, initial: M::State, trace: &Trace<M::Event>) -> (r: Result<M::State, Error>)
        where
            M::Event: Clone,
        ensures
            final(self).machine() == old(self).machine(),
            exists|c: Seq<M::Event>|
                #![trigger run(old(self).machine(), initial, c, trace.faults@, trace.events@.len() as int, 0)]
                {
                    &&& c.len() <= trace.events@.len()
                    &&& forall|i: int| 0 <= i < c.len() ==> cloned(trace.events@[i], #[trigger] c[i])
                    &&& run(old(self).machine(), initial, c, trace.faults@, trace.events@.len() as int, 0).2
                    &&& r == run(old(self).machine(), initial, c, trace.faults@, trace.events@.len() as int, 0).0
                    &&& effect_views(final(self).recorded()) == effect_views(old(self).recorded()) + run(
                        old(self).machine(),
                        initial,
                        c,
                        trace.faults@,
                        trace.events@.len() as int,
                        0,
                    ).1
                },
    {
        let ghost m = self.machine;
        assert(m == old(self).machine());
        let ghost init = initial;
        let ghost faults = trace.faults@;
        let ghost events = trace.events@;
        let ghost start = effect_views(self.sink.effects@);
        assert(start == effect_views(old(self).recorded()));
        let n = trace.events.len();
        let ghost nn = n as int;
        let mut state = initial;
        let mut step: usize = 0;
        let ghost mut used: Seq<M::Event> = Seq::empty();
        let ghost mut logged: Seq<EffectView> = Seq::empty();
        while step < n
            invariant
                self.machine == m,
                m == old(self).machine(),
                init == initial,
                start == effect_views(old(self).recorded()),
                faults == trace.faults@,
                events == trace.events@,
                n == events.len(),
                nn == n as int,
                step <= n,
                used.len() == step,
                forall|i: int| 0 <= i < used.len() ==> cloned(events[i], #[trigger] used[i]),
                effect_views(self.sink.effects@) == start + logged,
                forall|u: Seq<M::Event>|
                    #![trigger run(m, init, u, faults, nn, 0)]
                    u.len() >= step && u.take(step as int) == used ==> {
                        let whole = run(m, init, u, faults, nn, 0);
                        let rest = run(m, state, u, faults, nn, step as int);
                        &&& whole.0 == rest.0
                        &&& whole.1 == logged + rest.1
                        &&& whole.2 == rest.2
                    },
            decreases n - step,
        {
            let fault = trace.fault_at(step);
            let drop_effects = match fault {
                Some(Fault::TransitionError) => {
                    proof {
                        assert(used.take(step as int) == used);
                        let rest = run(m, state, used, faults, nn, step as int);
                        assert(rest.0 == Err::<M::State, Error>(injected_fault()));
                        assert(logged + Seq::<EffectView>::empty() == logged);
                        let whole = run(m, init, used, faults, nn, 0);
                        assert(whole.0 == rest.0);
                        assert(whole.2);
                    }
                    return Err(Error::NotImplemented("injected transition fault"));
                },
                Some(Fault::DropEffects) => true,
                None => false,
            };
            let event = trace.events[step].clone();
            let ghost prev_used = used;
            let ghost prev_logged = logged;
            let ghost prev_state = state;
            proof {
                used = used.push(event);
            }
            match self.machine.transition(&state, event) {
                Ok(next) => {
                    state = next;
                },
                Err(e) => {
                    proof {
                        assert(used.take(step as int) == prev_used);
                        assert(used[step as int] == event);
                        assert(logged + Seq::<EffectView>::empty() == logged);
                        let whole = run(m, init, used, faults, nn, 0);
                        let rest = run(m, prev_state, used, faults, nn, step as int);
                        assert(whole.0 == rest.0);
                        assert(rest.0 == Err::<M::State, Error>(e));
                    }
                    return Err(e);
                },
            }
            if !drop_effects {
                let line = with_decimal("step ", step as u64);
                let effect = Effect::Log(line);
                let ghost eff = effect;
                let ghost before_effects = self.sink.effects@;
                let _ = self.sink.dispatch(effect);
                proof {
                    assert(eff@ == EffectView::Log(step_line(step as int)));
                    assert(effect_views(before_effects.push(eff)) =~= effect_views(before_effects).push(eff@));
                    assert(start + logged.push(eff@) =~= (start + logged).push(eff@));
                    logged = logged.push(EffectView::Log(step_line(step as int)));
                    assert(effect_views(self.sink.effects@) == start + logged);
                }
            }
            proof {
                assert forall|u: Seq<M::Event>|
                    #![trigger run(m, init, u, faults, nn, 0)]
                    u.len() >= step + 1 && u.take(step + 1) == used implies {
                        let whole = run(m, init, u, faults, nn, 0);
                        let rest = run(m, state, u, faults, nn, step + 1);
                        &&& whole.0 == rest.0
                        &&& whole.1 == logged + rest.1
                        &&& whole.2 == rest.2
                    } by {
                    assert(u.take(step as int) == u.take(step + 1).take(step as int));
                    assert(u.take(step as int) == prev_used);
                    assert(u[step as int] == u.take(step + 1)[step as int]);
                    assert(u[step as int] == event);
                    let rest_next = run(m, state, u, faults, nn, step + 1);
                    let rest_prev = run(m, prev_state, u, faults, nn, step as int);
                    if drop_effects {
                        assert(rest_prev == rest_next);
                    } else {
                        assert(rest_prev.1 == seq![EffectView::Log(step_line(step as int))] + rest_next.1);
                        assert(prev_logged + rest_prev.1 == logged + rest_next.1);
                    }
                }
            }
            step = step + 1;
        }
        proof {
            assert(used.take(n as int) == used);
            assert(logged + Seq::<EffectView>::empty() == logged);
            let whole = run(m, init, used, faults, nn, 0);
            assert(whole.0 == Ok::<M::State, Error>(state));
        }
        Ok(state)
    }
}

} // verus!
