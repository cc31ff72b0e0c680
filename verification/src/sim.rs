//! A deterministic simulator for the scheduler.
//!
//! The simulator owns a [`Runtime`] and plays the part of the CPU. A task is
//! a script: it does a piece of work and yields, a given number of times,
//! and then returns. Each turn of the simulator lets the current fiber run up
//! to the point where it gives up the CPU, appends what the fiber did to a
//! log, and lets the runtime pick the next fiber. The driver in slot 0 does
//! nothing but yield, and the simulation is over when its yield finds no
//! fiber to run.
use crate::runtime::{Runtime, RuntimeView, SpawnError};
use crate::schedule::{
    ahead, exhausted, is_first_available, lemma_nearest_is_next_runnable,
    lemma_next_runnable_is_nearest, lemma_return_settles, lemma_yield_keeps_coherent,
    next_runnable, states_on_return,
};
use crate::stack::frame_fits;
use crate::thread::{State, DEFAULT_STACK_SIZE};
use vstd::prelude::*;

verus! {

/// One entry of the log.
#[derive(Clone, Copy, Debug, PartialEq, Eq, Structural)]
pub enum Event {
    /// The task in `slot` did a piece of work, its `counter`-th counting from
    /// zero, and yielded.
    Output { slot: usize, counter: u64 },
    /// The task in `slot` returned.
    Completed { slot: usize },
}

/// A scripted task: the address of its entry function and the number of
/// times it yields before it returns.
#[derive(Clone, Copy, Debug, PartialEq, Eq, Structural)]
pub struct Task {
    pub entry: u64,
    pub yields: u64,
}

/// A runtime together with the scripts of its fibers and the log of what
/// they did.
pub struct Simulator {
    rt: Runtime,
    skip: u64,
    guard: u64,
    remaining: Vec<u64>,
    emitted: Vec<u64>,
    log: Vec<Event>,
}

/// What a [`Simulator`] holds, as plain values.
pub struct SimView {
    /// The runtime.
    pub rt: RuntimeView,
    /// The address that stands for the `skip` stub.
    pub skip: u64,
    /// The address that stands for the `guard` routine.
    pub guard: u64,
    /// For each slot, how many times its task has yet to yield.
    pub remaining: Seq<u64>,
    /// For each slot, how many pieces of work its task has done.
    pub emitted: Seq<u64>,
    /// What the tasks did, in order.
    pub log: Seq<Event>,
}

/// The counters `from`, `from + 1`, ... of `count` successive pieces of work.
pub open spec fn counters(from: int, count: int) -> Seq<u64> {
    Seq::new(count as nat, |i: int| (from + i) as u64)
}

/// How many times the log records that the task in `slot` returned.
pub open spec fn completions(log: Seq<Event>, slot: int) -> nat
    decreases log.len(),
{
    if log.len() == 0 {
        0
    } else {
        let before = completions(log.drop_last(), slot);
        match log.last() {
            Event::Completed { slot: s } => if s == slot {
                before + 1
            } else {
                before
            },
            Event::Output { .. } => before,
        }
    }
}

/// The counters of the pieces of work that the log records for the task in
/// `slot`, in the order of the log.
pub open spec fn outputs(log: Seq<Event>, slot: int) -> Seq<u64>
    decreases log.len(),
{
    if log.len() == 0 {
        Seq::empty()
    } else {
        let before = outputs(log.drop_last(), slot);
        match log.last() {
            Event::Output { slot: s, counter } => if s == slot {
                before.push(counter)
            } else {
                before
            },
            Event::Completed { .. } => before,
        }
    }
}

/// What the slot `i` weighs in the work that is left: nothing for the driver
/// and for a free slot, else one turn for each yield that is still to come
/// and one for the return.
pub open spec fn weight(states: Seq<State>, remaining: Seq<u64>, i: int) -> nat {
    if i == 0 || states[i] == State::Available {
        0
    } else {
        (remaining[i] + 1) as nat
    }
}

/// The turns that the tasks in slots `i` and up still need.
pub open spec fn work_from(states: Seq<State>, remaining: Seq<u64>, i: int) -> nat
    decreases states.len() - i,
{
    if i < 0 || i >= states.len() {
        0
    } else {
        weight(states, remaining, i) + work_from(states, remaining, i + 1)
    }
}

impl SimView {
    /// The invariant of a simulator: a well-formed runtime that is the
    /// active scheduler, a script for every slot, and no counter that could
    /// run over.
    pub open spec fn wf(self) -> bool {
        &&& self.rt.wf()
        &&& self.rt.active
        &&& self.rt.states.len() <= usize::MAX
        &&& self.remaining.len() == self.rt.states.len()
        &&& self.emitted.len() == self.rt.states.len()
        &&& forall|i: int|
            0 <= i < self.remaining.len() ==> #[trigger] self.remaining[i] + self.emitted[i]
                <= u64::MAX
    }

    /// The simulation is over: the driver runs and no other fiber has work.
    pub open spec fn halted(self) -> bool {
        self.rt.current == 0 && next_runnable(self.rt.states, 0) is None
    }

    /// One turn of the simulator.
    ///
    /// The driver yields. A task with yields left records a piece of work
    /// and yields. A task with none left records that it returns, and
    /// returns. In a simulation that is over, a turn changes nothing.
    pub open spec fn step(self) -> SimView {
        let c = self.rt.current;
        if c == 0 {
            SimView { rt: self.rt.yielded(), ..self }
        } else if self.remaining[c] > 0 {
            SimView {
                rt: self.rt.yielded(),
                remaining: self.remaining.update(c, (self.remaining[c] - 1) as u64),
                emitted: self.emitted.update(c, (self.emitted[c] + 1) as u64),
                log: self.log.push(Event::Output { slot: c as usize, counter: self.emitted[c] }),
                ..self
            }
        } else {
            SimView {
                rt: self.rt.returned(),
                log: self.log.push(Event::Completed { slot: c as usize }),
                ..self
            }
        }
    }

    /// `n` turns of the simulator.
    pub open spec fn steps(self, n: nat) -> SimView
        decreases n,
    {
        if n == 0 {
            self
        } else {
            self.steps((n - 1) as nat).step()
        }
    }

    /// The simulator after a task was spawned into `slot`, whose stack lies
    /// at `base`.
    pub open spec fn spawned(self, slot: int, base: int, task: Task) -> SimView {
        SimView {
            rt: self.rt.spawned(slot, base, task.entry, self.skip, self.guard),
            remaining: self.remaining.update(slot, task.yields),
            emitted: self.emitted.update(slot, 0),
            ..self
        }
    }

    /// An upper bound on the turns until the simulation is over, which every
    /// turn but the last lowers.
    pub open spec fn measure(self) -> nat {
        2 * work_from(self.rt.states, self.remaining, 0) + if self.rt.current == 0 {
            1nat
        } else {
            0nat
        }
    }
}

/// `to` is where a run that starts in `from` ends: it is reached from `from`
/// in some number of turns, and the simulation is over in it.
pub open spec fn runs_to(from: SimView, to: SimView) -> bool {
    &&& to.halted()
    &&& exists|n: nat| to == #[trigger] from.steps(n)
}

/// What has happened to the task of slot `i` between the states `from` and
/// `to` of one simulation.
///
/// A slot that was free, and the driver's slot, have added nothing to the
/// log. A task that is still under way has done some of its work and kept
/// the rest. A task whose slot has become free has done all its work, in
/// order, and has returned once.
pub open spec fn slot_progress(from: SimView, to: SimView, i: int) -> bool {
    if i == 0 || from.rt.states[i] == State::Available {
        &&& i != 0 ==> to.rt.states[i] == State::Available
        &&& completions(to.log, i) == completions(from.log, i)
        &&& outputs(to.log, i) == outputs(from.log, i)
    } else if to.rt.states[i] != State::Available {
        &&& to.emitted[i] + to.remaining[i] == from.emitted[i] + from.remaining[i]
        &&& from.emitted[i] <= to.emitted[i]
        &&& completions(to.log, i) == completions(from.log, i)
        &&& outputs(to.log, i) == outputs(from.log, i) + counters(
            from.emitted[i] as int,
            to.emitted[i] - from.emitted[i],
        )
    } else {
        &&& completions(to.log, i) == completions(from.log, i) + 1
        &&& outputs(to.log, i) == outputs(from.log, i) + counters(
            from.emitted[i] as int,
            from.remaining[i] as int,
        )
    }
}

/// [`slot_progress`] for every slot.
pub open spec fn progress(from: SimView, to: SimView) -> bool {
    &&& to.rt.states.len() == from.rt.states.len()
    &&& forall|i: int| 0 <= i < from.rt.states.len() ==> slot_progress(from, to, i)
}

proof fn lemma_log_push(log: Seq<Event>, e: Event, slot: int)
    ensures
        completions(log.push(e), slot) == completions(log, slot) + (if e == (Event::Completed {
            slot: slot as usize,
        }) && 0 <= slot <= usize::MAX {
            1nat
        } else {
            0nat
        }),
        outputs(log.push(e), slot) == (match e {
            Event::Output { slot: s, counter } => if s == slot {
                outputs(log, slot).push(counter)
            } else {
                outputs(log, slot)
            },
            Event::Completed { .. } => outputs(log, slot),
        }),
{
    assert(log.push(e).drop_last() =~= log);
}

proof fn lemma_work_same(
    s1: Seq<State>,
    r1: Seq<u64>,
    s2: Seq<State>,
    r2: Seq<u64>,
    i: int,
)
    requires
        s1.len() == s2.len(),
        0 <= i,
        forall|j: int| i <= j < s1.len() ==> weight(s1, r1, j) == weight(s2, r2, j),
    ensures
        work_from(s1, r1, i) == work_from(s2, r2, i),
    decreases s1.len() - i,
{
    if i < s1.len() {
        lemma_work_same(s1, r1, s2, r2, i + 1);
    }
}

proof fn lemma_work_less(
    s1: Seq<State>,
    r1: Seq<u64>,
    s2: Seq<State>,
    r2: Seq<u64>,
    c: int,
    i: int,
)
    requires
        s1.len() == s2.len(),
        0 <= i <= c < s1.len(),
        weight(s1, r1, c) == weight(s2, r2, c) + 1,
        forall|j: int| i <= j < s1.len() && j != c ==> weight(s1, r1, j) == weight(s2, r2, j),
    ensures
        work_from(s1, r1, i) == work_from(s2, r2, i) + 1,
    decreases s1.len() - i,
{
    if i == c {
        lemma_work_same(s1, r1, s2, r2, i + 1);
    } else {
        lemma_work_less(s1, r1, s2, r2, c, i + 1);
    }
}

/// A turn keeps the invariant of the simulator.
pub proof fn lemma_step_keeps_wf(s: SimView)
    requires
        s.wf(),
    ensures
        s.step().wf(),
        s.step().rt.states.len() == s.rt.states.len(),
        s.step().skip == s.skip,
        s.step().guard == s.guard,
{
    lemma_yield_keeps_coherent(s.rt.states, s.rt.current);
    lemma_return_settles(s.rt.states, s.rt.current);
}

/// A simulation that is over stays as it is.
pub proof fn lemma_halted_is_fixed(s: SimView, n: nat)
    requires
        s.halted(),
    ensures
        s.steps(n) == s,
    decreases n,
{
    if n > 0 {
        lemma_halted_is_fixed(s, (n - 1) as nat);
        assert(s.rt.yielded() == s.rt);
    }
}

/// Taking `a` turns and then `b` more is taking `a + b` turns.
pub proof fn lemma_steps_add(s: SimView, a: nat, b: nat)
    ensures
        s.steps(a).steps(b) == s.steps(a + b),
    decreases b,
{
    if b > 0 {
        lemma_steps_add(s, a, (b - 1) as nat);
        assert(s.steps(a + b) == s.steps((a + b - 1) as nat).step());
    }
}

/// A run has one end: two states in which the simulation is over, both
/// reached from the same start, are the same state.
pub proof fn lemma_run_is_deterministic(s: SimView, t1: SimView, t2: SimView)
    requires
        runs_to(s, t1),
        runs_to(s, t2),
    ensures
        t1 == t2,
{
    let n1 = choose|n: nat| t1 == #[trigger] s.steps(n);
    let n2 = choose|n: nat| t2 == #[trigger] s.steps(n);
    if n1 <= n2 {
        lemma_steps_add(s, n1, (n2 - n1) as nat);
        lemma_halted_is_fixed(t1, (n2 - n1) as nat);
    } else {
        lemma_steps_add(s, n2, (n1 - n2) as nat);
        lemma_halted_is_fixed(t2, (n1 - n2) as nat);
    }
}

/// Every turn of a simulation that is not over brings it nearer its end.
pub proof fn lemma_step_decreases(s: SimView)
    requires
        s.wf(),
        !s.halted(),
    ensures
        s.step().measure() < s.measure(),
{
    let c = s.rt.current;
    let t = s.step();
    lemma_yield_keeps_coherent(s.rt.states, c);
    lemma_return_settles(s.rt.states, c);
    lemma_next_runnable_is_nearest(s.rt.states, c);
    if c == 0 {
        lemma_work_same(s.rt.states, s.remaining, t.rt.states, t.remaining, 0);
    } else if s.remaining[c] > 0 {
        assert(next_runnable(s.rt.states, c) is Some) by {
            if next_runnable(s.rt.states, c) is None {
                assert(s.rt.states[0] == State::Available);
            }
        }
        lemma_work_less(s.rt.states, s.remaining, t.rt.states, t.remaining, c, 0);
    } else {
        let freed = states_on_return(s.rt.states, c);
        lemma_next_runnable_is_nearest(freed, c);
        lemma_work_less(s.rt.states, s.remaining, t.rt.states, t.remaining, c, 0);
    }
}

proof fn lemma_counters_push(from: int, count: int)
    requires
        0 <= count,
    ensures
        counters(from, count).push((from + count) as u64) == counters(from, count + 1),
        counters(from, 0) == Seq::<u64>::empty(),
{
    assert(counters(from, count).push((from + count) as u64) =~= counters(from, count + 1));
    assert(counters(from, 0) =~= Seq::<u64>::empty());
}

/// A turn carries the account of every task forward.
pub proof fn lemma_step_progress(from: SimView, s: SimView)
    requires
        from.wf(),
        s.wf(),
        progress(from, s),
    ensures
        progress(from, s.step()),
{
    let c = s.rt.current;
    let t = s.step();
    lemma_step_keeps_wf(s);
    lemma_yield_keeps_coherent(s.rt.states, c);
    lemma_return_settles(s.rt.states, c);
    lemma_next_runnable_is_nearest(s.rt.states, c);
    assert forall|i: int| 0 <= i < from.rt.states.len() implies slot_progress(from, t, i) by {
        assert(slot_progress(from, s, i));
        if c == 0 {
        } else if s.remaining[c] > 0 {
            let e = Event::Output { slot: c as usize, counter: s.emitted[c] };
            lemma_log_push(s.log, e, i);
            assert(next_runnable(s.rt.states, c) is Some) by {
                if next_runnable(s.rt.states, c) is None {
                    assert(s.rt.states[0] == State::Available);
                }
            }
            if i == c {
                assert(slot_progress(from, s, c));
                lemma_counters_push(from.emitted[c] as int, s.emitted[c] - from.emitted[c]);
                assert(outputs(s.log, c).push(s.emitted[c]) =~= outputs(from.log, c) + counters(
                    from.emitted[c] as int,
                    s.emitted[c] - from.emitted[c] + 1,
                ));
            }
        } else {
            let e = Event::Completed { slot: c as usize };
            lemma_log_push(s.log, e, i);
            let freed = states_on_return(s.rt.states, c);
            lemma_next_runnable_is_nearest(freed, c);
        }
    }
}

/// The account of every task holds after any number of turns.
pub proof fn lemma_steps_progress(s: SimView, n: nat)
    requires
        s.wf(),
    ensures
        s.steps(n).wf(),
        progress(s, s.steps(n)),
        s.steps(n).skip == s.skip,
        s.steps(n).guard == s.guard,
    decreases n,
{
    if n == 0 {
        assert forall|i: int| 0 <= i < s.rt.states.len() implies slot_progress(s, s, i) by {
            lemma_counters_push(s.emitted[i] as int, 0);
            assert(outputs(s.log, i) + Seq::<u64>::empty() =~= outputs(s.log, i));
        }
    } else {
        lemma_steps_progress(s, (n - 1) as nat);
        lemma_step_keeps_wf(s.steps((n - 1) as nat));
        lemma_step_progress(s, s.steps((n - 1) as nat));
    }
}

/// Between `from` and `to` the task in slot `i` did all the work it had
/// left, in order, and returned once.
pub open spec fn ran_to_completion(from: SimView, to: SimView, i: int) -> bool {
    &&& completions(to.log, i) == completions(from.log, i) + 1
    &&& outputs(to.log, i) == outputs(from.log, i) + counters(
        from.emitted[i] as int,
        from.remaining[i] as int,
    )
}

/// Between `from` and `to` the log gained nothing about slot `i`.
pub open spec fn left_no_trace(from: SimView, to: SimView, i: int) -> bool {
    &&& completions(to.log, i) == completions(from.log, i)
    &&& outputs(to.log, i) == outputs(from.log, i)
}

/// A run carries every task to completion exactly once.
///
/// When a run is over the driver is running and every other slot is
/// `Available`. For each slot that held a task at the start, the log has
/// gained the pieces of work that the task had left, in order, and one
/// record of its return. For every other slot the log has gained nothing.
pub proof fn lemma_run_completes_every_task(from: SimView, to: SimView)
    requires
        from.wf(),
        runs_to(from, to),
    ensures
        to.wf(),
        to.rt.current == 0,
        to.rt.states.len() == from.rt.states.len(),
        to.rt.states[0] == State::Running,
        forall|i: int| 1 <= i < to.rt.states.len() ==> to.rt.states[i] == State::Available,
        forall|i: int|
            1 <= i < from.rt.states.len() && from.rt.states[i] != State::Available
                ==> #[trigger] ran_to_completion(from, to, i),
        forall|i: int|
            0 <= i < from.rt.states.len() && (i == 0 || from.rt.states[i] == State::Available)
                ==> #[trigger] left_no_trace(from, to, i),
{
    let n = choose|n: nat| to == #[trigger] from.steps(n);
    lemma_steps_progress(from, n);
    lemma_next_runnable_is_nearest(to.rt.states, 0);
    assert forall|i: int| 0 <= i < from.rt.states.len() implies if i == 0 || from.rt.states[i]
        == State::Available {
        left_no_trace(from, to, i)
    } else {
        ran_to_completion(from, to, i)
    } by {
        assert(slot_progress(from, to, i));
    }
}

/// The driver is running and exactly two tasks wait their turn, in the slots
/// `a` and `b`, with `a` before `b`.
pub open spec fn two_tasks(s: SimView, a: int, b: int) -> bool {
    &&& s.wf()
    &&& s.rt.current == 0
    &&& 1 <= a < b < s.rt.states.len()
    &&& s.rt.states[a] == State::Ready
    &&& s.rt.states[b] == State::Ready
    &&& forall|i: int|
        1 <= i < s.rt.states.len() && i != a && i != b ==> s.rt.states[i] == State::Available
}

/// The log of two tasks that take strict turns for `k` rounds: the task in
/// slot `a` records work with the counters `from_a`, `from_a + 1`, ... at the
/// even positions, the task in slot `b` with `from_b`, `from_b + 1`, ... at
/// the odd ones.
pub open spec fn alternation(a: int, from_a: int, b: int, from_b: int, k: nat) -> Seq<Event> {
    Seq::new(
        2 * k,
        |i: int|
            if i % 2 == 0 {
                Event::Output { slot: a as usize, counter: (from_a + i / 2) as u64 }
            } else {
                Event::Output { slot: b as usize, counter: (from_b + i / 2) as u64 }
            },
    )
}

proof fn lemma_round(s: SimView, a: int, b: int)
    requires
        two_tasks(s, a, b),
        s.remaining[a] > 0,
        s.remaining[b] > 0,
    ensures
        s.steps(3) == (SimView {
            remaining: s.remaining.update(a, (s.remaining[a] - 1) as u64).update(
                b,
                (s.remaining[b] - 1) as u64,
            ),
            emitted: s.emitted.update(a, (s.emitted[a] + 1) as u64).update(
                b,
                (s.emitted[b] + 1) as u64,
            ),
            log: s.log.push(Event::Output { slot: a as usize, counter: s.emitted[a] }).push(
                Event::Output { slot: b as usize, counter: s.emitted[b] },
            ),
            ..s
        }),
{
    let n = s.rt.states.len() as int;
    let st0 = s.rt.states;
    lemma_nearest_is_next_runnable(st0, 0, a);
    let s1 = s.step();
    let st1 = st0.update(0, State::Ready).update(a, State::Running);
    assert(s1.rt.states == st1);
    assert(s1.rt.current == a);
    lemma_nearest_is_next_runnable(st1, a, b - a);
    let s2 = s1.step();
    let st2 = st1.update(a, State::Ready).update(b, State::Running);
    assert(s2.rt.states == st2);
    assert(s2.rt.current == b);
    assert(ahead(b, n - b, n) == 0);
    lemma_nearest_is_next_runnable(st2, b, n - b);
    let s3 = s2.step();
    assert(s3.rt.states =~= st0);
    assert(s3.rt.current == 0);
    assert(s3.rt == s.rt);
    assert(s.steps(3) == s3) by {
        reveal_with_fuel(SimView::steps, 4);
    }
}

proof fn lemma_last_round(s: SimView, a: int, b: int)
    requires
        two_tasks(s, a, b),
        s.remaining[a] == 0,
        s.remaining[b] == 0,
    ensures
        s.steps(3).halted(),
        s.steps(3).log == s.log.push(Event::Completed { slot: a as usize }).push(
            Event::Completed { slot: b as usize },
        ),
{
    let n = s.rt.states.len() as int;
    let st0 = s.rt.states;
    lemma_nearest_is_next_runnable(st0, 0, a);
    let s1 = s.step();
    let st1 = st0.update(0, State::Ready).update(a, State::Running);
    assert(s1.rt.states == st1);
    assert(s1.rt.current == a);
    let freed1 = st1.update(a, State::Available);
    lemma_nearest_is_next_runnable(freed1, a, b - a);
    let s2 = s1.step();
    let st2 = freed1.update(b, State::Running);
    assert(s2.rt.states == st2);
    assert(s2.rt.current == b);
    let freed2 = st2.update(b, State::Available);
    assert(ahead(b, n - b, n) == 0);
    lemma_nearest_is_next_runnable(freed2, b, n - b);
    let s3 = s2.step();
    let st3 = freed2.update(0, State::Running);
    assert(s3.rt.states == st3);
    assert(s3.rt.current == 0);
    lemma_next_runnable_is_nearest(st3, 0);
    assert(s.steps(3) == s3) by {
        reveal_with_fuel(SimView::steps, 4);
    }
}

proof fn lemma_alternation_unfold(a: int, from_a: int, b: int, from_b: int, k: nat)
    requires
        k > 0,
    ensures
        alternation(a, from_a, b, from_b, k) == seq![
            Event::Output { slot: a as usize, counter: from_a as u64 },
            Event::Output { slot: b as usize, counter: from_b as u64 },
        ] + alternation(a, from_a + 1, b, from_b + 1, (k - 1) as nat),
{
    let head = seq![
        Event::Output { slot: a as usize, counter: from_a as u64 },
        Event::Output { slot: b as usize, counter: from_b as u64 },
    ];
    let tail = alternation(a, from_a + 1, b, from_b + 1, (k - 1) as nat);
    assert(alternation(a, from_a, b, from_b, k) =~= head + tail);
}

proof fn lemma_two_tasks_run(s: SimView, a: int, b: int, k: nat)
    requires
        two_tasks(s, a, b),
        s.remaining[a] == k,
        s.remaining[b] == k,
    ensures
        s.steps(3 * k + 3).halted(),
        s.steps(3 * k + 3).log == s.log + alternation(
            a,
            s.emitted[a] as int,
            b,
            s.emitted[b] as int,
            k,
        ) + seq![Event::Completed { slot: a as usize }, Event::Completed { slot: b as usize }],
    decreases k,
{
    let done = seq![Event::Completed { slot: a as usize }, Event::Completed { slot: b as usize }];
    if k == 0 {
        lemma_last_round(s, a, b);
        assert(alternation(a, s.emitted[a] as int, b, s.emitted[b] as int, 0) =~= Seq::<
            Event,
        >::empty());
        assert(s.steps(3).log =~= s.log + alternation(
            a,
            s.emitted[a] as int,
            b,
            s.emitted[b] as int,
            0,
        ) + done);
    } else {
        lemma_round(s, a, b);
        let t = s.steps(3);
        lemma_steps_progress(s, 3);
        assert(two_tasks(t, a, b));
        lemma_two_tasks_run(t, a, b, (k - 1) as nat);
        lemma_steps_add(s, 3, (3 * (k - 1) + 3) as nat);
        lemma_alternation_unfold(a, s.emitted[a] as int, b, s.emitted[b] as int, k);
        let rest = alternation(a, s.emitted[a] + 1, b, s.emitted[b] + 1, (k - 1) as nat);
        assert(t.log + rest + done =~= s.log + alternation(
            a,
            s.emitted[a] as int,
            b,
            s.emitted[b] as int,
            k,
        ) + done);
    }
}

/// Round-robin fairness for two tasks of equal length.
///
/// Two tasks wait in the slots `a` and `b`, with `a` before `b`, and each
/// yields `k` times before it returns. Then a run adds to the log `k` rounds
/// in which the two take strict turns, `a` first, and after them the return
/// of `a` and the return of `b`.
pub proof fn lemma_round_robin_alternates(from: SimView, to: SimView, a: int, b: int, k: nat)
    requires
        two_tasks(from, a, b),
        from.remaining[a] == k,
        from.remaining[b] == k,
        runs_to(from, to),
    ensures
        to.log == from.log + alternation(
            a,
            from.emitted[a] as int,
            b,
            from.emitted[b] as int,
            k,
        ) + seq![Event::Completed { slot: a as usize }, Event::Completed { slot: b as usize }],
{
    lemma_two_tasks_run(from, a, b, k);
    let end = from.steps(3 * k + 3);
    assert(runs_to(from, end));
    lemma_run_is_deterministic(from, to, end);
}

impl SimView {
    /// A simulator as [`Simulator::new`] makes it: a new pool whose runtime
    /// is the active scheduler, no scripts, and an empty log.
    pub open spec fn initial(n: nat, skip: u64, guard: u64) -> SimView {
        SimView {
            rt: RuntimeView { active: true, ..RuntimeView::initial(n) },
            skip,
            guard,
            remaining: Seq::new(n, |i: int| 0u64),
            emitted: Seq::new(n, |i: int| 0u64),
            log: Seq::empty(),
        }
    }
}

impl View for Simulator {
    type V = SimView;

    closed spec fn view(&self) -> SimView {
        SimView {
            rt: self.rt@,
            skip: self.skip,
            guard: self.guard,
            remaining: self.remaining@,
            emitted: self.emitted@,
            log: self.log@,
        }
    }
}

impl Simulator {
    /// The invariant that every operation requires and keeps.
    pub open spec fn wf(&self) -> bool {
        self@.wf()
    }

    /// A simulator with a pool of `pool_capacity` fibers, in which `skip`
    /// and `guard` stand for the addresses of the two trampolines.
    pub fn new(pool_capacity: usize, skip: u64, guard: u64) -> (sim: Simulator)
        requires
            pool_capacity >= 1,
        ensures
            sim.wf(),
            sim@ == SimView::initial(pool_capacity as nat, skip, guard),
    {
        let mut rt = Runtime::new(pool_capacity);
        rt.init();
        let remaining = vec![0u64; pool_capacity];
        let emitted = vec![0u64; pool_capacity];
        let sim = Simulator { rt, skip, guard, remaining, emitted, log: Vec::new() };
        proof {
            let v = SimView::initial(pool_capacity as nat, skip, guard);
            assert(sim@.remaining =~= v.remaining);
            assert(sim@.emitted =~= v.emitted);
            assert(sim@.log =~= v.log);
        }
        sim
    }

    /// The runtime that the simulator drives.
    pub fn runtime(&self) -> (rt: &Runtime)
        ensures
            rt@ == self@.rt,
    {
        &self.rt
    }

    /// What the tasks have done so far.
    pub fn log(&self) -> (log: &Vec<Event>)
        ensures
            log@ == self@.log,
    {
        &self.log
    }

    /// Gives `task` a fiber, as [`Runtime::spawn`] does, and notes its
    /// script. Succeeds whenever a slot is `Available`, and fails with
    /// `NoAvailableFiber`, changing nothing, when none is.
    pub fn spawn(&mut self, task: Task) -> (r: Result<usize, SpawnError>)
        requires
            old(self).wf(),
        ensures
            final(self).wf(),
            !exhausted(old(self)@.rt.states) <==> r is Ok,
            match r {
                Ok(slot) => {
                    &&& is_first_available(old(self)@.rt.states, slot as int)
                    &&& exists|base: u64|
                        {
                            &&& frame_fits(base as int, DEFAULT_STACK_SIZE as int)
                            &&& final(self)@ == #[trigger] old(self)@.spawned(
                                slot as int,
                                base as int,
                                task,
                            )
                        }
                },
                Err(e) => {
                    &&& e == SpawnError::NoAvailableFiber
                    &&& final(self)@ == old(self)@
                },
            },
    {
        match self.rt.spawn(task.entry, self.skip, self.guard) {
            Ok(slot) => {
                self.remaining[slot] = task.yields;
                self.emitted[slot] = 0;
                proof {
                    let base = choose|base: u64|
                        {
                            &&& frame_fits(base as int, DEFAULT_STACK_SIZE as int)
                            &&& self@.rt == #[trigger] old(self)@.rt.spawned(
                                slot as int,
                                base as int,
                                task.entry,
                                self.skip,
                                self.guard,
                            )
                        };
                    assert(self@ == old(self)@.spawned(slot as int, base as int, task));
                }
                Ok(slot)
            },
            Err(e) => Err(e),
        }
    }

    /// Takes one turn. The result tells whether the simulation was still
    /// under way; if it was over, nothing has changed.
    pub fn step(&mut self) -> (progressed: bool)
        requires
            old(self).wf(),
        ensures
            final(self).wf(),
            final(self)@ == old(self)@.step(),
            progressed == !old(self)@.halted(),
    {
        proof {
            lemma_step_keeps_wf(self@);
            lemma_next_runnable_is_nearest(self@.rt.states, self@.rt.current);
        }
        let c = self.rt.current();
        if c == 0 {
            self.rt.t_yield().is_some()
        } else if self.remaining[c] > 0 {
            let counter = self.emitted[c];
            self.log.push(Event::Output { slot: c, counter });
            self.remaining[c] = self.remaining[c] - 1;
            self.emitted[c] = counter + 1;
            let _ = self.rt.yield_thread();
            true
        } else {
            self.log.push(Event::Completed { slot: c });
            let _ = self.rt.guard();
            true
        }
    }

    /// Takes turns until the simulation is over.
    ///
    /// Every task that had a fiber is carried to completion exactly once:
    /// when `run` returns, the driver is running, every other slot is
    /// `Available`, and the log has gained, for each task, the pieces of work
    /// that it had left and one record of its return, and nothing else.
    pub fn run(&mut self)
        requires
            old(self).wf(),
        ensures
            final(self).wf(),
            runs_to(old(self)@, final(self)@),
            final(self)@.rt.current == 0,
            final(self)@.rt.states.len() == old(self)@.rt.states.len(),
            forall|i: int|
                1 <= i < final(self)@.rt.states.len() ==> final(self)@.rt.states[i]
                    == State::Available,
            forall|i: int|
                1 <= i < old(self)@.rt.states.len() && old(self)@.rt.states[i] != State::Available
                    ==> #[trigger] ran_to_completion(old(self)@, final(self)@, i),
            forall|i: int|
                0 <= i < old(self)@.rt.states.len() && (i == 0 || old(self)@.rt.states[i]
                    == State::Available) ==> #[trigger] left_no_trace(
                    old(self)@,
                    final(self)@,
                    i,
                ),
    {
        let ghost from = self@;
        let ghost mut n: nat = 0;
        loop
            invariant
                from.wf(),
                self.wf(),
                self@ == from.steps(n),
            ensures
                self@.halted(),
            decreases self@.measure(),
        {
            let ghost before = self@;
            let progressed = self.step();
            proof {
                n = n + 1;
            }
            if !progressed {
                proof {
                    lemma_halted_is_fixed(before, 1);
                    assert(before.steps(1) == before.steps(0).step());
                }
                break ;
            }
            proof {
                lemma_step_decreases(before);
            }
        }
        proof {
            lemma_run_completes_every_task(from, self@);
        }
    }
}

} // verus!
