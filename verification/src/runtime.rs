//! The scheduler: a fixed pool of fibers and the record of which one runs.
//!
//! The runtime decides; it does not move the CPU. Every operation that hands
//! the CPU on returns a [`Switch`] that names the fiber to freeze and the
//! fiber to resume, and the embedding program carries it out.
use crate::context::ThreadContext;
use crate::schedule::{
    coherent, current_after_return, current_after_yield, exhausted, initial_states,
    is_first_available, lemma_initial_states_settled, lemma_return_settles,
    lemma_yield_keeps_coherent, next_runnable, scan, ahead, settled, states_after_return,
    states_after_yield, states_on_return, switch_on_return, switch_on_yield, Switch,
};
use crate::stack::{
    bootstrap, bootstrap_failure, bootstrapped, frame_fits, initial_rsp, lemma_bootstrap_forgets,
    StackError,
};
use crate::thread::{State, Thread, DEFAULT_STACK_SIZE};
use vstd::prelude::*;

verus! {

/// Why a task could not be given a fiber.
#[derive(Clone, Copy, Debug, PartialEq, Eq, Structural)]
pub enum SpawnError {
    /// Every slot of the pool is in use.
    NoAvailableFiber,
    /// The stack of the chosen slot could not be bootstrapped.
    Stack(StackError),
}

/// A call that broke the rules for using the scheduler.
#[derive(Clone, Copy, Debug, PartialEq, Eq, Structural)]
pub enum ProtocolError {
    /// The scheduler was asked to act as the active scheduler before
    /// [`Runtime::init`] made it so.
    NotInitialized,
}

/// The fiber pool and the index of the fiber that is executing.
pub struct Runtime {
    threads: Vec<Thread>,
    current: usize,
    active: bool,
}

/// What a [`Runtime`] holds, as plain values.
pub struct RuntimeView {
    /// The life-cycle state of each slot.
    pub states: Seq<State>,
    /// The saved registers of each slot.
    pub contexts: Seq<ThreadContext>,
    /// The bytes of each slot's stack.
    pub stacks: Seq<Seq<u8>>,
    /// The slot of the fiber that is executing.
    pub current: int,
    /// Whether the runtime has been made the active scheduler.
    pub active: bool,
}

impl RuntimeView {
    /// A pool of `n` slots as [`Runtime::new`] makes it.
    pub open spec fn initial(n: nat) -> RuntimeView {
        RuntimeView {
            states: initial_states(n),
            contexts: Seq::new(n, |i: int| ThreadContext::spec_fresh(0)),
            stacks: Seq::new(n, |i: int| Seq::new(DEFAULT_STACK_SIZE as nat, |j: int| 0u8)),
            current: 0,
            active: false,
        }
    }

    /// Every slot has a context and a stack of [`DEFAULT_STACK_SIZE`] bytes.
    pub open spec fn shaped(self) -> bool {
        &&& self.contexts.len() == self.states.len()
        &&& self.stacks.len() == self.states.len()
        &&& forall|i: int|
            0 <= i < self.stacks.len() ==> (#[trigger] self.stacks[i]).len() == DEFAULT_STACK_SIZE
    }

    /// The invariant of a runtime: every slot is complete and the pool is at
    /// rest, so that exactly one fiber is `Running`, the current one, and the
    /// driver's slot is not `Available`.
    pub open spec fn wf(self) -> bool {
        &&& self.shaped()
        &&& settled(self.states, self.current)
    }

    /// The runtime after the current fiber has given up the CPU.
    pub open spec fn yielded(self) -> RuntimeView {
        RuntimeView {
            states: states_after_yield(self.states, self.current),
            current: current_after_yield(self.states, self.current),
            ..self
        }
    }

    /// The runtime after the current fiber's task has returned.
    pub open spec fn returned(self) -> RuntimeView {
        RuntimeView {
            states: states_after_return(self.states, self.current),
            current: current_after_return(self.states, self.current),
            ..self
        }
    }

    /// The runtime after a task with entry point `entry` was placed in
    /// `slot`, whose stack lies at address `base`: the stack is bootstrapped,
    /// the context is that of a fiber that has not run yet, and the slot is
    /// `Ready`.
    pub open spec fn spawned(
        self,
        slot: int,
        base: int,
        entry: u64,
        skip: u64,
        guard: u64,
    ) -> RuntimeView {
        RuntimeView {
            states: self.states.update(slot, State::Ready),
            contexts: self.contexts.update(
                slot,
                ThreadContext::spec_fresh(initial_rsp(base, self.stacks[slot].len() as int) as u64),
            ),
            stacks: self.stacks.update(
                slot,
                bootstrapped(self.stacks[slot], base, entry, skip, guard),
            ),
            ..self
        }
    }
}

impl View for Runtime {
    type V = RuntimeView;

    closed spec fn view(&self) -> RuntimeView {
        RuntimeView {
            states: Seq::new(self.threads.len() as nat, |i: int| self.threads[i].state),
            contexts: Seq::new(self.threads.len() as nat, |i: int| self.threads[i].ctx),
            stacks: Seq::new(self.threads.len() as nat, |i: int| self.threads[i].stack@),
            current: self.current as int,
            active: self.active,
        }
    }
}

/// Calls `Vec::as_ptr` and hands the address back as a number.
///
/// Which address comes back is up to the allocator. What is claimed holds of
/// every allocation: the buffer does not wrap round the address space, so the
/// address of its first byte plus its length is at most `usize::MAX`.
#[verifier::external_body]
fn address_of(stack: &Vec<u8>) -> (base: u64)
    ensures
        base + stack@.len() <= usize::MAX,
{
    stack.as_ptr() as usize as u64
}

impl Runtime {
    /// The invariant that every operation requires and keeps.
    pub open spec fn wf(&self) -> bool {
        self@.wf()
    }

    /// A pool of `pool_capacity` fibers. Slot 0 is the driver's and is
    /// `Running`; all other slots are `Available`. The runtime is not yet the
    /// active scheduler.
    pub fn new(pool_capacity: usize) -> (rt: Runtime)
        requires
            pool_capacity >= 1,
        ensures
            rt.wf(),
            rt@ == RuntimeView::initial(pool_capacity as nat),
    {
        let mut base_thread = Thread::new();
        base_thread.state = State::Running;
        let mut threads: Vec<Thread> = Vec::new();
        threads.push(base_thread);
        let mut i: usize = 1;
        while i < pool_capacity
            invariant
                1 <= i <= pool_capacity,
                threads.len() == i,
                threads[0].state == State::Running,
                forall|j: int| 1 <= j < i ==> threads[j].state == State::Available,
                forall|j: int| 0 <= j < i ==> threads[j].ctx == ThreadContext::spec_fresh(0),
                forall|j: int|
                    0 <= j < i ==> threads[j].stack@ == Seq::new(
                        DEFAULT_STACK_SIZE as nat,
                        |k: int| 0u8,
                    ),
            decreases pool_capacity - i,
        {
            threads.push(Thread::new());
            i += 1;
        }
        let rt = Runtime { threads, current: 0, active: false };
        proof {
            let v = RuntimeView::initial(pool_capacity as nat);
            assert(rt@.states =~= v.states);
            assert(rt@.contexts =~= v.contexts);
            assert(rt@.stacks =~= v.stacks);
            lemma_initial_states_settled(pool_capacity as nat);
        }
        rt
    }

    /// Makes this runtime the active scheduler: the one that
    /// [`Runtime::yield_thread`] and [`Runtime::guard`] act for.
    pub fn init(&mut self)
        ensures
            final(self)@ == (RuntimeView { active: true, ..old(self)@ }),
    {
        self.active = true;
    }

    /// Whether [`Runtime::init`] has been called.
    pub fn is_active(&self) -> (active: bool)
        ensures
            active == self@.active,
    {
        self.active
    }

    /// The number of slots in the pool.
    pub fn capacity(&self) -> (n: usize)
        ensures
            n == self@.states.len(),
    {
        self.threads.len()
    }

    /// The slot of the fiber that is executing.
    pub fn current(&self) -> (slot: usize)
        ensures
            slot == self@.current,
    {
        self.current
    }

    /// The state of `slot`, if the pool has such a slot.
    pub fn state(&self, slot: usize) -> (r: Option<State>)
        ensures
            match r {
                Some(state) => slot < self@.states.len() && state == self@.states[slot as int],
                None => slot >= self@.states.len(),
            },
    {
        if slot < self.threads.len() {
            Some(self.threads[slot].state)
        } else {
            None
        }
    }

    /// The saved registers of `slot`, if the pool has such a slot.
    pub fn context(&self, slot: usize) -> (r: Option<ThreadContext>)
        ensures
            match r {
                Some(ctx) => slot < self@.states.len() && ctx == self@.contexts[slot as int],
                None => slot >= self@.states.len(),
            },
    {
        if slot < self.threads.len() {
            Some(self.threads[slot].ctx)
        } else {
            None
        }
    }

    /// The stack of `slot`, if the pool has such a slot.
    pub fn stack(&self, slot: usize) -> (r: Option<&Vec<u8>>)
        ensures
            match r {
                Some(stack) => slot < self@.states.len() && stack@ == self@.stacks[slot as int],
                None => slot >= self@.states.len(),
            },
    {
        if slot < self.threads.len() {
            Some(&self.threads[slot].stack)
        } else {
            None
        }
    }

    /// The lowest slot that is `Available`, if there is one.
    pub fn first_available(&self) -> (r: Option<usize>)
        ensures
            match r {
                Some(slot) => is_first_available(self@.states, slot as int),
                None => exhausted(self@.states),
            },
    {
        let mut i: usize = 0;
        while i < self.threads.len()
            invariant
                i <= self.threads.len(),
                forall|j: int| 0 <= j < i ==> self@.states[j] != State::Available,
            decreases self.threads.len() - i,
        {
            if self.threads[i].state == State::Available {
                return Some(i);
            }
            i += 1;
        }
        None
    }

    /// The fiber that would get the CPU if the current one gave it up: the
    /// nearest one after it, going round the pool, whose slot is not
    /// `Available`.
    pub fn next_runnable(&self) -> (r: Option<usize>)
        requires
            self.wf(),
        ensures
            match r {
                Some(next) => next_runnable(self@.states, self@.current) == Some(next as int),
                None => next_runnable(self@.states, self@.current) is None,
            },
    {
        self.find_next()
    }

    fn find_next(&self) -> (r: Option<usize>)
        requires
            self@.current < self@.states.len(),
        ensures
            match r {
                Some(next) => next_runnable(self@.states, self@.current) == Some(next as int),
                None => next_runnable(self@.states, self@.current) is None,
            },
    {
        let n = self.threads.len();
        let mut pos: usize = self.current;
        let mut d: usize = 0;
        loop
            invariant
                n == self.threads.len(),
                n == self@.states.len(),
                self.current < n,
                0 <= d < n,
                pos == ahead(self.current as int, d as int, n as int),
                pos < n,
                next_runnable(self@.states, self@.current) == scan(
                    self@.states,
                    self@.current,
                    d + 1,
                ),
            decreases n - d,
        {
            pos += 1;
            if pos == n {
                pos = 0;
            }
            d += 1;
            if pos == self.current {
                return None;
            }
            if self.threads[pos].state != State::Available {
                return Some(pos);
            }
        }
    }

    /// Gives a task a fiber, taking the stack of the chosen slot to lie at
    /// address `base`.
    ///
    /// The task goes to the lowest `Available` slot. Its stack is
    /// bootstrapped with `entry`, `skip` and `guard`, its context is reset to
    /// that of a fiber that has not run yet, and the slot becomes `Ready`.
    /// The current fiber goes on running. On any failure the runtime is left
    /// as it was.
    pub fn spawn_at(&mut self, base: u64, entry: u64, skip: u64, guard: u64) -> (r: Result<
        usize,
        SpawnError,
    >)
        requires
            old(self).wf(),
        ensures
            final(self).wf(),
            match r {
                Ok(slot) => {
                    &&& is_first_available(old(self)@.states, slot as int)
                    &&& final(self)@.contexts[slot as int].rsp % 16 == 0
                    &&& frame_fits(base as int, DEFAULT_STACK_SIZE as int)
                    &&& final(self)@ == old(self)@.spawned(
                        slot as int,
                        base as int,
                        entry,
                        skip,
                        guard,
                    )
                },
                Err(SpawnError::NoAvailableFiber) => {
                    &&& exhausted(old(self)@.states)
                    &&& final(self)@ == old(self)@
                },
                Err(SpawnError::Stack(e)) => {
                    &&& !exhausted(old(self)@.states)
                    &&& !frame_fits(base as int, DEFAULT_STACK_SIZE as int)
                    &&& e == bootstrap_failure(base as int, DEFAULT_STACK_SIZE as int)
                    &&& final(self)@ == old(self)@
                },
            },
    {
        let slot = match self.first_available() {
            Some(slot) => slot,
            None => {
                return Err(SpawnError::NoAvailableFiber);
            },
        };
        assert(self@.stacks[slot as int].len() == DEFAULT_STACK_SIZE);
        match bootstrap(&mut self.threads[slot].stack, base, entry, skip, guard) {
            Ok(rsp) => {
                self.threads[slot].ctx = ThreadContext::fresh(rsp);
                self.threads[slot].state = State::Ready;
                proof {
                    let v = old(self)@.spawned(slot as int, base as int, entry, skip, guard);
                    assert(self@.states =~= v.states);
                    assert(self@.contexts =~= v.contexts);
                    assert(self@.stacks =~= v.stacks);
                }
                Ok(slot)
            },
            Err(e) => {
                proof {
                    assert(self@.states =~= old(self)@.states);
                    assert(self@.contexts =~= old(self)@.contexts);
                    assert(self@.stacks =~= old(self)@.stacks);
                }
                Err(SpawnError::Stack(e))
            },
        }
    }

    /// Gives a task a fiber.
    ///
    /// Succeeds whenever a slot is `Available`, and fails with
    /// `NoAvailableFiber`, leaving the runtime as it was, when none is. On
    /// success the outcome is that of [`Runtime::spawn_at`] for the address
    /// at which the chosen slot's stack lies; a stack of
    /// [`DEFAULT_STACK_SIZE`] bytes has room for the first frame wherever it
    /// lies.
    pub fn spawn(&mut self, entry: u64, skip: u64, guard: u64) -> (r: Result<usize, SpawnError>)
        requires
            old(self).wf(),
        ensures
            final(self).wf(),
            !exhausted(old(self)@.states) <==> r is Ok,
            match r {
                Ok(slot) => {
                    &&& is_first_available(old(self)@.states, slot as int)
                    &&& final(self)@.contexts[slot as int].rsp % 16 == 0
                    &&& exists|base: u64|
                        {
                            &&& frame_fits(base as int, DEFAULT_STACK_SIZE as int)
                            &&& final(self)@ == #[trigger] old(self)@.spawned(
                                slot as int,
                                base as int,
                                entry,
                                skip,
                                guard,
                            )
                        }
                },
                Err(e) => {
                    &&& e == SpawnError::NoAvailableFiber
                    &&& final(self)@ == old(self)@
                },
            },
    {
        match self.first_available() {
            None => Err(SpawnError::NoAvailableFiber),
            Some(slot) => {
                let base = address_of(&self.threads[slot].stack);
                proof {
                    assert(self@.stacks[slot as int].len() == DEFAULT_STACK_SIZE);
                    lemma_default_stack_fits(base as int);
                }
                self.spawn_at(base, entry, skip, guard)
            },
        }
    }

    /// The current fiber gives up the CPU.
    ///
    /// The nearest fiber after the current one that is not `Available` takes
    /// over: it becomes `Running` and the current slot. The fiber that gave
    /// up becomes `Ready`, unless its slot is `Available` because its task is
    /// over. The result names the two for the switch. With no other fiber to
    /// run, nothing changes and the result is `None`.
    pub fn t_yield(&mut self) -> (r: Option<Switch>)
        requires
            old(self).wf(),
        ensures
            final(self).wf(),
            final(self)@ == old(self)@.yielded(),
            r == switch_on_yield(old(self)@.states, old(self)@.current),
    {
        proof {
            lemma_yield_keeps_coherent(self@.states, self@.current);
        }
        self.hand_on()
    }

    /// Hands the CPU to the next fiber, also when the current slot has just
    /// been freed.
    fn hand_on(&mut self) -> (r: Option<Switch>)
        requires
            old(self)@.shaped(),
            coherent(old(self)@.states, old(self)@.current),
        ensures
            final(self)@.shaped(),
            final(self)@ == old(self)@.yielded(),
            r == switch_on_yield(old(self)@.states, old(self)@.current),
    {
        proof {
            lemma_yield_keeps_coherent(self@.states, self@.current);
        }
        let next = match self.find_next() {
            Some(next) => next,
            None => {
                return None;
            },
        };
        let from = self.current;
        if self.threads[from].state != State::Available {
            self.threads[from].state = State::Ready;
        }
        self.threads[next].state = State::Running;
        self.current = next;
        proof {
            let v = old(self)@.yielded();
            assert(self@.states =~= v.states);
            assert(self@.contexts =~= v.contexts);
            assert(self@.stacks =~= v.stacks);
        }
        Some(Switch { from, to: next })
    }

    /// The current fiber's task has returned.
    ///
    /// For the driver nothing happens. Any other fiber's slot becomes
    /// `Available` and the CPU is handed on as by [`Runtime::t_yield`]; there
    /// is always a fiber to hand it to, so the result is a switch.
    pub fn t_return(&mut self) -> (r: Option<Switch>)
        requires
            old(self).wf(),
        ensures
            final(self).wf(),
            final(self)@ == old(self)@.returned(),
            r == switch_on_return(old(self)@.states, old(self)@.current),
            r is Some <==> old(self)@.current != 0,
    {
        proof {
            lemma_return_settles(self@.states, self@.current);
        }
        if self.current != 0 {
            let current = self.current;
            self.threads[current].state = State::Available;
            proof {
                assert(self@.states =~= states_on_return(old(self)@.states, old(self)@.current));
                assert(self@.contexts =~= old(self)@.contexts);
                assert(self@.stacks =~= old(self)@.stacks);
            }
            self.hand_on()
        } else {
            None
        }
    }

    /// A yield requested by the running fiber through the active scheduler.
    ///
    /// Fails with `NotInitialized`, changing nothing, when the runtime has
    /// not been made the active scheduler. Otherwise it is
    /// [`Runtime::t_yield`].
    pub fn yield_thread(&mut self) -> (r: Result<Option<Switch>, ProtocolError>)
        requires
            old(self).wf(),
        ensures
            final(self).wf(),
            match r {
                Ok(switch) => {
                    &&& old(self)@.active
                    &&& final(self)@ == old(self)@.yielded()
                    &&& switch == switch_on_yield(old(self)@.states, old(self)@.current)
                },
                Err(e) => {
                    &&& !old(self)@.active
                    &&& e == ProtocolError::NotInitialized
                    &&& final(self)@ == old(self)@
                },
            },
    {
        if !self.active {
            return Err(ProtocolError::NotInitialized);
        }
        Ok(self.t_yield())
    }

    /// What the `guard` routine does when a task's entry function returns
    /// into it.
    ///
    /// Fails with `NotInitialized`, changing nothing, when the runtime has
    /// not been made the active scheduler. Otherwise it is
    /// [`Runtime::t_return`].
    pub fn guard(&mut self) -> (r: Result<Option<Switch>, ProtocolError>)
        requires
            old(self).wf(),
        ensures
            final(self).wf(),
            match r {
                Ok(switch) => {
                    &&& old(self)@.active
                    &&& final(self)@ == old(self)@.returned()
                    &&& switch == switch_on_return(old(self)@.states, old(self)@.current)
                },
                Err(e) => {
                    &&& !old(self)@.active
                    &&& e == ProtocolError::NotInitialized
                    &&& final(self)@ == old(self)@
                },
            },
    {
        if !self.active {
            return Err(ProtocolError::NotInitialized);
        }
        Ok(self.t_return())
    }
}

/// A stack of [`DEFAULT_STACK_SIZE`] bytes that ends within the address space
/// can be bootstrapped wherever it lies: rounding its top down costs at most
/// 15 bytes and the first frame takes 32.
pub proof fn lemma_default_stack_fits(base: int)
    requires
        0 <= base,
        base + DEFAULT_STACK_SIZE <= u64::MAX,
    ensures
        frame_fits(base, DEFAULT_STACK_SIZE as int),
{
}

/// A slot that is used again starts like one that was never used.
///
/// Two runtimes hold stacks of the same size at the same address in `slot`;
/// what the stacks and the saved registers hold is arbitrary. After the same
/// task was spawned into `slot` of each, the two slots have the same saved
/// registers, all zero but for the initial stack pointer, and the same three
/// words from the initial stack pointer upwards. Nothing that the new fiber
/// will pop or restore is left over from an earlier task.
pub proof fn lemma_respawn_forgets(
    used: RuntimeView,
    fresh: RuntimeView,
    slot: int,
    base: int,
    entry: u64,
    skip: u64,
    guard: u64,
)
    requires
        used.shaped(),
        fresh.shaped(),
        0 <= slot < used.states.len(),
        slot < fresh.states.len(),
        0 <= base,
        frame_fits(base, DEFAULT_STACK_SIZE as int),
    ensures
        used.spawned(slot, base, entry, skip, guard).states[slot] == State::Ready,
        used.spawned(slot, base, entry, skip, guard).contexts[slot] == fresh.spawned(
            slot,
            base,
            entry,
            skip,
            guard,
        ).contexts[slot],
        used.spawned(slot, base, entry, skip, guard).contexts[slot] == ThreadContext::spec_fresh(
            initial_rsp(base, DEFAULT_STACK_SIZE as int) as u64,
        ),
        forall|i: int|
            initial_rsp(base, DEFAULT_STACK_SIZE as int) - base <= i < initial_rsp(
                base,
                DEFAULT_STACK_SIZE as int,
            ) - base + 24 ==> used.spawned(slot, base, entry, skip, guard).stacks[slot][i]
                == fresh.spawned(slot, base, entry, skip, guard).stacks[slot][i],
{
    lemma_bootstrap_forgets(used.stacks[slot], fresh.stacks[slot], base, entry, skip, guard);
}

/// Two tasks spawned into the same slot differ in the word that holds the
/// entry point and in nothing else: the saved registers are the same, and so
/// are the words that hold `skip` and `guard`.
pub proof fn lemma_spawn_differs_in_entry_only(
    rt: RuntimeView,
    slot: int,
    base: int,
    entry_a: u64,
    entry_b: u64,
    skip: u64,
    guard: u64,
)
    requires
        rt.shaped(),
        0 <= slot < rt.states.len(),
        0 <= base,
        frame_fits(base, DEFAULT_STACK_SIZE as int),
    ensures
        rt.spawned(slot, base, entry_a, skip, guard).contexts == rt.spawned(
            slot,
            base,
            entry_b,
            skip,
            guard,
        ).contexts,
        rt.spawned(slot, base, entry_a, skip, guard).states == rt.spawned(
            slot,
            base,
            entry_b,
            skip,
            guard,
        ).states,
        forall|i: int|
            0 <= i < DEFAULT_STACK_SIZE && !(initial_rsp(base, DEFAULT_STACK_SIZE as int) - base
                <= i < initial_rsp(base, DEFAULT_STACK_SIZE as int) - base + 8) ==> rt.spawned(
                slot,
                base,
                entry_a,
                skip,
                guard,
            ).stacks[slot][i] == rt.spawned(slot, base, entry_b, skip, guard).stacks[slot][i],
{
}

} // verus!
