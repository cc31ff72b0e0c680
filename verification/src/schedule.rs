//! The scheduling rule, stated on the sequence of fiber states.
//!
//! The pool is a ring of slots. Slot 0 belongs to the driver, the flow of
//! control that created the pool and runs its loop; it is never handed out.
//! Whoever gives up the CPU hands it to the nearest fiber after itself on the
//! ring that has work: one whose slot is not `Available`.
use crate::thread::State;
use vstd::prelude::*;

verus! {

/// The action that follows a scheduling decision: control moves from the
/// fiber in slot `from` to the fiber in slot `to`.
#[derive(Clone, Copy, Debug, PartialEq, Eq, Structural)]
pub struct Switch {
    pub from: usize,
    pub to: usize,
}

/// The slot `d` places after `current` on a ring of `n` slots, for
/// `0 <= current < n` and `0 <= d <= n`.
pub open spec fn ahead(current: int, d: int, n: int) -> int {
    if current + d < n {
        current + d
    } else {
        current + d - n
    }
}

/// The invariant of the pool between any two operations.
///
/// There is a current slot. No other slot is `Running`, so at most one fiber
/// runs at any instant. The current fiber is `Running`, or it is `Available`
/// because its task has just returned and the CPU has not been handed on yet.
/// The driver's slot is never `Available`.
pub open spec fn coherent(states: Seq<State>, current: int) -> bool {
    &&& 0 <= current < states.len()
    &&& states[0] != State::Available
    &&& states[current] != State::Ready
    &&& forall|i: int| 0 <= i < states.len() && i != current ==> states[i] != State::Running
}

/// The pool at rest: coherent, and the current fiber is `Running`. Exactly
/// one fiber is `Running` then.
pub open spec fn settled(states: Seq<State>, current: int) -> bool {
    &&& coherent(states, current)
    &&& states[current] == State::Running
}

/// No slot is free for a new task.
pub open spec fn exhausted(states: Seq<State>) -> bool {
    forall|i: int| 0 <= i < states.len() ==> states[i] != State::Available
}

/// `slot` is the lowest free slot.
pub open spec fn is_first_available(states: Seq<State>, slot: int) -> bool {
    &&& 0 <= slot < states.len()
    &&& states[slot] == State::Available
    &&& forall|i: int| 0 <= i < slot ==> states[i] != State::Available
}

/// The first slot with work among those `d`, `d + 1`, ... places after
/// `current`, short of coming round to `current` again.
pub open spec fn scan(states: Seq<State>, current: int, d: int) -> Option<int>
    decreases states.len() - d,
{
    if d < 1 || d >= states.len() {
        None
    } else if states[ahead(current, d, states.len() as int)] != State::Available {
        Some(ahead(current, d, states.len() as int))
    } else {
        scan(states, current, d + 1)
    }
}

/// The fiber that gets the CPU when the current one gives it up: the nearest
/// slot after `current` on the ring that is not `Available`. There is none
/// when every other slot is `Available`.
pub open spec fn next_runnable(states: Seq<State>, current: int) -> Option<int> {
    scan(states, current, 1)
}

/// The states after the current fiber has given up the CPU.
///
/// With no other fiber to run nothing changes. Otherwise the current fiber
/// becomes `Ready`, unless its slot is `Available` because its task is over,
/// and the next one becomes `Running`.
pub open spec fn states_after_yield(states: Seq<State>, current: int) -> Seq<State> {
    match next_runnable(states, current) {
        None => states,
        Some(next) => {
            let parked = if states[current] != State::Available {
                states.update(current, State::Ready)
            } else {
                states
            };
            parked.update(next, State::Running)
        },
    }
}

/// The current slot after the current fiber has given up the CPU.
pub open spec fn current_after_yield(states: Seq<State>, current: int) -> int {
    match next_runnable(states, current) {
        None => current,
        Some(next) => next,
    }
}

/// The switch that carries out a yield, if the yield finds another fiber.
pub open spec fn switch_on_yield(states: Seq<State>, current: int) -> Option<Switch> {
    match next_runnable(states, current) {
        None => None,
        Some(next) => Some(Switch { from: current as usize, to: next as usize }),
    }
}

/// The states once the current fiber's task has returned: the driver's slot
/// stays as it is; any other slot becomes `Available`.
pub open spec fn states_on_return(states: Seq<State>, current: int) -> Seq<State> {
    if current == 0 {
        states
    } else {
        states.update(current, State::Available)
    }
}

/// The states after the current fiber's task has returned and the CPU has
/// been handed on.
pub open spec fn states_after_return(states: Seq<State>, current: int) -> Seq<State> {
    if current == 0 {
        states
    } else {
        states_after_yield(states_on_return(states, current), current)
    }
}

/// The current slot after the current fiber's task has returned.
pub open spec fn current_after_return(states: Seq<State>, current: int) -> int {
    if current == 0 {
        current
    } else {
        current_after_yield(states_on_return(states, current), current)
    }
}

/// The switch that follows the return of the current fiber's task.
pub open spec fn switch_on_return(states: Seq<State>, current: int) -> Option<Switch> {
    if current == 0 {
        None
    } else {
        switch_on_yield(states_on_return(states, current), current)
    }
}

/// The states of a new pool of `n` slots: the driver runs, every other slot
/// is free.
pub open spec fn initial_states(n: nat) -> Seq<State> {
    Seq::new(
        n,
        |i: int|
            if i == 0 {
                State::Running
            } else {
                State::Available
            },
    )
}

proof fn lemma_scan(states: Seq<State>, current: int, d: int)
    requires
        0 <= current < states.len(),
        1 <= d <= states.len(),
    ensures
        match scan(states, current, d) {
            Some(next) => exists|k: int|
                {
                    &&& d <= k < states.len()
                    &&& next == #[trigger] ahead(current, k, states.len() as int)
                    &&& states[next] != State::Available
                    &&& forall|e: int|
                        d <= e < k ==> states[#[trigger] ahead(current, e, states.len() as int)]
                            == State::Available
                },
            None => forall|e: int|
                d <= e < states.len() ==> states[#[trigger] ahead(current, e, states.len() as int)]
                    == State::Available,
        },
    decreases states.len() - d,
{
    let n = states.len() as int;
    if d < n {
        if states[ahead(current, d, n)] != State::Available {
            assert(ahead(current, d, n) == ahead(current, d, n));
        } else {
            lemma_scan(states, current, d + 1);
            match scan(states, current, d + 1) {
                Some(next) => {
                    let k = choose|k: int|
                        {
                            &&& d + 1 <= k < n
                            &&& next == #[trigger] ahead(current, k, n)
                            &&& states[next] != State::Available
                            &&& forall|e: int|
                                d + 1 <= e < k ==> states[#[trigger] ahead(current, e, n)]
                                    == State::Available
                        };
                    assert(next == ahead(current, k, n));
                },
                None => {},
            }
        }
    }
}

/// What [`next_runnable`] picks, said without recursion: the slot `k` places
/// after `current`, for the least `k` from 1 up to the pool size less one
/// whose slot is not `Available`; nothing if all those slots are `Available`.
pub proof fn lemma_next_runnable_is_nearest(states: Seq<State>, current: int)
    requires
        0 <= current < states.len(),
    ensures
        match next_runnable(states, current) {
            Some(next) => {
                &&& 0 <= next < states.len()
                &&& next != current
                &&& states[next] != State::Available
                &&& exists|k: int|
                    {
                        &&& 1 <= k < states.len()
                        &&& next == #[trigger] ahead(current, k, states.len() as int)
                        &&& forall|e: int|
                            1 <= e < k ==> states[#[trigger] ahead(
                                current,
                                e,
                                states.len() as int,
                            )] == State::Available
                    }
            },
            None => forall|i: int|
                0 <= i < states.len() && i != current ==> states[i] == State::Available,
        },
{
    let n = states.len() as int;
    lemma_scan(states, current, 1);
    match next_runnable(states, current) {
        Some(next) => {},
        None => {
            assert forall|i: int| 0 <= i < n && i != current implies states[i]
                == State::Available by {
                let e = if i > current {
                    i - current
                } else {
                    i - current + n
                };
                assert(i == ahead(current, e, n));
            }
        },
    }
}

/// The converse of [`lemma_next_runnable_is_nearest`]: a slot `k` places
/// after `current` that has work, with none but free slots on the way to it,
/// is the one that is picked.
pub proof fn lemma_nearest_is_next_runnable(states: Seq<State>, current: int, k: int)
    requires
        0 <= current < states.len(),
        1 <= k < states.len(),
        states[ahead(current, k, states.len() as int)] != State::Available,
        forall|e: int|
            1 <= e < k ==> states[#[trigger] ahead(current, e, states.len() as int)]
                == State::Available,
    ensures
        next_runnable(states, current) == Some(ahead(current, k, states.len() as int)),
{
    lemma_scan_reaches(states, current, 1, k);
}

proof fn lemma_scan_reaches(states: Seq<State>, current: int, d: int, k: int)
    requires
        0 <= current < states.len(),
        1 <= d <= k < states.len(),
        states[ahead(current, k, states.len() as int)] != State::Available,
        forall|e: int|
            d <= e < k ==> states[#[trigger] ahead(current, e, states.len() as int)]
                == State::Available,
    ensures
        scan(states, current, d) == Some(ahead(current, k, states.len() as int)),
    decreases k - d,
{
    if d < k {
        assert(states[ahead(current, d, states.len() as int)] == State::Available);
        lemma_scan_reaches(states, current, d + 1, k);
    }
}

/// Giving up the CPU keeps the pool coherent, and brings it to rest whenever
/// another fiber takes over.
pub proof fn lemma_yield_keeps_coherent(states: Seq<State>, current: int)
    requires
        coherent(states, current),
    ensures
        coherent(states_after_yield(states, current), current_after_yield(states, current)),
        states_after_yield(states, current).len() == states.len(),
        next_runnable(states, current) is Some ==> settled(
            states_after_yield(states, current),
            current_after_yield(states, current),
        ),
        settled(states, current) ==> settled(
            states_after_yield(states, current),
            current_after_yield(states, current),
        ),
{
    lemma_next_runnable_is_nearest(states, current);
}

/// The return of a task brings the pool to rest: a worker's slot is freed and
/// the CPU goes on to another fiber, of which there is always one, the
/// driver at the least.
pub proof fn lemma_return_settles(states: Seq<State>, current: int)
    requires
        coherent(states, current),
    ensures
        states_after_return(states, current).len() == states.len(),
        settled(states_after_return(states, current), current_after_return(states, current)),
        current != 0 ==> coherent(states_on_return(states, current), current),
        current != 0 ==> next_runnable(states_on_return(states, current), current) is Some,
        current != 0 ==> states_after_return(states, current)[current] == State::Available,
{
    if current != 0 {
        let freed = states_on_return(states, current);
        assert(coherent(freed, current));
        lemma_next_runnable_is_nearest(freed, current);
        lemma_yield_keeps_coherent(freed, current);
        if next_runnable(freed, current) is None {
            assert(freed[0] == State::Available);
        }
    }
}

/// A new pool is at rest with the driver running.
pub proof fn lemma_initial_states_settled(n: nat)
    requires
        n >= 1,
    ensures
        settled(initial_states(n), 0),
{
}

} // verus!
