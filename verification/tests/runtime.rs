use fibers::context::ThreadContext;
use fibers::runtime::{ProtocolError, Runtime, SpawnError};
use fibers::schedule::Switch;
use fibers::stack::{read_word, StackError};
use fibers::thread::{State, Thread, DEFAULT_STACK_SIZE};

const ENTRY: u64 = 0x4010_0000;
const SKIP: u64 = 0x4020_0000;
const GUARD: u64 = 0x4030_0000;
const BASE: u64 = 0x7f00_0000_0008;

fn states(rt: &Runtime) -> Vec<State> {
    (0..rt.capacity()).map(|i| rt.state(i).unwrap()).collect()
}

#[test]
fn new_thread_is_available_with_a_zeroed_stack() {
    let t = Thread::new();
    assert_eq!(t.state, State::Available);
    assert_eq!(t.ctx, ThreadContext::new());
    assert_eq!(t.stack.len(), DEFAULT_STACK_SIZE);
    assert_eq!(DEFAULT_STACK_SIZE, 2 * 1024 * 1024);
    assert!(t.stack.iter().all(|b| *b == 0));
}

#[test]
fn new_runtime_has_the_driver_running() {
    let rt = Runtime::new(4);
    assert_eq!(rt.capacity(), 4);
    assert_eq!(rt.current(), 0);
    assert!(!rt.is_active());
    assert_eq!(
        states(&rt),
        vec![State::Running, State::Available, State::Available, State::Available]
    );
    for i in 0..4 {
        assert_eq!(rt.context(i), Some(ThreadContext::new()));
        assert_eq!(rt.stack(i).unwrap().len(), DEFAULT_STACK_SIZE);
    }
    assert_eq!(rt.state(4), None);
    assert_eq!(rt.context(4), None);
    assert!(rt.stack(4).is_none());
    assert_eq!(rt.first_available(), Some(1));
    assert_eq!(rt.next_runnable(), None);
}

#[test]
fn runtime_of_one_slot_has_no_room_for_tasks() {
    let mut rt = Runtime::new(1);
    assert_eq!(states(&rt), vec![State::Running]);
    assert_eq!(rt.first_available(), None);
    assert_eq!(rt.spawn(ENTRY, SKIP, GUARD), Err(SpawnError::NoAvailableFiber));
    assert_eq!(rt.t_yield(), None);
    assert_eq!(rt.t_return(), None);
    assert_eq!(states(&rt), vec![State::Running]);
}

#[test]
fn init_makes_the_runtime_active() {
    let mut rt = Runtime::new(2);
    rt.init();
    assert!(rt.is_active());
    assert_eq!(states(&rt), vec![State::Running, State::Available]);
    assert_eq!(rt.current(), 0);
}

#[test]
fn spawn_at_prepares_the_lowest_free_slot() {
    let mut rt = Runtime::new(3);
    assert_eq!(rt.spawn_at(BASE, ENTRY, SKIP, GUARD), Ok(1));
    assert_eq!(states(&rt), vec![State::Running, State::Ready, State::Available]);
    assert_eq!(rt.current(), 0);

    let top = (BASE + DEFAULT_STACK_SIZE as u64) & !15;
    let rsp = top - 32;
    assert_eq!(rt.context(1), Some(ThreadContext::fresh(rsp)));
    let stack = rt.stack(1).unwrap();
    assert_eq!(read_word(stack, BASE, rsp), Some(ENTRY));
    assert_eq!(read_word(stack, BASE, rsp + 8), Some(SKIP));
    assert_eq!(read_word(stack, BASE, rsp + 16), Some(GUARD));
    assert_eq!(read_word(stack, BASE, rsp + 24), Some(0));
    assert_eq!(read_word(stack, BASE, rsp - 8), Some(0));

    assert_eq!(rt.context(0), Some(ThreadContext::new()));
    assert_eq!(rt.context(2), Some(ThreadContext::new()));
    assert!(rt.stack(2).unwrap().iter().all(|b| *b == 0));

    assert_eq!(rt.spawn_at(BASE, ENTRY + 1, SKIP, GUARD), Ok(2));
    assert_eq!(states(&rt), vec![State::Running, State::Ready, State::Ready]);
}

#[test]
fn spawn_uses_the_address_of_the_stack() {
    let mut rt = Runtime::new(3);
    assert_eq!(rt.spawn(ENTRY, SKIP, GUARD), Ok(1));
    assert_eq!(states(&rt), vec![State::Running, State::Ready, State::Available]);
    let ctx = rt.context(1).unwrap();
    assert_eq!(ctx.rsp % 16, 0);
    assert_eq!(ctx, ThreadContext::fresh(ctx.rsp));
    let stack = rt.stack(1).unwrap();
    let len = stack.len() as u64;
    let found = (0..16u64).any(|pad| {
        let base = ctx.rsp + 32 + pad - len;
        read_word(stack, base, ctx.rsp) == Some(ENTRY)
            && read_word(stack, base, ctx.rsp + 8) == Some(SKIP)
            && read_word(stack, base, ctx.rsp + 16) == Some(GUARD)
    });
    assert!(found);
}

#[test]
fn spawn_fails_when_the_pool_is_exhausted() {
    let mut rt = Runtime::new(3);
    assert_eq!(rt.spawn(ENTRY, SKIP, GUARD), Ok(1));
    assert_eq!(rt.spawn(ENTRY, SKIP, GUARD), Ok(2));
    let before_states = states(&rt);
    let ctx1 = rt.context(1);
    let ctx2 = rt.context(2);
    let stack1 = rt.stack(1).unwrap().clone();
    assert_eq!(rt.spawn(ENTRY + 8, SKIP, GUARD), Err(SpawnError::NoAvailableFiber));
    assert_eq!(rt.spawn_at(BASE, ENTRY + 8, SKIP, GUARD), Err(SpawnError::NoAvailableFiber));
    assert_eq!(states(&rt), before_states);
    assert_eq!(rt.context(1), ctx1);
    assert_eq!(rt.context(2), ctx2);
    assert_eq!(rt.stack(1).unwrap(), &stack1);
    assert_eq!(rt.current(), 0);
    assert_eq!(rt.first_available(), None);
}

#[test]
fn spawn_at_reports_a_stack_that_cannot_be_bootstrapped() {
    let mut rt = Runtime::new(2);
    assert_eq!(
        rt.spawn_at(u64::MAX - 5, ENTRY, SKIP, GUARD),
        Err(SpawnError::Stack(StackError::AddressOverflow))
    );
    assert_eq!(states(&rt), vec![State::Running, State::Available]);
    assert_eq!(rt.context(1), Some(ThreadContext::new()));
    assert!(rt.stack(1).unwrap().iter().all(|b| *b == 0));
    assert_eq!(rt.spawn_at(BASE, ENTRY, SKIP, GUARD), Ok(1));
}

#[test]
fn yield_goes_round_the_pool() {
    let mut rt = Runtime::new(4);
    rt.spawn_at(BASE, ENTRY, SKIP, GUARD).unwrap();
    rt.spawn_at(BASE, ENTRY, SKIP, GUARD).unwrap();
    assert_eq!(rt.next_runnable(), Some(1));
    assert_eq!(rt.t_yield(), Some(Switch { from: 0, to: 1 }));
    assert_eq!(rt.current(), 1);
    assert_eq!(
        states(&rt),
        vec![State::Ready, State::Running, State::Ready, State::Available]
    );
    assert_eq!(rt.t_yield(), Some(Switch { from: 1, to: 2 }));
    assert_eq!(
        states(&rt),
        vec![State::Ready, State::Ready, State::Running, State::Available]
    );
    assert_eq!(rt.next_runnable(), Some(0));
    assert_eq!(rt.t_yield(), Some(Switch { from: 2, to: 0 }));
    assert_eq!(
        states(&rt),
        vec![State::Running, State::Ready, State::Ready, State::Available]
    );
    assert_eq!(rt.current(), 0);
}

#[test]
fn yield_without_other_work_changes_nothing() {
    let mut rt = Runtime::new(3);
    assert_eq!(rt.t_yield(), None);
    assert_eq!(rt.current(), 0);
    assert_eq!(states(&rt), vec![State::Running, State::Available, State::Available]);
}

#[test]
fn yield_skips_free_slots() {
    let mut rt = Runtime::new(4);
    rt.spawn_at(BASE, ENTRY, SKIP, GUARD).unwrap();
    rt.spawn_at(BASE, ENTRY, SKIP, GUARD).unwrap();
    rt.spawn_at(BASE, ENTRY, SKIP, GUARD).unwrap();
    assert_eq!(rt.t_yield(), Some(Switch { from: 0, to: 1 }));
    assert_eq!(rt.t_yield(), Some(Switch { from: 1, to: 2 }));
    assert_eq!(rt.t_return(), Some(Switch { from: 2, to: 3 }));
    assert_eq!(rt.t_yield(), Some(Switch { from: 3, to: 0 }));
    assert_eq!(rt.t_yield(), Some(Switch { from: 0, to: 1 }));
    assert_eq!(rt.t_yield(), Some(Switch { from: 1, to: 3 }));
    assert_eq!(
        states(&rt),
        vec![State::Ready, State::Ready, State::Available, State::Running]
    );
}

#[test]
fn return_frees_the_slot_and_hands_on() {
    let mut rt = Runtime::new(3);
    rt.spawn_at(BASE, ENTRY, SKIP, GUARD).unwrap();
    assert_eq!(rt.t_yield(), Some(Switch { from: 0, to: 1 }));
    assert_eq!(rt.t_return(), Some(Switch { from: 1, to: 0 }));
    assert_eq!(rt.current(), 0);
    assert_eq!(states(&rt), vec![State::Running, State::Available, State::Available]);
    assert_eq!(rt.t_yield(), None);
}

#[test]
fn return_of_the_driver_does_nothing() {
    let mut rt = Runtime::new(3);
    rt.spawn_at(BASE, ENTRY, SKIP, GUARD).unwrap();
    assert_eq!(rt.t_return(), None);
    assert_eq!(rt.current(), 0);
    assert_eq!(states(&rt), vec![State::Running, State::Ready, State::Available]);
}

#[test]
fn exactly_one_fiber_runs_at_any_time() {
    let mut rt = Runtime::new(5);
    for _ in 0..3 {
        rt.spawn_at(BASE, ENTRY, SKIP, GUARD).unwrap();
    }
    for turn in 0..40 {
        let running = states(&rt).iter().filter(|s| **s == State::Running).count();
        assert_eq!(running, 1);
        assert_eq!(rt.state(rt.current()), Some(State::Running));
        assert_ne!(rt.state(0), Some(State::Available));
        if turn % 7 == 6 {
            rt.t_return();
        } else {
            rt.t_yield();
        }
    }
}

#[test]
fn reused_slot_starts_like_a_fresh_one() {
    let mut used = Runtime::new(2);
    used.spawn_at(BASE, 0x1111, 0x2222, 0x3333).unwrap();
    used.t_yield();
    used.t_return();
    assert_eq!(used.state(1), Some(State::Available));
    assert_ne!(used.context(1), Some(ThreadContext::new()));
    assert_eq!(used.spawn_at(BASE, ENTRY, SKIP, GUARD), Ok(1));

    let mut fresh = Runtime::new(2);
    assert_eq!(fresh.spawn_at(BASE, ENTRY, SKIP, GUARD), Ok(1));

    assert_eq!(used.context(1), fresh.context(1));
    assert_eq!(used.stack(1).unwrap(), fresh.stack(1).unwrap());
    assert_eq!(states(&used), states(&fresh));
}

#[test]
fn yield_thread_needs_an_active_runtime() {
    let mut rt = Runtime::new(2);
    rt.spawn_at(BASE, ENTRY, SKIP, GUARD).unwrap();
    assert_eq!(rt.yield_thread(), Err(ProtocolError::NotInitialized));
    assert_eq!(rt.current(), 0);
    assert_eq!(states(&rt), vec![State::Running, State::Ready]);
    rt.init();
    assert_eq!(rt.yield_thread(), Ok(Some(Switch { from: 0, to: 1 })));
    assert_eq!(rt.yield_thread(), Ok(Some(Switch { from: 1, to: 0 })));
}

#[test]
fn guard_needs_an_active_runtime() {
    let mut rt = Runtime::new(2);
    rt.spawn_at(BASE, ENTRY, SKIP, GUARD).unwrap();
    rt.t_yield();
    assert_eq!(rt.guard(), Err(ProtocolError::NotInitialized));
    assert_eq!(states(&rt), vec![State::Ready, State::Running]);
    rt.init();
    assert_eq!(rt.guard(), Ok(Some(Switch { from: 1, to: 0 })));
    assert_eq!(states(&rt), vec![State::Running, State::Available]);
    assert_eq!(rt.guard(), Ok(None));
    assert_eq!(rt.yield_thread(), Ok(None));
}
