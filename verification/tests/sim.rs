use fibers::runtime::SpawnError;
use fibers::sim::{Event, Simulator, Task};
use fibers::thread::State;

const SKIP: u64 = 0x4020_0000;
const GUARD: u64 = 0x4030_0000;

fn task(yields: u64) -> Task {
    Task { entry: 0x4010_0000 + yields, yields }
}

fn out(slot: usize, counter: u64) -> Event {
    Event::Output { slot, counter }
}

fn done(slot: usize) -> Event {
    Event::Completed { slot }
}

fn states(sim: &Simulator) -> Vec<State> {
    let rt = sim.runtime();
    (0..rt.capacity()).map(|i| rt.state(i).unwrap()).collect()
}

#[test]
fn new_simulator_is_idle_and_active() {
    let sim = Simulator::new(3, SKIP, GUARD);
    assert!(sim.runtime().is_active());
    assert_eq!(sim.runtime().capacity(), 3);
    assert_eq!(states(&sim), vec![State::Running, State::Available, State::Available]);
    assert!(sim.log().is_empty());
}

#[test]
fn run_without_tasks_ends_at_once() {
    let mut sim = Simulator::new(3, SKIP, GUARD);
    assert!(!sim.step());
    sim.run();
    assert!(sim.log().is_empty());
    assert_eq!(states(&sim), vec![State::Running, State::Available, State::Available]);
    assert_eq!(sim.runtime().current(), 0);
}

#[test]
fn two_tasks_of_three_and_two_yields_interleave() {
    let mut sim = Simulator::new(3, SKIP, GUARD);
    assert_eq!(sim.spawn(task(3)), Ok(1));
    assert_eq!(sim.spawn(task(2)), Ok(2));
    sim.run();
    assert_eq!(
        sim.log(),
        &vec![out(1, 0), out(2, 0), out(1, 1), out(2, 1), out(1, 2), done(2), done(1)]
    );
    let yields = sim.log().iter().filter(|e| matches!(e, Event::Output { .. })).count();
    assert_eq!(yields, 5);
    assert_eq!(states(&sim), vec![State::Running, State::Available, State::Available]);
    assert_eq!(sim.runtime().current(), 0);
    assert!(!sim.step());
}

#[test]
fn equal_tasks_alternate_strictly() {
    for k in [0u64, 1, 2, 7, 50] {
        for capacity in [3usize, 4, 6] {
            let mut sim = Simulator::new(capacity, SKIP, GUARD);
            assert_eq!(sim.spawn(task(k)), Ok(1));
            assert_eq!(sim.spawn(task(k)), Ok(2));
            sim.run();
            let mut expected = Vec::new();
            for i in 0..k {
                expected.push(out(1, i));
                expected.push(out(2, i));
            }
            expected.push(done(1));
            expected.push(done(2));
            assert_eq!(sim.log(), &expected);
        }
    }
}

#[test]
fn every_task_completes_exactly_once() {
    let yields = [4u64, 0, 9, 1, 3];
    let mut sim = Simulator::new(6, SKIP, GUARD);
    for (i, y) in yields.iter().enumerate() {
        assert_eq!(sim.spawn(task(*y)), Ok(i + 1));
    }
    sim.run();
    for (i, y) in yields.iter().enumerate() {
        let slot = i + 1;
        let completed = sim.log().iter().filter(|e| **e == done(slot)).count();
        assert_eq!(completed, 1);
        let counters: Vec<u64> = sim
            .log()
            .iter()
            .filter_map(|e| match e {
                Event::Output { slot: s, counter } if *s == slot => Some(*counter),
                _ => None,
            })
            .collect();
        assert_eq!(counters, (0..*y).collect::<Vec<u64>>());
        let last = sim.log().iter().rposition(|e| matches!(e, Event::Output { slot: s, .. } if *s == slot));
        let end = sim.log().iter().position(|e| *e == done(slot)).unwrap();
        if let Some(last) = last {
            assert!(last < end);
        }
    }
    assert_eq!(sim.log().len() as u64, yields.iter().sum::<u64>() + yields.len() as u64);
    assert!(sim.log().iter().all(|e| *e != done(0)));
    let mut expected = vec![State::Available; 6];
    expected[0] = State::Running;
    assert_eq!(states(&sim), expected);
}

#[test]
fn a_single_task_shares_the_cpu_with_the_driver() {
    let mut sim = Simulator::new(2, SKIP, GUARD);
    assert_eq!(sim.spawn(task(2)), Ok(1));
    assert!(sim.step());
    assert_eq!(sim.runtime().current(), 1);
    assert!(sim.log().is_empty());
    assert!(sim.step());
    assert_eq!(sim.runtime().current(), 0);
    assert_eq!(sim.log(), &vec![out(1, 0)]);
    assert_eq!(states(&sim), vec![State::Running, State::Ready]);
    assert!(sim.step());
    assert!(sim.step());
    assert_eq!(sim.log(), &vec![out(1, 0), out(1, 1)]);
    assert!(sim.step());
    assert!(sim.step());
    assert_eq!(sim.log(), &vec![out(1, 0), out(1, 1), done(1)]);
    assert_eq!(states(&sim), vec![State::Running, State::Available]);
    assert!(!sim.step());
    assert_eq!(sim.log().len(), 3);
}

#[test]
fn spawning_past_capacity_fails_and_changes_nothing() {
    let mut sim = Simulator::new(3, SKIP, GUARD);
    assert_eq!(sim.spawn(task(1)), Ok(1));
    assert_eq!(sim.spawn(task(1)), Ok(2));
    assert_eq!(sim.spawn(task(5)), Err(SpawnError::NoAvailableFiber));
    assert_eq!(states(&sim), vec![State::Running, State::Ready, State::Ready]);
    sim.run();
    assert_eq!(sim.log(), &vec![out(1, 0), out(2, 0), done(1), done(2)]);
}

#[test]
fn freed_slots_take_new_tasks() {
    let mut sim = Simulator::new(2, SKIP, GUARD);
    assert_eq!(sim.spawn(task(1)), Ok(1));
    assert_eq!(sim.spawn(task(1)), Err(SpawnError::NoAvailableFiber));
    sim.run();
    assert_eq!(sim.spawn(task(2)), Ok(1));
    let ctx = sim.runtime().context(1).unwrap();
    assert_eq!((ctx.r15, ctx.r14, ctx.r13, ctx.r12, ctx.rbx, ctx.rbp), (0, 0, 0, 0, 0, 0));
    sim.run();
    assert_eq!(sim.log(), &vec![out(1, 0), done(1), out(1, 0), out(1, 1), done(1)]);
    assert_eq!(states(&sim), vec![State::Running, State::Available]);
}

#[test]
fn a_gap_between_tasks_does_not_change_the_order() {
    let mut sim = Simulator::new(5, SKIP, GUARD);
    assert_eq!(sim.spawn(task(0)), Ok(1));
    assert_eq!(sim.spawn(task(2)), Ok(2));
    assert_eq!(sim.spawn(task(0)), Ok(3));
    assert_eq!(sim.spawn(task(2)), Ok(4));
    sim.run();
    assert_eq!(
        sim.log(),
        &vec![done(1), out(2, 0), done(3), out(4, 0), out(2, 1), out(4, 1), done(2), done(4)]
    );
}
