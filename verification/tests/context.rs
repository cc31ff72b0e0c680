use fibers::context::{switch, Register, ThreadContext, SLOT_COUNT, WORD_BYTES};

const ALL: [Register; 7] = [
    Register::Rsp,
    Register::R15,
    Register::R14,
    Register::R13,
    Register::R12,
    Register::Rbx,
    Register::Rbp,
];

fn sample() -> ThreadContext {
    ThreadContext { rsp: 10, r15: 11, r14: 12, r13: 13, r12: 14, rbx: 15, rbp: 16 }
}

#[test]
fn registers_have_fixed_slots_and_offsets() {
    assert_eq!(SLOT_COUNT, 7);
    assert_eq!(WORD_BYTES, 8);
    let offsets = [0x00usize, 0x08, 0x10, 0x18, 0x20, 0x28, 0x30];
    for (i, reg) in ALL.iter().enumerate() {
        assert_eq!(reg.slot(), i);
        assert_eq!(reg.offset(), offsets[i]);
        assert_eq!(Register::from_slot(i), Some(*reg));
    }
    assert_eq!(Register::from_slot(7), None);
    assert_eq!(Register::from_slot(usize::MAX), None);
}

#[test]
fn new_context_is_all_zero() {
    let ctx = ThreadContext::new();
    assert_eq!(ctx.to_slots(), [0u64; 7]);
    assert_eq!(ThreadContext::default(), ctx);
    assert_eq!(ThreadContext::fresh(0), ctx);
}

#[test]
fn fresh_context_holds_only_the_stack_pointer() {
    let ctx = ThreadContext::fresh(0x7000);
    assert_eq!(ctx.to_slots(), [0x7000, 0, 0, 0, 0, 0, 0]);
}

#[test]
fn slots_follow_register_order() {
    let ctx = sample();
    assert_eq!(ctx.to_slots(), [10, 11, 12, 13, 14, 15, 16]);
    for (i, reg) in ALL.iter().enumerate() {
        assert_eq!(ctx.get(*reg), 10 + i as u64);
    }
}

#[test]
fn set_changes_one_register() {
    for (i, reg) in ALL.iter().enumerate() {
        let mut ctx = sample();
        ctx.set(*reg, 99);
        let mut expected = [10u64, 11, 12, 13, 14, 15, 16];
        expected[i] = 99;
        assert_eq!(ctx.to_slots(), expected);
    }
}

#[test]
fn save_and_restore_use_the_same_order() {
    let ctx = sample();
    assert_eq!(ThreadContext::from_slots(&ctx.to_slots()), ctx);
    let words = [1u64, 2, 3, 4, 5, 6, 7];
    assert_eq!(ThreadContext::from_slots(&words).to_slots(), words);
    assert_eq!(ThreadContext::from_slots(&words).rbp, 7);
    assert_eq!(ThreadContext::from_slots(&words).rsp, 1);
}

#[test]
fn switch_freezes_one_fiber_and_resumes_the_other() {
    let mut live = sample();
    let mut area_a = [0u64; 7];
    let area_b = [21u64, 22, 23, 24, 25, 26, 27];
    switch(&mut live, &mut area_a, &area_b);
    assert_eq!(area_a, [10, 11, 12, 13, 14, 15, 16]);
    assert_eq!(live.to_slots(), area_b);

    let mut area_b2 = [0u64; 7];
    switch(&mut live, &mut area_b2, &area_a);
    assert_eq!(area_b2, area_b);
    assert_eq!(live, sample());
}
