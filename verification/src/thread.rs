//! A fiber: a call stack, the register values to resume it with, and its place
//! in the fiber life cycle.
use crate::context::ThreadContext;
use vstd::prelude::*;

verus! {

/// Size in bytes of every fiber's stack: 2 MiB.
pub const DEFAULT_STACK_SIZE: usize = 1024 * 1024 * 2;

/// Where a fiber slot stands in its life cycle.
#[derive(Clone, Copy, Debug, PartialEq, Eq, Structural)]
pub enum State {
    /// The slot is unused and may be given a task.
    Available,
    /// The fiber is the one executing on the CPU.
    Running,
    /// The fiber is suspended and may be resumed.
    Ready,
}

/// One slot of the fiber pool.
pub struct Thread {
    pub stack: Vec<u8>,
    pub ctx: ThreadContext,
    pub state: State,
}

impl Thread {
    /// An unused fiber slot: a zeroed stack of [`DEFAULT_STACK_SIZE`] bytes, a
    /// zeroed context, and the state `Available`.
    pub fn new() -> (thread: Thread)
        ensures
            thread.state == State::Available,
            thread.ctx == ThreadContext::spec_fresh(0),
            thread.stack@ == Seq::new(DEFAULT_STACK_SIZE as nat, |i: int| 0u8),
    {
        let stack = vec![0u8; DEFAULT_STACK_SIZE];
        assert(stack@ =~= Seq::new(DEFAULT_STACK_SIZE as nat, |i: int| 0u8));
        Thread { stack, ctx: ThreadContext::new(), state: State::Available }
    }
}

} // verus!
