//! The saved register set of a suspended fiber.
//!
//! A context is seven machine words: the stack pointer and the six registers
//! that a callee must preserve under the System V x86-64 calling convention.
//! The order of the words in memory is fixed by [`Register`]: the routine that
//! saves a context and the routine that restores one must both go by it.
use vstd::prelude::*;

verus! {

/// Number of machine words in a saved context.
pub const SLOT_COUNT: usize = 7;

/// Size of a machine word in bytes.
pub const WORD_BYTES: usize = 8;

/// The registers that make up a context, listed in slot order.
#[derive(Clone, Copy, Debug, PartialEq, Eq, Structural)]
pub enum Register {
    Rsp,
    R15,
    R14,
    R13,
    R12,
    Rbx,
    Rbp,
}

impl Register {
    /// Position of the register's word within a saved context.
    pub open spec fn index(self) -> int {
        match self {
            Register::Rsp => 0,
            Register::R15 => 1,
            Register::R14 => 2,
            Register::R13 => 3,
            Register::R12 => 4,
            Register::Rbx => 5,
            Register::Rbp => 6,
        }
    }

    /// Position of the register's word within a saved context.
    pub fn slot(self) -> (i: usize)
        ensures
            i == self.index(),
            i < SLOT_COUNT,
    {
        match self {
            Register::Rsp => 0,
            Register::R15 => 1,
            Register::R14 => 2,
            Register::R13 => 3,
            Register::R12 => 4,
            Register::Rbx => 5,
            Register::Rbp => 6,
        }
    }

    /// Distance in bytes from the start of a saved context to the register's
    /// word.
    pub fn offset(self) -> (o: usize)
        ensures
            o == WORD_BYTES * self.index(),
    {
        WORD_BYTES * self.slot()
    }

    /// The register whose word sits at position `i`, if there is one.
    pub fn from_slot(i: usize) -> (r: Option<Register>)
        ensures
            i < SLOT_COUNT ==> r is Some && r->0.index() == i,
            i >= SLOT_COUNT ==> r is None,
    {
        if i == 0 {
            Some(Register::Rsp)
        } else if i == 1 {
            Some(Register::R15)
        } else if i == 2 {
            Some(Register::R14)
        } else if i == 3 {
            Some(Register::R13)
        } else if i == 4 {
            Some(Register::R12)
        } else if i == 5 {
            Some(Register::Rbx)
        } else if i == 6 {
            Some(Register::Rbp)
        } else {
            None
        }
    }
}

/// The register values with which a suspended fiber resumes.
#[derive(Clone, Copy, Debug, PartialEq, Eq, Structural)]
pub struct ThreadContext {
    pub rsp: u64,
    pub r15: u64,
    pub r14: u64,
    pub r13: u64,
    pub r12: u64,
    pub rbx: u64,
    pub rbp: u64,
}

impl ThreadContext {
    /// The context as it lies in memory: one word per register, in slot
    /// order.
    pub open spec fn slots(self) -> Seq<u64> {
        seq![self.rsp, self.r15, self.r14, self.r13, self.r12, self.rbx, self.rbp]
    }

    /// The context of a fiber that has not run yet: it resumes on the stack
    /// at `rsp` and every other register is zero.
    pub open spec fn spec_fresh(rsp: u64) -> ThreadContext {
        ThreadContext { rsp, r15: 0, r14: 0, r13: 0, r12: 0, rbx: 0, rbp: 0 }
    }

    /// The all-zero context of a fiber slot that was never used.
    pub fn new() -> (ctx: ThreadContext)
        ensures
            ctx == Self::spec_fresh(0),
    {
        ThreadContext { rsp: 0, r15: 0, r14: 0, r13: 0, r12: 0, rbx: 0, rbp: 0 }
    }

    /// The context of a fiber that has not run yet.
    #[verifier::when_used_as_spec(spec_fresh)]
    pub fn fresh(rsp: u64) -> (ctx: ThreadContext)
        ensures
            ctx == Self::spec_fresh(rsp),
    {
        ThreadContext { rsp, r15: 0, r14: 0, r13: 0, r12: 0, rbx: 0, rbp: 0 }
    }

    /// The value saved for `reg`.
    pub fn get(&self, reg: Register) -> (value: u64)
        ensures
            value == self.slots()[reg.index()],
    {
        match reg {
            Register::Rsp => self.rsp,
            Register::R15 => self.r15,
            Register::R14 => self.r14,
            Register::R13 => self.r13,
            Register::R12 => self.r12,
            Register::Rbx => self.rbx,
            Register::Rbp => self.rbp,
        }
    }

    /// Replaces the value saved for `reg` and leaves the others alone.
    pub fn set(&mut self, reg: Register, value: u64)
        ensures
            final(self).slots() == old(self).slots().update(reg.index(), value),
    {
        match reg {
            Register::Rsp => self.rsp = value,
            Register::R15 => self.r15 = value,
            Register::R14 => self.r14 = value,
            Register::R13 => self.r13 = value,
            Register::R12 => self.r12 = value,
            Register::Rbx => self.rbx = value,
            Register::Rbp => self.rbp = value,
        }
    }

    /// Lays the context out as it is stored in memory.
    pub fn to_slots(&self) -> (words: [u64; 7])
        ensures
            words@ == self.slots(),
    {
        [self.rsp, self.r15, self.r14, self.r13, self.r12, self.rbx, self.rbp]
    }

    /// Reads a context back from its memory image.
    pub fn from_slots(words: &[u64; 7]) -> (ctx: ThreadContext)
        ensures
            ctx.slots() == words@,
    {
        ThreadContext {
            rsp: words[0],
            r15: words[1],
            r14: words[2],
            r13: words[3],
            r12: words[4],
            rbx: words[5],
            rbp: words[6],
        }
    }
}

impl Default for ThreadContext {
    fn default() -> (ctx: ThreadContext)
        ensures
            ctx == ThreadContext::spec_fresh(0),
    {
        ThreadContext::new()
    }
}

/// The effect of a context switch on the register file.
///
/// `live` stands for the registers of the CPU. Their values are stored into
/// the save area `outgoing`, word by word in slot order, and then replaced by
/// the words of `incoming`. The fiber that owns `outgoing` is frozen at this
/// point; the fiber that owns `incoming` goes on from wherever it was frozen.
pub fn switch(live: &mut ThreadContext, outgoing: &mut [u64; 7], incoming: &[u64; 7])
    ensures
        final(outgoing)@ == old(live).slots(),
        final(live).slots() == incoming@,
{
    *outgoing = live.to_slots();
    *live = ThreadContext::from_slots(incoming);
}

/// Two contexts with the same memory image are the same context: no register
/// shares a slot with another.
pub proof fn lemma_slots_distinguish(a: ThreadContext, b: ThreadContext)
    requires
        a.slots() == b.slots(),
    ensures
        a == b,
{
    assert(a.rsp == a.slots()[0]);
    assert(a.r15 == a.slots()[1]);
    assert(a.r14 == a.slots()[2]);
    assert(a.r13 == a.slots()[3]);
    assert(a.r12 == a.slots()[4]);
    assert(a.rbx == a.slots()[5]);
    assert(a.rbp == a.slots()[6]);
}

/// A context that was saved by one switch and restored by a later one comes
/// back unchanged: saving and restoring go by the same slot order.
pub proof fn lemma_save_then_restore(live: ThreadContext, after: ThreadContext, area: Seq<u64>)
    requires
        area == live.slots(),
        after.slots() == area,
    ensures
        after == live,
{
    lemma_slots_distinguish(after, live);
}

} // verus!
