//! Preparing a block of memory so that it looks like a call stack in the
//! middle of a call.
//!
//! A stack is a buffer of bytes together with the address of its first byte.
//! Addresses and stored words are 64 bits wide and words are stored with the
//! least significant byte first. Nothing here touches memory other than the
//! buffer it is handed: every address is checked against the buffer's bounds
//! before a byte is read or written.
//!
//! A bootstrapped stack holds three return addresses just below its aligned
//! top. From the initial stack pointer upwards they are the task's entry
//! point, the `skip` stub and the `guard` routine:
//!
//! ```text
//!   aligned top - 8    (left as it was)
//!   aligned top - 16   guard
//!   aligned top - 24   skip
//!   aligned top - 32   entry      <- initial stack pointer
//! ```
//!
//! Resuming the fiber returns into `entry`. When `entry` returns it lands in
//! `skip`, which returns at once and lands in `guard`. The word consumed by
//! `skip` is what puts `guard` on the stack position that a called function
//! expects.
use vstd::arithmetic::div_mod::lemma_div_denominator;
use vstd::prelude::*;

verus! {

/// Alignment, in bytes, that the calling convention demands of the stack
/// pointer at a call instruction.
pub const STACK_ALIGNMENT: u64 = 16;

/// Distance from the aligned top of a stack down to the initial stack pointer.
pub const FRAME_BYTES: u64 = 32;

/// Distance from the aligned top down to the word that holds `guard`.
pub const GUARD_DEPTH: u64 = 16;

/// Distance from the aligned top down to the word that holds `skip`.
pub const SKIP_DEPTH: u64 = 24;

/// Distance from the aligned top down to the word that holds the entry point.
pub const ENTRY_DEPTH: u64 = 32;

/// Why a stack could not be read, written or bootstrapped.
#[derive(Clone, Copy, Debug, PartialEq, Eq, Structural)]
pub enum StackError {
    /// The end of the buffer lies beyond the last 64-bit address.
    AddressOverflow,
    /// The buffer has no room for the three return addresses below its
    /// aligned top.
    TooSmall,
    /// The word at the given address does not lie within the buffer.
    OutOfBounds,
}

/// `addr` rounded down to a multiple of the stack alignment.
pub open spec fn spec_align_down(addr: int) -> int {
    addr - addr % 16
}

/// The highest aligned address that is not above the end of a buffer of `len`
/// bytes at `base`.
pub open spec fn aligned_top(base: int, len: int) -> int {
    spec_align_down(base + len)
}

/// The stack pointer with which a fiber on a freshly bootstrapped stack
/// starts.
pub open spec fn initial_rsp(base: int, len: int) -> int {
    aligned_top(base, len) - 32
}

/// Whether a buffer of `len` bytes at `base` can be bootstrapped: it ends
/// within the address space and the three return addresses fit between its
/// first byte and its aligned top.
pub open spec fn frame_fits(base: int, len: int) -> bool {
    &&& base + len <= u64::MAX
    &&& base <= initial_rsp(base, len)
}

/// The error with which bootstrapping a buffer fails when it cannot be
/// bootstrapped.
pub open spec fn bootstrap_failure(base: int, len: int) -> StackError {
    if base + len > u64::MAX {
        StackError::AddressOverflow
    } else {
        StackError::TooSmall
    }
}

/// Whether the word at `addr` lies within a buffer of `len` bytes at `base`.
pub open spec fn word_in_bounds(base: int, len: int, addr: int) -> bool {
    base <= addr && addr + 8 <= base + len
}

/// Weight of the `k`-th byte of a word.
pub open spec fn place(k: int) -> int {
    if k == 0 {
        1
    } else if k == 1 {
        0x100
    } else if k == 2 {
        0x1_0000
    } else if k == 3 {
        0x100_0000
    } else if k == 4 {
        0x1_0000_0000
    } else if k == 5 {
        0x100_0000_0000
    } else if k == 6 {
        0x1_0000_0000_0000
    } else {
        0x100_0000_0000_0000
    }
}

/// The `k`-th byte of `word`, counting from the least significant.
pub open spec fn byte_of(word: u64, k: int) -> u8 {
    ((word as int / place(k)) % 256) as u8
}

/// The value of the eight bytes that start at offset `off`.
pub open spec fn word_at(bytes: Seq<u8>, off: int) -> int {
    bytes[off] * place(0) + bytes[off + 1] * place(1) + bytes[off + 2] * place(2) + bytes[off
        + 3] * place(3) + bytes[off + 4] * place(4) + bytes[off + 5] * place(5) + bytes[off + 6]
        * place(6) + bytes[off + 7] * place(7)
}

/// `bytes` with the eight bytes from offset `off` replaced by `word`.
pub open spec fn with_word(bytes: Seq<u8>, off: int, word: u64) -> Seq<u8> {
    Seq::new(
        bytes.len(),
        |i: int|
            if off <= i < off + 8 {
                byte_of(word, i - off)
            } else {
                bytes[i]
            },
    )
}

/// The contents of a stack after it was bootstrapped: `guard`, `skip` and
/// `entry` stored 16, 24 and 32 bytes below the aligned top, all other bytes
/// as before.
pub open spec fn bootstrapped(
    bytes: Seq<u8>,
    base: int,
    entry: u64,
    skip: u64,
    guard: u64,
) -> Seq<u8> {
    let top = aligned_top(base, bytes.len() as int);
    with_word(
        with_word(with_word(bytes, top - 16 - base, guard), top - 24 - base, skip),
        top - 32 - base,
        entry,
    )
}

/// Whether `sp` is a stack pointer that a function may be entered with: the
/// call that entered it pushed one word onto an aligned stack.
pub open spec fn aligned_for_entry(sp: int) -> bool {
    (sp + 8) % 16 == 0
}

/// Rounds `addr` down to a multiple of the stack alignment.
pub fn align_down(addr: u64) -> (aligned: u64)
    ensures
        aligned == spec_align_down(addr as int),
        aligned % 16 == 0,
        aligned <= addr < aligned + 16,
{
    addr - addr % STACK_ALIGNMENT
}

fn put_word(stack: &mut Vec<u8>, off: usize, word: u64)
    requires
        off + 8 <= old(stack).len(),
    ensures
        final(stack)@ == with_word(old(stack)@, off as int, word),
{
    stack[off] = (word % 256) as u8;
    stack[off + 1] = ((word / 0x100) % 256) as u8;
    stack[off + 2] = ((word / 0x1_0000) % 256) as u8;
    stack[off + 3] = ((word / 0x100_0000) % 256) as u8;
    stack[off + 4] = ((word / 0x1_0000_0000) % 256) as u8;
    stack[off + 5] = ((word / 0x100_0000_0000) % 256) as u8;
    stack[off + 6] = ((word / 0x1_0000_0000_0000) % 256) as u8;
    stack[off + 7] = ((word / 0x100_0000_0000_0000) % 256) as u8;
    assert(stack@ =~= with_word(old(stack)@, off as int, word));
}

fn get_word(stack: &Vec<u8>, off: usize) -> (word: u64)
    requires
        off + 8 <= stack.len(),
    ensures
        word == word_at(stack@, off as int),
{
    let b0: u64 = stack[off] as u64;
    let b1: u64 = stack[off + 1] as u64;
    let b2: u64 = stack[off + 2] as u64;
    let b3: u64 = stack[off + 3] as u64;
    let b4: u64 = stack[off + 4] as u64;
    let b5: u64 = stack[off + 5] as u64;
    let b6: u64 = stack[off + 6] as u64;
    let b7: u64 = stack[off + 7] as u64;
    b0 + b1 * 0x100 + b2 * 0x1_0000 + b3 * 0x100_0000 + b4 * 0x1_0000_0000 + b5
        * 0x100_0000_0000 + b6 * 0x1_0000_0000_0000 + b7 * 0x100_0000_0000_0000
}

/// Offset within the buffer of the word at `addr`, if the word lies in it.
fn offset_of(len: usize, base: u64, addr: u64) -> (off: Option<usize>)
    ensures
        off is Some <==> word_in_bounds(base as int, len as int, addr as int),
        off is Some ==> off->0 == addr - base && off->0 + 8 <= len,
{
    if addr < base {
        return None;
    }
    let off: u64 = addr - base;
    let len64: u64 = len as u64;
    if len64 < 8 || off > len64 - 8 {
        return None;
    }
    Some(off as usize)
}

/// Stores `word` at address `addr` of the stack that starts at `base`.
///
/// Fails with `OutOfBounds`, and leaves the stack alone, exactly when the
/// eight bytes at `addr` do not all lie within the stack.
pub fn write_word(stack: &mut Vec<u8>, base: u64, addr: u64, word: u64) -> (r: Result<
    (),
    StackError,
>)
    ensures
        match r {
            Ok(_) => {
                &&& word_in_bounds(base as int, old(stack).len() as int, addr as int)
                &&& final(stack)@ == with_word(old(stack)@, addr - base, word)
            },
            Err(e) => {
                &&& !word_in_bounds(base as int, old(stack).len() as int, addr as int)
                &&& e == StackError::OutOfBounds
                &&& final(stack)@ == old(stack)@
            },
        },
{
    match offset_of(stack.len(), base, addr) {
        Some(off) => {
            put_word(stack, off, word);
            Ok(())
        },
        None => Err(StackError::OutOfBounds),
    }
}

/// Loads the word at address `addr` of the stack that starts at `base`, or
/// nothing if the eight bytes at `addr` do not all lie within the stack.
pub fn read_word(stack: &Vec<u8>, base: u64, addr: u64) -> (r: Option<u64>)
    ensures
        match r {
            Some(word) => {
                &&& word_in_bounds(base as int, stack.len() as int, addr as int)
                &&& word == word_at(stack@, addr - base)
            },
            None => !word_in_bounds(base as int, stack.len() as int, addr as int),
        },
{
    match offset_of(stack.len(), base, addr) {
        Some(off) => Some(get_word(stack, off)),
        None => None,
    }
}

/// What a return instruction does with the stack pointer at `sp`: it takes
/// the word there as the address to jump to and moves the stack pointer up by
/// one word. Gives the target and the new stack pointer, or nothing if the
/// word at `sp` does not lie within the stack or ends at the very last
/// address.
pub fn pop_return(stack: &Vec<u8>, base: u64, sp: u64) -> (r: Option<(u64, u64)>)
    ensures
        match r {
            Some((target, next)) => {
                &&& word_in_bounds(base as int, stack.len() as int, sp as int)
                &&& target == word_at(stack@, sp - base)
                &&& next == sp + 8
            },
            None => !word_in_bounds(base as int, stack.len() as int, sp as int) || sp + 8
                > u64::MAX,
        },
{
    match (read_word(stack, base, sp), sp.checked_add(8)) {
        (Some(target), Some(next)) => Some((target, next)),
        _ => None,
    }
}

/// Makes a block of memory look like the stack of a fiber that is about to
/// return into `entry`.
///
/// `stack` is the block and `base` the address of its first byte. The top of
/// the block is aligned down to 16 bytes; `guard`, `skip` and `entry` are
/// stored 16, 24 and 32 bytes below it; the address of the word that holds
/// `entry` is returned as the fiber's initial stack pointer. No other byte of
/// the block changes.
///
/// Fails, leaving the stack alone, with `AddressOverflow` when the block
/// would end beyond the last address and with `TooSmall` when the three words
/// do not fit between `base` and the aligned top.
pub fn bootstrap(stack: &mut Vec<u8>, base: u64, entry: u64, skip: u64, guard: u64) -> (r: Result<
    u64,
    StackError,
>)
    ensures
        match r {
            Ok(rsp) => {
                &&& frame_fits(base as int, old(stack).len() as int)
                &&& rsp == initial_rsp(base as int, old(stack).len() as int)
                &&& final(stack)@ == bootstrapped(old(stack)@, base as int, entry, skip, guard)
                &&& rsp % 16 == 0
                &&& aligned_for_entry(rsp + 8)
                &&& aligned_for_entry(rsp + 24)
            },
            Err(e) => {
                &&& final(stack)@ == old(stack)@
                &&& e == bootstrap_failure(base as int, old(stack).len() as int)
                &&& !frame_fits(base as int, old(stack).len() as int)
            },
        },
{
    let len: u64 = stack.len() as u64;
    let top: u64 = match base.checked_add(len) {
        Some(top) => top,
        None => {
            return Err(StackError::AddressOverflow);
        },
    };
    let aligned: u64 = align_down(top);
    if aligned < FRAME_BYTES || aligned - FRAME_BYTES < base {
        return Err(StackError::TooSmall);
    }
    let top_off: u64 = aligned - base;
    put_word(stack, (top_off - GUARD_DEPTH) as usize, guard);
    put_word(stack, (top_off - SKIP_DEPTH) as usize, skip);
    put_word(stack, (top_off - ENTRY_DEPTH) as usize, entry);
    Ok(aligned - FRAME_BYTES)
}

/// A word that was stored can be loaded again: the eight stored bytes make up
/// the word, and a word stored elsewhere without overlap is not disturbed.
pub proof fn lemma_word_round_trip(bytes: Seq<u8>, off: int, word: u64)
    requires
        0 <= off,
        off + 8 <= bytes.len(),
    ensures
        with_word(bytes, off, word).len() == bytes.len(),
        word_at(with_word(bytes, off, word), off) == word,
        forall|other: int|
            0 <= other && other + 8 <= bytes.len() && (other + 8 <= off || off + 8 <= other)
                ==> word_at(#[trigger] with_word(bytes, off, word), other) == word_at(
                bytes,
                other,
            ),
{
    lemma_bytes_make_word(word);
}

/// The eight bytes of a word, each weighted by its place, add up to the word.
pub proof fn lemma_bytes_make_word(word: u64)
    ensures
        byte_of(word, 0) * place(0) + byte_of(word, 1) * place(1) + byte_of(word, 2) * place(2)
            + byte_of(word, 3) * place(3) + byte_of(word, 4) * place(4) + byte_of(word, 5)
            * place(5) + byte_of(word, 6) * place(6) + byte_of(word, 7) * place(7) == word,
{
    let q0 = word as int;
    let q1 = q0 / 256;
    let q2 = q1 / 256;
    let q3 = q2 / 256;
    let q4 = q3 / 256;
    let q5 = q4 / 256;
    let q6 = q5 / 256;
    let q7 = q6 / 256;
    lemma_div_denominator(q0, place(1), 256);
    lemma_div_denominator(q0, place(2), 256);
    lemma_div_denominator(q0, place(3), 256);
    lemma_div_denominator(q0, place(4), 256);
    lemma_div_denominator(q0, place(5), 256);
    lemma_div_denominator(q0, place(6), 256);
    assert(q1 == q0 / place(1));
    assert(q2 == q0 / place(2));
    assert(q3 == q0 / place(3));
    assert(q4 == q0 / place(4));
    assert(q5 == q0 / place(5));
    assert(q6 == q0 / place(6));
    assert(q7 == q0 / place(7));
    assert(q7 < 256);
}

/// The initial stack pointer of a bootstrapped stack is aligned, lies within
/// the stack together with the three words above it, and every function of
/// the chain is entered on a stack position that the calling convention
/// allows: `entry` with the stack pointer one word above the initial one, and
/// `guard`, after `entry` and `skip` have returned, three words above it.
pub proof fn lemma_bootstrap_alignment(base: int, len: int)
    requires
        0 <= base,
        0 <= len,
        frame_fits(base, len),
    ensures
        initial_rsp(base, len) % 16 == 0,
        aligned_top(base, len) % 16 == 0,
        base <= initial_rsp(base, len),
        aligned_top(base, len) <= base + len,
        base + len < aligned_top(base, len) + 16,
        aligned_for_entry(initial_rsp(base, len) + 8),
        !aligned_for_entry(initial_rsp(base, len) + 16),
        aligned_for_entry(initial_rsp(base, len) + 24),
{
}

/// Decoding a bootstrapped stack: the three words from the initial stack
/// pointer upwards are `entry`, `skip` and `guard`, in the order in which
/// returns consume them.
pub proof fn lemma_bootstrap_chain(bytes: Seq<u8>, base: int, entry: u64, skip: u64, guard: u64)
    requires
        0 <= base,
        frame_fits(base, bytes.len() as int),
    ensures
        bootstrapped(bytes, base, entry, skip, guard).len() == bytes.len(),
        word_at(
            bootstrapped(bytes, base, entry, skip, guard),
            initial_rsp(base, bytes.len() as int) - base,
        ) == entry,
        word_at(
            bootstrapped(bytes, base, entry, skip, guard),
            initial_rsp(base, bytes.len() as int) + 8 - base,
        ) == skip,
        word_at(
            bootstrapped(bytes, base, entry, skip, guard),
            initial_rsp(base, bytes.len() as int) + 16 - base,
        ) == guard,
{
    let off = initial_rsp(base, bytes.len() as int) - base;
    let a = with_word(bytes, off + 16, guard);
    let b = with_word(a, off + 8, skip);
    let c = with_word(b, off, entry);
    lemma_word_round_trip(bytes, off + 16, guard);
    lemma_word_round_trip(a, off + 8, skip);
    lemma_word_round_trip(b, off, entry);
    assert(word_at(c, off + 8) == word_at(b, off + 8));
    assert(word_at(b, off + 16) == word_at(a, off + 16));
    assert(word_at(c, off + 16) == word_at(b, off + 16));
}

/// Bootstrapping overwrites exactly the three words of the frame: from the
/// initial stack pointer up to the padding word below the aligned top, the
/// result does not depend on what the stack held before.
pub proof fn lemma_bootstrap_forgets(
    a: Seq<u8>,
    b: Seq<u8>,
    base: int,
    entry: u64,
    skip: u64,
    guard: u64,
)
    requires
        0 <= base,
        a.len() == b.len(),
        frame_fits(base, a.len() as int),
    ensures
        forall|i: int|
            initial_rsp(base, a.len() as int) - base <= i < initial_rsp(base, a.len() as int)
                - base + 24 ==> #[trigger] bootstrapped(a, base, entry, skip, guard)[i]
                == bootstrapped(b, base, entry, skip, guard)[i],
        forall|i: int|
            0 <= i < a.len() && !(initial_rsp(base, a.len() as int) - base <= i < initial_rsp(
                base,
                a.len() as int,
            ) - base + 24) ==> #[trigger] bootstrapped(a, base, entry, skip, guard)[i] == a[i],
{
}

} // verus!
