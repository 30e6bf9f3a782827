//! The register state of a stackful coroutine on riscv64, and the setup that makes a first
//! switch into it start a given function on a fresh stack.
//!
//! The switch itself is assembly and stays outside this library; what stands here is the
//! saved-register layout and the values a new task starts from.
use vstd::prelude::*;
use crate::stack::{align_down_16, align_down_16_u64, align_down_16_usize, buffer_address};

verus! {

/// The size in bytes of a coroutine stack.
pub const STACK_SIZE: usize = 1024 * 64;

/// The callee-saved registers of one task: `sp` and `ra`, then `s0` to `s11`, in the order the
/// switch stores them (`sp` at offset 0, `ra` at 8, `s0`..`s11` at 16..104).
#[derive(Debug, Clone, Copy)]
pub struct TaskContext {
    pub sp: u64,
    pub ra: u64,
    pub s0: u64,
    pub s1: u64,
    pub s2: u64,
    pub s3: u64,
    pub s4: u64,
    pub s5: u64,
    pub s6: u64,
    pub s7: u64,
    pub s8: u64,
    pub s9: u64,
    pub s10: u64,
    pub s11: u64,
}

impl TaskContext {
    /// `s0` to `s11`, in order.
    pub open spec fn saved_regs(self) -> Seq<u64> {
        seq![
            self.s0, self.s1, self.s2, self.s3, self.s4, self.s5,
            self.s6, self.s7, self.s8, self.s9, self.s10, self.s11,
        ]
    }

    /// Whether every register of the context is zero.
    pub open spec fn is_zero(self) -> bool {
        &&& self.sp == 0
        &&& self.ra == 0
        &&& self.saved_regs() == Seq::new(12, |i: int| 0u64)
    }

    /// A context with every register zero.
    pub fn empty() -> (r: Self)
        ensures
            r.is_zero(),
    {
        let r = Self {
            sp: 0,
            ra: 0,
            s0: 0,
            s1: 0,
            s2: 0,
            s3: 0,
            s4: 0,
            s5: 0,
            s6: 0,
            s7: 0,
            s8: 0,
            s9: 0,
            s10: 0,
            s11: 0,
        };
        assert(r.saved_regs() =~= Seq::new(12, |i: int| 0u64));
        r
    }

    /// Prepares the context so that the first switch into it starts executing at `entry` on
    /// the stack whose top is `stack_top`: `ra` becomes `entry` (the switch's `ret` jumps
    /// there), `sp` becomes `stack_top` rounded down to a 16-byte boundary, and `s0`..`s11`
    /// keep their values.
    pub fn init(&mut self, stack_top: usize, entry: usize)
        ensures
            final(self).ra == entry,
            final(self).sp == align_down_16(stack_top as int),
            final(self).sp % 16 == 0,
            final(self).saved_regs() == old(self).saved_regs(),
    {
        self.ra = entry as u64;
        self.sp = align_down_16_u64(stack_top as u64);
    }
}

impl Default for TaskContext {
    fn default() -> (r: Self)
        ensures
            r.is_zero(),
    {
        TaskContext::empty()
    }
}

/// The top of a stack whose buffer starts at `base` and is `len` bytes long: the address just
/// past the buffer, rounded down to a 16-byte boundary (the stack grows down from there).
pub fn stack_top(base: usize, len: usize) -> (top: usize)
    requires
        base + len <= usize::MAX,
    ensures
        top == align_down_16(base + len),
        top % 16 == 0,
        base + len - 16 < top <= base + len,
{
    align_down_16_usize(base + len)
}

/// Allocates a zeroed stack of `STACK_SIZE` bytes and returns it with its top: the address just
/// past the buffer, rounded down to 16 bytes. The buffer must outlive every context that runs
/// on it.
pub fn alloc_stack() -> (r: (Vec<u8>, usize))
    ensures
        r.0@.len() == STACK_SIZE,
        forall|i: int| 0 <= i < STACK_SIZE ==> r.0@[i] == 0u8,
        r.1 % 16 == 0,
        exists|base: int|
            0 <= base && base + STACK_SIZE <= usize::MAX && r.1 == #[trigger] align_down_16(base + STACK_SIZE),
{
    let buffer = vec![0u8; STACK_SIZE];
    let base = buffer_address(&buffer);
    let top = stack_top(base, STACK_SIZE);
    (buffer, top)
}

} // verus!
