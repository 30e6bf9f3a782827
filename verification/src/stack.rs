//! Stack addresses for tasks: where a stack buffer ends, and the 16-byte rounding that the
//! RISC-V calling convention asks of a stack pointer.
use vstd::prelude::*;

verus! {

/// `addr` rounded down to a multiple of 16.
pub open spec fn align_down_16(addr: int) -> int {
    addr - addr % 16
}

/// Rounds an address down to a 16-byte boundary by clearing its four low bits.
pub fn align_down_16_u64(addr: u64) -> (r: u64)
    ensures
        r == align_down_16(addr as int),
        r % 16 == 0,
        r <= addr,
        addr - r < 16,
{
    assert(addr & !0xFu64 == addr - addr % 16) by (bit_vector);
    addr & !0xFu64
}

/// Rounds an address down to a 16-byte boundary by clearing its four low bits.
pub fn align_down_16_usize(addr: usize) -> (r: usize)
    ensures
        r == align_down_16(addr as int),
        r % 16 == 0,
        r <= addr,
        addr - r < 16,
{
    assert(addr & !0xFusize == addr - addr % 16) by (bit_vector);
    addr & !0xFusize
}

/// The address of the first byte of `buf`'s heap buffer, as `buf.as_ptr() as usize` gives it.
///
/// Where the allocator placed the buffer is up to the machine, so nothing names that address.
/// The contract claims only what Rust guarantees of every allocation: its bytes, and the
/// address just past them, lie within the address space (an allocation never wraps around).
#[verifier::external_body]
pub(crate) fn buffer_address(buf: &Vec<u8>) -> (addr: usize)
    ensures
        addr + buf@.len() <= usize::MAX,
{
    buf.as_ptr() as usize
}

} // verus!
