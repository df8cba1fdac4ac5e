use vstd::prelude::*;

verus! {

/// Size of one page of virtual memory, in bytes.
pub const PAGE_SIZE: usize = 4096;

/// Number of address bits that select a byte inside a page.
pub const PAGE_SIZE_BITS: usize = 12;

/// First virtual address above the user-addressable range. It is small
/// enough for every user address to fit the signed result of a system
/// call, whatever the width of `isize`.
pub const MAXVA: usize = 0x4000_0000;

/// Size of the stack that a new user program starts with, in bytes.
pub const USER_STACK_SIZE: usize = 8192;

/// Number of slots in the per-task table of system-call counters.
pub const MAX_SYSCALL_NUM: usize = 500;

/// One more than the largest process identifier.
pub const MAX_TASKS: usize = 0x7fff_ffff;

/// Identifier of the idle (initial) process.
pub const IDLE_PID: usize = 0;

/// Page number that contains the address `va`.
pub open spec fn spec_page_floor(va: int) -> int {
    va / (PAGE_SIZE as int)
}

/// Page number of the first page boundary at or above `va`.
pub open spec fn spec_page_ceil(va: int) -> int {
    (va + PAGE_SIZE - 1) / (PAGE_SIZE as int)
}

/// Page number that contains the address `va`.
pub fn page_floor(va: usize) -> (vpn: usize)
    ensures
        vpn == spec_page_floor(va as int),
{
    va / PAGE_SIZE
}

/// Page number of the first page boundary at or above `va`.
pub fn page_ceil(va: usize) -> (vpn: usize)
    ensures
        vpn == spec_page_ceil(va as int),
{
    let q: usize = va / PAGE_SIZE;
    if va % PAGE_SIZE == 0 {
        q
    } else {
        q + 1
    }
}

} // verus!
