//! Process and task core of a small teaching kernel: task lifecycle,
//! cooperative round-robin scheduling, per-task address spaces and the
//! system-call handlers built on them.
//!
//! The kernel state is an explicit value ([`task::kernel::Kernel`]) that
//! every operation takes by reference. Each operation is a transition of
//! that state, and its contract says which: [`task::state::KernelView`] is
//! the state as contracts speak of it, [`mm::address_space::AddressSpace`]
//! that of one address space.
//!
//! What the core cannot do itself stays with its caller: reading the timer
//! (see [`task::kernel::Kernel::set_time`]), switching the processor to the
//! task that became the running one, and halting the machine.
use vstd::prelude::*;

pub mod config;
pub mod mm;
pub mod syscall;
pub mod task;
