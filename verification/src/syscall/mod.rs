//! The system calls: their identifiers and the entry that counts and
//! dispatches them.
use vstd::prelude::*;
use crate::config::{IDLE_PID, MAX_SYSCALL_NUM};
use crate::syscall::process::{
    exec_ret, exec_state, fork_ret, fork_state, get_time_ret, get_time_state, mmap_ret,
    mmap_state, munmap_ret, munmap_state, sbrk_ret, sbrk_state, sys_exec, sys_exit, sys_fork,
    sys_get_time, sys_getpid, sys_mmap, sys_munmap, sys_sbrk, sys_task_info, sys_waitpid,
    sys_yield, task_info_ret, task_info_state, waitpid_ret, waitpid_state,
};
use crate::task::control_block::{TaskView, TrapContext};
use crate::task::kernel::Kernel;
use crate::task::preserve::lemma_with_task_wf;
use crate::task::state::KernelView;
use crate::task::update_current_task_syscall_count;

pub mod process;
pub mod proofs;

verus! {

pub const SYSCALL_EXIT: usize = 93;

pub const SYSCALL_YIELD: usize = 124;

pub const SYSCALL_GET_TIME: usize = 169;

pub const SYSCALL_GETPID: usize = 172;

pub const SYSCALL_SBRK: usize = 214;

pub const SYSCALL_MUNMAP: usize = 215;

pub const SYSCALL_FORK: usize = 220;

pub const SYSCALL_EXEC: usize = 221;

pub const SYSCALL_MMAP: usize = 222;

pub const SYSCALL_WAITPID: usize = 260;

pub const SYSCALL_TASK_INFO: usize = 410;

/// How a system call ended.
#[derive(Clone, Copy, Debug, PartialEq, Eq, Structural)]
pub enum SyscallOutcome {
    /// The handler returned this value to the calling task.
    Returned(isize),
    /// The calling task exited; nothing is returned to it.
    Exited,
    /// The idle process asked to exit: all applications are done, and the
    /// machine is to halt.
    Halted,
}

/// The state after one more call of `id` was counted for the running
/// task. Identifiers without a counter are not counted, and a counter that
/// is full stays full.
pub open spec fn counted(s: KernelView, id: usize) -> KernelView {
    if id < MAX_SYSCALL_NUM && s.cur().syscall_times[id as int] < u32::MAX {
        s.with_task(
            s.current.unwrap(),
            TaskView {
                syscall_times: s.cur().syscall_times.update(
                    id as int,
                    (s.cur().syscall_times[id as int] + 1) as u32,
                ),
                ..s.cur()
            },
        )
    } else {
        s
    }
}

/// What the handler of the system call `id` makes of the state `s`.
pub open spec fn handled_state(s: KernelView, id: usize, args: [usize; 3]) -> KernelView {
    if id == SYSCALL_EXIT {
        if s.current == Some(IDLE_PID) {
            s
        } else {
            s.exit(args[0] as i32)
        }
    } else if id == SYSCALL_YIELD {
        s.suspend()
    } else if id == SYSCALL_GET_TIME {
        get_time_state(s, args[0])
    } else if id == SYSCALL_SBRK {
        sbrk_state(s, args[0] as i32)
    } else if id == SYSCALL_MUNMAP {
        munmap_state(s, args[0], args[1])
    } else if id == SYSCALL_FORK {
        fork_state(s)
    } else if id == SYSCALL_EXEC {
        exec_state(s, args[0])
    } else if id == SYSCALL_MMAP {
        mmap_state(s, args[0], args[1], args[2])
    } else if id == SYSCALL_WAITPID {
        waitpid_state(s, args[0] as isize, args[1])
    } else if id == SYSCALL_TASK_INFO {
        task_info_state(s, args[0])
    } else {
        s
    }
}

/// How the handler of the system call `id` ends in the state `s`. An
/// identifier without a handler yields -1.
pub open spec fn handled_outcome(s: KernelView, id: usize, args: [usize; 3]) -> SyscallOutcome {
    if id == SYSCALL_EXIT {
        if s.current == Some(IDLE_PID) {
            SyscallOutcome::Halted
        } else {
            SyscallOutcome::Exited
        }
    } else if id == SYSCALL_YIELD {
        SyscallOutcome::Returned(0isize)
    } else if id == SYSCALL_GET_TIME {
        SyscallOutcome::Returned(get_time_ret(s, args[0]) as isize)
    } else if id == SYSCALL_GETPID {
        SyscallOutcome::Returned(s.cur().pid as isize)
    } else if id == SYSCALL_SBRK {
        SyscallOutcome::Returned(sbrk_ret(s, args[0] as i32) as isize)
    } else if id == SYSCALL_MUNMAP {
        SyscallOutcome::Returned(munmap_ret(s, args[0], args[1]) as isize)
    } else if id == SYSCALL_FORK {
        SyscallOutcome::Returned(fork_ret(s) as isize)
    } else if id == SYSCALL_EXEC {
        SyscallOutcome::Returned(exec_ret(s, args[0]) as isize)
    } else if id == SYSCALL_MMAP {
        SyscallOutcome::Returned(mmap_ret(s, args[0], args[1], args[2]) as isize)
    } else if id == SYSCALL_WAITPID {
        SyscallOutcome::Returned(waitpid_ret(s, args[0] as isize, args[1]) as isize)
    } else if id == SYSCALL_TASK_INFO {
        SyscallOutcome::Returned(task_info_ret(s, args[0]) as isize)
    } else {
        SyscallOutcome::Returned(-1isize)
    }
}

/// The state `s` with `value` in the result register of the task `pid`, if
/// that task exists.
pub open spec fn with_result(s: KernelView, pid: usize, value: isize) -> KernelView {
    if s.has_task(pid) {
        s.with_task(
            pid,
            TaskView {
                trap_cx: TrapContext { a0: value as usize, ..s.tasks[pid].trap_cx },
                ..s.tasks[pid]
            },
        )
    } else {
        s
    }
}

/// The state after the running task made the system call `id` with the
/// arguments `args`: the call is counted, the handler runs, and what it
/// returned stands in the caller's result register.
pub open spec fn syscall_state(s: KernelView, id: usize, args: [usize; 3]) -> KernelView {
    let c = counted(s, id);
    let h = handled_state(c, id, args);
    match handled_outcome(c, id, args) {
        SyscallOutcome::Returned(value) => with_result(h, s.current.unwrap(), value),
        _ => h,
    }
}

/// Puts `value` into the result register of the task `pid`, if that task
/// exists.
fn set_result(kernel: &mut Kernel, pid: usize, value: isize)
    requires
        old(kernel).wf(),
    ensures
        final(kernel).wf(),
        final(kernel)@ == with_result(old(kernel)@, pid, value),
{
    if kernel.has_task(pid) {
        proof {
            assert(kernel@.task_ok(pid));
        }
        let mut task = kernel.take_task(pid);
        task.trap_cx.a0 = #[verifier::truncate] (value as usize);
        proof {
            task.lemma_view_wf();
            lemma_with_task_wf(old(kernel)@, pid, task@);
        }
        kernel.put_task(pid, task);
        proof {
            assert(kernel@.tasks =~= old(kernel)@.tasks.insert(pid, task@));
        }
    }
}

/// The entry of every system call: counts the call `syscall_id` for the
/// running task, runs its handler with the arguments `args`, and puts what
/// the handler returned into the caller's result register.
pub fn syscall(kernel: &mut Kernel, syscall_id: usize, args: [usize; 3]) -> (outcome: SyscallOutcome)
    requires
        old(kernel).wf(),
        old(kernel)@.has_current(),
    ensures
        final(kernel).wf(),
        final(kernel)@ == syscall_state(old(kernel)@, syscall_id, args),
        outcome == handled_outcome(counted(old(kernel)@, syscall_id), syscall_id, args),
        outcome != SyscallOutcome::Halted ==> final(kernel)@.has_current(),
{
    let caller = kernel.current_task().unwrap();
    proof {
        assert(kernel@.has_task(caller));
        assert(kernel@.task_ok(caller));
    }
    if syscall_id < MAX_SYSCALL_NUM {
        let counts = crate::task::get_current_task_syscall_count(kernel);
        if counts[syscall_id] < u32::MAX {
            update_current_task_syscall_count(kernel, syscall_id);
        }
    }
    let ghost c = kernel@;
    proof {
        assert(c == counted(old(kernel)@, syscall_id));
        assert(c.current == Some(caller));
        assert(c.has_task(caller));
        assert(c.task_ok(caller));
    }
    let value: isize = if syscall_id == SYSCALL_EXIT {
        if caller == IDLE_PID {
            return SyscallOutcome::Halted;
        }
        sys_exit(kernel, #[verifier::truncate] (args[0] as i32));
        return SyscallOutcome::Exited;
    } else if syscall_id == SYSCALL_YIELD {
        sys_yield(kernel)
    } else if syscall_id == SYSCALL_GET_TIME {
        sys_get_time(kernel, args[0], args[1])
    } else if syscall_id == SYSCALL_GETPID {
        sys_getpid(kernel)
    } else if syscall_id == SYSCALL_SBRK {
        sys_sbrk(kernel, #[verifier::truncate] (args[0] as i32))
    } else if syscall_id == SYSCALL_MUNMAP {
        sys_munmap(kernel, args[0], args[1])
    } else if syscall_id == SYSCALL_FORK {
        sys_fork(kernel)
    } else if syscall_id == SYSCALL_EXEC {
        sys_exec(kernel, args[0])
    } else if syscall_id == SYSCALL_MMAP {
        sys_mmap(kernel, args[0], args[1], args[2])
    } else if syscall_id == SYSCALL_WAITPID {
        sys_waitpid(kernel, #[verifier::truncate] (args[0] as isize), args[1])
    } else if syscall_id == SYSCALL_TASK_INFO {
        sys_task_info(kernel, args[0])
    } else {
        -1
    };
    proof {
        assert(kernel@ == handled_state(c, syscall_id, args));
        assert(SyscallOutcome::Returned(value) == handled_outcome(c, syscall_id, args));
    }
    let ghost h = kernel@;
    set_result(kernel, caller, value);
    proof {
        assert(h.current == with_result(h, caller, value).current);
    }
    SyscallOutcome::Returned(value)
}

} // verus!
