//! The life cycle of a task: what the invariant and the transitions say
//! about zombies.
use vstd::prelude::*;
use crate::config::IDLE_PID;
use crate::task::control_block::TaskStatus;
use crate::task::state::KernelView;

verus! {

/// A zombie neither runs nor waits in the ready queue.
pub proof fn lemma_zombie_not_scheduled(s: KernelView, pid: usize)
    requires
        s.wf(),
        s.has_task(pid),
        s.tasks[pid].status == TaskStatus::Zombie,
    ensures
        s.current != Some(pid),
        !s.ready.contains(pid),
{
}

/// A yield, an exit of another task and a fork leave a zombie a zombie
/// with its exit code: it is never scheduled again.
pub proof fn lemma_zombie_stays(s: KernelView, pid: usize, exit_code: i32)
    requires
        s.wf(),
        s.has_current(),
        s.has_task(pid),
        s.tasks[pid].status == TaskStatus::Zombie,
    ensures
        s.suspend().has_task(pid),
        s.suspend().tasks[pid].status == TaskStatus::Zombie,
        s.suspend().tasks[pid].exit_code == s.tasks[pid].exit_code,
        s.current != Some(IDLE_PID) ==> s.exit(exit_code).has_task(pid) && s.exit(
            exit_code,
        ).tasks[pid].status == TaskStatus::Zombie && s.exit(exit_code).tasks[pid].exit_code
            == s.tasks[pid].exit_code,
        s.can_fork() ==> s.fork().has_task(pid) && s.fork().tasks[pid].status
            == TaskStatus::Zombie && s.fork().tasks[pid].exit_code == s.tasks[pid].exit_code,
{
    let p = s.current.unwrap();
    assert(s.has_task(p));
    assert(p != pid);
    assert(!s.ready.contains(pid));
    let queued = s.requeue_current();
    assert(queued.ready[0] != pid) by {
        if s.ready.len() > 0 {
            assert(s.ready.contains(s.ready[0]));
        }
    }
    if s.current != Some(IDLE_PID) {
        crate::task::preserve::lemma_retire_wf(s, exit_code);
        assert(s.ready.contains(s.ready[0]));
        assert(s.tasks[IDLE_PID].status != TaskStatus::Zombie);
    }
    if s.can_fork() {
        crate::task::preserve::lemma_fork_wf(s);
    }
}

/// The task that exits becomes a zombie with the exit code it gave.
pub proof fn lemma_exit_makes_zombie(s: KernelView, exit_code: i32)
    requires
        s.wf(),
        s.has_current(),
        s.current != Some(IDLE_PID),
    ensures
        s.exit(exit_code).has_task(s.current.unwrap()),
        s.exit(exit_code).tasks[s.current.unwrap()].status == TaskStatus::Zombie,
        s.exit(exit_code).tasks[s.current.unwrap()].exit_code == exit_code,
        s.exit(exit_code).current != s.current,
{
    let p = s.current.unwrap();
    assert(s.has_task(p));
    crate::task::preserve::lemma_retire_wf(s, exit_code);
    assert(s.ready.contains(s.ready[0]));
}

} // verus!
