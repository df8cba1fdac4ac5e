//! Tasks: control blocks, the ready queue, the processor's current-task
//! slot, the kernel state that ties them together, and the operations on
//! the running task.
use vstd::prelude::*;
use crate::config::{
    IDLE_PID, MAX_SYSCALL_NUM, spec_page_ceil, spec_page_floor, page_ceil, page_floor,
};
use crate::mm::flags::{MapPermission, PageTableEntry};
use crate::task::control_block::{TaskControlBlock, TaskStatus, TaskView};
use crate::task::kernel::Kernel;
use crate::task::lifecycle::lemma_exit_makes_zombie;
use crate::task::preserve::{
    lemma_add_initproc_wf, lemma_dispatch_wf, lemma_requeue_wf, lemma_retire_wf,
    lemma_with_memory_wf, lemma_with_task_wf,
};
use crate::task::state::KernelView;

pub mod control_block;
pub mod fairness;
pub mod kernel;
pub mod lifecycle;
pub mod manager;
pub mod preserve;
pub mod processor;
pub mod state;

verus! {

/// The name under which the loader offers the initial process.
pub open spec fn spec_initproc_name() -> Seq<u8> {
    seq![99u8, 104u8, 53u8, 98u8, 95u8, 105u8, 110u8, 105u8, 116u8, 112u8, 114u8, 111u8, 99u8]
}

/// The name under which the loader offers the initial process:
/// `ch5b_initproc`.
pub fn initproc_name() -> (name: Vec<u8>)
    ensures
        name@ == spec_initproc_name(),
{
    let name: Vec<u8> = vec![
        99u8, 104u8, 53u8, 98u8, 95u8, 105u8, 110u8, 105u8, 116u8, 112u8, 114u8, 111u8, 99u8,
    ];
    proof {
        assert(name@ =~= spec_initproc_name());
    }
    name
}

/// Suspends the running task and runs the next: the running task becomes
/// ready and goes to the tail of the ready queue, and the task at the head
/// of the queue becomes the running task.
pub fn suspend_current_and_run_next(kernel: &mut Kernel)
    requires
        old(kernel).wf(),
        old(kernel)@.has_current(),
    ensures
        final(kernel).wf(),
        final(kernel)@ == old(kernel)@.suspend(),
        final(kernel)@.has_current(),
{
    proof {
        lemma_requeue_wf(kernel@);
    }
    let pid = kernel.processor.take_current().unwrap();
    let mut task = kernel.take_task(pid);
    task.status = TaskStatus::Ready;
    kernel.put_task(pid, task);
    kernel.manager.add(pid);
    proof {
        assert(kernel@.tasks =~= old(kernel)@.requeue_current().tasks);
    }
    let _ = kernel.run_tasks();
}

/// Ends the running task with `exit_code` and runs the next. The task
/// becomes a zombie that keeps its exit code for its parent; its children
/// become the last children of the idle process; every page of its
/// address space is released. Then the task at the head of the ready
/// queue becomes the running task.
///
/// The idle process itself must not end this way: its end is the end of
/// all applications, which the caller handles by halting.
#[verifier::loop_isolation(false)]
pub fn exit_current_and_run_next(kernel: &mut Kernel, exit_code: i32)
    requires
        old(kernel).wf(),
        old(kernel)@.has_current(),
        old(kernel)@.current != Some(IDLE_PID),
    ensures
        final(kernel).wf(),
        final(kernel)@ == old(kernel)@.exit(exit_code),
        final(kernel)@.has_current(),
        final(kernel)@.current != old(kernel)@.current,
{
    let ghost start = kernel@;
    proof {
        lemma_retire_wf(start, exit_code);
        lemma_exit_makes_zombie(start, exit_code);
        assert(start.has_task(start.current.unwrap()));
        assert(start.has_task(IDLE_PID));
        assert(start.task_ok(start.current.unwrap()));
    }
    let pid = kernel.processor.take_current().unwrap();
    let mut task = kernel.take_task(pid);
    task.status = TaskStatus::Zombie;
    task.exit_code = exit_code;
    let mut init = kernel.take_task(IDLE_PID);
    let ghost kids = task.children@;
    let ghost init_kids = init.children@;
    let mut i: usize = 0;
    proof {
        assert(init_kids + kids.subrange(0, 0) =~= init_kids);
    }
    while i < task.children.len()
        invariant
            i <= task.children.len(),
            init.wf(),
            init@ == (TaskView {
                children: init_kids + kids.subrange(0, i as int),
                ..start.tasks[IDLE_PID]
            }),
            kernel.tasks.len() == old(kernel).tasks.len(),
            kernel.manager@ == start.ready,
            kernel.processor@.is_none(),
            kernel.apps@ == start.apps,
            kernel.now_us == start.now_us,
            kernel.tasks[pid as int].is_none(),
            kernel.tasks[IDLE_PID as int].is_none(),
            forall|q: int|
                0 <= q < kernel.tasks.len() && q != pid && q != IDLE_PID ==> (
                #[trigger] kernel.tasks[q]).is_some() == old(kernel).tasks[q].is_some(),
            forall|q: int|
                0 <= q < kernel.tasks.len() && q != pid && q != IDLE_PID && (
                #[trigger] kernel.tasks[q]).is_some() ==> kernel.tasks[q].unwrap().wf()
                    && kernel.tasks[q].unwrap()@ == (if kids.subrange(0, i as int).contains(
                    q as usize,
                ) {
                    TaskView { parent: Some(IDLE_PID), ..start.tasks[q as usize] }
                } else {
                    start.tasks[q as usize]
                }),
        decreases task.children.len() - i,
    {
        let c = task.children[i];
        proof {
            assert(start.has_task(start.tasks[pid].children[i as int]));
            assert(start.task_ok(c));
            assert(start.task_ok(pid));
        }
        let mut child = kernel.take_task(c);
        child.parent = Some(IDLE_PID);
        kernel.put_task(c, child);
        init.children.push(c);
        proof {
            let before = kids.subrange(0, i as int);
            let after = kids.subrange(0, i + 1);
            assert(after =~= before.push(c));
            assert(init.children@ =~= init_kids + after);
            assert forall|q: usize| after.contains(q) == (before.contains(q) || q == c) by {
                if before.contains(q) {
                    let j = choose|j: int| 0 <= j < before.len() && before[j] == q;
                    assert(after[j] == q);
                }
                if q == c {
                    assert(after[i as int] == c);
                }
                if after.contains(q) {
                    let j = choose|j: int| 0 <= j < after.len() && after[j] == q;
                    if j < i {
                        assert(before[j] == q);
                    }
                }
            }
        }
        i = i + 1;
    }
    kernel.put_task(IDLE_PID, init);
    task.children.clear();
    task.memory_set.recycle_data_pages();
    kernel.put_task(pid, task);
    proof {
        assert(kids.subrange(0, kids.len() as int) =~= kids);
        let target = start.retire_current(exit_code);
        assert forall|q: usize| kernel@.tasks.contains_key(q) == target.tasks.contains_key(q) by {
            if q != pid && q != IDLE_PID && q < kernel.tasks.len() {
                assert(kernel.tasks[q as int].is_some() == old(kernel).tasks[q as int].is_some());
            }
        }
        assert forall|q: usize| kernel@.tasks.contains_key(q) implies kernel@.tasks[q]
            == target.tasks[q] by {
            if q == pid {
                assert(kernel@.tasks[q].children =~= Seq::<usize>::empty());
            } else if q == IDLE_PID {
            } else {
                assert(kernel.tasks[q as int].is_some());
            }
        }
        assert(kernel@.tasks =~= target.tasks);
        assert(kernel@ == target);
        assert(kernel.repr_ok()) by {
            assert forall|q: int|
                0 <= q < kernel.tasks.len() && (#[trigger] kernel.tasks[q]).is_some() implies (
            kernel.tasks[q].unwrap()).wf() by {}
        }
        lemma_dispatch_wf(target);
    }
    let _ = kernel.run_tasks();
}

/// Creates the initial process from the program that the loader offers
/// under [`initproc_name`], gives it the identifier of the idle process
/// and puts it into the ready queue. Does nothing and returns `false` if
/// the process exists already or the program cannot be started.
pub fn add_initproc(kernel: &mut Kernel) -> (ok: bool)
    requires
        old(kernel).wf(),
    ensures
        final(kernel).wf(),
        ok == (!old(kernel)@.has_task(IDLE_PID) && old(kernel)@.can_load(spec_initproc_name())),
        ok ==> final(kernel)@ == (KernelView {
            tasks: old(kernel)@.tasks.insert(
                IDLE_PID,
                TaskView::fresh(IDLE_PID, old(kernel)@.app(spec_initproc_name())),
            ),
            ready: seq![IDLE_PID],
            ..old(kernel)@
        }),
        !ok ==> final(kernel)@ == old(kernel)@,
{
    if kernel.has_task(IDLE_PID) {
        return false;
    }
    let name = initproc_name();
    let index = match kernel.find_app(&name) {
        Some(index) => index,
        None => {
            return false;
        },
    };
    let task = match TaskControlBlock::new(&kernel.apps[index].image, IDLE_PID) {
        Some(task) => task,
        None => {
            return false;
        },
    };
    proof {
        task.lemma_view_wf();
        lemma_add_initproc_wf(kernel@, task@);
        assert(kernel@.ready.push(IDLE_PID) =~= seq![IDLE_PID]);
    }
    kernel.install(IDLE_PID, task);
    kernel.manager.add(IDLE_PID);
    true
}

/// The status of the running task.
pub fn get_current_task_status(kernel: &Kernel) -> (status: TaskStatus)
    requires
        kernel.wf(),
        kernel@.has_current(),
    ensures
        status == kernel@.cur().status,
{
    let pid = kernel.processor.current().unwrap();
    kernel.task(pid).status
}

/// The time, in milliseconds, at which the running task first ran.
pub fn get_current_task_start_time(kernel: &Kernel) -> (start_time: usize)
    requires
        kernel.wf(),
        kernel@.has_current(),
    ensures
        start_time == kernel@.cur().start_time,
{
    let pid = kernel.processor.current().unwrap();
    kernel.task(pid).start_time
}

/// The identifier of the running task.
pub fn get_current_task_id(kernel: &Kernel) -> (pid: usize)
    requires
        kernel.wf(),
        kernel@.has_current(),
    ensures
        Some(pid) == kernel@.current,
        pid == kernel@.cur().pid,
{
    proof {
        assert(kernel@.has_task(kernel@.current.unwrap()));
        assert(kernel@.task_ok(kernel@.current.unwrap()));
    }
    kernel.processor.current().unwrap()
}

/// How often the running task has made each system call, by system-call
/// identifier.
pub fn get_current_task_syscall_count(kernel: &Kernel) -> (counts: Vec<u32>)
    requires
        kernel.wf(),
        kernel@.has_current(),
    ensures
        counts@ == kernel@.cur().syscall_times,
        counts.len() == MAX_SYSCALL_NUM,
{
    let pid = kernel.processor.current().unwrap();
    proof {
        assert(kernel@.has_task(pid));
        assert(kernel@.task_ok(pid));
    }
    let counts = kernel.task(pid).syscall_times.clone();
    proof {
        assert(counts@ =~= kernel@.cur().syscall_times);
    }
    counts
}

/// Counts one more call of the system call `syscall_id` by the running
/// task.
pub fn update_current_task_syscall_count(kernel: &mut Kernel, syscall_id: usize)
    requires
        old(kernel).wf(),
        old(kernel)@.has_current(),
        syscall_id < MAX_SYSCALL_NUM,
        old(kernel)@.cur().syscall_times[syscall_id as int] < u32::MAX,
    ensures
        final(kernel).wf(),
        final(kernel)@ == old(kernel)@.with_task(
            old(kernel)@.current.unwrap(),
            TaskView {
                syscall_times: old(kernel)@.cur().syscall_times.update(
                    syscall_id as int,
                    (old(kernel)@.cur().syscall_times[syscall_id as int] + 1) as u32,
                ),
                ..old(kernel)@.cur()
            },
        ),
{
    let pid = kernel.processor.current().unwrap();
    proof {
        assert(kernel@.has_task(pid));
        assert(kernel@.task_ok(pid));
    }
    let mut task = kernel.take_task(pid);
    let count = task.syscall_times[syscall_id];
    task.syscall_times[syscall_id] = count + 1;
    proof {
        lemma_with_task_wf(old(kernel)@, pid, task@);
    }
    kernel.put_task(pid, task);
    proof {
        assert(kernel@.tasks =~= old(kernel)@.tasks.insert(pid, task@));
    }
}

/// The page-table entry of page `vpn` in the running task's address space,
/// or `None` if the page is not mapped.
pub fn get_current_task_page_table(kernel: &Kernel, vpn: usize) -> (entry: Option<PageTableEntry>)
    requires
        kernel.wf(),
        kernel@.has_current(),
    ensures
        entry == kernel@.cur().memory.translate(vpn as int),
{
    let pid = kernel.processor.current().unwrap();
    kernel.task(pid).memory_set.translate(vpn)
}

/// Maps the pages from the one that holds `start_va` up to the first page
/// boundary at or after `end_va` into the running task's address space, as
/// one new zero-filled region with rights `perm`. Fails, changing nothing,
/// if one of these pages is already mapped.
pub fn create_new_map_area(kernel: &mut Kernel, start_va: usize, end_va: usize, perm: MapPermission) -> (ok:
    bool)
    requires
        old(kernel).wf(),
        old(kernel)@.has_current(),
    ensures
        final(kernel).wf(),
        ok == old(kernel)@.cur().memory.range_free(
            spec_page_floor(start_va as int),
            spec_page_ceil(end_va as int),
        ),
        ok ==> final(kernel)@ == old(kernel)@.with_current_memory(
            old(kernel)@.cur().memory.map_range(
                spec_page_floor(start_va as int),
                spec_page_ceil(end_va as int),
                perm,
            ),
        ),
        !ok ==> final(kernel)@ == old(kernel)@,
{
    let pid = kernel.processor.current().unwrap();
    proof {
        assert(kernel@.has_task(pid));
    }
    let mut task = kernel.take_task(pid);
    let ok = task.memory_set.insert_framed_area(start_va, end_va, perm);
    proof {
        task.lemma_view_wf();
        lemma_with_memory_wf(old(kernel)@, task@.memory);
    }
    kernel.put_task(pid, task);
    proof {
        assert(kernel@.tasks =~= old(kernel)@.with_current_memory(task@.memory).tasks);
        if !ok {
            assert(kernel@.tasks =~= old(kernel)@.tasks);
        }
    }
    ok
}

/// Unmaps the pages from the one that holds `start` up to the first page
/// boundary at or after `start + len` from the running task's address
/// space, one by one in ascending order. Returns 0 if all were mapped.
/// At the first page that is not mapped it stops and returns -1; the pages
/// unmapped before it stay unmapped.
pub fn unmap_consecutive_area(kernel: &mut Kernel, start: usize, len: usize) -> (ret: isize)
    requires
        old(kernel).wf(),
        old(kernel)@.has_current(),
        start + len <= usize::MAX,
    ensures
        final(kernel).wf(),
        final(kernel)@ == old(kernel)@.with_current_memory(
            old(kernel)@.cur().memory.unmap_range(
                spec_page_floor(start as int),
                spec_page_ceil(start + len),
            ).0,
        ),
        ret == (if old(kernel)@.cur().memory.unmap_range(
            spec_page_floor(start as int),
            spec_page_ceil(start + len),
        ).1 {
            0isize
        } else {
            -1isize
        }),
{
    let pid = kernel.processor.current().unwrap();
    proof {
        assert(kernel@.has_task(pid));
    }
    let start_vpn = page_floor(start);
    let end_vpn = page_ceil(start + len);
    let mut task = kernel.take_task(pid);
    let ok = task.memory_set.remove_region(start_vpn, end_vpn);
    proof {
        task.lemma_view_wf();
        lemma_with_memory_wf(old(kernel)@, task@.memory);
    }
    kernel.put_task(pid, task);
    proof {
        assert(kernel@.tasks =~= old(kernel)@.with_current_memory(task@.memory).tasks);
    }
    if ok {
        0
    } else {
        -1
    }
}

/// Moves the running task's program break by `size` bytes and returns the
/// break as it was before, or `None`, changing nothing, if the move is not
/// valid.
pub fn change_program_brk(kernel: &mut Kernel, size: i32) -> (r: Option<usize>)
    requires
        old(kernel).wf(),
        old(kernel)@.has_current(),
    ensures
        final(kernel).wf(),
        r.is_some() == old(kernel)@.cur().memory.brk_change_valid(size as int),
        r.is_some() ==> r == Some(old(kernel)@.cur().memory.brk as usize) && final(kernel)@ == old(
            kernel,
        )@.with_current_memory(old(kernel)@.cur().memory.change_brk(size as int)),
        r.is_none() ==> final(kernel)@ == old(kernel)@,
{
    let pid = kernel.processor.current().unwrap();
    proof {
        assert(kernel@.has_task(pid));
    }
    let mut task = kernel.take_task(pid);
    let r = task.change_program_brk(size);
    proof {
        task.lemma_view_wf();
        lemma_with_memory_wf(old(kernel)@, task@.memory);
    }
    kernel.put_task(pid, task);
    proof {
        assert(kernel@.tasks =~= old(kernel)@.with_current_memory(task@.memory).tasks);
        if r.is_none() {
            assert(kernel@.tasks =~= old(kernel)@.tasks);
        }
    }
    r
}

/// Copies `data` into the running task's address space at the addresses
/// from `va` on, through the task's page table, so that the destination
/// may span several pages. Fails, changing nothing, unless every byte of
/// the destination lies in a mapped page.
pub fn copy_to_current_user(kernel: &mut Kernel, va: usize, data: &Vec<u8>) -> (ok: bool)
    requires
        old(kernel).wf(),
        old(kernel)@.has_current(),
    ensures
        final(kernel).wf(),
        ok == old(kernel)@.cur().memory.buffer_mapped(va as int, data.len() as int),
        ok ==> final(kernel)@ == old(kernel)@.with_current_memory(
            old(kernel)@.cur().memory.write(va as int, data@),
        ),
        !ok ==> final(kernel)@ == old(kernel)@,
{
    let pid = kernel.processor.current().unwrap();
    proof {
        assert(kernel@.has_task(pid));
    }
    let mut task = kernel.take_task(pid);
    let ok = task.memory_set.write_bytes(va, data);
    proof {
        task.lemma_view_wf();
        lemma_with_memory_wf(old(kernel)@, task@.memory);
    }
    kernel.put_task(pid, task);
    proof {
        assert(kernel@.tasks =~= old(kernel)@.with_current_memory(task@.memory).tasks);
        if !ok {
            assert(kernel@.tasks =~= old(kernel)@.tasks);
        }
    }
    ok
}

/// Copies the zero-terminated text at `va` out of the running task's
/// address space, without its terminating zero. Yields `None` if an
/// unmapped page comes before a zero byte.
pub fn read_current_user_text(kernel: &Kernel, va: usize) -> (r: Option<Vec<u8>>)
    requires
        kernel.wf(),
        kernel@.has_current(),
    ensures
        r.is_some() == kernel@.cur().memory.has_text(va as int),
        r.is_some() ==> r.unwrap()@ == kernel@.cur().memory.text(va as int),
{
    let pid = kernel.processor.current().unwrap();
    kernel.task(pid).memory_set.read_text(va)
}

} // verus!
