//! What follows from the contracts of the system calls.
use vstd::prelude::*;
use crate::config::{MAXVA, spec_page_ceil, spec_page_floor};
use crate::mm::address_space::AddressSpace;
use crate::mm::flags::{MapPermission, lemma_entry_matches_permission, lemma_port_permission};
use crate::mm::proofs::{lemma_map_range_wf, lemma_map_then_unmap, lemma_write_then_read};
use crate::syscall::process::{
    TimeVal, current_task_info_bytes, exit_code_bytes, get_time_state, lemma_counts_bytes_len, mmap_space,
    mmap_valid, munmap_outcome, munmap_valid, task_info_size, task_info_state, waitpid_ret,
    waitpid_state,
};
use crate::task::control_block::TaskStatus;
use crate::task::state::{KernelView, wait_matches};

verus! {

/// After a granted request to map memory, the space is well-formed, and
/// every page of the range translates to a valid, user-accessible entry
/// that grants read, write and execute exactly as bits 0, 1 and 2 of
/// `port` ask.
pub proof fn lemma_mmap_translates(space: AddressSpace, start: usize, len: usize, port: usize)
    requires
        space.wf(),
        mmap_valid(space, start, len, port),
    ensures
        mmap_space(space, start, len, port).wf(),
        forall|vpn: int|
            spec_page_floor(start as int) <= vpn < spec_page_ceil(start + len) ==> {
                let entry = #[trigger] mmap_space(space, start, len, port).translate(vpn);
                &&& entry.is_some()
                &&& entry.unwrap().is_valid()
                &&& entry.unwrap().user()
                &&& entry.unwrap().readable() == (port & 1 != 0)
                &&& entry.unwrap().writable() == (port & 2 != 0)
                &&& entry.unwrap().executable() == (port & 4 != 0)
            },
{
    let perm = MapPermission::spec_from_port(port);
    lemma_port_permission(port);
    lemma_entry_matches_permission(perm);
    lemma_map_range_wf(space, spec_page_floor(start as int), spec_page_ceil(start + len), perm);
}

/// After a granted request to map a range that ends at or below `MAXVA`,
/// a request to unmap the same range is accepted and succeeds; afterwards
/// no page of the range translates, and the pages are what they were
/// before the two requests.
pub proof fn lemma_mmap_then_munmap(space: AddressSpace, start: usize, len: usize, port: usize)
    requires
        space.wf(),
        mmap_valid(space, start, len, port),
        start + len <= MAXVA,
    ensures
        munmap_valid(start),
        munmap_outcome(mmap_space(space, start, len, port), start, len).1,
        munmap_outcome(mmap_space(space, start, len, port), start, len).0.pages == space.pages,
        forall|vpn: int|
            spec_page_floor(start as int) <= vpn < spec_page_ceil(start + len) ==> (
            #[trigger] munmap_outcome(mmap_space(space, start, len, port), start, len).0.translate(
                vpn,
            )).is_none(),
{
    lemma_map_then_unmap(
        space,
        spec_page_floor(start as int),
        spec_page_ceil(start + len),
        MapPermission::spec_from_port(port),
    );
}

/// A request to map a range that holds a mapped page is not granted, so
/// that `sys_mmap` returns -1 and changes nothing.
pub proof fn lemma_mmap_overlap_rejected(
    space: AddressSpace,
    start: usize,
    len: usize,
    port: usize,
    vpn: int,
)
    requires
        space.mapped(vpn),
        spec_page_floor(start as int) <= vpn < spec_page_ceil(start + len),
    ensures
        !mmap_valid(space, start, len, port),
{
}

/// A wait for a child that the running task does not have returns -1 and
/// changes nothing, whatever the state of its children.
pub proof fn lemma_waitpid_unknown_child(s: KernelView, pid: isize, exit_code_ptr: usize)
    requires
        pid != -1,
        forall|k: int| 0 <= k < s.cur().children.len() ==> s.cur().children[k] as int != pid as int,
    ensures
        waitpid_ret(s, pid, exit_code_ptr) == -1,
        waitpid_state(s, pid, exit_code_ptr) == s,
{
    assert(!s.has_matching_child(pid as int));
    assert(!s.has_reapable(pid as int)) by {
        if s.has_reapable(pid as int) {
            let k = choose|k: int| #[trigger] s.reapable(pid as int, k);
            assert(wait_matches(pid as int, s.cur().children[k]));
        }
    }
}

/// A wait that concerns a child, none of which has exited, returns -2 and
/// changes nothing.
pub proof fn lemma_waitpid_child_alive(s: KernelView, pid: isize, exit_code_ptr: usize)
    requires
        s.has_matching_child(pid as int),
        !s.has_reapable(pid as int),
    ensures
        waitpid_ret(s, pid, exit_code_ptr) == -2,
        waitpid_state(s, pid, exit_code_ptr) == s,
{
}

/// After `sys_get_time` stored the time, a read of the 16 bytes at the
/// destination yields the bytes of the time value, whether the
/// destination lies in one page or spans two.
pub proof fn lemma_get_time_reads_back(s: KernelView, ts: usize)
    requires
        s.wf(),
        s.has_current(),
        s.cur().memory.buffer_mapped(ts as int, 16),
    ensures
        get_time_state(s, ts).cur().memory.read(ts as int, 16) == TimeVal::spec_from_micros(
            s.now_us,
        ).spec_to_bytes(),
{
    let bytes = TimeVal::spec_from_micros(s.now_us).spec_to_bytes();
    vstd::bytes::lemma_auto_spec_u64_to_from_le_bytes();
    assert(bytes.len() == 16);
    assert(s.has_task(s.current.unwrap()));
    assert(s.task_ok(s.current.unwrap()));
    lemma_write_then_read(s.cur().memory, ts as int, bytes);
}

/// After `sys_task_info` stored the report, a read of the destination
/// yields the bytes of the report, however many pages the destination
/// spans.
pub proof fn lemma_task_info_reads_back(s: KernelView, ti: usize)
    requires
        s.wf(),
        s.has_current(),
        s.cur().memory.buffer_mapped(ti as int, task_info_size()),
    ensures
        current_task_info_bytes(s).len() == task_info_size(),
        task_info_state(s, ti).cur().memory.read(ti as int, task_info_size())
            == current_task_info_bytes(s),
{
    let bytes = current_task_info_bytes(s);
    vstd::bytes::lemma_auto_spec_u64_to_from_le_bytes();
    assert(s.has_task(s.current.unwrap()));
    assert(s.task_ok(s.current.unwrap()));
    lemma_counts_bytes_len(s.cur().syscall_times);
    assert(bytes.len() == task_info_size());
    lemma_write_then_read(s.cur().memory, ti as int, bytes);
}

/// Right after a fork, while the new child has not exited, a wait for it
/// returns -2; so does a wait for any child, unless an older child is a
/// zombie.
pub proof fn lemma_fork_then_wait(s: KernelView, exit_code_ptr: usize)
    requires
        s.wf(),
        s.has_current(),
        s.can_fork(),
    ensures
        waitpid_ret(s.fork(), s.lowest_free() as isize, exit_code_ptr) == -2,
        !s.has_reapable(-1) ==> waitpid_ret(s.fork(), -1isize, exit_code_ptr) == -2,
{
    let n = s.fork();
    let c = s.lowest_free();
    let p = s.current.unwrap();
    let kids = s.cur().children;
    crate::task::preserve::lemma_fork_wf(s);
    assert(s.has_task(p));
    assert(n.cur().children == kids.push(c));
    assert(wait_matches(c as int, n.cur().children[kids.len() as int]));
    assert(wait_matches(-1, n.cur().children[kids.len() as int]));
    assert(n.has_matching_child(c as int));
    assert(n.has_matching_child(-1));
    assert forall|k: int| !#[trigger] n.reapable(c as int, k) by {
        if n.reapable(c as int, k) {
            if k < kids.len() {
                assert(s.has_task(s.tasks[p].children[k]));
            }
        }
    }
    if !s.has_reapable(-1) {
        assert forall|k: int| !#[trigger] n.reapable(-1, k) by {
            if n.reapable(-1, k) {
                if k < kids.len() {
                    assert(s.has_task(s.tasks[p].children[k]));
                    assert(s.reapable(-1, k));
                }
            }
        }
    }
}

/// Once a child has exited, the parent's wait for it returns the child's
/// identifier; afterwards the child is gone, and the exit code stands at
/// the destination, if that was four mapped bytes.
pub proof fn lemma_wait_collects_exited_child(
    s: KernelView,
    child: usize,
    exit_code_ptr: usize,
)
    requires
        s.wf(),
        s.has_current(),
        s.cur().children.contains(child),
        s.tasks[child].status == TaskStatus::Zombie,
        exit_code_ptr != 0,
        s.cur().memory.buffer_mapped(exit_code_ptr as int, 4),
    ensures
        waitpid_ret(s, child as isize, exit_code_ptr) == child,
        !waitpid_state(s, child as isize, exit_code_ptr).has_task(child),
        !waitpid_state(s, child as isize, exit_code_ptr).cur().children.contains(child),
        waitpid_state(s, child as isize, exit_code_ptr).cur().memory.read(exit_code_ptr as int, 4)
            == exit_code_bytes(s.tasks[child].exit_code),
{
    let p = s.current.unwrap();
    let kids = s.cur().children;
    let pid = child as isize;
    assert(s.has_task(p));
    assert(s.task_ok(p));
    let k = choose|k: int| 0 <= k < kids.len() && kids[k] == child;
    assert(s.has_task(s.tasks[p].children[k]));
    assert(s.task_ok(child));
    assert(pid as int == child as int);
    assert(s.reapable(pid as int, k));
    assert forall|j: int| 0 <= j < k implies !#[trigger] s.reapable(pid as int, j) by {}
    assert(s.first_reapable(pid as int, k));
    let r = s.reap_index(pid as int);
    assert(s.first_reapable(pid as int, r));
    assert(r == k) by {
        if r != k {
            assert(kids[r] == kids[k]);
        }
    }
    assert(wait_matches(pid as int, kids[k]));
    assert(s.has_matching_child(pid as int));
    crate::task::preserve::lemma_reap_wf(s, pid as int, k);
    let after = waitpid_state(s, pid, exit_code_ptr);
    assert forall|j: int| 0 <= j < kids.remove(k).len() implies kids.remove(k)[j] != child by {
        if j < k {
            assert(kids.remove(k)[j] == kids[j]);
        } else {
            assert(kids.remove(k)[j] == kids[j + 1]);
        }
    }
    vstd::bytes::lemma_auto_spec_u32_to_from_le_bytes();
    lemma_write_then_read(
        s.cur().memory,
        exit_code_ptr as int,
        exit_code_bytes(s.tasks[child].exit_code),
    );
}

} // verus!
