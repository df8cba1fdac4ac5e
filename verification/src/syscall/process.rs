//! The system calls that control processes and memory, and those that
//! report on the running task.
use vstd::prelude::*;
use vstd::bytes::{spec_u32_to_le_bytes, spec_u64_to_le_bytes, u32_to_le_bytes, u64_to_le_bytes};
use crate::config::{
    IDLE_PID, MAXVA, MAX_SYSCALL_NUM, PAGE_SIZE, page_ceil, page_floor, spec_page_ceil,
    spec_page_floor,
};
use crate::mm::address_space::AddressSpace;
use crate::mm::flags::{MapPermission, lemma_entry_matches_permission};
use crate::task::{
    change_program_brk, copy_to_current_user, create_new_map_area, exit_current_and_run_next,
    get_current_task_id, get_current_task_page_table, get_current_task_start_time,
    get_current_task_status, get_current_task_syscall_count, read_current_user_text,
    suspend_current_and_run_next, unmap_consecutive_area,
};
use crate::task::control_block::TaskStatus;
use crate::task::kernel::Kernel;
use crate::task::preserve::{lemma_fork_wf, lemma_reap_wf, lemma_with_task_wf};
use crate::task::state::{KernelView, wait_matches};

verus! {

/// A point in time: whole seconds and the microseconds of the second begun.
#[derive(Debug)]
pub struct TimeVal {
    pub sec: usize,
    pub usec: usize,
}

impl TimeVal {
    /// The point in time `us` microseconds after the clock's start.
    pub open spec fn spec_from_micros(us: usize) -> TimeVal {
        TimeVal { sec: us / 1_000_000, usec: us % 1_000_000 }
    }

    /// The point in time `us` microseconds after the clock's start.
    pub fn from_micros(us: usize) -> (tv: TimeVal)
        ensures
            tv == Self::spec_from_micros(us),
    {
        TimeVal { sec: us / 1_000_000, usec: us % 1_000_000 }
    }

    /// The bytes that stand for the value in user memory: the seconds and
    /// then the microseconds, each as eight bytes, least significant first.
    pub open spec fn spec_to_bytes(self) -> Seq<u8> {
        spec_u64_to_le_bytes(self.sec as u64) + spec_u64_to_le_bytes(self.usec as u64)
    }

    /// The bytes that stand for the value in user memory.
    pub fn to_bytes(&self) -> (bytes: Vec<u8>)
        ensures
            bytes@ == self.spec_to_bytes(),
            bytes.len() == 16,
    {
        let mut bytes = u64_to_le_bytes(self.sec as u64);
        let mut low = u64_to_le_bytes(self.usec as u64);
        bytes.append(&mut low);
        bytes
    }
}

/// What a task learns about itself.
pub struct TaskInfo {
    /// Where the task stands in its life cycle.
    pub status: TaskStatus,
    /// How often the task has made each system call.
    pub syscall_times: Vec<u32>,
    /// The time since the task first ran, in milliseconds.
    pub time: usize,
}

/// The byte that stands for a status in user memory.
pub open spec fn spec_status_code(status: TaskStatus) -> u8 {
    match status {
        TaskStatus::Ready => 0,
        TaskStatus::Running => 1,
        TaskStatus::Zombie => 2,
    }
}

/// The byte that stands for a status in user memory.
pub fn status_code(status: TaskStatus) -> (code: u8)
    ensures
        code == spec_status_code(status),
{
    match status {
        TaskStatus::Ready => 0,
        TaskStatus::Running => 1,
        TaskStatus::Zombie => 2,
    }
}

/// The counters one after the other, each as four bytes, least significant
/// first.
pub open spec fn counts_bytes(counts: Seq<u32>) -> Seq<u8>
    decreases counts.len(),
{
    if counts.len() == 0 {
        Seq::empty()
    } else {
        counts_bytes(counts.drop_last()) + spec_u32_to_le_bytes(counts.last())
    }
}

/// The counters take four bytes each.
pub proof fn lemma_counts_bytes_len(counts: Seq<u32>)
    ensures
        counts_bytes(counts).len() == 4 * counts.len(),
    decreases counts.len(),
{
    vstd::bytes::lemma_auto_spec_u32_to_from_le_bytes();
    if counts.len() > 0 {
        lemma_counts_bytes_len(counts.drop_last());
    }
}

impl TaskInfo {
    /// The bytes that stand for the value in user memory: the status byte
    /// and three zero bytes; the counters, four bytes each; four zero
    /// bytes; the time as eight bytes. Every number has its least
    /// significant byte first.
    pub open spec fn spec_to_bytes(self) -> Seq<u8> {
        seq![spec_status_code(self.status), 0u8, 0u8, 0u8] + counts_bytes(self.syscall_times@)
            + seq![0u8, 0u8, 0u8, 0u8] + spec_u64_to_le_bytes(self.time as u64)
    }

    /// The bytes that stand for the value in user memory.
    pub fn to_bytes(&self) -> (bytes: Vec<u8>)
        ensures
            bytes@ == self.spec_to_bytes(),
            bytes.len() == 16 + 4 * self.syscall_times.len(),
    {
        let mut bytes: Vec<u8> = Vec::new();
        bytes.push(status_code(self.status));
        bytes.push(0);
        bytes.push(0);
        bytes.push(0);
        let ghost head = bytes@;
        proof {
            assert(head =~= seq![spec_status_code(self.status), 0u8, 0u8, 0u8]);
            assert(self.syscall_times@.subrange(0, 0) =~= Seq::<u32>::empty());
        }
        let mut i: usize = 0;
        while i < self.syscall_times.len()
            invariant
                i <= self.syscall_times.len(),
                head.len() == 4,
                bytes@ == head + counts_bytes(self.syscall_times@.subrange(0, i as int)),
                bytes.len() == 4 + 4 * i,
            decreases self.syscall_times.len() - i,
        {
            let mut word = u32_to_le_bytes(self.syscall_times[i]);
            proof {
                let next = self.syscall_times@.subrange(0, i + 1);
                assert(next.drop_last() =~= self.syscall_times@.subrange(0, i as int));
                assert(next.last() == self.syscall_times[i as int]);
                assert(bytes@ + word@ =~= head + counts_bytes(next));
            }
            bytes.append(&mut word);
            i = i + 1;
        }
        proof {
            assert(self.syscall_times@.subrange(0, i as int) =~= self.syscall_times@);
        }
        let ghost body = bytes@;
        bytes.push(0);
        bytes.push(0);
        bytes.push(0);
        bytes.push(0);
        proof {
            assert(bytes@ =~= body + seq![0u8, 0u8, 0u8, 0u8]);
        }
        let mut tail = u64_to_le_bytes(self.time as u64);
        bytes.append(&mut tail);
        bytes
    }
}

/// The bytes that stand for an exit code in user memory: four bytes, least
/// significant first, negative codes in two's complement.
pub open spec fn exit_code_bytes(exit_code: i32) -> Seq<u8> {
    spec_u32_to_le_bytes(exit_code as u32)
}

/// The running task exits with `exit_code`; see
/// [`exit_current_and_run_next`]. Control does not come back to the task:
/// when this returns, another task is the running one.
pub fn sys_exit(kernel: &mut Kernel, exit_code: i32)
    requires
        old(kernel).wf(),
        old(kernel)@.has_current(),
        old(kernel)@.current != Some(IDLE_PID),
    ensures
        final(kernel).wf(),
        final(kernel)@ == old(kernel)@.exit(exit_code),
        final(kernel)@.has_current(),
        final(kernel)@.current != old(kernel)@.current,
{
    exit_current_and_run_next(kernel, exit_code);
}

/// The running task gives up the processor; see
/// [`suspend_current_and_run_next`]. The result, always 0, is what the
/// task receives when it runs again.
pub fn sys_yield(kernel: &mut Kernel) -> (ret: isize)
    requires
        old(kernel).wf(),
        old(kernel)@.has_current(),
    ensures
        final(kernel).wf(),
        final(kernel)@ == old(kernel)@.suspend(),
        final(kernel)@.has_current(),
        ret == 0,
{
    suspend_current_and_run_next(kernel);
    0
}

/// The identifier of the running task.
pub fn sys_getpid(kernel: &Kernel) -> (ret: isize)
    requires
        kernel.wf(),
        kernel@.has_current(),
    ensures
        ret == kernel@.cur().pid,
        Some(ret as usize) == kernel@.current,
{
    proof {
        assert(kernel@.has_task(kernel@.current.unwrap()));
        assert(kernel@.task_ok(kernel@.current.unwrap()));
    }
    get_current_task_id(kernel) as isize
}

/// What `sys_get_time` does to the kernel state: the present time is
/// stored at `ts` in the running task's address space, if all 16 bytes
/// there are mapped.
pub open spec fn get_time_state(s: KernelView, ts: usize) -> KernelView {
    if s.cur().memory.buffer_mapped(ts as int, 16) {
        s.with_current_memory(
            s.cur().memory.write(ts as int, TimeVal::spec_from_micros(s.now_us).spec_to_bytes()),
        )
    } else {
        s
    }
}

/// What `sys_get_time` returns: 0 if the time was stored, else -1.
pub open spec fn get_time_ret(s: KernelView, ts: usize) -> int {
    if s.cur().memory.buffer_mapped(ts as int, 16) {
        0
    } else {
        -1
    }
}

/// Stores the present time as a [`TimeVal`] at the address `ts` of the
/// running task's address space and returns 0. The 16 bytes may span two
/// pages. Returns -1, changing nothing, unless all of them lie in mapped
/// pages. `tz` is ignored.
pub fn sys_get_time(kernel: &mut Kernel, ts: usize, tz: usize) -> (ret: isize)
    requires
        old(kernel).wf(),
        old(kernel)@.has_current(),
    ensures
        final(kernel).wf(),
        final(kernel)@ == get_time_state(old(kernel)@, ts),
        ret == get_time_ret(old(kernel)@, ts),
{
    let us = kernel.get_time_us();
    let time_val = TimeVal::from_micros(us);
    let bytes = time_val.to_bytes();
    if copy_to_current_user(kernel, ts, &bytes) {
        0
    } else {
        -1
    }
}

/// The bytes that `sys_task_info` stores: those of a [`TaskInfo`] with the
/// running task's status and counters and the time since it first ran.
pub open spec fn current_task_info_bytes(s: KernelView) -> Seq<u8> {
    seq![spec_status_code(s.cur().status), 0u8, 0u8, 0u8] + counts_bytes(s.cur().syscall_times)
        + seq![0u8, 0u8, 0u8, 0u8] + spec_u64_to_le_bytes((s.now_ms() - s.cur().start_time) as u64)
}

/// The number of bytes of a [`TaskInfo`] in user memory.
pub open spec fn task_info_size() -> int {
    16 + 4 * MAX_SYSCALL_NUM
}

/// What `sys_task_info` does to the kernel state: the report is stored at
/// `ti` in the running task's address space, if all its bytes are mapped.
pub open spec fn task_info_state(s: KernelView, ti: usize) -> KernelView {
    if s.cur().memory.buffer_mapped(ti as int, task_info_size()) {
        s.with_current_memory(s.cur().memory.write(ti as int, current_task_info_bytes(s)))
    } else {
        s
    }
}

/// What `sys_task_info` returns: 0 if the report was stored, else -1.
pub open spec fn task_info_ret(s: KernelView, ti: usize) -> int {
    if s.cur().memory.buffer_mapped(ti as int, task_info_size()) {
        0
    } else {
        -1
    }
}

/// Stores a [`TaskInfo`] about the running task at the address `ti` of its
/// address space and returns 0: its status, how often it made each system
/// call, and the milliseconds since it first ran. The bytes may span
/// several pages. Returns -1, changing nothing, unless all of them lie in
/// mapped pages.
pub fn sys_task_info(kernel: &mut Kernel, ti: usize) -> (ret: isize)
    requires
        old(kernel).wf(),
        old(kernel)@.has_current(),
    ensures
        final(kernel).wf(),
        final(kernel)@ == task_info_state(old(kernel)@, ti),
        ret == task_info_ret(old(kernel)@, ti),
{
    proof {
        assert(kernel@.has_task(kernel@.current.unwrap()));
        assert(kernel@.task_ok(kernel@.current.unwrap()));
    }
    let current_time = kernel.get_time_ms();
    let task_info = TaskInfo {
        status: get_current_task_status(kernel),
        syscall_times: get_current_task_syscall_count(kernel),
        time: current_time - get_current_task_start_time(kernel),
    };
    let bytes = task_info.to_bytes();
    if copy_to_current_user(kernel, ti, &bytes) {
        0
    } else {
        -1
    }
}

/// Whether a request to map `len` bytes at `start` with protection bits
/// `port` into `space` is granted: `start` is on a page boundary and below
/// `MAXVA`; `port` names at least one of read (bit 0), write (bit 1) and
/// execute (bit 2) and nothing else; the end of the range has an address;
/// and no page of the range is mapped.
pub open spec fn mmap_valid(space: AddressSpace, start: usize, len: usize, port: usize) -> bool {
    &&& start as int % (PAGE_SIZE as int) == 0
    &&& start < MAXVA
    &&& 1 <= port <= 7
    &&& start + len <= usize::MAX
    &&& space.range_free(spec_page_floor(start as int), spec_page_ceil(start + len))
}

/// `space` after a granted request to map `len` bytes at `start` with
/// protection bits `port`.
pub open spec fn mmap_space(space: AddressSpace, start: usize, len: usize, port: usize) -> AddressSpace {
    space.map_range(
        spec_page_floor(start as int),
        spec_page_ceil(start + len),
        MapPermission::spec_from_port(port),
    )
}

/// What `sys_mmap` does to the kernel state: a granted request maps the
/// range into the running task's address space; another changes nothing.
pub open spec fn mmap_state(s: KernelView, start: usize, len: usize, port: usize) -> KernelView {
    if mmap_valid(s.cur().memory, start, len, port) {
        s.with_current_memory(mmap_space(s.cur().memory, start, len, port))
    } else {
        s
    }
}

/// What `sys_mmap` returns: 0 for a granted request, -1 for another.
pub open spec fn mmap_ret(s: KernelView, start: usize, len: usize, port: usize) -> int {
    if mmap_valid(s.cur().memory, start, len, port) {
        0
    } else {
        -1
    }
}

/// Maps the pages that hold the `len` bytes from `start` on into the
/// running task's address space, zero-filled and accessible to the user
/// with the rights that `port` names, and returns 0. Returns -1, changing
/// nothing, if the request is not valid (see [`mmap_valid`]).
pub fn sys_mmap(kernel: &mut Kernel, start: usize, len: usize, port: usize) -> (ret: isize)
    requires
        old(kernel).wf(),
        old(kernel)@.has_current(),
    ensures
        final(kernel).wf(),
        final(kernel)@ == mmap_state(old(kernel)@, start, len, port),
        ret == mmap_ret(old(kernel)@, start, len, port),
{
    proof {
        assert((port & !0x7usize != 0) == (port > 7)) by (bit_vector);
        assert(port <= 7 ==> ((port & 0x7usize == 0) == (port == 0))) by (bit_vector);
    }
    if start % PAGE_SIZE != 0 || port & !0x7 != 0 || port & 0x7 == 0 || start >= MAXVA {
        return -1;
    }
    let end: usize = match start.checked_add(len) {
        Some(end) => end,
        None => {
            return -1;
        },
    };
    let start_vpn = page_floor(start);
    let end_vpn = page_ceil(end);
    let mut vpn: usize = start_vpn;
    while vpn < end_vpn
        invariant
            kernel.wf(),
            kernel@.has_current(),
            kernel@ == old(kernel)@,
            start_vpn <= vpn,
            start_vpn == spec_page_floor(start as int),
            end_vpn == spec_page_ceil(start + len),
            kernel@.cur().memory.range_free(start_vpn as int, vpn as int),
        decreases end_vpn - vpn,
    {
        if let Some(pte) = get_current_task_page_table(kernel, vpn) {
            proof {
                lemma_entry_matches_permission(kernel@.cur().memory.pages[vpn as int].perm);
            }
            if pte.is_valid() {
                proof {
                    assert(kernel@.cur().memory.mapped(vpn as int));
                }
                return -1;
            }
        }
        vpn = vpn + 1;
    }
    proof {
        if start_vpn >= end_vpn {
            assert(kernel@.cur().memory.range_free(start_vpn as int, end_vpn as int));
        }
    }
    let _ = create_new_map_area(kernel, start, end, MapPermission::from_port(port));
    0
}

/// Whether a request to unmap at `start` is accepted: `start` is below
/// `MAXVA` and on a page boundary.
pub open spec fn munmap_valid(start: usize) -> bool {
    start < MAXVA && start as int % (PAGE_SIZE as int) == 0
}

/// The length that a request to unmap `len` bytes at `start` covers: `len`,
/// cut so that the range ends at `MAXVA` at the latest.
pub open spec fn munmap_len(start: usize, len: usize) -> int {
    if len > MAXVA - start {
        MAXVA - start
    } else {
        len as int
    }
}

/// What an accepted request to unmap `len` bytes at `start` makes of
/// `space`, and whether every page of the range was mapped.
pub open spec fn munmap_outcome(space: AddressSpace, start: usize, len: usize) -> (AddressSpace, bool) {
    space.unmap_range(spec_page_floor(start as int), spec_page_ceil(start + munmap_len(start, len)))
}

/// What `sys_munmap` does to the kernel state: an accepted request
/// unmaps pages of the running task's address space as
/// [`munmap_outcome`] says; another changes nothing.
pub open spec fn munmap_state(s: KernelView, start: usize, len: usize) -> KernelView {
    if munmap_valid(start) {
        s.with_current_memory(munmap_outcome(s.cur().memory, start, len).0)
    } else {
        s
    }
}

/// What `sys_munmap` returns: 0 if the request was accepted and every page
/// of the range was mapped, else -1.
pub open spec fn munmap_ret(s: KernelView, start: usize, len: usize) -> int {
    if munmap_valid(start) && munmap_outcome(s.cur().memory, start, len).1 {
        0
    } else {
        -1
    }
}

/// Unmaps the pages that hold the `len` bytes from `start` on from the
/// running task's address space, one by one in ascending order, and
/// returns 0. The range is cut at `MAXVA`. Returns -1, changing nothing,
/// if `start` is not below `MAXVA` or not on a page boundary. Returns -1
/// also at the first page of the range that is not mapped; the pages
/// unmapped before it stay unmapped.
pub fn sys_munmap(kernel: &mut Kernel, start: usize, len: usize) -> (ret: isize)
    requires
        old(kernel).wf(),
        old(kernel)@.has_current(),
    ensures
        final(kernel).wf(),
        final(kernel)@ == munmap_state(old(kernel)@, start, len),
        ret == munmap_ret(old(kernel)@, start, len),
{
    if start >= MAXVA || start % PAGE_SIZE != 0 {
        return -1;
    }
    let mut mlen: usize = len;
    if mlen > MAXVA - start {
        mlen = MAXVA - start;
    }
    unmap_consecutive_area(kernel, start, mlen)
}

/// What `sys_sbrk` does to the kernel state: a valid move of the running
/// task's program break takes place; another changes nothing.
pub open spec fn sbrk_state(s: KernelView, size: i32) -> KernelView {
    if s.cur().memory.brk_change_valid(size as int) {
        s.with_current_memory(s.cur().memory.change_brk(size as int))
    } else {
        s
    }
}

/// What `sys_sbrk` returns: the break before a valid move, -1 for another.
pub open spec fn sbrk_ret(s: KernelView, size: i32) -> int {
    if s.cur().memory.brk_change_valid(size as int) {
        s.cur().memory.brk
    } else {
        -1
    }
}

/// Moves the running task's program break by `size` bytes and returns the
/// break as it was before. Returns -1, changing nothing, if the move is
/// not valid (see [`AddressSpace::brk_change_valid`]).
pub fn sys_sbrk(kernel: &mut Kernel, size: i32) -> (ret: isize)
    requires
        old(kernel).wf(),
        old(kernel)@.has_current(),
    ensures
        final(kernel).wf(),
        final(kernel)@ == sbrk_state(old(kernel)@, size),
        ret == sbrk_ret(old(kernel)@, size),
{
    proof {
        assert(kernel@.has_task(kernel@.current.unwrap()));
        assert(kernel@.task_ok(kernel@.current.unwrap()));
    }
    if let Some(old_brk) = change_program_brk(kernel, size) {
        old_brk as isize
    } else {
        -1
    }
}

/// What `sys_fork` does to the kernel state: the running task forks if an
/// identifier is free; otherwise nothing changes.
pub open spec fn fork_state(s: KernelView) -> KernelView {
    if s.can_fork() {
        s.fork()
    } else {
        s
    }
}

/// What `sys_fork` returns: the child's identifier, or -1 if none is free.
pub open spec fn fork_ret(s: KernelView) -> int {
    if s.can_fork() {
        s.lowest_free() as int
    } else {
        -1
    }
}

/// Creates a child of the running task: a copy of it with the smallest
/// free identifier, which becomes the parent's last child and enters the
/// ready queue. Returns the child's identifier, which is what the parent
/// receives; the child's own result register holds 0. Returns -1,
/// changing nothing, if no identifier is free.
pub fn sys_fork(kernel: &mut Kernel) -> (ret: isize)
    requires
        old(kernel).wf(),
        old(kernel)@.has_current(),
    ensures
        final(kernel).wf(),
        final(kernel)@ == fork_state(old(kernel)@),
        ret == fork_ret(old(kernel)@),
{
    let pid = kernel.processor.current().unwrap();
    let child_pid = match kernel.pid_alloc() {
        Some(child_pid) => child_pid,
        None => {
            return -1;
        },
    };
    proof {
        assert(kernel@.has_task(pid));
        lemma_fork_wf(kernel@);
    }
    let mut task = kernel.take_task(pid);
    let child = task.fork(child_pid);
    kernel.put_task(pid, task);
    proof {
        assert(kernel@.tasks =~= old(kernel)@.tasks.insert(pid, task@));
    }
    kernel.install(child_pid, child);
    kernel.manager.add(child_pid);
    child_pid as isize
}

/// Whether the running task names, by the text at `path`, a program that
/// can be started.
pub open spec fn exec_valid(s: KernelView, path: usize) -> bool {
    s.cur().memory.has_text(path as int) && s.can_load(s.cur().memory.text(path as int))
}

/// What `sys_exec` does to the kernel state: the running task runs the
/// named program, if it can be started; otherwise nothing changes.
pub open spec fn exec_state(s: KernelView, path: usize) -> KernelView {
    if exec_valid(s, path) {
        s.with_task(
            s.current.unwrap(),
            s.cur().executing(s.app(s.cur().memory.text(path as int))),
        )
    } else {
        s
    }
}

/// What `sys_exec` returns: 0 if the named program was started, else -1.
pub open spec fn exec_ret(s: KernelView, path: usize) -> int {
    if exec_valid(s, path) {
        0
    } else {
        -1
    }
}

/// The running task replaces its program by the one that the loader offers
/// under the zero-terminated name at `path`, and 0 is returned: the task
/// has a new address space and new registers, and keeps its identifier,
/// relatives and counters. Returns -1, changing nothing, if no text stands
/// at `path`, if the loader offers no program of that name, or if the
/// program's image does not fit into an address space.
pub fn sys_exec(kernel: &mut Kernel, path: usize) -> (ret: isize)
    requires
        old(kernel).wf(),
        old(kernel)@.has_current(),
    ensures
        final(kernel).wf(),
        final(kernel)@ == exec_state(old(kernel)@, path),
        ret == exec_ret(old(kernel)@, path),
{
    let pid = kernel.processor.current().unwrap();
    let name = match read_current_user_text(kernel, path) {
        Some(name) => name,
        None => {
            return -1;
        },
    };
    let index = match kernel.find_app(&name) {
        Some(index) => index,
        None => {
            return -1;
        },
    };
    proof {
        assert(kernel@.has_task(pid));
        assert(kernel@.task_ok(pid));
    }
    let mut task = kernel.take_task(pid);
    let ok = task.exec(&kernel.apps[index].image);
    proof {
        task.lemma_view_wf();
        lemma_with_task_wf(old(kernel)@, pid, task@);
    }
    kernel.put_task(pid, task);
    proof {
        assert(kernel@.tasks =~= old(kernel)@.tasks.insert(pid, task@));
        if !ok {
            assert(kernel@.tasks =~= old(kernel)@.tasks);
        }
    }
    if ok {
        0
    } else {
        -1
    }
}

/// Whether a wait of the running task for `pid` with the destination
/// `exit_code_ptr` collects a child: a matching zombie child exists, and
/// the destination is null or four mapped bytes.
pub open spec fn waitpid_collects(s: KernelView, pid: isize, exit_code_ptr: usize) -> bool {
    s.has_reapable(pid as int) && (exit_code_ptr != 0 ==> s.cur().memory.buffer_mapped(
        exit_code_ptr as int,
        4,
    ))
}

/// What `sys_waitpid` returns: -1 if the running task has no child that
/// the wait concerns; else -2 if none of those children is a zombie; else
/// -1 if the destination is neither null nor four mapped bytes; else the
/// identifier of the first matching zombie child.
pub open spec fn waitpid_ret(s: KernelView, pid: isize, exit_code_ptr: usize) -> int {
    if !s.has_matching_child(pid as int) {
        -1
    } else if !s.has_reapable(pid as int) {
        -2
    } else if !waitpid_collects(s, pid, exit_code_ptr) {
        -1
    } else {
        s.cur().children[s.reap_index(pid as int)] as int
    }
}

/// What `sys_waitpid` does to the kernel state: if it collects a child,
/// the first matching zombie child ceases to exist and its exit code is
/// stored at the destination, unless that is null; otherwise nothing
/// changes.
pub open spec fn waitpid_state(s: KernelView, pid: isize, exit_code_ptr: usize) -> KernelView {
    if !waitpid_collects(s, pid, exit_code_ptr) {
        s
    } else {
        let k = s.reap_index(pid as int);
        let child = s.tasks[s.cur().children[k]];
        if exit_code_ptr == 0 {
            s.reap(k)
        } else {
            s.reap(k).with_current_memory(
                s.cur().memory.write(exit_code_ptr as int, exit_code_bytes(child.exit_code)),
            )
        }
    }
}

/// The running task polls for the end of a child: of the child `pid`, or
/// of any child if `pid` is -1. See [`waitpid_ret`] for the result and
/// [`waitpid_state`] for the effect. It never blocks.
pub fn sys_waitpid(kernel: &mut Kernel, pid: isize, exit_code_ptr: usize) -> (ret: isize)
    requires
        old(kernel).wf(),
        old(kernel)@.has_current(),
    ensures
        final(kernel).wf(),
        ret == waitpid_ret(old(kernel)@, pid, exit_code_ptr),
        final(kernel)@ == waitpid_state(old(kernel)@, pid, exit_code_ptr),
{
    let ghost s = kernel@;
    let cur = kernel.processor.current().unwrap();
    proof {
        assert(s.has_task(cur));
        assert(s.task_ok(cur));
    }
    let mut found = false;
    let mut zombie: Option<usize> = None;
    let mut k: usize = 0;
    let count = kernel.task(cur).children.len();
    while k < count && zombie.is_none()
        invariant
            kernel.wf(),
            kernel@ == s,
            s.has_task(cur),
            s.current == Some(cur),
            count == s.cur().children.len(),
            k <= count,
            forall|j: int| 0 <= j < k && zombie.is_none() ==> !#[trigger] s.reapable(pid as int, j),
            found == (exists|j: int|
                0 <= j < k + (if zombie.is_none() {
                    0int
                } else {
                    1int
                }) && wait_matches(pid as int, #[trigger] s.cur().children[j])),
            zombie.is_some() ==> s.first_reapable(pid as int, zombie.unwrap() as int),
        decreases count - k + (if zombie.is_none() { 1int } else { 0int }),
    {
        let c = kernel.task(cur).children[k];
        proof {
            assert(s.has_task(s.tasks[cur].children[k as int]));
        }
        if pid == -1 || (pid >= 0 && pid as usize == c) {
            found = true;
            proof {
                assert(wait_matches(pid as int, s.cur().children[k as int]));
            }
            if kernel.task(c).is_zombie() {
                zombie = Some(k);
            }
        }
        if zombie.is_none() {
            k = k + 1;
        }
    }
    let index = match zombie {
        Some(index) => index,
        None => {
            proof {
                if s.has_reapable(pid as int) {
                    let j = choose|j: int| #[trigger] s.reapable(pid as int, j);
                    assert(!s.reapable(pid as int, j));
                }
            }
            if found {
                return -2;
            } else {
                return -1;
            }
        },
    };
    proof {
        assert(s.reapable(pid as int, index as int));
        let r = s.reap_index(pid as int);
        assert(s.first_reapable(pid as int, r));
        if r < index {
            assert(!s.reapable(pid as int, r));
        }
        if index < r {
            assert(!s.reapable(pid as int, index as int));
        }
        assert(r == index);
        assert(s.has_matching_child(pid as int));
        lemma_reap_wf(s, pid as int, index as int);
    }
    let child_pid = kernel.task(cur).children[index];
    let exit_code = kernel.task(child_pid).exit_code;
    if exit_code_ptr != 0 && !kernel.task(cur).memory_set.buffer_is_mapped(exit_code_ptr, 4) {
        return -1;
    }
    let mut task = kernel.take_task(cur);
    let _ = task.children.remove(index);
    kernel.put_task(cur, task);
    let _ = kernel.take_task(child_pid);
    proof {
        assert(kernel@.tasks =~= s.reap(index as int).tasks);
        assert(kernel@ == s.reap(index as int));
        assert(s.task_ok(child_pid));
    }
    if exit_code_ptr != 0 {
        let bytes = u32_to_le_bytes(#[verifier::truncate] (exit_code as u32));
        proof {
            assert(kernel@.cur().memory == s.cur().memory);
            assert(s.reap(index as int).with_current_memory(
                s.cur().memory.write(exit_code_ptr as int, bytes@),
            ).tasks =~= kernel@.with_current_memory(
                kernel@.cur().memory.write(exit_code_ptr as int, bytes@),
            ).tasks);
        }
        let _ = copy_to_current_user(kernel, exit_code_ptr, &bytes);
    }
    child_pid as isize
}

} // verus!
