//! The task control block: the state that the kernel keeps of one task.
use vstd::prelude::*;
use crate::config::MAX_SYSCALL_NUM;
use crate::mm::address_space::AddressSpace;
use crate::mm::image::{AppImage, initial_space, stack_top};
use crate::mm::memory_set::MemorySet;

verus! {

/// Where a task stands in its life cycle.
#[derive(Clone, Copy, Debug, PartialEq, Eq, Structural)]
pub enum TaskStatus {
    /// Waiting in the ready queue.
    Ready,
    /// Occupying the processor.
    Running,
    /// Exited; kept until the parent collects the exit code.
    Zombie,
}

/// The part of the saved user-mode registers that the task core reads and
/// writes: the register that carries a system call's result, the stack
/// pointer, and the address at which user code resumes.
#[derive(Clone, Copy, Debug, PartialEq, Eq, Structural)]
pub struct TrapContext {
    pub a0: usize,
    pub sp: usize,
    pub sepc: usize,
}

impl TrapContext {
    /// The registers with which a program enters at `entry` on the stack
    /// `sp`.
    pub fn app_init_context(entry: usize, sp: usize) -> (cx: TrapContext)
        ensures
            cx == (TrapContext { a0: 0, sp: sp, sepc: entry }),
    {
        TrapContext { a0: 0, sp, sepc: entry }
    }
}

/// The state of one task as contracts speak of it.
pub struct TaskView {
    pub pid: usize,
    pub status: TaskStatus,
    pub memory: AddressSpace,
    pub trap_cx: TrapContext,
    pub parent: Option<usize>,
    pub children: Seq<usize>,
    pub exit_code: i32,
    pub syscall_times: Seq<u32>,
    pub start_time: usize,
}

impl TaskView {
    /// The task that `image` starts as under the identifier `pid`: ready,
    /// never run, without relatives, all counters zero.
    pub open spec fn fresh(pid: usize, image: AppImage) -> TaskView {
        TaskView {
            pid: pid,
            status: TaskStatus::Ready,
            memory: initial_space(image.segments@).unwrap(),
            trap_cx: TrapContext {
                a0: 0,
                sp: stack_top(image.segments@) as usize,
                sepc: image.entry,
            },
            parent: None,
            children: Seq::empty(),
            exit_code: 0,
            syscall_times: Seq::new(MAX_SYSCALL_NUM as nat, |i: int| 0u32),
            start_time: 0,
        }
    }

    /// The child that a fork of `self` creates under the identifier `pid`:
    /// a ready task that has never run, with a copy of the parent's address
    /// space, registers and counters, whose system call returns 0.
    pub open spec fn forked(self, pid: usize) -> TaskView {
        TaskView {
            pid: pid,
            status: TaskStatus::Ready,
            memory: self.memory,
            trap_cx: TrapContext { a0: 0, ..self.trap_cx },
            parent: Some(self.pid),
            children: Seq::empty(),
            exit_code: 0,
            syscall_times: self.syscall_times,
            start_time: 0,
        }
    }

    /// The task after it replaced its program by `image`: a new address
    /// space and new registers; everything else stays.
    pub open spec fn executing(self, image: AppImage) -> TaskView {
        TaskView {
            memory: initial_space(image.segments@).unwrap(),
            trap_cx: TrapContext {
                a0: 0,
                sp: stack_top(image.segments@) as usize,
                sepc: image.entry,
            },
            ..self
        }
    }
}

/// The state that the kernel keeps of one task.
pub struct TaskControlBlock {
    pub(crate) pid: usize,
    pub(crate) status: TaskStatus,
    pub(crate) memory_set: MemorySet,
    pub(crate) trap_cx: TrapContext,
    pub(crate) parent: Option<usize>,
    pub(crate) children: Vec<usize>,
    pub(crate) exit_code: i32,
    pub(crate) syscall_times: Vec<u32>,
    pub(crate) start_time: usize,
}

impl View for TaskControlBlock {
    type V = TaskView;

    open(crate) spec fn view(&self) -> TaskView {
        TaskView {
            pid: self.pid,
            status: self.status,
            memory: self.memory_set@,
            trap_cx: self.trap_cx,
            parent: self.parent,
            children: self.children@,
            exit_code: self.exit_code,
            syscall_times: self.syscall_times@,
            start_time: self.start_time,
        }
    }
}

impl TaskControlBlock {
    /// The invariant of the representation.
    pub open(crate) spec fn wf(&self) -> bool {
        &&& self.memory_set.wf()
        &&& self.syscall_times.len() == MAX_SYSCALL_NUM
    }

    /// A well-formed block has a well-formed address space and a full table
    /// of counters.
    pub proof fn lemma_view_wf(&self)
        requires
            self.wf(),
        ensures
            self@.memory.wf(),
            self@.syscall_times.len() == MAX_SYSCALL_NUM,
    {
        self.memory_set.lemma_view_wf();
    }

    /// Creates the task that runs the program `image` under the identifier
    /// `pid`: ready, not yet started (start time 0). Yields `None` if a
    /// segment of the image does not fit into an address space.
    pub fn new(image: &AppImage, pid: usize) -> (r: Option<TaskControlBlock>)
        ensures
            r.is_some() == initial_space(image.segments@).is_some(),
            r.is_some() ==> r.unwrap().wf() && r.unwrap()@ == TaskView::fresh(pid, *image),
    {
        match MemorySet::from_image(image) {
            None => None,
            Some((memory_set, user_sp, entry)) => {
                let syscall_times: Vec<u32> = vec![0u32; MAX_SYSCALL_NUM];
                let tcb = TaskControlBlock {
                    pid,
                    status: TaskStatus::Ready,
                    memory_set,
                    trap_cx: TrapContext::app_init_context(entry, user_sp),
                    parent: None,
                    children: Vec::new(),
                    exit_code: 0,
                    syscall_times,
                    start_time: 0,
                };
                proof {
                    assert(tcb@.syscall_times =~= TaskView::fresh(pid, *image).syscall_times);
                    assert(tcb@.children =~= TaskView::fresh(pid, *image).children);
                }
                Some(tcb)
            },
        }
    }

    /// Creates a child of the task under the identifier `pid` and records
    /// it as the task's last child. The child gets a copy of the address
    /// space, of the registers and of the counters; its copy of the
    /// result register holds 0.
    pub fn fork(&mut self, pid: usize) -> (child: TaskControlBlock)
        requires
            old(self).wf(),
        ensures
            final(self).wf(),
            final(self)@ == (TaskView {
                children: old(self)@.children.push(pid),
                ..old(self)@
            }),
            child.wf(),
            child@ == old(self)@.forked(pid),
    {
        let memory_set = self.memory_set.duplicate();
        let syscall_times = self.syscall_times.clone();
        let child = TaskControlBlock {
            pid,
            status: TaskStatus::Ready,
            memory_set,
            trap_cx: TrapContext { a0: 0, sp: self.trap_cx.sp, sepc: self.trap_cx.sepc },
            parent: Some(self.pid),
            children: Vec::new(),
            exit_code: 0,
            syscall_times,
            start_time: 0,
        };
        proof {
            assert(child@.syscall_times =~= self@.syscall_times);
            assert(child@.children =~= Seq::<usize>::empty());
        }
        self.children.push(pid);
        child
    }

    /// Replaces the program of the task by `image`: the address space and
    /// the registers are built anew, while the identifier, the relatives,
    /// the counters, the status and the start time stay. Fails, changing
    /// nothing, if a segment of the image does not fit.
    pub fn exec(&mut self, image: &AppImage) -> (ok: bool)
        requires
            old(self).wf(),
        ensures
            final(self).wf(),
            ok == initial_space(image.segments@).is_some(),
            ok ==> final(self)@ == old(self)@.executing(*image),
            !ok ==> final(self)@ == old(self)@,
    {
        match MemorySet::from_image(image) {
            None => false,
            Some((memory_set, user_sp, entry)) => {
                self.memory_set = memory_set;
                self.trap_cx = TrapContext::app_init_context(entry, user_sp);
                true
            },
        }
    }

    /// Moves the program break by `delta` bytes and returns the break as it
    /// was before, or `None`, changing nothing, if the move is not valid.
    pub fn change_program_brk(&mut self, delta: i32) -> (r: Option<usize>)
        requires
            old(self).wf(),
        ensures
            final(self).wf(),
            r.is_some() == old(self)@.memory.brk_change_valid(delta as int),
            r.is_some() ==> r == Some(old(self)@.memory.brk as usize) && final(self)@ == (TaskView {
                memory: old(self)@.memory.change_brk(delta as int),
                ..old(self)@
            }),
            r.is_none() ==> final(self)@ == old(self)@,
    {
        self.memory_set.change_brk(delta)
    }

    /// The identifier of the task.
    pub fn getpid(&self) -> (pid: usize)
        ensures
            pid == self@.pid,
    {
        self.pid
    }

    /// Where the task stands in its life cycle.
    pub fn status(&self) -> (s: TaskStatus)
        ensures
            s == self@.status,
    {
        self.status
    }

    /// Whether the task has exited and awaits collection.
    pub fn is_zombie(&self) -> (z: bool)
        ensures
            z == (self@.status == TaskStatus::Zombie),
    {
        match self.status {
            TaskStatus::Zombie => true,
            _ => false,
        }
    }

    /// The address space of the task.
    pub fn memory_set(&self) -> (ms: &MemorySet)
        ensures
            ms@ == self@.memory,
            self.wf() ==> ms.wf(),
    {
        &self.memory_set
    }

    /// The saved user-mode registers of the task.
    pub fn trap_cx(&self) -> (cx: TrapContext)
        ensures
            cx == self@.trap_cx,
    {
        self.trap_cx
    }

    /// The parent of the task, if it has one.
    pub fn parent(&self) -> (parent: Option<usize>)
        ensures
            parent == self@.parent,
    {
        self.parent
    }

    /// The children of the task, in the order in which it got them.
    pub fn children(&self) -> (children: Vec<usize>)
        ensures
            children@ == self@.children,
    {
        let children = self.children.clone();
        proof {
            assert(children@ =~= self.children@);
        }
        children
    }

    /// How often the task has made each system call.
    pub fn syscall_times(&self) -> (counts: Vec<u32>)
        ensures
            counts@ == self@.syscall_times,
    {
        let counts = self.syscall_times.clone();
        proof {
            assert(counts@ =~= self.syscall_times@);
        }
        counts
    }

    /// The time, in milliseconds, at which the task first ran; 0 before.
    pub fn start_time(&self) -> (start_time: usize)
        ensures
            start_time == self@.start_time,
    {
        self.start_time
    }

    /// The exit code; meaningful once the task is a zombie.
    pub fn exit_code(&self) -> (code: i32)
        ensures
            code == self@.exit_code,
    {
        self.exit_code
    }
}

} // verus!
