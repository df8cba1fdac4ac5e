//! The kernel state: the table of tasks, the task manager, the processor,
//! the loader's programs and the clock.
use vstd::prelude::*;
use crate::config::MAX_TASKS;
use crate::task::control_block::{TaskControlBlock, TaskStatus, TaskView};
use crate::task::manager::TaskManager;
use crate::task::preserve::{lemma_at_time_wf, lemma_dispatch_wf, lemma_lowest_free_unique};
use crate::task::processor::Processor;
use crate::task::state::{App, KernelView};

verus! {

/// The kernel state. It is built once at startup and handed by reference
/// to every operation.
pub struct Kernel {
    /// The table of tasks; slot `pid` holds the task with that identifier.
    pub(crate) tasks: Vec<Option<TaskControlBlock>>,
    pub(crate) manager: TaskManager,
    pub(crate) processor: Processor,
    pub(crate) apps: Vec<App>,
    pub(crate) now_us: usize,
}

impl View for Kernel {
    type V = KernelView;

    open(crate) spec fn view(&self) -> KernelView {
        KernelView {
            tasks: Map::new(
                |p: usize| p < self.tasks.len() && self.tasks[p as int].is_some(),
                |p: usize| self.tasks[p as int].unwrap()@,
            ),
            ready: self.manager@,
            current: self.processor@,
            now_us: self.now_us,
            apps: self.apps@,
        }
    }
}

impl Kernel {
    /// The invariant of the representation.
    pub open(crate) spec fn repr_ok(&self) -> bool {
        &&& self.tasks.len() <= MAX_TASKS
        &&& forall|p: int|
            0 <= p < self.tasks.len() && (#[trigger] self.tasks[p]).is_some() ==> self.tasks[p].unwrap().wf()
    }

    /// The invariant of the kernel: that of the representation and that of
    /// the state it stands for.
    pub open spec fn wf(&self) -> bool {
        self.repr_ok() && self@.wf()
    }

    /// A kernel without tasks that offers the programs `apps`, with the
    /// clock at 0.
    pub fn new(apps: Vec<App>) -> (kernel: Kernel)
        ensures
            kernel.wf(),
            kernel@ == (KernelView {
                tasks: Map::empty(),
                ready: Seq::empty(),
                current: None,
                now_us: 0,
                apps: apps@,
            }),
    {
        let kernel = Kernel {
            tasks: Vec::new(),
            manager: TaskManager::new(),
            processor: Processor::new(),
            apps,
            now_us: 0,
        };
        proof {
            assert(kernel@.tasks =~= Map::<usize, TaskView>::empty());
        }
        kernel
    }

    /// Records a reading of the timer, in microseconds. The clock never runs
    /// backwards: an earlier reading changes nothing.
    pub fn set_time(&mut self, now_us: usize)
        requires
            old(self).wf(),
        ensures
            final(self).wf(),
            final(self)@ == old(self)@.at_time(now_us),
    {
        if now_us > self.now_us {
            self.now_us = now_us;
        }
        proof {
            assert(self@.tasks =~= old(self)@.tasks);
            lemma_at_time_wf(old(self)@, now_us);
        }
    }

    /// The last reading of the timer, in microseconds.
    pub fn get_time_us(&self) -> (t: usize)
        ensures
            t == self@.now_us,
    {
        self.now_us
    }

    /// The last reading of the timer, in milliseconds.
    pub fn get_time_ms(&self) -> (t: usize)
        ensures
            t == self@.now_ms(),
    {
        self.now_us / 1000
    }

    /// Whether a task with the identifier `pid` exists.
    pub fn has_task(&self, pid: usize) -> (b: bool)
        ensures
            b == self@.has_task(pid),
    {
        pid < self.tasks.len() && self.tasks[pid].is_some()
    }

    /// The task with the identifier `pid`.
    pub fn task(&self, pid: usize) -> (t: &TaskControlBlock)
        requires
            self.wf(),
            self@.has_task(pid),
        ensures
            t@ == self@.tasks[pid],
            t.wf(),
    {
        self.tasks[pid].as_ref().unwrap()
    }

    /// Takes the task `pid` out of its slot.
    pub(crate) fn take_task(&mut self, pid: usize) -> (t: TaskControlBlock)
        requires
            pid < old(self).tasks.len(),
            old(self).tasks[pid as int].is_some(),
        ensures
            t == old(self).tasks[pid as int].unwrap(),
            final(self).tasks@ == old(self).tasks@.update(pid as int, None),
            final(self).manager == old(self).manager,
            final(self).processor == old(self).processor,
            final(self).apps == old(self).apps,
            final(self).now_us == old(self).now_us,
    {
        let slot = &mut self.tasks[pid];
        slot.take().unwrap()
    }

    /// Puts the task `t` into the slot `pid`.
    pub(crate) fn put_task(&mut self, pid: usize, t: TaskControlBlock)
        requires
            pid < old(self).tasks.len(),
        ensures
            final(self).tasks@ == old(self).tasks@.update(pid as int, Some(t)),
            final(self).manager == old(self).manager,
            final(self).processor == old(self).processor,
            final(self).apps == old(self).apps,
            final(self).now_us == old(self).now_us,
    {
        self.tasks[pid] = Some(t);
    }

    /// The number of tasks in the ready queue.
    pub fn ready_len(&self) -> (n: usize)
        ensures
            n == self@.ready.len(),
    {
        self.manager.len()
    }

    /// The task at place `i` of the ready queue, the head being at place 0.
    pub fn ready_task(&self, i: usize) -> (pid: usize)
        requires
            i < self@.ready.len(),
        ensures
            pid == self@.ready[i as int],
    {
        self.manager.get(i)
    }

    /// The running task, which stays on the processor.
    pub fn current_task(&self) -> (r: Option<usize>)
        ensures
            r == self@.current,
    {
        self.processor.current()
    }

    /// One turn of the idle loop: the task at the head of the ready queue
    /// becomes the running task; on its first run the present time becomes
    /// its start time. Returns whether a task was there to run.
    pub fn run_tasks(&mut self) -> (ran: bool)
        requires
            old(self).wf(),
            !old(self)@.has_current(),
        ensures
            final(self).wf(),
            final(self)@ == old(self)@.dispatch(),
            ran == (old(self)@.ready.len() > 0),
            ran == final(self)@.has_current(),
    {
        proof {
            lemma_dispatch_wf(self@);
        }
        match self.manager.fetch() {
            None => {
                proof {
                    assert(self@.tasks =~= old(self)@.tasks);
                }
                false
            },
            Some(pid) => {
                proof {
                    assert(old(self)@.has_task(old(self)@.ready[0]));
                }
                let now_ms = self.now_us / 1000;
                let mut t = self.take_task(pid);
                t.status = TaskStatus::Running;
                if t.start_time == 0 {
                    t.start_time = now_ms;
                }
                self.put_task(pid, t);
                self.processor.set_current(pid);
                proof {
                    assert(self@.tasks =~= old(self)@.dispatch().tasks);
                    assert(self.repr_ok());
                }
                true
            },
        }
    }

    /// The index of the first program that the loader offers as `name`.
    pub fn find_app(&self, name: &Vec<u8>) -> (r: Option<usize>)
        ensures
            r.is_some() == self@.has_app(name@),
            r.is_some() ==> self@.first_app(name@, r.unwrap() as int) && self@.app(name@)
                == self@.apps[r.unwrap() as int].image,
    {
        let mut i: usize = 0;
        while i < self.apps.len()
            invariant
                i <= self.apps.len(),
                forall|j: int| 0 <= j < i ==> (#[trigger] self.apps[j]).name@ != name@,
            decreases self.apps.len() - i,
        {
            if bytes_equal(&self.apps[i].name, name) {
                proof {
                    assert(self@.first_app(name@, i as int));
                    let w = choose|w: int| #[trigger] self@.first_app(name@, w);
                    assert(self@.first_app(name@, w));
                    if w < i {
                        assert(self.apps[w].name@ != name@);
                    }
                    if i < w {
                        assert(self@.apps[i as int].name@ != name@);
                    }
                }
                return Some(i);
            }
            i = i + 1;
        }
        None
    }

    /// The smallest identifier that no task has, if it is below the limit.
    pub(crate) fn pid_alloc(&self) -> (r: Option<usize>)
        requires
            self.wf(),
        ensures
            r.is_some() == self@.can_fork(),
            r.is_some() ==> r.unwrap() == self@.lowest_free() && self@.is_lowest_free(r.unwrap())
                && r.unwrap() < MAX_TASKS && r.unwrap() <= self.tasks.len(),
    {
        let mut i: usize = 0;
        while i < self.tasks.len() && self.tasks[i].is_some()
            invariant
                i <= self.tasks.len(),
                forall|q: usize| q < i ==> #[trigger] self@.has_task(q),
            decreases self.tasks.len() - i,
        {
            i = i + 1;
        }
        proof {
            assert(self@.is_lowest_free(i));
            let c = self@.lowest_free();
            lemma_lowest_free_unique(self@, i, c);
            if self@.can_fork() {
                let w = choose|pid: usize| pid < MAX_TASKS && #[trigger] self@.is_lowest_free(pid);
                lemma_lowest_free_unique(self@, i, w);
            }
        }
        if i < MAX_TASKS {
            Some(i)
        } else {
            None
        }
    }

    /// Files the task `t` under the free identifier `pid`.
    pub(crate) fn install(&mut self, pid: usize, t: TaskControlBlock)
        requires
            old(self).repr_ok(),
            pid <= old(self).tasks.len(),
            pid < MAX_TASKS,
            !old(self)@.has_task(pid),
            t.wf(),
        ensures
            final(self).repr_ok(),
            final(self)@ == (KernelView { tasks: old(self)@.tasks.insert(pid, t@), ..old(self)@ }),
    {
        if pid == self.tasks.len() {
            self.tasks.push(Some(t));
        } else {
            self.put_task(pid, t);
        }
        proof {
            assert(self@.tasks =~= old(self)@.tasks.insert(pid, t@));
        }
    }
}

/// Whether `a` and `b` hold the same bytes.
pub fn bytes_equal(a: &Vec<u8>, b: &Vec<u8>) -> (eq: bool)
    ensures
        eq == (a@ == b@),
{
    if a.len() != b.len() {
        return false;
    }
    let mut i: usize = 0;
    while i < a.len()
        invariant
            a.len() == b.len(),
            i <= a.len(),
            forall|j: int| 0 <= j < i ==> a[j] == b[j],
        decreases a.len() - i,
    {
        if a[i] != b[i] {
            return false;
        }
        i = i + 1;
    }
    proof {
        assert(a@ =~= b@);
    }
    true
}

} // verus!
