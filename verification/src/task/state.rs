//! The mathematical model of the kernel: the tasks, the ready queue, the
//! running task and the clock, and the transitions between such states.
use vstd::prelude::*;
use crate::config::{IDLE_PID, MAX_SYSCALL_NUM, MAX_TASKS};
use crate::mm::address_space::AddressSpace;
use crate::mm::image::{AppImage, initial_space};
use crate::task::control_block::{TaskStatus, TaskView};

verus! {

/// A program that the loader offers, under its name.
pub struct App {
    pub name: Vec<u8>,
    pub image: AppImage,
}

/// The state of the kernel.
pub struct KernelView {
    /// The tasks that exist, by identifier.
    pub tasks: Map<usize, TaskView>,
    /// The ready queue, head first.
    pub ready: Seq<usize>,
    /// The running task.
    pub current: Option<usize>,
    /// The last reading of the timer, in microseconds.
    pub now_us: usize,
    /// The programs that the loader offers.
    pub apps: Seq<App>,
}

/// Whether a wait for `pid` concerns the child `child`: `-1` waits for any
/// child, another value for the child with that identifier.
pub open spec fn wait_matches(pid: int, child: usize) -> bool {
    pid == -1 || pid == child as int
}

impl KernelView {
    pub open spec fn has_task(self, pid: usize) -> bool {
        self.tasks.contains_key(pid)
    }

    pub open spec fn has_current(self) -> bool {
        self.current.is_some()
    }

    /// The running task.
    pub open spec fn cur(self) -> TaskView {
        self.tasks[self.current.unwrap()]
    }

    /// The last reading of the timer, in milliseconds.
    pub open spec fn now_ms(self) -> usize {
        self.now_us / 1000
    }

    /// What holds of every task: it is filed under its own identifier,
    /// which is below the limit; it is not its own parent; its address
    /// space is well-formed; its table of counters is full; no child is
    /// listed twice; a zombie has no children; and it did not start in the
    /// future.
    pub open spec fn task_ok(self, pid: usize) -> bool {
        let t = self.tasks[pid];
        &&& t.pid == pid
        &&& pid < MAX_TASKS
        &&& t.parent != Some(pid)
        &&& t.memory.wf()
        &&& t.syscall_times.len() == MAX_SYSCALL_NUM
        &&& t.children.no_duplicates()
        &&& t.status == TaskStatus::Zombie ==> t.children.len() == 0
        &&& t.start_time <= self.now_ms()
    }

    /// The invariant of the kernel state.
    ///
    /// - Every task satisfies [`KernelView::task_ok`].
    /// - The ready queue holds exactly the ready tasks, each once.
    /// - The running task, and no other, has the status running.
    /// - The children of a task exist and name it as their parent, and a
    ///   task with a parent is among that parent's children.
    /// - If any task exists, the idle process exists, has no parent and is
    ///   not a zombie.
    pub open spec fn wf(self) -> bool {
        &&& forall|p: usize| #[trigger] self.has_task(p) ==> self.task_ok(p)
        &&& self.ready.no_duplicates()
        &&& forall|i: int| 0 <= i < self.ready.len() ==> self.has_task(#[trigger] self.ready[i])
        &&& forall|p: usize| #[trigger]
            self.has_task(p) ==> (self.tasks[p].status == TaskStatus::Ready <==> self.ready.contains(
                p,
            ))
        &&& forall|p: usize| #[trigger]
            self.has_task(p) ==> (self.tasks[p].status == TaskStatus::Running <==> self.current
                == Some(p))
        &&& self.current.is_some() ==> self.has_task(self.current.unwrap())
        &&& forall|p: usize, k: int|
            self.has_task(p) && 0 <= k < self.tasks[p].children.len() ==> self.has_task(
                #[trigger] self.tasks[p].children[k],
            ) && self.tasks[self.tasks[p].children[k]].parent == Some(p)
        &&& forall|c: usize| #[trigger]
            self.has_task(c) && self.tasks[c].parent.is_some() ==> self.has_task(
                self.tasks[c].parent.unwrap(),
            ) && self.tasks[self.tasks[c].parent.unwrap()].children.contains(c)
        &&& forall|p: usize| #[trigger]
            self.has_task(p) ==> self.has_task(IDLE_PID) && self.tasks[IDLE_PID].parent.is_none()
                && self.tasks[IDLE_PID].status != TaskStatus::Zombie
    }

    /// The state with the task `pid` replaced by `t`.
    pub open spec fn with_task(self, pid: usize, t: TaskView) -> KernelView {
        KernelView { tasks: self.tasks.insert(pid, t), ..self }
    }

    /// The state with the running task's address space replaced by `m`.
    pub open spec fn with_current_memory(self, m: AddressSpace) -> KernelView {
        self.with_task(self.current.unwrap(), TaskView { memory: m, ..self.cur() })
    }

    /// The state with the timer read as `now_us`. The clock never runs
    /// backwards: an earlier reading changes nothing.
    pub open spec fn at_time(self, now_us: usize) -> KernelView {
        KernelView {
            now_us: if now_us > self.now_us {
                now_us
            } else {
                self.now_us
            },
            ..self
        }
    }

    /// The state with the task `pid` appended to the ready queue.
    pub open spec fn enqueue(self, pid: usize) -> KernelView {
        KernelView { ready: self.ready.push(pid), ..self }
    }

    /// One turn of the idle loop: the task at the head of the ready queue
    /// leaves the queue, becomes the running task, and, if it never ran
    /// before, gets the present time as its start time. With an empty
    /// queue nothing changes.
    pub open spec fn dispatch(self) -> KernelView {
        if self.ready.len() == 0 {
            self
        } else {
            let p = self.ready[0];
            let t = self.tasks[p];
            KernelView {
                tasks: self.tasks.insert(
                    p,
                    TaskView {
                        status: TaskStatus::Running,
                        start_time: if t.start_time == 0 {
                            self.now_ms()
                        } else {
                            t.start_time
                        },
                        ..t
                    },
                ),
                ready: self.ready.drop_first(),
                current: Some(p),
                ..self
            }
        }
    }

    /// The running task leaves the processor and waits at the tail of the
    /// ready queue; nobody runs.
    pub open spec fn requeue_current(self) -> KernelView {
        let p = self.current.unwrap();
        KernelView {
            tasks: self.tasks.insert(p, TaskView { status: TaskStatus::Ready, ..self.cur() }),
            ready: self.ready.push(p),
            current: None,
            ..self
        }
    }

    /// The running task yields: it goes to the tail of the ready queue and
    /// the task at the head runs.
    pub open spec fn suspend(self) -> KernelView {
        self.requeue_current().dispatch()
    }

    /// The tasks after the running task ended with `exit_code`: the task is a
    /// zombie with that code, without children and with nothing mapped;
    /// its children are the idle process's last children, in their order,
    /// and name the idle process as their parent.
    pub open spec fn tasks_after_exit(self, exit_code: i32) -> Map<usize, TaskView> {
        let p = self.current.unwrap();
        let kids = self.cur().children;
        Map::new(
            |q: usize| self.has_task(q),
            |q: usize|
                if q == p {
                    TaskView {
                        status: TaskStatus::Zombie,
                        exit_code: exit_code,
                        children: Seq::empty(),
                        memory: self.cur().memory.recycle(),
                        ..self.cur()
                    }
                } else if q == IDLE_PID {
                    TaskView { children: self.tasks[q].children + kids, ..self.tasks[q] }
                } else if kids.contains(q) {
                    TaskView { parent: Some(IDLE_PID), ..self.tasks[q] }
                } else {
                    self.tasks[q]
                },
        )
    }

    /// The running task ends with `exit_code` and leaves the processor; nobody
    /// runs.
    pub open spec fn retire_current(self, exit_code: i32) -> KernelView {
        KernelView { tasks: self.tasks_after_exit(exit_code), current: None, ..self }
    }

    /// The running task exits with `exit_code` and the task at the head of the
    /// ready queue runs.
    pub open spec fn exit(self, exit_code: i32) -> KernelView {
        self.retire_current(exit_code).dispatch()
    }

    /// Whether `pid` is the smallest identifier that no task has.
    pub open spec fn is_lowest_free(self, pid: usize) -> bool {
        &&& !self.has_task(pid)
        &&& forall|q: usize| q < pid ==> #[trigger] self.has_task(q)
    }

    /// The smallest identifier that no task has.
    pub open spec fn lowest_free(self) -> usize {
        choose|pid: usize| self.is_lowest_free(pid)
    }

    /// Whether a new task can get an identifier.
    pub open spec fn can_fork(self) -> bool {
        exists|pid: usize| pid < MAX_TASKS && #[trigger] self.is_lowest_free(pid)
    }

    /// The running task forks: the child gets the smallest free
    /// identifier, becomes the parent's last child and waits at the tail of
    /// the ready queue.
    pub open spec fn fork(self) -> KernelView {
        let p = self.current.unwrap();
        let c = self.lowest_free();
        KernelView {
            tasks: self.tasks.insert(
                p,
                TaskView { children: self.cur().children.push(c), ..self.cur() },
            ).insert(c, self.cur().forked(c)),
            ready: self.ready.push(c),
            ..self
        }
    }

    /// Whether child number `k` of the running task is what a wait for `pid`
    /// collects: it matches and is a zombie.
    pub open spec fn reapable(self, pid: int, k: int) -> bool {
        &&& 0 <= k < self.cur().children.len()
        &&& wait_matches(pid, self.cur().children[k])
        &&& self.tasks[self.cur().children[k]].status == TaskStatus::Zombie
    }

    /// Whether the running task has a child that a wait for `pid` concerns.
    pub open spec fn has_matching_child(self, pid: int) -> bool {
        exists|k: int|
            0 <= k < self.cur().children.len() && wait_matches(pid, #[trigger] self.cur().children[k])
    }

    /// Whether the running task has a child that a wait for `pid` collects.
    pub open spec fn has_reapable(self, pid: int) -> bool {
        exists|k: int| #[trigger] self.reapable(pid, k)
    }

    /// Whether `k` is the first child that a wait for `pid` collects.
    pub open spec fn first_reapable(self, pid: int, k: int) -> bool {
        &&& self.reapable(pid, k)
        &&& forall|j: int| 0 <= j < k ==> !#[trigger] self.reapable(pid, j)
    }

    /// The index of the first child that a wait for `pid` collects.
    pub open spec fn reap_index(self, pid: int) -> int {
        choose|k: int| #[trigger] self.first_reapable(pid, k)
    }

    /// Child number `k` of the running task is collected: it leaves the
    /// list of children and ceases to exist.
    pub open spec fn reap(self, k: int) -> KernelView {
        let p = self.current.unwrap();
        let c = self.cur().children[k];
        KernelView {
            tasks: self.tasks.remove(c).insert(
                p,
                TaskView { children: self.cur().children.remove(k), ..self.cur() },
            ),
            ..self
        }
    }

    /// Whether `i` is the first program that the loader offers as `name`.
    pub open spec fn first_app(self, name: Seq<u8>, i: int) -> bool {
        &&& 0 <= i < self.apps.len()
        &&& self.apps[i].name@ == name
        &&& forall|j: int| 0 <= j < i ==> (#[trigger] self.apps[j]).name@ != name
    }

    /// Whether the loader offers a program as `name`.
    pub open spec fn has_app(self, name: Seq<u8>) -> bool {
        exists|i: int| 0 <= i < self.apps.len() && (#[trigger] self.apps[i]).name@ == name
    }

    /// The first program that the loader offers as `name`.
    pub open spec fn app(self, name: Seq<u8>) -> AppImage {
        self.apps[choose|i: int| #[trigger] self.first_app(name, i)].image
    }

    /// Whether the program `name` can be started: the loader offers it and
    /// its image fits into an address space.
    pub open spec fn can_load(self, name: Seq<u8>) -> bool {
        self.has_app(name) && initial_space(self.app(name).segments@).is_some()
    }
}

} // verus!
