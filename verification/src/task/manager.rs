//! The task manager: the queue of tasks that are ready to run.
use vstd::prelude::*;
use std::collections::VecDeque;

verus! {

/// The ready queue. Tasks leave it in the order in which they entered.
pub struct TaskManager {
    ready_queue: VecDeque<usize>,
}

impl View for TaskManager {
    type V = Seq<usize>;

    closed spec fn view(&self) -> Seq<usize> {
        self.ready_queue@
    }
}

impl TaskManager {
    /// A manager with no task queued.
    pub fn new() -> (m: TaskManager)
        ensures
            m@ == Seq::<usize>::empty(),
    {
        TaskManager { ready_queue: VecDeque::new() }
    }

    /// Appends the task `pid` to the tail of the queue.
    pub fn add(&mut self, pid: usize)
        ensures
            final(self)@ == old(self)@.push(pid),
    {
        self.ready_queue.push_back(pid);
    }

    /// Takes the task at the head of the queue, if the queue is not empty.
    pub fn fetch(&mut self) -> (r: Option<usize>)
        ensures
            old(self)@.len() == 0 ==> r.is_none() && final(self)@ == old(self)@,
            old(self)@.len() > 0 ==> r == Some(old(self)@[0]) && final(self)@ == old(
                self,
            )@.drop_first(),
    {
        let r = self.ready_queue.pop_front();
        proof {
            if old(self)@.len() > 0 {
                assert(self@ =~= old(self)@.drop_first());
            }
        }
        r
    }

    /// The task at place `i` of the queue, the head being at place 0.
    pub fn get(&self, i: usize) -> (pid: usize)
        requires
            i < self@.len(),
        ensures
            pid == self@[i as int],
    {
        self.ready_queue[i]
    }

    /// The number of queued tasks.
    pub fn len(&self) -> (n: usize)
        ensures
            n == self@.len(),
    {
        self.ready_queue.len()
    }
}

} // verus!
