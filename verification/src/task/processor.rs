//! The processor: the slot of the task that is running.
use vstd::prelude::*;

verus! {

/// The state of the one hardware thread: which task, if any, occupies it.
pub struct Processor {
    current: Option<usize>,
}

impl View for Processor {
    type V = Option<usize>;

    closed spec fn view(&self) -> Option<usize> {
        self.current
    }
}

impl Processor {
    /// A processor that runs no task.
    pub fn new() -> (p: Processor)
        ensures
            p@.is_none(),
    {
        Processor { current: None }
    }

    /// Removes the running task from the slot and returns it.
    pub fn take_current(&mut self) -> (r: Option<usize>)
        ensures
            r == old(self)@,
            final(self)@.is_none(),
    {
        self.current.take()
    }

    /// The running task, which stays in the slot.
    pub fn current(&self) -> (r: Option<usize>)
        ensures
            r == self@,
    {
        self.current
    }

    /// Puts the task `pid` into the slot.
    pub fn set_current(&mut self, pid: usize)
        ensures
            final(self)@ == Some(pid),
    {
        self.current = Some(pid);
    }
}

} // verus!
