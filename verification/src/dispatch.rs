//! The resize dispatcher's bookkeeping: a wait-group over background
//! resize jobs. The counting logic lives here; the worker pool that runs
//! jobs and the blocking wait on the counter live with the build around
//! the library, which drives this state.

use vstd::prelude::*;

verus! {

/// The wait-group state of the resize dispatcher: how many jobs were
/// scheduled and how many have finished. Well-formed states never have
/// more finished than scheduled.
#[derive(Debug, Clone, Copy, PartialEq, Eq, Structural)]
pub struct ResizeDispatcher {
    pub scheduled: u64,
    pub completed: u64,
}

impl ResizeDispatcher {
    /// Well-formedness: no more jobs have finished than were scheduled.
    pub open spec fn wf(self) -> bool {
        self.completed <= self.scheduled
    }

    /// A dispatcher with no jobs.
    pub fn new() -> (r: Self)
        ensures
            r.wf(),
            r.scheduled == 0,
            r.completed == 0,
    {
        ResizeDispatcher { scheduled: 0, completed: 0 }
    }

    /// Records one scheduled job.
    pub fn spawn(&mut self)
        requires
            old(self).wf(),
            old(self).scheduled < u64::MAX,
        ensures
            final(self).wf(),
            final(self).scheduled == old(self).scheduled + 1,
            final(self).completed == old(self).completed,
    {
        self.scheduled = self.scheduled + 1;
    }

    /// Records one finished job.
    pub fn job_finished(&mut self)
        requires
            old(self).wf(),
            old(self).completed < old(self).scheduled,
        ensures
            final(self).wf(),
            final(self).completed == old(self).completed + 1,
            final(self).scheduled == old(self).scheduled,
    {
        self.completed = self.completed + 1;
    }

    /// The number of jobs still running or queued.
    pub fn pending(&self) -> (r: u64)
        requires
            self.wf(),
        ensures
            r == self.scheduled - self.completed,
    {
        self.scheduled - self.completed
    }

    /// Whether a waiter may be released: nothing is pending.
    pub fn is_idle(&self) -> (r: bool)
        requires
            self.wf(),
        ensures
            r == (self.scheduled == self.completed),
    {
        self.scheduled == self.completed
    }
}

/// A waiter released only when nothing is pending has seen every job that
/// was scheduled before it was released also finish: in a well-formed
/// dispatcher state with nothing pending, the finished count equals the
/// scheduled count, and any earlier scheduled count is covered by it.
pub proof fn lemma_wait_sees_all_jobs(d: ResizeDispatcher, earlier_scheduled: u64)
    requires
        d.wf(),
        d.scheduled == d.completed,
        earlier_scheduled <= d.scheduled,
    ensures
        d.completed >= earlier_scheduled,
{
}

} // verus!
