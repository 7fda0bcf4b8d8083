use vstd::prelude::*;

verus! {

/// The guard that keeps a periodic job single-flight: a tick that fires while
/// the previous run of the same job has not finished is dropped.
#[derive(Debug)]
pub struct JobSlot {
    running: bool,
}

impl JobSlot {
    /// Whether a run of the job is in progress.
    pub closed spec fn busy(&self) -> bool {
        self.running
    }

    /// A slot with no run in progress.
    pub fn new() -> (r: JobSlot)
        ensures
            !r.busy(),
    {
        JobSlot { running: false }
    }

    /// Whether a run of the job is in progress.
    pub fn is_running(&self) -> (r: bool)
        ensures
            r == self.busy(),
    {
        self.running
    }

    /// Claims the slot for a run. Returns whether the run may start: only when
    /// no other run is in progress. The slot is busy afterwards either way.
    pub fn try_start(&mut self) -> (r: bool)
        ensures
            r == !old(self).busy(),
            final(self).busy(),
    {
        if self.running {
            false
        } else {
            self.running = true;
            true
        }
    }

    /// Releases the slot once a run has finished, whether it succeeded or not.
    pub fn finish(&mut self)
        ensures
            !final(self).busy(),
    {
        self.running = false;
    }
}

} // verus!
