//! The disk-space watcher's decisions: when scratch space calls for a purge,
//! and the purge barrier that keeps workers from running tasks while one is under way.
use vstd::prelude::*;

verus! {

/// Whether the free space is down to `threshold_percent` of the total or
/// below, so that scratch space is to be purged.
pub fn should_purge(free: u64, total: u64, threshold_percent: u64) -> (r: bool)
    requires
        threshold_percent <= 100,
    ensures
        r == (free as int * 100 <= threshold_percent as int * total as int),
{
    let f: u128 = free as u128;
    let p: u128 = threshold_percent as u128;
    let t: u128 = total as u128;
    assert(f * 100 <= 0xffff_ffff_ffff_ffff * 100) by (nonlinear_arith)
        requires
            f <= 0xffff_ffff_ffff_ffff,
    ;
    assert(p * t <= 100 * 0xffff_ffff_ffff_ffff) by (nonlinear_arith)
        requires
            p <= 100,
            t <= 0xffff_ffff_ffff_ffff,
    ;
    f * 100 <= p * t
}

/// Coordinates workers around a purge: the watcher raises a request, workers
/// stop taking tasks, the purge starts once no task runs, and no task starts
/// until it has ended.
pub struct PurgeGate {
    requested: bool,
    purging: bool,
    running: u64,
}

impl PurgeGate {
    pub closed spec fn requested(&self) -> bool {
        self.requested
    }

    pub closed spec fn purging(&self) -> bool {
        self.purging
    }

    /// Number of tasks running.
    pub closed spec fn running(&self) -> nat {
        self.running as nat
    }

    /// No task runs during a purge, and a purge is only under way when it
    /// was requested.
    pub open spec fn wf(&self) -> bool {
        &&& self.purging() ==> self.running() == 0
        &&& self.purging() ==> self.requested()
    }

    /// Whether a worker may start a task now.
    pub open spec fn may_begin(&self) -> bool {
        !(self.requested() || self.purging())
    }

    pub fn new() -> (r: Self)
        ensures
            r.wf(),
            !r.requested(),
            !r.purging(),
            r.running() == 0,
    {
        PurgeGate { requested: false, purging: false, running: 0 }
    }

    /// Called by the watcher when space runs low.
    pub fn request(&mut self)
        requires
            old(self).wf(),
        ensures
            final(self).wf(),
            final(self).requested(),
            final(self).purging() == old(self).purging(),
            final(self).running() == old(self).running(),
    {
        self.requested = true;
    }

    /// A worker asks to start a task: allowed unless a purge is requested or
    /// under way.
    pub fn begin_task(&mut self) -> (r: bool)
        requires
            old(self).wf(),
            old(self).running() < u64::MAX,
        ensures
            final(self).wf(),
            r == old(self).may_begin(),
            final(self).running() == old(self).running() + if r { 1nat } else { 0nat },
            final(self).requested() == old(self).requested(),
            final(self).purging() == old(self).purging(),
    {
        if self.requested || self.purging {
            false
        } else {
            self.running = self.running + 1;
            true
        }
    }

    /// A worker's task has returned.
    pub fn end_task(&mut self)
        requires
            old(self).wf(),
            old(self).running() > 0,
        ensures
            final(self).wf(),
            final(self).running() == old(self).running() - 1,
            final(self).requested() == old(self).requested(),
            final(self).purging() == old(self).purging(),
    {
        self.running = self.running - 1;
    }

    /// A worker offers to purge: it may when a purge is requested, none is
    /// under way and no task runs.
    pub fn try_start_purge(&mut self) -> (r: bool)
        requires
            old(self).wf(),
        ensures
            final(self).wf(),
            r == (old(self).requested() && !old(self).purging() && old(self).running() == 0),
            final(self).purging() == (old(self).purging() || r),
            final(self).requested() == old(self).requested(),
            final(self).running() == old(self).running(),
    {
        if self.requested && !self.purging && self.running == 0 {
            self.purging = true;
            true
        } else {
            false
        }
    }

    /// The purge is over: workers take tasks again.
    pub fn finish_purge(&mut self)
        requires
            old(self).wf(),
            old(self).purging(),
        ensures
            final(self).wf(),
            !final(self).purging(),
            !final(self).requested(),
            final(self).running() == 0,
    {
        self.purging = false;
        self.requested = false;
    }
}

/// No task runs while a purge is under way and none may start then; once the
/// purge is over, every worker that asks may start a task.
pub proof fn lemma_purge_excludes_tasks(g: PurgeGate)
    requires
        g.wf(),
    ensures
        g.purging() ==> g.running() == 0 && !g.may_begin(),
        !g.purging() && !g.requested() ==> g.may_begin(),
{
}

} // verus!
