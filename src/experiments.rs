//! The coordinator's registry of experiments: each is queued, running on one
//! agent, or completed, and an agent runs at most one experiment at a time.
use vstd::prelude::*;

verus! {

#[derive(Clone, Copy, Debug, PartialEq, Eq, Structural)]
pub enum Status {
    Queued,
    /// Running on the agent with this identity.
    Running(u64),
    Completed,
}

/// An experiment as the coordinator keeps it. Names, issues and agents are
/// opaque identities, numbered by the caller.
#[derive(Clone, Copy, Debug, PartialEq, Eq, Structural)]
pub struct ServerExperiment {
    pub name: u64,
    pub github_issue: u64,
    pub status: Status,
}

/// The experiments, oldest first.
pub struct Experiments {
    list: Vec<ServerExperiment>,
}

/// No agent runs two experiments.
pub open spec fn one_per_agent(s: Seq<ServerExperiment>) -> bool {
    forall|i: int, j: int|
        0 <= i < s.len() && 0 <= j < s.len() && (#[trigger] s[i]).status is Running && s[i].status == (
        #[trigger] s[j]).status ==> i == j
}

pub open spec fn runs(s: Seq<ServerExperiment>, i: int, agent: u64) -> bool {
    0 <= i < s.len() && s[i].status == Status::Running(agent)
}

pub open spec fn first_queued(s: Seq<ServerExperiment>, i: int) -> bool {
    &&& 0 <= i < s.len()
    &&& s[i].status is Queued
    &&& forall|j: int| 0 <= j < i ==> !(#[trigger] s[j].status is Queued)
}

impl Experiments {
    pub closed spec fn view(&self) -> Seq<ServerExperiment> {
        self.list@
    }

    pub open spec fn wf(&self) -> bool {
        one_per_agent(self@)
    }

    pub fn new() -> (r: Self)
        ensures
            r.wf(),
            r@ == Seq::<ServerExperiment>::empty(),
    {
        Experiments { list: Vec::new() }
    }

    /// Queues a new experiment behind the others.
    pub fn create(&mut self, name: u64, github_issue: u64)
        requires
            old(self).wf(),
        ensures
            final(self).wf(),
            final(self)@ == old(self)@.push(ServerExperiment { name, github_issue, status: Status::Queued }),
    {
        self.list.push(ServerExperiment { name, github_issue, status: Status::Queued });
        assert(forall|i: int| 0 <= i < old(self)@.len() ==> self.list@[i] == old(self)@[i]);
    }

    pub fn len(&self) -> (r: usize)
        ensures
            r == self@.len(),
    {
        self.list.len()
    }

    pub fn get(&self, i: usize) -> (r: ServerExperiment)
        requires
            i < self@.len(),
        ensures
            r == self@[i as int],
    {
        self.list[i]
    }

    /// The experiment that `agent` is running, if any.
    pub fn run_by_agent(&self, agent: u64) -> (r: Option<usize>)
        requires
            self.wf(),
        ensures
            match r {
                Some(i) => runs(self@, i as int, agent),
                None => forall|i: int| !runs(self@, i, agent),
            },
    {
        let mut i: usize = 0;
        while i < self.list.len()
            invariant
                i <= self.list@.len(),
                forall|j: int| 0 <= j < i ==> !runs(self.list@, j, agent),
            decreases self.list@.len() - i,
        {
            if self.list[i].status == Status::Running(agent) {
                return Some(i);
            }
            i = i + 1;
        }
        None
    }

    fn first_queued(&self) -> (r: Option<usize>)
        ensures
            match r {
                Some(i) => first_queued(self@, i as int),
                None => forall|i: int| 0 <= i < self@.len() ==> !(#[trigger] self@[i].status is Queued),
            },
    {
        let mut i: usize = 0;
        while i < self.list.len()
            invariant
                i <= self.list@.len(),
                forall|j: int| 0 <= j < i ==> !(#[trigger] self.list@[j].status is Queued),
            decreases self.list@.len() - i,
        {
            if self.list[i].status == Status::Queued {
                return Some(i);
            }
            i = i + 1;
        }
        None
    }

    /// The experiment that `agent` should work on: the one it already runs
    /// (`false`), else the oldest queued one, which now runs on it (`true`),
    /// else none.
    pub fn next(&mut self, agent: u64) -> (r: Option<(bool, usize)>)
        requires
            old(self).wf(),
        ensures
            final(self).wf(),
            forall|i: int| runs(old(self)@, i, agent) ==> (match r {
                Some((new, j)) => !new && j as int == i,
                None => false,
            }) && final(self)@ == old(self)@,
            (forall|i: int| !runs(old(self)@, i, agent)) ==> match r {
                Some((new, i)) => new && first_queued(old(self)@, i as int) && final(self)@ == old(self)@.update(
                    i as int,
                    ServerExperiment { status: Status::Running(agent), ..old(self)@[i as int] },
                ),
                None => final(self)@ == old(self)@ && forall|i: int|
                    0 <= i < old(self)@.len() ==> !(#[trigger] old(self)@[i].status is Queued),
            },
    {
        match self.run_by_agent(agent) {
            Some(i) => {
                proof {
                    assert forall|j: int| runs(old(self)@, j, agent) implies j == i as int by {
                        assert(old(self)@[j].status == old(self)@[i as int].status);
                    }
                }
                return Some((false, i));
            },
            None => {},
        }
        match self.first_queued() {
            Some(i) => {
                let mut e = self.list[i];
                e.status = Status::Running(agent);
                self.list.set(i, e);
                proof {
                    assert forall|a: int, b: int|
                        0 <= a < self.list@.len() && 0 <= b < self.list@.len() && (#[trigger] self.list@[a]).status is Running
                            && self.list@[a].status == (#[trigger] self.list@[b]).status
                            implies a == b by {
                        if a != i && b != i {
                            assert(old(self)@[a] == self.list@[a] && old(self)@[b] == self.list@[b]);
                        } else if a == i && b != i {
                            assert(!runs(old(self)@, b, agent));
                        } else if b == i && a != i {
                            assert(!runs(old(self)@, a, agent));
                        }
                    }
                }
                Some((true, i))
            },
            None => None,
        }
    }

    /// Marks the experiment that `agent` runs as completed, and returns it.
    pub fn complete(&mut self, agent: u64) -> (r: Option<usize>)
        requires
            old(self).wf(),
        ensures
            final(self).wf(),
            match r {
                Some(i) => runs(old(self)@, i as int, agent) && final(self)@ == old(self)@.update(
                    i as int,
                    ServerExperiment { status: Status::Completed, ..old(self)@[i as int] },
                ),
                None => final(self)@ == old(self)@ && forall|i: int| !runs(old(self)@, i, agent),
            },
    {
        match self.run_by_agent(agent) {
            Some(i) => {
                let mut e = self.list[i];
                e.status = Status::Completed;
                self.list.set(i, e);
                proof {
                    assert forall|a: int, b: int|
                        0 <= a < self.list@.len() && 0 <= b < self.list@.len() && (#[trigger] self.list@[a]).status is Running
                            && self.list@[a].status == (#[trigger] self.list@[b]).status
                            implies a == b by {
                        assert(old(self)@[a] == self.list@[a] && old(self)@[b] == self.list@[b]);
                    }
                }
                Some(i)
            },
            None => None,
        }
    }
}

/// However the registry was reached, each agent runs at most one experiment,
/// and a running experiment has exactly one agent.
pub proof fn lemma_single_runner(e: Experiments, i: int, a: u64, b: u64)
    requires
        e.wf(),
        runs(e@, i, a),
        runs(e@, i, b),
    ensures
        a == b,
        forall|j: int| runs(e@, j, a) ==> j == i,
{
    assert forall|j: int| runs(e@, j, a) implies j == i by {
        assert(e@[j].status == e@[i].status);
    }
}

} // verus!
