//! What the coordinator decides for each request of an agent: which
//! experiment it works on, where the results it sends are stored, and when
//! its experiment is complete.
use vstd::prelude::*;
use crate::experiments::{Experiments, ServerExperiment, Status, first_queued, runs};
use crate::results::{ResultKey, ResultStore, StoreError, TestResult, put_outcome};

verus! {

/// A result sent by an agent for one task of its running experiment.
pub struct TaskResult {
    pub krate: u64,
    pub toolchain: u64,
    pub result: TestResult,
    pub log: Vec<u8>,
}

/// Why a request of an agent was refused.
#[derive(Clone, Copy, Debug, PartialEq, Eq, Structural)]
pub enum AgentError {
    /// The agent runs no experiment.
    NoExperiment,
    /// The result conflicts with the one already stored.
    Store(StoreError),
}

/// The experiment handed to an agent, and whether it was assigned just now,
/// in which case the experiment's issue is to be told.
#[derive(Clone, Copy, Debug, PartialEq, Eq, Structural)]
pub struct NextExperiment {
    pub experiment: ServerExperiment,
    pub notify: bool,
}

/// The agent's experiment, or else the oldest queued one, which starts
/// running on it.
pub fn get_next_experiment(experiments: &mut Experiments, agent: u64) -> (r: Option<NextExperiment>)
    requires
        old(experiments).wf(),
    ensures
        final(experiments).wf(),
        forall|i: int| runs(old(experiments)@, i, agent) ==> r == Some(
            NextExperiment { experiment: old(experiments)@[i], notify: false },
        ) && final(experiments)@ == old(experiments)@,
        (forall|i: int| !runs(old(experiments)@, i, agent)) ==> match r {
            Some(n) => n.notify && exists|i: int|
                first_queued(old(experiments)@, i) && n.experiment == ServerExperiment {
                    status: Status::Running(agent),
                    ..old(experiments)@[i]
                } && final(experiments)@ == old(experiments)@.update(i, n.experiment),
            None => final(experiments)@ == old(experiments)@ && forall|i: int|
                0 <= i < old(experiments)@.len() ==> !(#[trigger] old(experiments)@[i].status is Queued),
        },
{
    match experiments.next(agent) {
        Some((new, i)) => {
            let e = experiments.get(i);
            Some(NextExperiment { experiment: e, notify: new })
        },
        None => None,
    }
}

/// Stores a result sent by `agent`, with its log, under its running
/// experiment. A result sent again with the same outcome is accepted and
/// changes nothing, its log included.
pub fn save_result(
    experiments: &Experiments,
    store: &mut ResultStore,
    agent: u64,
    result: TaskResult,
) -> (r: Result<(), AgentError>)
    requires
        experiments.wf(),
    ensures
        (forall|i: int| !runs(experiments@, i, agent)) ==> r == Err::<(), AgentError>(AgentError::NoExperiment)
            && final(store)@ == old(store)@ && final(store).logs() == old(store).logs(),
        forall|i: int| runs(experiments@, i, agent) ==> {
            let key = ResultKey { ex: experiments@[i].name, krate: result.krate, toolchain: result.toolchain };
            let (m, p) = put_outcome(old(store)@, key, result.result);
            &&& final(store)@ == m
            &&& final(store).logs() == if old(store)@.contains_key(key) {
                old(store).logs()
            } else {
                old(store).logs().insert(key, result.log@)
            }
            &&& match p {
                Ok(()) => r is Ok,
                Err(e) => r == Err::<(), AgentError>(AgentError::Store(e)),
            }
        },
{
    let i = match experiments.run_by_agent(agent) {
        Some(i) => i,
        None => {
            return Err(AgentError::NoExperiment);
        },
    };
    let name = experiments.get(i).name;
    let key = ResultKey { ex: name, krate: result.krate, toolchain: result.toolchain };
    proof {
        assert forall|j: int| runs(experiments@, j, agent) implies j == i as int by {
            assert(experiments@[j].status == experiments@[i as int].status);
        }
    }
    match store.put(key, result.result, result.log) {
        Ok(()) => Ok(()),
        Err(e) => Err(AgentError::Store(e)),
    }
}

/// Marks the experiment of `agent` as completed and returns it, so that its
/// report can be generated.
pub fn complete_experiment(experiments: &mut Experiments, agent: u64) -> (r: Result<ServerExperiment, AgentError>)
    requires
        old(experiments).wf(),
    ensures
        final(experiments).wf(),
        (forall|i: int| !runs(old(experiments)@, i, agent)) ==> r == Err::<ServerExperiment, AgentError>(
            AgentError::NoExperiment,
        ) && final(experiments)@ == old(experiments)@,
        forall|i: int| runs(old(experiments)@, i, agent) ==> r == Ok::<ServerExperiment, AgentError>(
            ServerExperiment { status: Status::Completed, ..old(experiments)@[i] },
        ) && final(experiments)@ == old(experiments)@.update(i, r->Ok_0),
{
    match experiments.complete(agent) {
        Some(i) => {
            let e = experiments.get(i);
            proof {
                assert forall|j: int| runs(old(experiments)@, j, agent) implies j == i as int by {
                    assert(old(experiments)@[j].status == old(experiments)@[i as int].status);
                }
            }
            Ok(e)
        },
        None => Err(AgentError::NoExperiment),
    }
}

} // verus!
