//! The decisions of the worker pool that drains a task graph: what a worker
//! records when a task returns, and how the run ends.
use vstd::prelude::*;
use std::collections::HashMap;
use crate::graph::{Outcome, TaskKind, TasksGraph, lemma_prep_of, state_after, valid_step};
use crate::results::{OverrideResult, ResultKey, ResultStore, StoreError, TestResult, put_outcome};

verus! {

broadcast use vstd::std_specs::hash::group_hash_axioms;

/// State shared by the workers besides the graph: the log of each prepared
/// package, kept for the package's tasks.
pub struct RunnerStateInner {
    pub prepare_logs: HashMap<u64, Vec<u8>>,
}

pub struct RunnerState {
    inner: RunnerStateInner,
}

impl RunnerState {
    pub closed spec fn inner(&self) -> RunnerStateInner {
        self.inner
    }

    pub fn new() -> (r: Self)
        ensures
            r.inner().prepare_logs@ == Map::<u64, Vec<u8>>::empty(),
    {
        RunnerState { inner: RunnerStateInner { prepare_logs: HashMap::new() } }
    }

    /// Exclusive access to the shared state, for as long as the borrow lasts.
    pub fn lock(&mut self) -> (r: &mut RunnerStateInner)
        ensures
            *r == old(self).inner(),
            final(self).inner() == *final(r),
    {
        &mut self.inner
    }
}

/// How the sandbox returned from a task.
#[derive(Clone, Copy, Debug, PartialEq, Eq, Structural)]
pub enum TaskReturn {
    /// The task ran to its end with this outcome.
    Finished(TestResult),
    /// The sandbox classified the task ahead of time.
    Overridden(OverrideResult),
    /// The task could not be carried out.
    Failed(TestResult),
}

/// The outcome that the graph records for what the sandbox returned.
pub open spec fn outcome_spec(ret: TaskReturn) -> Outcome {
    match ret {
        TaskReturn::Finished(r) => Outcome::Done(r),
        TaskReturn::Overridden(o) => Outcome::Done(o.0),
        TaskReturn::Failed(r) => Outcome::Failed(r),
    }
}

pub fn outcome_of(ret: TaskReturn) -> (r: Outcome)
    ensures
        r == outcome_spec(ret),
{
    match ret {
        TaskReturn::Finished(r) => Outcome::Done(r),
        TaskReturn::Overridden(o) => Outcome::Done(o.result()),
        TaskReturn::Failed(r) => Outcome::Failed(r),
    }
}

pub open spec fn result_of(o: Outcome) -> TestResult {
    match o {
        Outcome::Done(r) => r,
        Outcome::Failed(r) => r,
    }
}

pub open spec fn keeps(m0: Map<ResultKey, TestResult>, m1: Map<ResultKey, TestResult>) -> bool {
    forall|k: ResultKey| #[trigger] m0.contains_key(k) ==> m1.contains_key(k) && m1[k] == m0[k]
}

pub open spec fn keeps_logs(m0: Map<ResultKey, Seq<u8>>, m1: Map<ResultKey, Seq<u8>>) -> bool {
    forall|k: ResultKey| #[trigger] m0.contains_key(k) ==> m1.contains_key(k) && m1[k] == m0[k]
}

/// Records that the running task `t` of experiment `ex` returned `ret` with
/// the captured `log`. The graph takes the outcome; an execution task's result
/// is stored; a preparation that is done keeps its log for the package's
/// tasks, and one that failed stores `PrepareFailed`, with its log, for each
/// of the package's tasks. Returns whether the task ended well, in which case
/// parked workers are to be woken.
pub fn record_task(
    graph: &mut TasksGraph,
    store: &mut ResultStore,
    state: &mut RunnerState,
    ex: u64,
    t: usize,
    ret: TaskReturn,
    log: Vec<u8>,
) -> (r: Result<bool, StoreError>)
    requires
        old(graph).wf(),
        t < old(graph).root(),
        old(graph)@[t as int].state is Running,
    ensures
        final(graph).wf(),
        final(graph)@.len() == old(graph)@.len(),
        forall|i: int| 0 <= i < old(graph)@.len() ==> #[trigger] final(graph)@[i].state == state_after(
            old(graph)@,
            t as int,
            outcome_spec(ret),
            i,
        ),
        forall|i: int| 0 <= i < old(graph)@.len() ==> valid_step(
            #[trigger] old(graph)@[i].state,
            final(graph)@[i].state,
        ),
        r is Ok ==> r == Ok::<bool, StoreError>(outcome_spec(ret) is Done),
        old(graph)@[t as int].kind != TaskKind::Prepare ==> {
            let x = old(graph)@[t as int];
            let (m, p) = put_outcome(
                old(store)@,
                ResultKey { ex, krate: x.krate, toolchain: x.toolchain },
                result_of(outcome_spec(ret)),
            );
            let p0 = x.prep as int;
            let key = ResultKey { ex, krate: x.krate, toolchain: x.toolchain };
            &&& final(store)@ == m
            &&& final(store).logs() == if old(store)@.contains_key(key) {
                old(store).logs()
            } else {
                old(store).logs().insert(key, log@)
            }
            &&& match p {
                Ok(()) => r is Ok,
                Err(e) => r == Err::<bool, StoreError>(e),
            }
            &&& final(state).inner().prepare_logs@ == if final(graph).package_pending(p0) {
                old(state).inner().prepare_logs@
            } else {
                old(state).inner().prepare_logs@.remove(old(graph)@[p0].krate)
            }
        },
        old(graph)@[t as int].kind == TaskKind::Prepare && outcome_spec(ret) is Done ==> {
            let kept = old(state).inner().prepare_logs@.insert(old(graph)@[t as int].krate, log);
            &&& r is Ok
            &&& final(store)@ == old(store)@
            &&& final(store).logs() == old(store).logs()
            &&& final(state).inner().prepare_logs@ == if final(graph).package_pending(t as int) {
                kept
            } else {
                kept.remove(old(graph)@[t as int].krate)
            }
        },
        old(graph)@[t as int].kind == TaskKind::Prepare && outcome_spec(ret) is Failed ==> {
            &&& keeps(old(store)@, final(store)@)
            &&& keeps_logs(old(store).logs(), final(store).logs())
            &&& forall|k: ResultKey| #[trigger] final(store).logs().contains_key(k) && !old(store).logs().contains_key(k)
                ==> final(store).logs()[k] == log@
            &&& final(state).inner() == old(state).inner()
            &&& r is Ok ==> forall|c: int| #[trigger] old(graph).child_of(c, t as int) ==> {
                let k = ResultKey { ex, krate: old(graph)@[c].krate, toolchain: old(graph)@[c].toolchain };
                &&& final(store)@.contains_key(k)
                &&& final(store)@[k] == TestResult::PrepareFailed
                &&& !old(store)@.contains_key(k) ==> final(store).logs().contains_key(k) && final(store).logs()[k] == log@
            }
            &&& r is Err ==> exists|c: int| #[trigger] old(graph).child_of(c, t as int) && {
                let k = ResultKey { ex, krate: old(graph)@[c].krate, toolchain: old(graph)@[c].toolchain };
                &&& old(store)@.contains_key(k)
                &&& old(store)@[k] != TestResult::PrepareFailed
                &&& r == Err::<bool, StoreError>(
                    StoreError::Conflict { stored: old(store)@[k], offered: TestResult::PrepareFailed },
                )
            }
        },
{
    let x = graph.task(t);
    let outcome = outcome_of(ret);
    let ghost g0 = graph@;
    graph.mark_complete(t, outcome);
    if x.kind != TaskKind::Prepare {
        let result = match outcome {
            Outcome::Done(r) => r,
            Outcome::Failed(r) => r,
        };
        let key = ResultKey { ex, krate: x.krate, toolchain: x.toolchain };
        let stored = store.put(key, result, log);
        proof {
            lemma_prep_of(*graph, t as int);
        }
        if !graph.package_has_unfinished(x.prep) {
            let krate = graph.task(x.prep).krate;
            let inner = state.lock();
            inner.prepare_logs.remove(&krate);
        }
        return match stored {
            Ok(()) => Ok(matches!(outcome, Outcome::Done(_))),
            Err(e) => Err(e),
        };
    }
    match outcome {
        Outcome::Done(_) => {
            let inner = state.lock();
            inner.prepare_logs.insert(x.krate, log);
            proof {
                lemma_prep_of(*graph, t as int);
            }
            if !graph.package_has_unfinished(t) {
                let inner = state.lock();
                inner.prepare_logs.remove(&x.krate);
            }
            Ok(true)
        },
        Outcome::Failed(_) => {
            let ghost g1 = graph@;
            proof {
                old(store).lemma_logs_domain();
            }
            let n1 = graph.len() - 1;
            let mut i: usize = 0;
            while i < n1
                invariant
                    n1 == g0.len() - 1,
                    i <= n1,
                    graph.wf(),
                    graph@ == g1,
                    g0 == old(graph)@,
                    g1.len() == g0.len(),
                    forall|j: int| 0 <= j < g0.len() ==> #[trigger] g1[j].state == state_after(
                        g0,
                        t as int,
                        outcome_spec(ret),
                        j,
                    ),
                    forall|j: int| 0 <= j < g0.len() ==> valid_step(#[trigger] g0[j].state, g1[j].state),
                    x == g0[t as int],
                    x.kind == TaskKind::Prepare,
                    t < n1,
                    outcome == outcome_spec(ret),
                    outcome is Failed,
                    forall|j: int| 0 <= j < g0.len() ==> #[trigger] graph@[j].krate == g0[j].krate
                        && graph@[j].toolchain == g0[j].toolchain && graph@[j].prep == g0[j].prep,
                    keeps(old(store)@, store@),
                    keeps_logs(old(store).logs(), store.logs()),
                    forall|k: ResultKey| #[trigger] store.logs().contains_key(k) && !old(store).logs().contains_key(k)
                        ==> store.logs()[k] == log@,
                    forall|k: ResultKey| #[trigger] store@.contains_key(k) == store.logs().contains_key(k),
                    forall|k: ResultKey| #[trigger] old(store)@.contains_key(k) == old(store).logs().contains_key(k),
                    forall|k: ResultKey| #[trigger] store@.contains_key(k) && !old(store)@.contains_key(k)
                        ==> store@[k] == TestResult::PrepareFailed,
                    *state == *old(state),
                    forall|c: int| 0 <= c < i && #[trigger] g0[c].prep == t && c != t ==> {
                        let k = ResultKey { ex, krate: g0[c].krate, toolchain: g0[c].toolchain };
                        &&& store@.contains_key(k)
                        &&& store@[k] == TestResult::PrepareFailed
                        &&& !old(store)@.contains_key(k) ==> store.logs().contains_key(k) && store.logs()[k] == log@
                    },
                decreases n1 - i,
            {
                let c = graph.task(i);
                if c.prep == t && i != t {
                    let key = ResultKey { ex, krate: c.krate, toolchain: c.toolchain };
                    let ghost m0 = store@;
                    match store.put(key, TestResult::PrepareFailed, copy_log(&log)) {
                        Ok(()) => {
                            proof {
                                store.lemma_logs_domain();
                            }
                        },
                        Err(e) => {
                            proof {
                                assert(old(store)@.contains_key(key));
                                assert(old(graph).child_of(i as int, t as int));
                            }
                            return Err(e);
                        },
                    }
                }
                i = i + 1;
            }
            Ok(false)
        },
    }
}

fn copy_log(log: &Vec<u8>) -> (r: Vec<u8>)
    ensures
        r@ == log@,
{
    let r = log.clone();
    assert(r@ =~= log@);
    r
}

/// How a worker or watcher thread ended.
#[derive(Clone, Copy, Debug, PartialEq, Eq, Structural)]
pub enum ThreadExit {
    Clean,
    Failed,
    Panicked,
}

/// Whether every thread ended cleanly.
pub fn join_threads(exits: &Vec<ThreadExit>) -> (r: bool)
    ensures
        r == forall|i: int| 0 <= i < exits@.len() ==> #[trigger] exits@[i] == ThreadExit::Clean,
{
    let mut clean_exit = true;
    let mut i: usize = 0;
    while i < exits.len()
        invariant
            i <= exits@.len(),
            clean_exit == forall|j: int| 0 <= j < i ==> #[trigger] exits@[j] == ThreadExit::Clean,
        decreases exits@.len() - i,
    {
        if exits[i] != ThreadExit::Clean {
            clean_exit = false;
        }
        i = i + 1;
    }
    clean_exit
}

/// Why a run failed.
#[derive(Clone, Copy, Debug, PartialEq, Eq, Structural)]
pub enum RunError {
    /// The sandbox's container engine is not running; nothing was run.
    DockerNotRunning,
    /// Some worker or the disk watcher did not end cleanly.
    ThreadsFailed,
    /// The workers stopped while tasks were left in the graph.
    NotDrained,
}

impl RunError {
    pub fn message(&self) -> (r: &'static str)
        ensures
            *self == RunError::DockerNotRunning ==> r@ == "docker is not running"@,
            *self == RunError::ThreadsFailed ==> r@ == "some threads returned an error"@,
            *self == RunError::NotDrained ==> r@ == "tasks were left in the graph"@,
    {
        match self {
            RunError::DockerNotRunning => "docker is not running",
            RunError::ThreadsFailed => "some threads returned an error",
            RunError::NotDrained => "tasks were left in the graph",
        }
    }
}

/// The verdict on a run: refused when docker is not running; failed when a
/// worker or the disk watcher did not end cleanly; otherwise done exactly when
/// the graph has drained, with nothing left in its ready queue.
pub fn run_ex(
    docker_running: bool,
    workers: &Vec<ThreadExit>,
    watcher: ThreadExit,
    graph: &TasksGraph,
) -> (r: Result<(), RunError>)
    requires
        graph.wf(),
    ensures
        !docker_running ==> r == Err::<(), RunError>(RunError::DockerNotRunning),
        docker_running && !(watcher == ThreadExit::Clean && forall|i: int|
            0 <= i < workers@.len() ==> #[trigger] workers@[i] == ThreadExit::Clean) ==> r == Err::<
            (),
            RunError,
        >(RunError::ThreadsFailed),
        docker_running && watcher == ThreadExit::Clean && (forall|i: int|
            0 <= i < workers@.len() ==> #[trigger] workers@[i] == ThreadExit::Clean) ==> r == if graph.ready_queue().len()
            == 0 && graph.drained() {
            Ok::<(), RunError>(())
        } else {
            Err(RunError::NotDrained)
        },
{
    if !docker_running {
        return Err(RunError::DockerNotRunning);
    }
    let clean_exit = join_threads(workers);
    if !(clean_exit && watcher == ThreadExit::Clean) {
        return Err(RunError::ThreadsFailed);
    }
    if graph.ready_count() == 0 && graph.is_drained() {
        Ok(())
    } else {
        Err(RunError::NotDrained)
    }
}

} // verus!
