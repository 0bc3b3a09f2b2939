use crater::graph::{Decision, Mode, Outcome, TaskKind, TaskState, TasksGraph};
use crater::results::{OverrideResult, ResultKey, ResultStore, StoreError, TestResult};
use crater::runner::{record_task, run_ex, RunError, RunnerState, TaskReturn, ThreadExit};

/// Runs every task of the graph on one worker, with `sandbox` deciding how
/// each returns; gives the order in which tasks ran.
fn drain(
    graph: &mut TasksGraph,
    store: &mut ResultStore,
    state: &mut RunnerState,
    ex: u64,
    sandbox: &dyn Fn(TaskKind, u64, u64) -> TaskReturn,
) -> Vec<usize> {
    let mut order = Vec::new();
    loop {
        match graph.next_task() {
            Decision::Task(t) => {
                let task = graph.task(t);
                order.push(t);
                let ret = sandbox(task.kind, task.krate, task.toolchain);
                record_task(graph, store, state, ex, t, ret, vec![1, 2, 3]).unwrap();
            }
            Decision::Blocked => panic!("a single worker is never blocked"),
            Decision::Finished => return order,
        }
    }
}

fn all_pass(_: TaskKind, _: u64, _: u64) -> TaskReturn {
    TaskReturn::Finished(TestResult::TestPass)
}

fn key(ex: u64, krate: u64, toolchain: u64) -> ResultKey {
    ResultKey { ex, krate, toolchain }
}

#[test]
fn single_package_two_toolchains_build_only() {
    let mut g = TasksGraph::build_graph(&vec![10], &vec![1, 2], Mode::BuildOnly);
    assert_eq!(g.len(), 4);
    assert_eq!(g.task(0).kind, TaskKind::Prepare);
    assert_eq!(g.task(1).kind, TaskKind::BuildOnly);
    assert_eq!(g.task(2).kind, TaskKind::BuildOnly);
    assert_eq!(g.task(3).kind, TaskKind::Root);
    let mut store = ResultStore::new();
    let mut state = RunnerState::new();
    let order = drain(&mut g, &mut store, &mut state, 7, &all_pass);
    assert_eq!(order, vec![0, 1, 2]);
    assert_eq!(store.get(&key(7, 10, 1)), Some(TestResult::TestPass));
    assert_eq!(store.get(&key(7, 10, 2)), Some(TestResult::TestPass));
    assert!(!store.has(&key(7, 10, 0)));
    assert_eq!(g.task(3).state, TaskState::Ready);
}

#[test]
fn prepare_failure_cascades_as_skips() {
    let mut g = TasksGraph::build_graph(&vec![1, 2], &vec![5], Mode::BuildAndTest);
    let mut store = ResultStore::new();
    let mut state = RunnerState::new();
    let sandbox = |kind: TaskKind, krate: u64, _tc: u64| {
        if kind == TaskKind::Prepare && krate == 1 {
            TaskReturn::Failed(TestResult::Error)
        } else if kind == TaskKind::BuildAndTest && krate == 1 {
            panic!("the sandbox must not run a task of a package that failed to prepare")
        } else {
            TaskReturn::Finished(TestResult::TestPass)
        }
    };
    let order = drain(&mut g, &mut store, &mut state, 3, &sandbox);
    assert_eq!(order, vec![0, 2, 3]);
    assert_eq!(store.get(&key(3, 1, 5)), Some(TestResult::PrepareFailed));
    assert_eq!(store.get_log(&key(3, 1, 5)), Some(&vec![1, 2, 3]));
    assert_eq!(store.get(&key(3, 2, 5)), Some(TestResult::TestPass));
    assert_eq!(g.task(1).state, TaskState::Failed(TestResult::PrepareFailed));
}

#[test]
fn empty_package_set_finishes_at_once() {
    let mut g = TasksGraph::build_graph(&vec![], &vec![1, 2, 3], Mode::BuildAndTest);
    assert_eq!(g.len(), 1);
    assert!(g.is_drained());
    assert_eq!(run_ex(true, &vec![ThreadExit::Clean; 4], ThreadExit::Clean, &g), Ok(()));
    assert_eq!(g.next_task(), Decision::Finished);
}

#[test]
fn one_worker_is_deterministic() {
    let run = || {
        let mut g = TasksGraph::build_graph(&vec![4, 5, 6], &vec![1, 2], Mode::BuildAndTest);
        let mut store = ResultStore::new();
        let mut state = RunnerState::new();
        drain(&mut g, &mut store, &mut state, 1, &all_pass)
    };
    let first = run();
    assert_eq!(first, vec![0, 3, 6, 1, 2, 4, 5, 7, 8]);
    assert_eq!(first, run());
}

#[test]
fn drain_counts_every_pair_once() {
    let crates: Vec<u64> = (0..10).collect();
    let tcs = vec![100, 200];
    let mut g = TasksGraph::build_graph(&crates, &tcs, Mode::BuildAndTest);
    assert_eq!(g.len(), 10 * 2 + 10 + 1);
    let mut store = ResultStore::new();
    let mut state = RunnerState::new();
    let order = drain(&mut g, &mut store, &mut state, 9, &all_pass);
    assert_eq!(order.len(), 10 * 2 + 10);
    for c in &crates {
        for t in &tcs {
            assert_eq!(store.get(&key(9, *c, *t)), Some(TestResult::TestPass));
        }
    }
}

#[test]
fn blocked_while_preparation_runs() {
    let mut g = TasksGraph::build_graph(&vec![1], &vec![1], Mode::Clippy);
    assert_eq!(g.task(1).kind, TaskKind::Lint);
    assert_eq!(g.next_task(), Decision::Task(0));
    assert_eq!(g.next_task(), Decision::Blocked);
    g.mark_complete(0, Outcome::Done(TestResult::TestPass));
    assert_eq!(g.ready_count(), 1);
    assert_eq!(g.next_task(), Decision::Task(1));
    assert_eq!(g.task(1).state, TaskState::Running);
    g.mark_complete(1, Outcome::Failed(TestResult::BuildFail));
    assert_eq!(g.task(1).state, TaskState::Failed(TestResult::BuildFail));
    assert_eq!(g.next_task(), Decision::Finished);
}

#[test]
fn overridden_result_is_recorded_as_done() {
    let mut g = TasksGraph::build_graph(&vec![1], &vec![2], Mode::BuildAndTest);
    let mut store = ResultStore::new();
    let mut state = RunnerState::new();
    let sandbox = |kind: TaskKind, _: u64, _: u64| {
        if kind == TaskKind::Prepare {
            TaskReturn::Finished(TestResult::TestPass)
        } else {
            TaskReturn::Overridden(OverrideResult(TestResult::CompileError))
        }
    };
    drain(&mut g, &mut store, &mut state, 4, &sandbox);
    assert_eq!(store.get(&key(4, 1, 2)), Some(TestResult::CompileError));
    assert_eq!(g.task(1).state, TaskState::Done(TestResult::CompileError));
}

#[test]
fn prepare_log_is_kept_for_the_package() {
    let mut g = TasksGraph::build_graph(&vec![8], &vec![2], Mode::BuildAndTest);
    let mut store = ResultStore::new();
    let mut state = RunnerState::new();
    assert_eq!(g.next_task(), Decision::Task(0));
    let wake = record_task(&mut g, &mut store, &mut state, 1, 0, TaskReturn::Finished(TestResult::TestPass), vec![9]).unwrap();
    assert!(wake);
    assert_eq!(state.lock().prepare_logs.get(&8), Some(&vec![9]));
    assert_eq!(g.next_task(), Decision::Task(1));
    let wake = record_task(&mut g, &mut store, &mut state, 1, 1, TaskReturn::Failed(TestResult::BuildFail), vec![]).unwrap();
    assert!(!wake);
    assert_eq!(state.lock().prepare_logs.get(&8), None);
    assert_eq!(store.get(&key(1, 8, 2)), Some(TestResult::BuildFail));
}

#[test]
fn prepare_failure_conflicting_with_stored_result() {
    let mut g = TasksGraph::build_graph(&vec![8], &vec![2], Mode::BuildAndTest);
    let mut store = ResultStore::new();
    store.put(key(1, 8, 2), TestResult::TestPass, vec![]).unwrap();
    let mut state = RunnerState::new();
    assert_eq!(g.next_task(), Decision::Task(0));
    let r = record_task(&mut g, &mut store, &mut state, 1, 0, TaskReturn::Failed(TestResult::Error), vec![]);
    assert_eq!(
        r,
        Err(StoreError::Conflict { stored: TestResult::TestPass, offered: TestResult::PrepareFailed })
    );
    assert_eq!(store.get(&key(1, 8, 2)), Some(TestResult::TestPass));
}

#[test]
fn panicking_worker_fails_the_run() {
    let mut g = TasksGraph::build_graph(&vec![1], &vec![2], Mode::BuildOnly);
    let mut store = ResultStore::new();
    let mut state = RunnerState::new();
    drain(&mut g, &mut store, &mut state, 1, &all_pass);
    let workers = vec![ThreadExit::Panicked, ThreadExit::Clean, ThreadExit::Clean, ThreadExit::Clean];
    let r = run_ex(true, &workers, ThreadExit::Clean, &g);
    assert_eq!(r, Err(RunError::ThreadsFailed));
    assert_eq!(r.unwrap_err().message(), "some threads returned an error");
    let clean = vec![ThreadExit::Clean; 4];
    assert_eq!(run_ex(true, &clean, ThreadExit::Clean, &g), Ok(()));
}

#[test]
fn run_refused_without_docker() {
    let g = TasksGraph::build_graph(&vec![], &vec![], Mode::BuildOnly);
    let r = run_ex(false, &vec![], ThreadExit::Clean, &g);
    assert_eq!(r, Err(RunError::DockerNotRunning));
    assert_eq!(r.unwrap_err().message(), "docker is not running");
}

#[test]
fn run_not_drained() {
    let g = TasksGraph::build_graph(&vec![1], &vec![], Mode::BuildOnly);
    let r = run_ex(true, &vec![ThreadExit::Clean], ThreadExit::Failed, &g);
    assert_eq!(r, Err(RunError::ThreadsFailed));
    let r = run_ex(true, &vec![ThreadExit::Clean], ThreadExit::Clean, &g);
    assert_eq!(r, Err(RunError::NotDrained));
    assert_eq!(r.unwrap_err().message(), "tasks were left in the graph");
}

#[test]
fn dot_of_a_small_graph() {
    let mut g = TasksGraph::build_graph(&vec![4], &vec![1], Mode::BuildOnly);
    let dot = String::from_utf8(g.generate_dot()).unwrap();
    assert_eq!(
        dot,
        "digraph {\n0 [label=\"prepare(4)\"];\n0 -> 2;\n1 [label=\"build-only(4, 1)\"];\n0 -> 1;\n1 -> 2;\n2 [label=\"root\"];\n}\n"
    );
    assert_eq!(g.next_task(), Decision::Task(0));
    g.mark_complete(0, Outcome::Failed(TestResult::Error));
    let dot = String::from_utf8(g.generate_dot()).unwrap();
    assert!(dot.contains("1 [label=\"build-only(4, 1)\", style=dashed];\n"));
}

#[test]
fn dot_numbers_past_nine() {
    let crates: Vec<u64> = (0..6).collect();
    let g = TasksGraph::build_graph(&crates, &vec![1234], Mode::BuildAndTest);
    let dot = String::from_utf8(g.generate_dot()).unwrap();
    assert!(dot.contains("10 -> 11;\n11 -> 12;\n12 [label=\"root\"];\n"));
    assert!(dot.contains("11 [label=\"build-and-test(5, 1234)\"];\n"));
}
