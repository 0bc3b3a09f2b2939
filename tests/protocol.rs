use crater::agent::{complete_experiment, get_next_experiment, save_result, AgentError, TaskResult};
use crater::experiments::{Experiments, Status};
use crater::results::{ResultKey, ResultStore, StoreError, TestResult};

fn result(krate: u64, toolchain: u64, r: TestResult) -> TaskResult {
    TaskResult { krate, toolchain, result: r, log: vec![b'o', b'k'] }
}

#[test]
fn store_round_trip_and_idempotence() {
    let mut s = ResultStore::new();
    let k = ResultKey { ex: 1, krate: 2, toolchain: 3 };
    assert!(!s.has(&k));
    assert_eq!(s.get(&k), None);
    assert_eq!(s.put(k, TestResult::TestFail, vec![1]), Ok(()));
    assert_eq!(s.get(&k), Some(TestResult::TestFail));
    assert_eq!(s.put(k, TestResult::TestFail, vec![2]), Ok(()));
    assert_eq!(s.get_log(&k), Some(&vec![1]));
    assert_eq!(
        s.put(k, TestResult::TestPass, vec![]),
        Err(StoreError::Conflict { stored: TestResult::TestFail, offered: TestResult::TestPass })
    );
    assert_eq!(s.get(&k), Some(TestResult::TestFail));
}

#[test]
fn idempotent_result() {
    let mut ex = Experiments::new();
    ex.create(40, 400);
    let mut store = ResultStore::new();
    assert!(get_next_experiment(&mut ex, 1).unwrap().notify);
    assert_eq!(save_result(&ex, &mut store, 1, result(5, 6, TestResult::TestPass)), Ok(()));
    assert_eq!(save_result(&ex, &mut store, 1, result(5, 6, TestResult::TestPass)), Ok(()));
    let k = ResultKey { ex: 40, krate: 5, toolchain: 6 };
    assert_eq!(store.get(&k), Some(TestResult::TestPass));
    assert_eq!(store.get_log(&k), Some(&vec![b'o', b'k']));
    assert_eq!(
        save_result(&ex, &mut store, 1, result(5, 6, TestResult::BuildFail)),
        Err(AgentError::Store(StoreError::Conflict { stored: TestResult::TestPass, offered: TestResult::BuildFail }))
    );
}

#[test]
fn next_experiment_ownership() {
    let mut ex = Experiments::new();
    ex.create(40, 400);
    let a = get_next_experiment(&mut ex, 1).unwrap();
    assert!(a.notify);
    assert_eq!(a.experiment.name, 40);
    assert_eq!(a.experiment.status, Status::Running(1));
    assert_eq!(get_next_experiment(&mut ex, 2), None);
    let again = get_next_experiment(&mut ex, 1).unwrap();
    assert!(!again.notify);
    assert_eq!(again.experiment.name, 40);
}

#[test]
fn oldest_queued_goes_first() {
    let mut ex = Experiments::new();
    ex.create(1, 10);
    ex.create(2, 20);
    assert_eq!(get_next_experiment(&mut ex, 7).unwrap().experiment.name, 1);
    assert_eq!(get_next_experiment(&mut ex, 8).unwrap().experiment.name, 2);
    assert_eq!(ex.run_by_agent(8), Some(1));
    assert_eq!(ex.get(0).status, Status::Running(7));
}

#[test]
fn result_without_experiment_is_refused() {
    let ex = Experiments::new();
    let mut store = ResultStore::new();
    assert_eq!(save_result(&ex, &mut store, 3, result(1, 1, TestResult::TestPass)), Err(AgentError::NoExperiment));
    assert!(!store.has(&ResultKey { ex: 0, krate: 1, toolchain: 1 }));
}

#[test]
fn restart_after_recording_resends_results() {
    let mut ex = Experiments::new();
    ex.create(5, 50);
    let mut store = ResultStore::new();
    get_next_experiment(&mut ex, 2);
    assert_eq!(save_result(&ex, &mut store, 2, result(1, 1, TestResult::TestSkipped)), Ok(()));
    // the agent restarts and finds its experiment still running
    let resumed = get_next_experiment(&mut ex, 2).unwrap();
    assert!(!resumed.notify);
    assert_eq!(save_result(&ex, &mut store, 2, result(1, 1, TestResult::TestSkipped)), Ok(()));
    assert_eq!(store.get(&ResultKey { ex: 5, krate: 1, toolchain: 1 }), Some(TestResult::TestSkipped));
    let done = complete_experiment(&mut ex, 2).unwrap();
    assert_eq!(done.status, Status::Completed);
    assert_eq!(done.github_issue, 50);
    assert_eq!(complete_experiment(&mut ex, 2), Err(AgentError::NoExperiment));
    assert_eq!(ex.get(0).status, Status::Completed);
}
