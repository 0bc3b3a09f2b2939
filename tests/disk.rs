use crater::reports::{after_render_failure, ReportStep};
use crater::disk::{should_purge, PurgeGate};
use crater::graph::{Decision, Mode, Outcome, TasksGraph};
use crater::results::TestResult;

#[test]
fn purge_threshold() {
    assert!(should_purge(10, 100, 10));
    assert!(should_purge(9, 100, 10));
    assert!(!should_purge(11, 100, 10));
    assert!(should_purge(u64::MAX / 10, u64::MAX, 10));
    assert!(!should_purge(1, 100, 0));
}

#[test]
fn disk_space_trip() {
    let mut gate = PurgeGate::new();
    assert!(gate.begin_task());
    assert!(gate.begin_task());
    gate.request();
    // running tasks end; nobody starts a new one meanwhile
    assert!(!gate.begin_task());
    assert!(!gate.try_start_purge());
    gate.end_task();
    assert!(!gate.try_start_purge());
    gate.end_task();
    assert!(gate.try_start_purge());
    assert!(!gate.begin_task());
    assert!(!gate.try_start_purge());
    gate.finish_purge();
    // every worker makes progress again
    for _ in 0..4 {
        assert!(gate.begin_task());
    }
}

#[test]
fn pending_crates_count_follows_progress() {
    let mut g = TasksGraph::build_graph(&vec![1, 2], &vec![3], Mode::BuildAndTest);
    assert_eq!(g.pending_crates_count(), 2);
    assert_eq!(g.next_task(), Decision::Task(0));
    g.mark_complete(0, Outcome::Failed(TestResult::Error));
    assert_eq!(g.pending_crates_count(), 1);
    assert_eq!(g.next_task(), Decision::Task(2));
    g.mark_complete(2, Outcome::Done(TestResult::TestPass));
    assert_eq!(g.pending_crates_count(), 1);
    assert_eq!(g.next_task(), Decision::Task(3));
    g.mark_complete(3, Outcome::Done(TestResult::TestFail));
    assert_eq!(g.pending_crates_count(), 0);
    assert_eq!(g.next_task(), Decision::Finished);
}

#[test]
fn report_retries_back_off_then_give_up() {
    assert_eq!(after_render_failure(0, 3, 30), ReportStep::Retry { delay_secs: 30 });
    assert_eq!(after_render_failure(1, 3, 30), ReportStep::Retry { delay_secs: 60 });
    assert_eq!(after_render_failure(2, 3, 30), ReportStep::GiveUp);
    assert_eq!(after_render_failure(0, 0, 30), ReportStep::GiveUp);
    assert_eq!(after_render_failure(70, 100, 1), ReportStep::Retry { delay_secs: u64::MAX });
    assert_eq!(after_render_failure(63, 100, 1), ReportStep::Retry { delay_secs: 1 << 63 });
}
