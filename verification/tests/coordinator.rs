use cascading_extract::coordinator::Coordinator;
use cascading_extract::search::SearchResult;

#[test]
fn test_zero_ceiling_rejected_before_any_task() {
    assert!(Coordinator::new(3, 1, 0).is_err());
}

#[test]
fn test_admission_stops_at_ceiling() {
    let mut run = Coordinator::new(3, 1, 2).unwrap();
    assert_eq!(run.slots_in_use(), 0);
    assert_eq!(run.try_admit(), Some(0));
    assert_eq!(run.try_admit(), Some(1));
    assert_eq!(run.slots_in_use(), 2);
    // The ceiling is reached: the third candidate has to wait.
    assert_eq!(run.try_admit(), None);
}

// Candidates "a", "b", "c", one target openable by "b", ceiling 2: the run
// ends in a success for the second candidate, and the third candidate's
// task stops before any decode attempt once cancellation is observed.
#[test]
fn test_full_run_finds_middle_candidate() {
    let outcomes = [[false], [true], [false]];
    let mut run = Coordinator::new(3, 1, 2).unwrap();

    let first = run.try_admit().unwrap();
    let second = run.try_admit().unwrap();
    assert_eq!((first, second), (0, 1));
    assert_eq!(run.try_admit(), None);

    // Task 0 attempts its only target and fails, then finishes.
    let target = run.begin_attempt(first).unwrap();
    assert!(!outcomes[first][target]);
    assert_eq!(run.begin_attempt(first), None);
    assert_eq!(run.slots_in_use(), 1);

    // The freed slot admits task 2.
    let third = run.try_admit().unwrap();
    assert_eq!(third, 2);

    // Task 1 attempts its target and succeeds.
    let target = run.begin_attempt(second).unwrap();
    assert!(outcomes[second][target]);
    run.report_success(second, target);
    assert!(run.is_cancelled());

    // No further admission, and task 2 aborts before a decode attempt.
    assert_eq!(run.try_admit(), None);
    assert_eq!(run.begin_attempt(third), None);

    assert!(run.all_tasks_finished());
    assert_eq!(run.slots_in_use(), 0);
    assert_eq!(run.conclude(), SearchResult::Found { candidate: 1, target: 0 });
}

// Both targets open with the first candidate, ceiling 1: the single admitted
// task reports the first target and the second candidate never runs.
#[test]
fn test_single_slot_reports_first_target() {
    let mut run = Coordinator::new(2, 2, 1).unwrap();
    let only = run.try_admit().unwrap();
    assert_eq!(only, 0);
    assert_eq!(run.try_admit(), None);

    let target = run.begin_attempt(only).unwrap();
    assert_eq!(target, 0);
    run.report_success(only, target);

    assert_eq!(run.try_admit(), None);
    assert_eq!(run.conclude(), SearchResult::Found { candidate: 0, target: 0 });
}

#[test]
fn test_late_duplicate_report_is_ignored() {
    let mut run = Coordinator::new(2, 1, 2).unwrap();
    let first = run.try_admit().unwrap();
    let second = run.try_admit().unwrap();

    let t1 = run.begin_attempt(first).unwrap();
    let t2 = run.begin_attempt(second).unwrap();
    run.report_success(first, t1);
    // The other task also succeeded in the same window; its report arrives
    // late and is discarded.
    run.report_success(second, t2);

    assert!(run.all_tasks_finished());
    assert_eq!(run.conclude(), SearchResult::Found { candidate: 0, target: 0 });
}

#[test]
fn test_exhaustion_concludes_not_found() {
    let mut run = Coordinator::new(2, 2, 2).unwrap();
    let first = run.try_admit().unwrap();
    let second = run.try_admit().unwrap();

    // Every attempt fails; both tasks walk their targets in order.
    assert_eq!(run.begin_attempt(first), Some(0));
    assert_eq!(run.begin_attempt(first), Some(1));
    assert_eq!(run.begin_attempt(first), None);
    assert_eq!(run.begin_attempt(second), Some(0));
    assert_eq!(run.begin_attempt(second), Some(1));
    assert!(!run.all_tasks_finished());
    assert_eq!(run.begin_attempt(second), None);

    assert!(run.all_tasks_finished());
    assert!(!run.is_cancelled());
    assert_eq!(run.slots_in_use(), 0);
    assert_eq!(run.conclude(), SearchResult::NotFound);
}

#[test]
fn test_no_candidates_concludes_not_found() {
    let mut run = Coordinator::new(0, 3, 2).unwrap();
    assert_eq!(run.try_admit(), None);
    assert!(run.all_tasks_finished());
    assert_eq!(run.conclude(), SearchResult::NotFound);
}
