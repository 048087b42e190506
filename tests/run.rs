use pair_anonymizer::run::{Action, BatchRun, FileState, Phase};

#[test]
fn empty_batch_is_finished_at_once() {
    let run = BatchRun::new(0);
    assert_eq!(run.next_action(), None);
    assert!(run.is_finished());
}

#[test]
fn every_file_is_staged_before_any_commit() {
    let mut run = BatchRun::new(3);
    let mut seen = Vec::new();
    while let Some(a) = run.next_action() {
        seen.push(a);
        run.record(a.index, true);
    }
    assert_eq!(
        seen,
        vec![
            Action { index: 0, phase: Phase::Stage },
            Action { index: 1, phase: Phase::Stage },
            Action { index: 2, phase: Phase::Stage },
            Action { index: 0, phase: Phase::Commit },
            Action { index: 1, phase: Phase::Commit },
            Action { index: 2, phase: Phase::Commit },
        ]
    );
    assert!(run.is_finished());
    for i in 0..3 {
        assert_eq!(run.state(i), FileState::Committed);
    }
}

#[test]
fn a_collision_fails_one_file_only() {
    let mut run = BatchRun::new(3);
    let mut renames = 0;
    while let Some(a) = run.next_action() {
        let ok = !(a.index == 1 && a.phase == Phase::Stage);
        if ok {
            renames += 1;
        }
        run.record(a.index, ok);
    }
    assert_eq!(run.state(0), FileState::Committed);
    assert_eq!(run.state(1), FileState::Failed);
    assert_eq!(run.state(2), FileState::Committed);
    assert_eq!(renames, 4);
    assert_eq!(run.len(), 3);
}

#[test]
fn a_failed_commit_leaves_the_others() {
    let mut run = BatchRun::new(2);
    run.record(0, true);
    run.record(1, true);
    assert_eq!(run.next_action(), Some(Action { index: 0, phase: Phase::Commit }));
    run.record(0, false);
    assert_eq!(run.state(0), FileState::Failed);
    assert_eq!(run.next_action(), Some(Action { index: 1, phase: Phase::Commit }));
    run.record(1, true);
    assert!(run.is_finished());
}
