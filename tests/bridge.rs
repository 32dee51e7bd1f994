use unico::bridge::{BridgeTask, DropAction, Outcome, TaskState};

#[test]
fn drop_mid_wait_unwinds_and_releases_once() {
    let mut t = BridgeTask::new();
    t.resumed(Outcome::Waits);
    assert_eq!(t.state_of(), TaskState::Waiting);
    assert_eq!(t.cancel(), DropAction::UnwindAndRelease);
    assert_eq!((t.cleanup_count(), t.release_count()), (1, 1));
    assert_eq!(t.cancel(), DropAction::Nothing);
    assert_eq!((t.cleanup_count(), t.release_count()), (1, 1));
}

#[test]
fn completed_task_has_nothing_left_on_drop() {
    let mut t = BridgeTask::new();
    t.resumed(Outcome::Waits);
    t.resumed(Outcome::Waits);
    t.resumed(Outcome::Returns);
    assert_eq!(t.state_of(), TaskState::Completed);
    assert_eq!((t.cleanup_count(), t.release_count()), (1, 1));
    assert_eq!(t.cancel(), DropAction::Nothing);
    assert_eq!((t.cleanup_count(), t.release_count()), (1, 1));
}

#[test]
fn unpolled_task_only_drops_its_closure() {
    let mut t = BridgeTask::new();
    assert_eq!(t.cancel(), DropAction::DropClosure);
    assert_eq!(t.state_of(), TaskState::Cancelled);
    assert_eq!((t.cleanup_count(), t.release_count()), (1, 0));
}

#[test]
fn drops_at_every_point_clean_up_exactly_once() {
    // Drop after each possible number of waits, over many trials.
    for waits in 0..50u32 {
        let mut t = BridgeTask::new();
        for _ in 0..waits {
            t.resumed(Outcome::Waits);
        }
        let action = t.cancel();
        let expected = if waits == 0 { DropAction::DropClosure } else { DropAction::UnwindAndRelease };
        assert_eq!(action, expected);
        assert_eq!(t.cleanup_count(), 1);
        assert_eq!(t.release_count(), if waits == 0 { 0 } else { 1 });
        t.cancel();
        assert_eq!(t.cleanup_count(), 1);
    }
}
