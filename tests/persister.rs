use iggy_core::persister::{PersisterAction, PersisterState};

#[test]
fn successful_write_advances_log_size() {
    let mut state = PersisterState::new(100);
    assert_eq!(state.after_write(true, 50, 3), PersisterAction::Done);
    assert_eq!(state.log_size_bytes, 150);
    assert_eq!(state.attempts, 0);
}

#[test]
fn failed_writes_are_retried_then_dropped() {
    let mut state = PersisterState::new(0);
    assert_eq!(state.after_write(false, 10, 2), PersisterAction::Retry);
    assert_eq!(state.after_write(false, 10, 2), PersisterAction::Retry);
    assert_eq!(state.after_write(false, 10, 2), PersisterAction::Drop);
    assert_eq!(state.dropped_batches, 1);
    assert_eq!(state.log_size_bytes, 0);
    assert_eq!(state.attempts, 0);
    assert_eq!(state.after_write(true, 10, 2), PersisterAction::Done);
    assert_eq!(state.log_size_bytes, 10);
}

#[test]
fn log_size_saturates() {
    let mut state = PersisterState::new(u64::MAX - 1);
    state.after_write(true, 10, 0);
    assert_eq!(state.log_size_bytes, u64::MAX);
}
