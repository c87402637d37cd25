use std::sync::mpsc::channel;
use temporal_bun_bridge::{PendingResult, PendingState, RecvOutcome};

#[test]
fn poll_returns_pending_when_not_ready() {
    let (_tx, rx) = channel();
    let mut pending: PendingResult<Vec<u8>> = PendingResult::new(rx);

    assert!(matches!(pending.poll(), PendingState::Pending));
    // A second poll stays pending since no sender ever fulfills it.
    assert!(matches!(pending.poll(), PendingState::Pending));
}

#[test]
fn poll_observes_ready_ok_result() {
    let (tx, rx) = channel();
    let mut pending: PendingResult<Vec<u8>> = PendingResult::new(rx);
    tx.send(Ok(vec![1, 2, 3])).expect("send succeeds");

    assert!(matches!(pending.poll(), PendingState::ReadyOk));
    let value = pending
        .take_result()
        .expect("result present")
        .expect("result ok");
    assert_eq!(value, vec![1, 2, 3]);
    // After take_result the kept result is gone.
    assert!(pending.take_result().is_none());
}

#[test]
fn poll_observes_ready_err_result() {
    let (tx, rx) = channel();
    let mut pending: PendingResult<Vec<u8>> = PendingResult::new(rx);
    tx.send(Err("boom".to_string())).expect("send succeeds");

    match pending.poll() {
        PendingState::ReadyErr(err) => assert_eq!(err, "boom"),
        other => panic!("expected ReadyErr, got {other:?}"),
    }

    let err = pending
        .take_result()
        .expect("result present")
        .expect_err("expected error result");
    assert_eq!(err, "boom");
}

#[test]
fn value_is_taken_once_and_never_again() {
    let (tx, rx) = channel();
    let mut pending: PendingResult<u32> = PendingResult::new(rx);
    tx.send(Ok(7)).expect("send succeeds");
    drop(tx);

    assert!(matches!(pending.poll(), PendingState::ReadyOk));
    assert!(matches!(pending.poll(), PendingState::ReadyOk));
    assert_eq!(pending.take_result(), Some(Ok(7)));
    for _ in 0..3 {
        assert!(matches!(pending.poll(), PendingState::Pending));
        assert_eq!(pending.take_result(), None);
    }
}

#[test]
fn dropped_sender_reports_disconnection() {
    let (tx, rx) = channel::<Result<u32, String>>();
    let mut pending = PendingResult::new(rx);
    assert!(matches!(pending.poll(), PendingState::Pending));
    drop(tx);

    match pending.poll() {
        PendingState::ReadyErr(err) => {
            assert!(err.contains("disconnected"));
            assert_eq!(err, "pending operation channel disconnected");
        }
        other => panic!("expected ReadyErr, got {other:?}"),
    }
    // Still reported until taken.
    assert!(matches!(pending.poll(), PendingState::ReadyErr(_)));
    assert_eq!(
        pending.take_result(),
        Some(Err("pending operation channel disconnected".to_string()))
    );
    assert_eq!(pending.take_result(), None);
}

#[test]
fn take_before_completion_finds_nothing_and_keeps_listening() {
    let (tx, rx) = channel();
    let mut pending: PendingResult<u32> = PendingResult::new(rx);
    assert_eq!(pending.take_result(), None);
    tx.send(Ok(3)).expect("send succeeds");
    assert!(matches!(pending.poll(), PendingState::ReadyOk));
    assert_eq!(pending.take_result(), Some(Ok(3)));
}

#[test]
fn interleaved_operations_keep_their_own_results() {
    let (tx_a, rx_a) = channel();
    let (tx_b, rx_b) = channel();
    let mut a: PendingResult<u32> = PendingResult::new(rx_a);
    let mut b: PendingResult<u32> = PendingResult::new(rx_b);

    tx_a.send(Ok(1)).expect("send succeeds");
    assert!(matches!(b.poll(), PendingState::Pending));
    assert!(matches!(a.poll(), PendingState::ReadyOk));
    assert!(matches!(b.poll(), PendingState::Pending));
    tx_b.send(Err("b failed".to_string())).expect("send succeeds");
    match b.poll() {
        PendingState::ReadyErr(err) => assert_eq!(err, "b failed"),
        other => panic!("expected ReadyErr, got {other:?}"),
    }
    assert!(matches!(a.poll(), PendingState::ReadyOk));
    assert_eq!(b.take_result(), Some(Err("b failed".to_string())));
    assert_eq!(a.take_result(), Some(Ok(1)));
    assert_eq!(a.take_result(), None);
    assert_eq!(b.take_result(), None);
}

#[test]
fn observe_follows_the_outcome_given() {
    let (_tx, rx) = channel();
    let mut pending: PendingResult<u32> = PendingResult::new(rx);
    assert!(matches!(pending.observe(RecvOutcome::Empty), PendingState::Pending));
    assert!(matches!(pending.observe(RecvOutcome::Received(Ok(5))), PendingState::ReadyOk));
    // Once a result is kept, later outcomes are ignored.
    assert!(matches!(pending.observe(RecvOutcome::Disconnected), PendingState::ReadyOk));
    assert_eq!(pending.take_result(), Some(Ok(5)));

    let (_tx2, rx2) = channel();
    let mut gone: PendingResult<u32> = PendingResult::new(rx2);
    match gone.observe(RecvOutcome::Disconnected) {
        PendingState::ReadyErr(err) => assert_eq!(err, "pending operation channel disconnected"),
        other => panic!("expected ReadyErr, got {other:?}"),
    }
}
