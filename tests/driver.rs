use tofnd::driver::{AbortCause, Action, DriverKind, EngineStatus, Phase, RoundDriver};

#[test]
fn round_timeout_names_round_and_missing_sender() {
    let mut d = RoundDriver::new(DriverKind::Keygen, 1, 4, 1, 2);
    let mut sibling = RoundDriver::new(DriverKind::Keygen, 2, 4, 1, 2);
    assert_eq!(d.start(), Action::ProduceOutgoing);
    assert_eq!(sibling.start(), Action::ProduceOutgoing);
    for from in [0, 2, 3] {
        assert_eq!(d.on_message(1, from), Action::Consume);
    }
    assert!(d.round_complete());
    assert_eq!(d.on_status(EngineStatus::InProgress).ok(), Some(Action::ProduceOutgoing));
    assert_eq!(d.round(), 2);
    assert_eq!(d.on_message(2, 0), Action::Consume);
    assert_eq!(d.on_message(2, 2), Action::Consume);
    assert!(!d.round_complete());
    let a = d.on_timeout().unwrap();
    assert_eq!(a.cause, AbortCause::Timeout);
    assert_eq!(a.round, 2);
    assert_eq!(a.missing, vec![3]);
    assert_eq!(d.phase(), Phase::Aborted);
    assert_eq!(sibling.phase(), Phase::RoundActive);
    assert_eq!(sibling.round(), 1);
    assert!(d.on_timeout().is_none());
}

#[test]
fn timeout_lists_all_missing_senders_in_order() {
    let mut d = RoundDriver::new(DriverKind::Sign, 0, 5, 0, 1);
    d.start();
    d.on_message(1, 3);
    let a = d.on_timeout().unwrap();
    assert_eq!(a.missing, vec![1, 2, 4]);
    assert_eq!(a.round, 1);
}

#[test]
fn messages_of_later_rounds_count_for_those_rounds() {
    let mut d = RoundDriver::new(DriverKind::Sign, 0, 3, 0, 1);
    assert_eq!(d.on_message(1, 1), Action::Ignore);
    d.start();
    // sender 1 is quick: its round 1 and round 2 messages come before sender 2's round 1
    assert_eq!(d.on_message(1, 1), Action::Consume);
    assert_eq!(d.on_message(2, 1), Action::Consume);
    assert!(!d.round_complete());
    assert_eq!(d.on_message(1, 0), Action::Ignore);
    assert_eq!(d.on_message(1, 3), Action::Ignore);
    assert_eq!(d.on_status(EngineStatus::InProgress).ok(), Some(Action::Ignore));
    assert_eq!(d.on_message(1, 2), Action::Consume);
    assert!(d.round_complete());
    assert_eq!(d.on_status(EngineStatus::InProgress).ok(), Some(Action::ProduceOutgoing));
    assert_eq!(d.round(), 2);
    assert!(!d.round_complete());
    assert_eq!(d.missing_senders(), vec![2]);
    assert_eq!(d.on_message(2, 2), Action::Consume);
    assert!(d.round_complete());
}

#[test]
fn repeated_message_of_an_old_round_changes_nothing() {
    let mut d = RoundDriver::new(DriverKind::Sign, 0, 2, 0, 1);
    d.start();
    d.on_message(2, 1);
    d.on_message(1, 1);
    assert_eq!(d.on_status(EngineStatus::InProgress).ok(), Some(Action::ProduceOutgoing));
    assert!(d.round_complete());
}

#[test]
fn keygen_completes_only_after_persisting() {
    let mut d = RoundDriver::new(DriverKind::Keygen, 0, 2, 0, 1);
    d.start();
    d.on_message(1, 1);
    assert_eq!(d.on_status(EngineStatus::Done).ok(), Some(Action::ExtractResult));
    assert_eq!(d.phase(), Phase::Persisting);
    assert!(d.on_persisted(true).is_none());
    assert_eq!(d.phase(), Phase::Completed);
}

#[test]
fn failed_persisting_aborts() {
    let mut d = RoundDriver::new(DriverKind::Keygen, 0, 2, 0, 1);
    d.start();
    d.on_message(1, 1);
    d.on_status(EngineStatus::Done).ok();
    let a = d.on_persisted(false).unwrap();
    assert_eq!(a.cause, AbortCause::StoreFailed);
    assert_eq!(a.missing, Vec::<usize>::new());
    assert_eq!(d.phase(), Phase::Aborted);
}

#[test]
fn signing_completes_without_persisting() {
    let mut d = RoundDriver::new(DriverKind::Sign, 1, 2, 1, 1);
    d.start();
    d.on_message(1, 0);
    assert_eq!(d.on_status(EngineStatus::Done).ok(), Some(Action::ExtractResult));
    assert_eq!(d.phase(), Phase::Completed);
    assert!(d.on_persisted(true).is_none());
}

#[test]
fn engine_fault_ends_in_faulted() {
    let mut d = RoundDriver::new(DriverKind::Sign, 1, 3, 1, 1);
    d.start();
    d.on_message(1, 0);
    d.on_message(1, 2);
    assert_eq!(d.on_status(EngineStatus::Faulted).ok(), Some(Action::ExtractFaults));
    assert_eq!(d.phase(), Phase::Faulted);
}

#[test]
fn single_share_session_needs_no_messages() {
    let mut d = RoundDriver::new(DriverKind::Sign, 0, 1, 0, 1);
    d.start();
    assert!(d.round_complete());
    assert_eq!(d.on_status(EngineStatus::Done).ok(), Some(Action::ExtractResult));
}

#[test]
fn stream_closure_aborts_a_round_waiting_for_a_remote_share() {
    // shares 0 and 1 local, 2 remote
    let mut d = RoundDriver::new(DriverKind::Sign, 0, 3, 0, 2);
    d.start();
    d.on_message(1, 1);
    let a = d.on_stream_closed().unwrap();
    assert_eq!(a.cause, AbortCause::StreamClosed);
    assert_eq!(a.missing, vec![2]);
    let mut e = RoundDriver::new(DriverKind::Sign, 0, 2, 0, 1);
    e.start();
    e.on_message(1, 1);
    assert!(e.on_stream_closed().is_none());
    assert_eq!(e.phase(), Phase::RoundActive);
}

#[test]
fn stream_closure_spares_a_round_waiting_only_for_local_shares() {
    let mut d = RoundDriver::new(DriverKind::Sign, 0, 3, 0, 2);
    d.start();
    d.on_message(1, 2);
    assert!(d.on_stream_closed().is_none());
    assert_eq!(d.phase(), Phase::RoundActive);
    d.on_message(1, 1);
    assert!(d.round_complete());
}

#[test]
fn single_share_rounds_advance_without_messages() {
    let mut d = RoundDriver::new(DriverKind::Sign, 0, 1, 0, 1);
    d.start();
    let mut n = 0;
    while d.round() < 5 {
        assert_eq!(d.on_status(EngineStatus::InProgress).ok(), Some(Action::ProduceOutgoing));
        n += 1;
    }
    assert_eq!(n, 4);
}
