use zerobus_ingest::pipeline::{Action, Event, Invocation, InvocationError, ItemStatus, Outcome};

fn drive(inv: &mut Invocation, events: &[Event]) -> Vec<Action> {
    let mut actions = Vec::new();
    for ev in events {
        assert!(inv.accepts(*ev));
        actions.push(inv.step(*ev));
    }
    actions
}

#[test]
fn single_event_success_without_recovery() {
    let mut inv = Invocation::new(1, 1000);
    assert_eq!(inv.pending, Action::Open);
    let actions = drive(
        &mut inv,
        &[Event::Succeeded, Event::Succeeded, Event::Succeeded, Event::Succeeded],
    );
    assert_eq!(
        actions,
        vec![
            Action::Submit(0),
            Action::AwaitAck(0),
            Action::Close,
            Action::Finish(Outcome::Completed),
        ]
    );
    assert_eq!(inv.result(), Some(Ok(())));
    assert_eq!(inv.status, vec![ItemStatus::Acked]);
    assert!(!actions.contains(&Action::FetchUnacked));
}

#[test]
fn open_failure_is_fatal() {
    let mut inv = Invocation::new(3, 10);
    assert_eq!(inv.step(Event::Failed), Action::Finish(Outcome::OpenFailed));
    assert_eq!(inv.result(), Some(Err(InvocationError::StreamOpen)));
    assert_eq!(inv.failed_indices(), vec![0, 1, 2]);
}

#[test]
fn batch_with_third_message_failing_to_encode() {
    let mut inv = Invocation::new(5, 1);
    let mut events = vec![Event::Succeeded];
    for k in 0..5 {
        if k == 2 {
            events.push(Event::Failed);
        } else {
            events.push(Event::Succeeded);
            events.push(Event::Succeeded);
        }
    }
    events.push(Event::Succeeded);
    let actions = drive(&mut inv, &events);
    assert_eq!(actions.last(), Some(&Action::Finish(Outcome::Completed)));
    let ids: Vec<String> = ["m1", "m2", "m3", "m4", "m5"].iter().map(|s| s.to_string()).collect();
    assert_eq!(inv.batch_failures(&ids), vec!["m3".to_string()]);
    assert_eq!(inv.failed_indices(), vec![2]);
}

#[test]
fn close_failure_replays_backlog_and_still_fails() {
    let mut inv = Invocation::new(2, 10);
    let actions = drive(
        &mut inv,
        &[
            Event::Succeeded,  // open
            Event::Succeeded,  // submit 0
            Event::Succeeded,  // submit 1
            Event::Succeeded,  // ack 0
            Event::Succeeded,  // ack 1
            Event::Failed,     // close
            Event::Unacked(2), // backlog of two records
            Event::Succeeded,  // replacement opened
            Event::Succeeded,  // resubmit 0
            Event::Succeeded,  // resubmit 1
            Event::Succeeded,  // replay ack 0
            Event::Succeeded,  // replay ack 1
        ],
    );
    assert_eq!(
        actions[5..].to_vec(),
        vec![
            Action::FetchUnacked,
            Action::OpenReplacement,
            Action::Resubmit(0),
            Action::Resubmit(1),
            Action::AwaitReplayAck(0),
            Action::AwaitReplayAck(1),
            Action::Finish(Outcome::CloseFailed { replayed: 2, lost: 0 }),
        ]
    );
    assert_eq!(inv.result(), Some(Err(InvocationError::Close { replayed: 2, lost: 0 })));
    let ids = vec!["a".to_string(), "b".to_string()];
    assert!(inv.batch_failures(&ids).is_empty());
}

#[test]
fn fetch_failure_is_a_recovery_error() {
    let mut inv = Invocation::new(1, 10);
    let actions = drive(
        &mut inv,
        &[Event::Succeeded, Event::Succeeded, Event::Succeeded, Event::Failed, Event::Failed],
    );
    assert_eq!(actions.last(), Some(&Action::Finish(Outcome::RecoveryFetchFailed)));
    assert_eq!(inv.result(), Some(Err(InvocationError::RecoveryFetch)));
    assert_ne!(inv.result(), Some(Err(InvocationError::Close { replayed: 0, lost: 0 })));
}

#[test]
fn empty_backlog_reports_close_failure_without_replay() {
    let mut inv = Invocation::new(1, 10);
    let actions = drive(
        &mut inv,
        &[Event::Succeeded, Event::Succeeded, Event::Succeeded, Event::Failed, Event::Unacked(0)],
    );
    assert_eq!(actions.last(), Some(&Action::Finish(Outcome::CloseFailed { replayed: 0, lost: 0 })));
    assert_eq!(inv.result(), Some(Err(InvocationError::Close { replayed: 0, lost: 0 })));
}

#[test]
fn replacement_open_failure_is_a_recovery_error() {
    let mut inv = Invocation::new(1, 10);
    drive(
        &mut inv,
        &[Event::Succeeded, Event::Succeeded, Event::Succeeded, Event::Failed, Event::Unacked(1)],
    );
    assert_eq!(inv.step(Event::Failed), Action::Finish(Outcome::RecoveryOpenFailed));
    assert_eq!(inv.result(), Some(Err(InvocationError::RecoveryOpen)));
}

#[test]
fn replay_counts_records_lost_again() {
    let mut inv = Invocation::new(1, 10);
    drive(
        &mut inv,
        &[Event::Succeeded, Event::Succeeded, Event::Succeeded, Event::Failed, Event::Unacked(3)],
    );
    let actions = drive(
        &mut inv,
        &[
            Event::Succeeded, // replacement opened
            Event::Failed,    // resubmit 0 fails
            Event::Succeeded, // resubmit 1
            Event::Succeeded, // resubmit 2
            Event::Failed,    // replay ack 1 fails
            Event::Succeeded, // replay ack 2
        ],
    );
    assert_eq!(actions.last(), Some(&Action::Finish(Outcome::CloseFailed { replayed: 1, lost: 2 })));
}

#[test]
fn inflight_bound_is_respected() {
    let max = 2;
    let mut inv = Invocation::new(6, max);
    let mut action = inv.step(Event::Succeeded);
    let mut outstanding = 0usize;
    let mut peak = 0usize;
    loop {
        match action {
            Action::Submit(_) => outstanding += 1,
            Action::AwaitAck(_) => outstanding -= 1,
            _ => {}
        }
        peak = peak.max(outstanding);
        assert!(inv.inflight.len() <= max);
        if let Action::Finish(_) = action {
            break;
        }
        action = inv.step(Event::Succeeded);
    }
    assert_eq!(peak, max);
    assert_eq!(inv.result(), Some(Ok(())));
}

#[test]
fn acked_items_are_not_reported_when_later_items_fail() {
    let mut inv = Invocation::new(3, 3);
    drive(
        &mut inv,
        &[
            Event::Succeeded, // open
            Event::Succeeded, // submit 0
            Event::Succeeded, // submit 1
            Event::Failed,    // submit 2
            Event::Succeeded, // ack 0
            Event::Failed,    // ack 1
            Event::Failed,    // close
            Event::Failed,    // fetch backlog
        ],
    );
    assert_eq!(inv.status, vec![ItemStatus::Acked, ItemStatus::Failed, ItemStatus::Failed]);
    let ids = vec!["x".to_string(), "y".to_string(), "z".to_string()];
    assert_eq!(inv.batch_failures(&ids), vec!["y".to_string(), "z".to_string()]);
}

#[test]
fn unacked_event_is_rejected_outside_fetch() {
    let inv = Invocation::new(1, 1);
    assert!(!inv.accepts(Event::Unacked(1)));
    assert!(inv.accepts(Event::Succeeded));
}

#[test]
fn empty_batch_closes_at_once() {
    let mut inv = Invocation::new(0, 4);
    assert_eq!(inv.step(Event::Succeeded), Action::Close);
    assert_eq!(inv.step(Event::Succeeded), Action::Finish(Outcome::Completed));
    assert!(inv.batch_failures(&Vec::new()).is_empty());
}

#[test]
fn deadline_abandons_session_and_fails() {
    let mut inv = Invocation::new(3, 10);
    drive(&mut inv, &[Event::Succeeded, Event::Succeeded, Event::Succeeded]);
    inv.step(Event::Succeeded);
    assert_eq!(inv.pending, Action::AwaitAck(0));
    assert!(zerobus_ingest::pipeline::deadline_reached(2_000, 2_000));
    assert!(!zerobus_ingest::pipeline::deadline_reached(1_999, 2_000));
    inv.abandon();
    assert_eq!(inv.pending, Action::Finish(Outcome::Abandoned));
    assert_eq!(inv.result(), Some(Err(InvocationError::DeadlineExceeded)));
    let ids = vec!["a".to_string(), "b".to_string(), "c".to_string()];
    assert_eq!(inv.batch_failures(&ids), ids);
}

#[test]
fn abandon_keeps_a_finished_result() {
    let mut inv = Invocation::new(0, 1);
    drive(&mut inv, &[Event::Succeeded, Event::Succeeded]);
    inv.abandon();
    assert_eq!(inv.result(), Some(Ok(())));
}
