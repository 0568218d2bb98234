use longlens::session::{
    connection_error_text, countdown_remaining, poll_outcome, retry_delay, wait_reaction,
    AttemptOutcome, CertificateDecision, CertificateDetails, ConnectionError, ConnectionErrorText,
    PollOutcome, ReconnectCycle, ReconnectStatus, SessionCommand, SessionEvent, TerminationReason,
    WaitReaction,
};

#[test]
fn retry_delay_backs_off_and_then_repeats() {
    let delays: Vec<u32> = (0..8).map(retry_delay).collect();
    assert_eq!(delays, [2, 5, 10, 20, 30, 60, 60, 60]);
}

fn error_with_class(class: u32) -> ConnectionError {
    ConnectionError {
        code: 0,
        class,
        name: String::new(),
        message: String::new(),
    }
}

#[test]
fn credential_errors_end_the_reconnect_cycle() {
    assert!(!error_with_class(1).is_recoverable());
    assert!(!error_with_class(2).is_recoverable());
    assert!(error_with_class(0).is_recoverable());
}

#[test]
fn certificate_codes() {
    assert_eq!(CertificateDecision::Reject.code(), 0);
    assert_eq!(CertificateDecision::TrustPermanently.code(), 1);
    assert_eq!(CertificateDecision::TrustOnce.code(), 2);
    assert_eq!(CertificateDecision::from_response("once"), CertificateDecision::TrustOnce);
    assert_eq!(CertificateDecision::from_response("always"), CertificateDecision::TrustPermanently);
    assert_eq!(CertificateDecision::from_response("cancel"), CertificateDecision::Reject);
    assert_eq!(CertificateDecision::from_response(""), CertificateDecision::Reject);
}

#[test]
fn certificate_changed_when_an_old_fingerprint_is_known() {
    let mut details = CertificateDetails {
        host: "h".into(),
        port: 3389,
        common_name: String::new(),
        subject: "s".into(),
        issuer: "i".into(),
        fingerprint: "f".into(),
        host_mismatch: false,
        old_subject: None,
        old_issuer: None,
        old_fingerprint: None,
    };
    assert!(!details.changed());
    details.old_fingerprint = Some("old".into());
    assert!(details.changed());
}

#[test]
fn error_texts() {
    assert!(matches!(connection_error_text(&error_with_class(1)), ConnectionErrorText::IncorrectCredentials));
    assert!(matches!(connection_error_text(&error_with_class(2)), ConnectionErrorText::AccessDenied));
    let with_message = ConnectionError { code: 5, class: 0, name: "NAME".into(), message: "message".into() };
    assert!(matches!(connection_error_text(&with_message), ConnectionErrorText::CouldNotConnect(d) if d == "message"));
    let with_name = ConnectionError { code: 5, class: 0, name: "NAME".into(), message: String::new() };
    assert!(matches!(connection_error_text(&with_name), ConnectionErrorText::CouldNotConnect(d) if d == "NAME"));
    let bare = ConnectionError { code: 0x2000c, class: 3, name: String::new(), message: String::new() };
    assert!(matches!(connection_error_text(&bare), ConnectionErrorText::CouldNotConnect(d) if d == "FreeRDP error 0x0002000c"));
    let max = ConnectionError { code: u32::MAX, class: 3, name: String::new(), message: String::new() };
    assert!(matches!(connection_error_text(&max), ConnectionErrorText::CouldNotConnect(d) if d == format!("FreeRDP error 0x{:08x}", u32::MAX)));
}

#[test]
fn poll_outcomes() {
    assert!(matches!(poll_outcome(1, false), PollOutcome::Continue));
    assert!(matches!(poll_outcome(1, true), PollOutcome::Continue));
    assert!(matches!(poll_outcome(0, true), PollOutcome::Ended(TerminationReason::Local)));
    assert!(matches!(poll_outcome(-1, true), PollOutcome::Ended(TerminationReason::Local)));
    assert!(matches!(poll_outcome(0, false), PollOutcome::Ended(TerminationReason::Remote)));
    assert!(matches!(poll_outcome(-1, false), PollOutcome::Interrupted));
}

#[test]
fn countdown() {
    assert_eq!(countdown_remaining(10, 3), 7);
    assert_eq!(countdown_remaining(10, 10), 0);
    assert_eq!(countdown_remaining(10, 30), 0);
}

#[test]
fn wait_reactions() {
    assert_eq!(wait_reaction(Some(&SessionCommand::Disconnect), false), WaitReaction::EndLocally);
    assert_eq!(wait_reaction(Some(&SessionCommand::ReconnectNow), false), WaitReaction::RetryNow);
    assert_eq!(wait_reaction(Some(&SessionCommand::ClipboardRequestText), false), WaitReaction::Ignore);
    assert_eq!(wait_reaction(None, false), WaitReaction::Idle);
    assert_eq!(wait_reaction(None, true), WaitReaction::EndLocally);
}

#[test]
fn reconnect_cycle_begins_only_for_recoverable_errors() {
    assert!(matches!(
        ReconnectCycle::begin(1, error_with_class(0), true),
        Err(SessionEvent::Terminated(TerminationReason::Remote))
    ));
    assert!(matches!(
        ReconnectCycle::begin(0, error_with_class(2), true),
        Err(SessionEvent::Terminated(TerminationReason::Lost(e))) if e.class == 2
    ));
    let interrupted = ConnectionError { code: 1, class: 0, name: String::new(), message: "gone".into() };
    match ReconnectCycle::begin(0, interrupted, true) {
        Ok((cycle, SessionEvent::Interrupted { detail, can_restore_session })) => {
            assert_eq!(cycle.attempt, 0);
            assert_eq!(detail, "gone");
            assert!(can_restore_session);
            assert_eq!(cycle.delay(), 2);
        }
        other => panic!("unexpected {other:?}"),
    }
}

#[test]
fn reconnect_attempts_count_up_and_end() {
    let mut cycle = ReconnectCycle { attempt: 0 };
    assert!(matches!(cycle.start_attempt(false), Ok(SessionEvent::ReconnectAttempt { attempt: 1 })));
    assert_eq!(cycle.delay(), 5);
    assert!(matches!(cycle.countdown(4), SessionEvent::ReconnectCountdown { attempt: 1, seconds_left: 4 }));
    assert!(matches!(cycle.start_attempt(true), Err(SessionEvent::Terminated(TerminationReason::Local))));
    assert_eq!(cycle.attempt, 1);
    assert!(matches!(
        ReconnectCycle::attempt_outcome(ReconnectStatus::Reconnected, false, error_with_class(1)),
        AttemptOutcome::Reconnected
    ));
    assert!(matches!(
        ReconnectCycle::attempt_outcome(ReconnectStatus::Refused, false, error_with_class(0)),
        AttemptOutcome::Terminated(TerminationReason::Remote)
    ));
    assert!(matches!(
        ReconnectCycle::attempt_outcome(ReconnectStatus::Failed, true, error_with_class(1)),
        AttemptOutcome::Terminated(TerminationReason::Local)
    ));
    assert!(matches!(
        ReconnectCycle::attempt_outcome(ReconnectStatus::Failed, false, error_with_class(1)),
        AttemptOutcome::Terminated(TerminationReason::Lost(_))
    ));
    assert!(matches!(
        ReconnectCycle::attempt_outcome(ReconnectStatus::Unexpected(7), false, error_with_class(0)),
        AttemptOutcome::Retry
    ));
}
