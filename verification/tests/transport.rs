use bulk_react::error::EngineError;
use bulk_react::transport::{drive_throttle, throttle_decision, ThrottleOutcome, ThrottleStep, TransportReply};

fn reply(status: u16, retry_after_ms: Option<u64>) -> TransportReply {
    TransportReply { status, retry_after_ms }
}

#[test]
fn rate_limit_is_absorbed_once() {
    // A stub that returns 429 with retry_after = 0.2 s exactly once, then
    // succeeds: the driver sleeps ~200 ms and accepts the success response.
    let retry_after_seconds: f64 = 0.2;
    let ms = (retry_after_seconds * 1000.0) as u64;
    assert_eq!(ms, 200);
    let script = vec![reply(429, Some(ms)), reply(200, None)];
    let (sleeps, outcome) = drive_throttle(&script);
    assert_eq!(sleeps, vec![200]);
    assert_eq!(outcome, ThrottleOutcome::Accepted);
}

#[test]
fn repeated_rate_limits_are_absorbed() {
    let script = vec![reply(429, Some(100)), reply(429, Some(300)), reply(204, None)];
    let (sleeps, outcome) = drive_throttle(&script);
    assert_eq!(sleeps, vec![100, 300]);
    assert_eq!(outcome, ThrottleOutcome::Accepted);
}

#[test]
fn not_found_fails_with_no_retry() {
    // A 404 fails immediately: no sleep, and exactly one response consumed.
    let script = vec![reply(404, None), reply(200, None)];
    let (sleeps, outcome) = drive_throttle(&script);
    assert_eq!(sleeps, Vec::<u64>::new());
    assert_eq!(outcome, ThrottleOutcome::Refused { err: EngineError::Http { status: 404 } });
    // Requests sent = absorbed 429s + the final one.
    assert_eq!(sleeps.len() + 1, 1);
}

#[test]
fn unreadable_rate_limit_body_is_a_protocol_error() {
    let script = vec![reply(429, None)];
    let (sleeps, outcome) = drive_throttle(&script);
    assert!(sleeps.is_empty());
    assert_eq!(outcome, ThrottleOutcome::Refused { err: EngineError::Protocol });
}

#[test]
fn decision_matches_status_classes() {
    assert_eq!(throttle_decision(reply(200, None)), ThrottleStep::Proceed);
    assert_eq!(throttle_decision(reply(304, None)), ThrottleStep::Proceed);
    assert_eq!(throttle_decision(reply(399, None)), ThrottleStep::Proceed);
    assert_eq!(
        throttle_decision(reply(400, None)),
        ThrottleStep::Fail { err: EngineError::Http { status: 400 } }
    );
    assert_eq!(
        throttle_decision(reply(500, Some(7))),
        ThrottleStep::Fail { err: EngineError::Http { status: 500 } }
    );
    assert_eq!(
        throttle_decision(reply(599, None)),
        ThrottleStep::Fail { err: EngineError::Http { status: 599 } }
    );
    assert_eq!(throttle_decision(reply(600, None)), ThrottleStep::Proceed);
    assert_eq!(throttle_decision(reply(429, Some(42))), ThrottleStep::Sleep { ms: 42 });
    assert_eq!(
        throttle_decision(reply(429, None)),
        ThrottleStep::Fail { err: EngineError::Protocol }
    );
}

#[test]
fn empty_transport_script_ends_without_outcome() {
    let (sleeps, outcome) = drive_throttle(&Vec::new());
    assert!(sleeps.is_empty());
    assert_eq!(outcome, ThrottleOutcome::ScriptEnded);
}

#[test]
fn truncation_of_fractional_milliseconds() {
    // Seconds convert to milliseconds by truncation toward zero, never
    // rounding up: 0.0109 s is 10 ms, not 11.
    let seconds: f64 = 0.0109;
    let ms = (seconds * 1000.0) as u64;
    assert_eq!(ms, 10);
    let script = vec![reply(429, Some(ms)), reply(200, None)];
    let (sleeps, outcome) = drive_throttle(&script);
    assert_eq!(sleeps, vec![10]);
    assert_eq!(outcome, ThrottleOutcome::Accepted);
}
