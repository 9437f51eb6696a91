use cheburcheck::probe::{
    probe_url, read_timeout_secs, Attempt, Outcome, Probe, Step, MIN_BODY_LEN, RANGE_HEADER,
    REQUEST_TIMEOUT_SECS,
};
use cheburcheck::reports::Evidence;

fn run(retry_count: usize, attempts: &[Attempt]) -> Option<Outcome> {
    let mut probe = Probe::new(retry_count);
    for attempt in attempts {
        match probe.step(*attempt) {
            Step::Done(outcome) => return Some(outcome),
            Step::Retry(next) => probe = next,
        }
    }
    None
}

const TIMEOUT_EARLY: Attempt = Attempt::Failure { early: true, timeout: true, connect: false };
const TIMEOUT_LATE: Attempt = Attempt::Failure { early: false, timeout: true, connect: false };
const REFUSED: Attempt = Attempt::Failure { early: true, timeout: false, connect: true };
const BROKEN: Attempt = Attempt::Failure { early: false, timeout: false, connect: false };
const FULL: Attempt = Attempt::Response { success: true, body_len: 65536 };
const SHORT: Attempt = Attempt::Response { success: true, body_len: 1024 };
const FORBIDDEN: Attempt = Attempt::Response { success: false, body_len: 70000 };

#[test]
fn probe_constants() {
    assert_eq!(MIN_BODY_LEN, 65535);
    assert_eq!(RANGE_HEADER, "bytes=0-65536");
    assert_eq!(REQUEST_TIMEOUT_SECS, 15);
}

#[test]
fn full_response_is_accepted() {
    assert_eq!(run(2, &[FULL]), Some(Outcome::Accepted));
    assert_eq!(run(0, &[FULL]), Some(Outcome::Accepted));
}

#[test]
fn response_of_exactly_the_least_length_is_accepted() {
    let attempt = Attempt::Response { success: true, body_len: 65535 };
    assert_eq!(run(1, &[attempt]), Some(Outcome::Accepted));
    let attempt = Attempt::Response { success: true, body_len: 65534 };
    assert_eq!(run(1, &[attempt]), Some(Outcome::Blocked { early: false }));
}

#[test]
fn full_response_after_failures_is_accepted() {
    assert_eq!(run(3, &[TIMEOUT_EARLY, SHORT, FULL]), Some(Outcome::Accepted));
}

#[test]
fn timeouts_on_every_attempt_are_blocked_early() {
    assert_eq!(run(2, &[TIMEOUT_EARLY, TIMEOUT_EARLY]), Some(Outcome::Blocked { early: true }));
    assert_eq!(run(1, &[TIMEOUT_EARLY]), Some(Outcome::Blocked { early: true }));
    assert_eq!(
        run(5, &[TIMEOUT_EARLY; 5]),
        Some(Outcome::Blocked { early: true })
    );
}

#[test]
fn timeout_while_reading_is_blocked_but_not_early() {
    assert_eq!(run(2, &[TIMEOUT_EARLY, TIMEOUT_LATE]), Some(Outcome::Blocked { early: false }));
}

#[test]
fn short_bodies_on_every_attempt_are_blocked_not_early() {
    assert_eq!(run(2, &[SHORT, SHORT]), Some(Outcome::Blocked { early: false }));
    assert_eq!(run(3, &[SHORT, SHORT, SHORT]), Some(Outcome::Blocked { early: false }));
}

#[test]
fn bad_status_on_the_last_attempt_is_blocked() {
    assert_eq!(run(2, &[FORBIDDEN, FORBIDDEN]), Some(Outcome::Blocked { early: false }));
}

#[test]
fn probe_asks_for_more_while_attempts_remain() {
    assert_eq!(run(2, &[SHORT]), None);
    assert_eq!(run(3, &[TIMEOUT_EARLY, REFUSED]), None);
}

#[test]
fn probe_without_retries_makes_one_attempt() {
    assert_eq!(run(0, &[SHORT]), Some(Outcome::Blocked { early: false }));
    assert_eq!(run(0, &[TIMEOUT_EARLY]), Some(Outcome::Blocked { early: true }));
}

#[test]
fn other_transport_failures_are_inconclusive() {
    assert_eq!(run(2, &[REFUSED, REFUSED]), Some(Outcome::ConnectError));
    assert_eq!(run(2, &[BROKEN, BROKEN]), Some(Outcome::Error));
    assert_eq!(run(2, &[TIMEOUT_EARLY, REFUSED]), Some(Outcome::ConnectError));
}

#[test]
fn connect_timeout_counts_as_a_timeout() {
    let attempt = Attempt::Failure { early: true, timeout: true, connect: true };
    assert_eq!(run(1, &[attempt]), Some(Outcome::Blocked { early: true }));
}

#[test]
fn only_the_last_attempt_decides_a_failed_probe() {
    assert_eq!(run(2, &[REFUSED, TIMEOUT_EARLY]), Some(Outcome::Blocked { early: true }));
    assert_eq!(run(2, &[SHORT, BROKEN]), Some(Outcome::Error));
}

#[test]
fn step_retry_hands_back_the_next_state() {
    let probe = Probe::new(3);
    let next = match probe.step(SHORT) {
        Step::Retry(next) => next,
        Step::Done(_) => panic!("the probe has attempts left"),
    };
    let next = match next.step(SHORT) {
        Step::Retry(next) => next,
        Step::Done(_) => panic!("the probe has an attempt left"),
    };
    assert_eq!(next.step(SHORT), Step::Done(Outcome::Blocked { early: false }));
}

#[test]
fn outcome_evidence() {
    assert_eq!(Outcome::Accepted.evidence(), Evidence::Okay);
    assert_eq!(Outcome::Blocked { early: true }.evidence(), Evidence::Blocked);
    assert_eq!(Outcome::Blocked { early: false }.evidence(), Evidence::Blocked);
    assert_eq!(Outcome::ConnectError.evidence(), Evidence::ConnectError);
    assert_eq!(Outcome::Error.evidence(), Evidence::Error);
}

#[test]
fn outcome_from_transport_error() {
    assert_eq!(Outcome::from_transport_error(true), Outcome::ConnectError);
    assert_eq!(Outcome::from_transport_error(false), Outcome::Error);
}

#[test]
fn probe_url_has_scheme_target_and_path() {
    assert_eq!(probe_url(false, "example.com", "100MB.bin"), "https://example.com/100MB.bin");
    assert_eq!(probe_url(true, "example.com", "100MB.bin"), "http://example.com/100MB.bin");
    assert_eq!(probe_url(true, "", ""), "http:///");
}

#[test]
fn read_timeout_does_not_grow() {
    assert_eq!(read_timeout_secs(5), Some(5));
    assert_eq!(read_timeout_secs(0), Some(0));
    assert_eq!(read_timeout_secs(u64::MAX), Some(u64::MAX));
}

#[test]
fn evidence_labels() {
    assert_eq!(Evidence::Okay.label(), "ok");
    assert_eq!(Evidence::Blocked.label(), "blocked");
    assert_eq!(Evidence::ConnectError.label(), "connect_error");
    assert_eq!(Evidence::Error.label(), "unknown_error");
    assert_eq!(Evidence::Error.to_string(), "unknown_error");
}
