//! The decisions of the active prober.
//!
//! A probe asks a fixed vantage host for the first 64 KiB of a file while
//! naming the target as the host. One attempt either yields a response or
//! fails in transport; the prober decides after each attempt whether to try
//! again or what the target's outcome is.

use crate::reports::Evidence;
use vstd::prelude::*;
use vstd::string::*;

verus! {

/// A response shorter than this was cut off on the way.
pub const MIN_BODY_LEN: usize = 65535;

/// The byte range every probe asks for.
pub const RANGE_HEADER: &'static str = "bytes=0-65536";

/// Upper bound on one whole request, in seconds.
pub const REQUEST_TIMEOUT_SECS: u64 = 15;

/// The factor by which the configured read timeout is multiplied for an
/// attempt. It is the same for every attempt: the timeout does not grow
/// with the number of the attempt.
pub const READ_TIMEOUT_FACTOR: u64 = 1;

/// The address a probe asks for: the scheme, the target as the host, and
/// the path of the file on the vantage host.
pub open spec fn probe_url_spec(http: bool, target: Seq<char>, path: Seq<char>) -> Seq<char> {
    (if http {
        "http://"@
    } else {
        "https://"@
    }) + target + "/"@ + path
}

/// The address a probe asks for.
pub fn probe_url(http: bool, target: &str, path: &str) -> (r: String)
    ensures
        r@ == probe_url_spec(http, target@, path@),
{
    let mut url = if http {
        String::from_str("http://")
    } else {
        String::from_str("https://")
    };
    url.append(target);
    url.append("/");
    url.append(path);
    url
}

/// The read timeout of one attempt in seconds, for the configured number
/// of seconds; `None` where the product does not fit.
pub fn read_timeout_secs(timeout_secs: u64) -> (r: Option<u64>)
    ensures
        r == if timeout_secs * READ_TIMEOUT_FACTOR <= u64::MAX {
            Some((timeout_secs * READ_TIMEOUT_FACTOR) as u64)
        } else {
            None
        },
{
    timeout_secs.checked_mul(READ_TIMEOUT_FACTOR)
}

/// What one attempt produced.
#[derive(Clone, Copy, Debug, PartialEq, Eq, Structural)]
pub enum Attempt {
    /// A response was received in full. `success` tells whether its status
    /// was a success status, `body_len` how many bytes of body arrived.
    Response { success: bool, body_len: usize },
    /// The attempt failed in transport. `early` tells whether it failed
    /// before any response was obtained, `timeout` and `connect` what kind
    /// of failure the transport reported.
    Failure { early: bool, timeout: bool, connect: bool },
}

/// The final outcome for one target.
#[derive(Clone, Copy, Debug, PartialEq, Eq, Structural)]
pub enum Outcome {
    Accepted,
    Blocked { early: bool },
    ConnectError,
    Error,
}

/// What to do after an attempt.
#[derive(Clone, Copy, Debug, PartialEq, Eq, Structural)]
pub enum Step {
    /// Make another attempt, with the prober in the state given.
    Retry(Probe),
    /// The target is done.
    Done(Outcome),
}

/// The prober's state for one target.
#[derive(Clone, Copy, Debug, PartialEq, Eq, Structural)]
pub struct Probe {
    /// How many attempts the probe may make; one is made even where this is zero.
    pub retry_count: usize,
    /// How many attempts were already answered with a retry.
    pub attempts: usize,
}

impl Attempt {
    /// Whether the attempt shows the target to be reachable: a success
    /// status with the whole range delivered.
    pub open spec fn satisfied(self) -> bool {
        self matches Attempt::Response { success, body_len } && success && body_len >= MIN_BODY_LEN
    }

    /// The outcome when this attempt is the last one allowed.
    pub open spec fn terminal(self) -> Outcome {
        match self {
            Attempt::Response { success, body_len } => if success && body_len >= MIN_BODY_LEN {
                Outcome::Accepted
            } else {
                Outcome::Blocked { early: false }
            },
            Attempt::Failure { early, timeout, connect } => if timeout {
                Outcome::Blocked { early }
            } else if connect {
                Outcome::ConnectError
            } else {
                Outcome::Error
            },
        }
    }
}

impl Outcome {
    /// The evidence recorded for the outcome.
    pub open spec fn evidence_spec(self) -> Evidence {
        match self {
            Outcome::Accepted => Evidence::Okay,
            Outcome::Blocked { .. } => Evidence::Blocked,
            Outcome::ConnectError => Evidence::ConnectError,
            Outcome::Error => Evidence::Error,
        }
    }

    /// The evidence recorded for the outcome.
    pub fn evidence(&self) -> (r: Evidence)
        ensures
            r == self.evidence_spec(),
    {
        match self {
            Outcome::Accepted => Evidence::Okay,
            Outcome::Blocked { .. } => Evidence::Blocked,
            Outcome::ConnectError => Evidence::ConnectError,
            Outcome::Error => Evidence::Error,
        }
    }

    /// The outcome of a transport failure that ended the probe and was no
    /// timeout. It shows nothing about blocking; the two outcomes tell apart
    /// whether the connection could be made.
    pub fn from_transport_error(connect: bool) -> (r: Outcome)
        ensures
            r == if connect { Outcome::ConnectError } else { Outcome::Error },
    {
        if connect {
            Outcome::ConnectError
        } else {
            Outcome::Error
        }
    }
}

impl Probe {
    /// Whether the next attempt is the last one allowed.
    pub open spec fn on_last_attempt(self) -> bool {
        self.attempts + 1 >= self.retry_count
    }

    /// What the prober does with the next attempt.
    pub open spec fn step_spec(self, attempt: Attempt) -> Step {
        if attempt.satisfied() {
            Step::Done(Outcome::Accepted)
        } else if self.on_last_attempt() {
            Step::Done(attempt.terminal())
        } else {
            Step::Retry(self.advanced())
        }
    }

    /// The state after one more attempt was answered with a retry.
    pub open spec fn advanced(self) -> Probe {
        Probe { retry_count: self.retry_count, attempts: (self.attempts + 1) as usize }
    }

    /// The number of attempts the probe will still make if none satisfies it.
    pub open spec fn remaining(self) -> nat {
        if self.retry_count > self.attempts {
            (self.retry_count - self.attempts) as nat
        } else {
            1
        }
    }

    /// The outcome of a probe that sees `attempts` one after another, and
    /// `None` where they end before the probe does.
    pub open spec fn run(self, attempts: Seq<Attempt>) -> Option<Outcome>
        decreases attempts.len(),
    {
        if attempts.len() == 0 {
            None
        } else {
            match self.step_spec(attempts[0]) {
                Step::Done(outcome) => Some(outcome),
                Step::Retry(next) => next.run(attempts.drop_first()),
            }
        }
    }

    /// A probe that has made no attempt yet.
    pub fn new(retry_count: usize) -> (r: Probe)
        ensures
            r == (Probe { retry_count, attempts: 0 }),
    {
        Probe { retry_count, attempts: 0 }
    }

    /// Takes in the result of one attempt and says how to go on.
    ///
    /// A satisfied attempt ends the probe as accepted. Any other attempt is
    /// retried while attempts remain. On the last attempt an unsatisfying
    /// response or a timeout means blocked; any other transport failure is
    /// inconclusive.
    pub fn step(self, attempt: Attempt) -> (r: Step)
        ensures
            r == self.step_spec(attempt),
    {
        let more = self.retry_count > 0 && self.attempts < self.retry_count - 1;
        match attempt {
            Attempt::Response { success, body_len } => {
                if success && body_len >= MIN_BODY_LEN {
                    Step::Done(Outcome::Accepted)
                } else if more {
                    Step::Retry(Probe { retry_count: self.retry_count, attempts: self.attempts + 1 })
                } else {
                    Step::Done(Outcome::Blocked { early: false })
                }
            },
            Attempt::Failure { early, timeout, connect } => {
                if more {
                    Step::Retry(Probe { retry_count: self.retry_count, attempts: self.attempts + 1 })
                } else if timeout {
                    Step::Done(Outcome::Blocked { early })
                } else {
                    Step::Done(Outcome::from_transport_error(connect))
                }
            },
        }
    }
}

/// An attempt that returns a success status with the whole range ends the
/// probe as accepted, whatever came before it.
pub proof fn lemma_full_response_is_accepted(probe: Probe, body_len: usize)
    requires
        body_len >= MIN_BODY_LEN,
    ensures
        probe.step_spec(Attempt::Response { success: true, body_len }) == Step::Done(
            Outcome::Accepted,
        ),
{
}

/// A probe whose every attempt times out, up to the last one allowed, ends
/// as blocked; it is blocked early where the last timeout came before any
/// response.
pub proof fn lemma_timeouts_are_blocked(probe: Probe, attempts: Seq<Attempt>, early: bool)
    requires
        attempts.len() == probe.remaining(),
        forall|i: int|
            0 <= i < attempts.len() ==> (#[trigger] attempts[i] matches Attempt::Failure {
                timeout,
                ..
            } && timeout),
        attempts.last() matches Attempt::Failure { early: e, .. } && e == early,
    ensures
        probe.run(attempts) == Some(Outcome::Blocked { early }),
    decreases attempts.len(),
{
    let first = attempts[0];
    assert(!first.satisfied());
    if !probe.on_last_attempt() {
        let rest = attempts.drop_first();
        assert(rest.last() == attempts.last());
        assert forall|i: int| 0 <= i < rest.len() implies (#[trigger] rest[i] matches Attempt::Failure {
            timeout,
            ..
        } && timeout) by {
            assert(rest[i] == attempts[i + 1]);
        }
        lemma_timeouts_are_blocked(probe.advanced(), rest, early);
    }
}

/// A probe that times out before any response on every attempt is blocked early.
pub proof fn lemma_early_timeouts_are_blocked_early(probe: Probe, attempts: Seq<Attempt>)
    requires
        attempts.len() == probe.remaining(),
        forall|i: int|
            0 <= i < attempts.len() ==> (#[trigger] attempts[i] matches Attempt::Failure {
                early,
                timeout,
                ..
            } && early && timeout),
    ensures
        probe.run(attempts) == Some(Outcome::Blocked { early: true }),
{
    lemma_timeouts_are_blocked(probe, attempts, true);
}

/// A probe whose every attempt brings a response that does not satisfy it,
/// be it a short body or a status other than success, ends as blocked, and
/// not early.
pub proof fn lemma_poor_responses_are_blocked(probe: Probe, attempts: Seq<Attempt>)
    requires
        attempts.len() == probe.remaining(),
        forall|i: int|
            0 <= i < attempts.len() ==> (#[trigger] attempts[i]) is Response
                && !attempts[i].satisfied(),
    ensures
        probe.run(attempts) == Some(Outcome::Blocked { early: false }),
    decreases attempts.len(),
{
    let first = attempts[0];
    assert(first is Response && !first.satisfied());
    if !probe.on_last_attempt() {
        let rest = attempts.drop_first();
        assert forall|i: int| 0 <= i < rest.len() implies (#[trigger] rest[i]) is Response
            && !rest[i].satisfied() by {
            assert(rest[i] == attempts[i + 1]);
        }
        lemma_poor_responses_are_blocked(probe.advanced(), rest);
    }
}

/// Short bodies under a success status on every attempt mean blocked, not early.
pub proof fn lemma_short_bodies_are_blocked(probe: Probe, attempts: Seq<Attempt>)
    requires
        attempts.len() == probe.remaining(),
        forall|i: int|
            0 <= i < attempts.len() ==> (#[trigger] attempts[i] matches Attempt::Response {
                success,
                body_len,
            } && success && body_len < MIN_BODY_LEN),
    ensures
        probe.run(attempts) == Some(Outcome::Blocked { early: false }),
{
    lemma_poor_responses_are_blocked(probe, attempts);
}

} // verus!
