//! Retrying Google API requests: which answers are worth retrying, how long
//! to wait, and the decision taken after each attempt.
use vstd::prelude::*;
use crate::text::{chars_contain, chars_of, contains_seq, parse_u64, parsed_u64, trim_chars, trimmed};

verus! {

broadcast use vstd::string::group_string_axioms;

/// The most retries after the first attempt.
pub const MAX_RETRIES: u32 = 5;
/// The longest exponential backoff, in milliseconds.
pub const MAX_BACKOFF_MILLIS: u64 = 16_000;
/// The longest wait a server may ask for, in seconds.
pub const MAX_RETRY_AFTER_SECONDS: u64 = 60;

/// Whether a response body names a Google rate-limit reason.
pub fn is_rate_limited(body: &str) -> (r: bool)
    ensures
        r == (contains_seq(body@, "rateLimitExceeded"@) || contains_seq(body@, "userRateLimitExceeded"@)),
{
    let text = chars_of(body);
    let first = chars_of("rateLimitExceeded");
    let second = chars_of("userRateLimitExceeded");
    chars_contain(text.as_slice(), first.as_slice()) || chars_contain(text.as_slice(), second.as_slice())
}

/// The statuses that are retried: too many requests and every server
/// error (5xx).
pub open spec fn transient_status(status: u16) -> bool {
    status == 429 || (500 <= status && status <= 599)
}

/// Whether an HTTP status is worth retrying.
pub fn is_transient(status: u16) -> (r: bool)
    ensures
        r == transient_status(status),
{
    status == 429 || (500 <= status && status <= 599)
}

/// The wait a `Retry-After` header value asks for, in seconds, capped at a
/// minute; `None` when the value is not a whole number of seconds.
pub fn retry_after(value: &str) -> (r: Option<u64>)
    ensures
        match parsed_u64(trimmed(value@)) {
            Some(seconds) => r == Some(if seconds < MAX_RETRY_AFTER_SECONDS { seconds } else { MAX_RETRY_AFTER_SECONDS }),
            None => r is None,
        },
{
    let chars = chars_of(value);
    let trimmed_chars = trim_chars(chars.as_slice());
    match parse_u64(trimmed_chars.as_slice()) {
        Some(seconds) => Some(if seconds < MAX_RETRY_AFTER_SECONDS { seconds } else { MAX_RETRY_AFTER_SECONDS }),
        None => None,
    }
}

/// The backoff for an attempt, in milliseconds: one second doubled per
/// attempt (from the fifth attempt on, 16 seconds), plus the jitter.
pub open spec fn backoff_millis(attempt: u32, jitter_millis: u32) -> int {
    let exponent = if attempt < 4 { attempt as int } else { 4 };
    let base: int = if exponent == 0 { 1000 } else if exponent == 1 { 2000 } else if exponent == 2 { 4000 } else if exponent == 3 { 8000 } else { 16000 };
    base + jitter_millis
}

/// The backoff for an attempt with a given jitter, in milliseconds.
pub fn backoff_with_jitter(attempt: u32, jitter_millis: u32) -> (r: u64)
    ensures
        r == backoff_millis(attempt, jitter_millis),
{
    let base: u64 = match attempt {
        0 => 1000,
        1 => 2000,
        2 => 4000,
        3 => 8000,
        _ => 16000,
    };
    let capped = if base < MAX_BACKOFF_MILLIS { base } else { MAX_BACKOFF_MILLIS };
    capped + jitter_millis as u64
}

/// The milliseconds within the current second of the system clock
/// (`SystemTime::now().duration_since(UNIX_EPOCH)`, then `subsec_millis`;
/// zero when the clock is before the epoch).
#[verifier::external_body]
fn clock_subsec_millis() -> (r: u32)
    ensures
        r < 1000,
{
    std::time::SystemTime::now().duration_since(std::time::UNIX_EPOCH).map_or(0, |elapsed| elapsed.subsec_millis())
}

/// The backoff for an attempt, jittered by the clock, in milliseconds.
pub fn backoff(attempt: u32) -> (r: u64)
    ensures
        exists|jitter: u32| jitter < 1000 && r == backoff_millis(attempt, jitter),
{
    let jitter = clock_subsec_millis();
    backoff_with_jitter(attempt, jitter)
}

/// What one attempt of a request came back with.
pub enum AttemptOutcome {
    /// An HTTP response: its status, whether a 403 body names a rate limit,
    /// and the value of its `Retry-After` header, if any.
    Response { status: u16, rate_limited: bool, retry_after_seconds: Option<u64> },
    /// No response; `connect_or_timeout` tells a failure to connect or a
    /// timeout from other network failures.
    Failure { connect_or_timeout: bool },
}

/// What to do after an attempt.
#[derive(Debug, Clone, Copy, PartialEq, Eq, Structural)]
pub enum DispatchStep {
    /// Wait this many milliseconds and send the request again.
    Retry { delay_millis: u64 },
    /// Hand the response to the caller.
    Deliver,
    /// Report a refused request.
    Forbidden { rate_limited: bool },
    /// Report the network failure.
    NetworkFailure,
}

/// The HTTP status for a refused request.
pub const FORBIDDEN: u16 = 403;

/// The step after attempt number `attempt` (from zero); `replayable` says
/// whether the request can be sent again (its body can be copied), and
/// `jitter_millis` is the backoff jitter.
pub open spec fn next_step(attempt: u32, replayable: bool, outcome: AttemptOutcome, jitter_millis: u32) -> DispatchStep {
    let can_retry = attempt < MAX_RETRIES && replayable;
    match outcome {
        AttemptOutcome::Response { status, rate_limited, retry_after_seconds } => {
            if status == FORBIDDEN {
                if can_retry && rate_limited {
                    DispatchStep::Retry { delay_millis: backoff_millis(attempt, jitter_millis) as u64 }
                } else {
                    DispatchStep::Forbidden { rate_limited }
                }
            } else if can_retry && transient_status(status) {
                DispatchStep::Retry {
                    delay_millis: match retry_after_seconds {
                        Some(seconds) => (seconds * 1000) as u64,
                        None => backoff_millis(attempt, jitter_millis) as u64,
                    },
                }
            } else {
                DispatchStep::Deliver
            }
        },
        AttemptOutcome::Failure { connect_or_timeout } => {
            if can_retry && connect_or_timeout {
                DispatchStep::Retry { delay_millis: backoff_millis(attempt, jitter_millis) as u64 }
            } else {
                DispatchStep::NetworkFailure
            }
        },
    }
}

/// Decides what follows an attempt: rate limits, transient statuses and
/// connection failures are retried while retries remain, other outcomes are
/// final.
pub fn dispatch_step(attempt: u32, replayable: bool, outcome: &AttemptOutcome, jitter_millis: u32) -> (step: DispatchStep)
    requires
        outcome matches AttemptOutcome::Response { retry_after_seconds: Some(s), .. } ==> s <= MAX_RETRY_AFTER_SECONDS,
    ensures
        step == next_step(attempt, replayable, *outcome, jitter_millis),
{
    let can_retry = attempt < MAX_RETRIES && replayable;
    match outcome {
        AttemptOutcome::Response { status, rate_limited, retry_after_seconds } => {
            if *status == FORBIDDEN {
                if can_retry && *rate_limited {
                    DispatchStep::Retry { delay_millis: backoff_with_jitter(attempt, jitter_millis) }
                } else {
                    DispatchStep::Forbidden { rate_limited: *rate_limited }
                }
            } else if can_retry && is_transient(*status) {
                let delay = match retry_after_seconds {
                    Some(seconds) => *seconds * 1000,
                    None => backoff_with_jitter(attempt, jitter_millis),
                };
                DispatchStep::Retry { delay_millis: delay }
            } else {
                DispatchStep::Deliver
            }
        },
        AttemptOutcome::Failure { connect_or_timeout } => {
            if can_retry && *connect_or_timeout {
                DispatchStep::Retry { delay_millis: backoff_with_jitter(attempt, jitter_millis) }
            } else {
                DispatchStep::NetworkFailure
            }
        },
    }
}

/// Retrying stops: from attempt number `MAX_RETRIES` on, no outcome is retried.
pub proof fn lemma_retries_are_bounded(attempt: u32, replayable: bool, outcome: AttemptOutcome, jitter_millis: u32)
    requires
        attempt >= MAX_RETRIES,
    ensures
        !(next_step(attempt, replayable, outcome, jitter_millis) is Retry),
{
}

/// The backoff grows with the attempt and stays below 17 seconds.
pub proof fn lemma_backoff_bounded(attempt: u32, jitter_millis: u32)
    requires
        jitter_millis < 1000,
    ensures
        1000 <= backoff_millis(attempt, jitter_millis) < MAX_BACKOFF_MILLIS + 1000,
        attempt < 4 ==> backoff_millis((attempt + 1) as u32, jitter_millis) == 2 * backoff_millis(attempt, jitter_millis) - jitter_millis,
{
}

/// How a request goes from send number `attempt` on, when send `k` comes
/// back with `outcomes(k)` and its backoff is jittered by `jitters(k)`: the
/// number of sends made and the step that ends them. Sends go on while the
/// step is a retry.
pub open spec fn dispatch_run(
    replayable: bool,
    outcomes: spec_fn(nat) -> AttemptOutcome,
    jitters: spec_fn(nat) -> u32,
    attempt: u32,
) -> (nat, DispatchStep)
    decreases MAX_RETRIES - attempt,
{
    let step = next_step(attempt, replayable, outcomes(attempt as nat), jitters(attempt as nat));
    if attempt >= MAX_RETRIES {
        (1, step)
    } else if step is Retry {
        let rest = dispatch_run(replayable, outcomes, jitters, (attempt + 1) as u32);
        (rest.0 + 1, rest.1)
    } else {
        (1, step)
    }
}

proof fn lemma_dispatch_run_from(
    replayable: bool,
    outcomes: spec_fn(nat) -> AttemptOutcome,
    jitters: spec_fn(nat) -> u32,
    attempt: u32,
)
    requires
        attempt <= MAX_RETRIES,
    ensures
        ({
            let (sends, last) = dispatch_run(replayable, outcomes, jitters, attempt);
            &&& 1 <= sends
            &&& attempt + sends <= MAX_RETRIES + 1
            &&& !(last is Retry)
            &&& last == next_step(
                (attempt + sends - 1) as u32,
                replayable,
                outcomes((attempt + sends - 1) as nat),
                jitters((attempt + sends - 1) as nat),
            )
            &&& forall|k: nat| attempt <= k < attempt + sends - 1 ==> #[trigger] next_step(k as u32, replayable, outcomes(k), jitters(k)) is Retry
        }),
    decreases MAX_RETRIES - attempt,
{
    let step = next_step(attempt, replayable, outcomes(attempt as nat), jitters(attempt as nat));
    if attempt >= MAX_RETRIES {
        lemma_retries_are_bounded(attempt, replayable, outcomes(attempt as nat), jitters(attempt as nat));
    } else if step is Retry {
        lemma_dispatch_run_from(replayable, outcomes, jitters, (attempt + 1) as u32);
        let rest = dispatch_run(replayable, outcomes, jitters, (attempt + 1) as u32);
        assert forall|k: nat| attempt <= k < attempt + rest.0 implies #[trigger] next_step(k as u32, replayable, outcomes(k), jitters(k)) is Retry by {
            if k == attempt {
                assert(k as u32 == attempt);
            }
        }
    }
}

/// A request is sent at most `MAX_RETRIES + 1` times: every send before the
/// last was answered by a retry (a rate-limited 403, a 429 or 5xx status, a
/// failure to connect or a timeout), and the last send's outcome is handed
/// back (a 403 as forbidden, another status as delivered, a failure as a
/// network failure). A request whose body cannot be sent again is sent
/// exactly once.
pub proof fn lemma_dispatch_sends_at_most_six_times(
    replayable: bool,
    outcomes: spec_fn(nat) -> AttemptOutcome,
    jitters: spec_fn(nat) -> u32,
)
    ensures
        ({
            let (sends, last) = dispatch_run(replayable, outcomes, jitters, 0);
            &&& 1 <= sends <= MAX_RETRIES + 1
            &&& !(last is Retry)
            &&& last == next_step((sends - 1) as u32, replayable, outcomes((sends - 1) as nat), jitters((sends - 1) as nat))
            &&& forall|k: nat| k < sends - 1 ==> #[trigger] next_step(k as u32, replayable, outcomes(k), jitters(k)) is Retry
            &&& !replayable ==> sends == 1 && match outcomes(0) {
                AttemptOutcome::Response { status, rate_limited, .. } => if status == FORBIDDEN {
                    last == DispatchStep::Forbidden { rate_limited }
                } else {
                    last == DispatchStep::Deliver
                },
                AttemptOutcome::Failure { .. } => last == DispatchStep::NetworkFailure,
            }
        }),
{
    lemma_dispatch_run_from(replayable, outcomes, jitters, 0);
}

} // verus!
