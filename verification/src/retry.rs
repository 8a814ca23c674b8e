//! Retry policy for the completion client: transient failures are
//! retried a bounded number of times with exponential backoff;
//! non-retryable failures give up at once.

use vstd::prelude::*;
use crate::model::{ErrorKind, spec_retryable};

verus! {

/// Default bound on completion attempts per request.
pub const DEFAULT_MAX_ATTEMPTS: u32 = 3;

/// Base backoff before the first retry, in milliseconds.
pub const BASE_BACKOFF_MS: u64 = 500;

/// The backoff exponent is capped here so the delay stays bounded.
pub const MAX_BACKOFF_DOUBLINGS: u32 = 6;

/// What the client does after a failed attempt.
pub enum RetryDecision {
    RetryAfter { backoff_ms: u64 },
    GiveUp,
}

/// Two to the `n`-th power.
pub open spec fn pow2(n: nat) -> nat
    decreases n,
{
    if n == 0 {
        1
    } else {
        2 * pow2((n - 1) as nat)
    }
}

/// The exponential backoff before retrying after `failed_attempts`
/// failures: the base delay doubled once per failure, capped.
pub open spec fn spec_backoff_ms(failed_attempts: u32) -> int {
    if failed_attempts <= MAX_BACKOFF_DOUBLINGS {
        BASE_BACKOFF_MS * pow2(failed_attempts as nat)
    } else {
        BASE_BACKOFF_MS * pow2(MAX_BACKOFF_DOUBLINGS as nat)
    }
}

/// Whether an error kind may be retried at all.
pub fn is_retryable(kind: ErrorKind) -> (r: bool)
    ensures
        r == spec_retryable(kind),
{
    match kind {
        ErrorKind::Transport => true,
        _ => false,
    }
}

/// Decide whether to retry after a failed attempt: retry exactly when
/// the failure is transient and the attempt bound is not yet reached,
/// and then wait the exponential backoff.
pub fn decide_retry(kind: ErrorKind, failed_attempts: u32, max_attempts: u32) -> (d:
    RetryDecision)
    ensures
        d is RetryAfter <==> (spec_retryable(kind) && failed_attempts < max_attempts),
        d is RetryAfter ==> d->RetryAfter_backoff_ms == spec_backoff_ms(failed_attempts),
{
    if is_retryable(kind) && failed_attempts < max_attempts {
        RetryDecision::RetryAfter { backoff_ms: backoff_ms(failed_attempts) }
    } else {
        RetryDecision::GiveUp
    }
}

/// The backoff delay in milliseconds, exact against `spec_backoff_ms`.
pub fn backoff_ms(failed_attempts: u32) -> (r: u64)
    ensures
        r == spec_backoff_ms(failed_attempts),
{
    let e: u32 = if failed_attempts <= MAX_BACKOFF_DOUBLINGS {
        failed_attempts
    } else {
        MAX_BACKOFF_DOUBLINGS
    };
    let mut r: u64 = BASE_BACKOFF_MS;
    let mut i: u32 = 0;
    proof {
        lemma_pow2_bounded(e as nat);
    }
    while i < e
        invariant
            i <= e,
            e <= MAX_BACKOFF_DOUBLINGS,
            r == BASE_BACKOFF_MS * pow2(i as nat),
            pow2(e as nat) <= 64,
            pow2(i as nat) <= pow2(e as nat),
        decreases e - i,
    {
        proof {
            lemma_pow2_monotone(i as nat + 1, e as nat);
        }
        r = r * 2;
        i = i + 1;
    }
    r
}

/// pow2 grows monotonically.
proof fn lemma_pow2_monotone(a: nat, b: nat)
    requires
        a <= b,
    ensures
        pow2(a) <= pow2(b),
    decreases b,
{
    if a < b {
        lemma_pow2_monotone(a, (b - 1) as nat);
    }
}

/// pow2 of a small exponent stays small.
proof fn lemma_pow2_bounded(e: nat)
    requires
        e <= 6,
    ensures
        pow2(e) <= 64,
        pow2(e) >= 1,
{
    lemma_pow2_monotone(0, e);
    lemma_pow2_monotone(e, 6);
    assert(pow2(1) == 2 * pow2(0));
    assert(pow2(2) == 2 * pow2(1));
    assert(pow2(3) == 2 * pow2(2));
    assert(pow2(4) == 2 * pow2(3));
    assert(pow2(5) == 2 * pow2(4));
    assert(pow2(6) == 2 * pow2(5));
    assert(pow2(6) == 64);
}

} // verus!

verus! {

/// How an HTTP status of the completion service classifies: rate
/// limiting and server errors are transient, every other failing
/// status is a non-retryable service rejection.
pub open spec fn spec_classify_status(status: u16) -> ErrorKind {
    if status == 429 || status >= 500 {
        ErrorKind::Transport
    } else {
        ErrorKind::Service
    }
}

/// Classify a failing HTTP status, exactly as `spec_classify_status`
/// states it.
pub fn classify_status(status: u16) -> (k: ErrorKind)
    ensures
        k == spec_classify_status(status),
{
    if status == 429 || status >= 500 {
        ErrorKind::Transport
    } else {
        ErrorKind::Service
    }
}

} // verus!
