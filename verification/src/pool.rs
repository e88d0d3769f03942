//! The fetch pool's decisions: concurrency clamping, the retry and
//! requeue schedule, and the final outcome of one URL's fetch attempts.
//!
//! The pool itself spawns tasks and awaits HTTP responses; every decision
//! it takes between those awaits is a function here.

use vstd::prelude::*;

use crate::strutil::{chars_string, dec_str, fmt_u16, fmt_usize, str_chars};

verus! {

/// The clamp applied to every requested concurrency.
pub open spec fn sanitized_concurrency(value: usize) -> int {
    if value < 1 {
        1
    } else if value > 256 {
        256
    } else {
        value as int
    }
}

/// Clamp a requested fetch-pool concurrency into `1..=256`.
pub fn sanitize_fetch_concurrency(value: usize) -> (r: usize)
    ensures
        r == sanitized_concurrency(value),
        1 <= r <= 256,
{
    if value < 1 {
        1
    } else if value > 256 {
        256
    } else {
        value
    }
}

/// The concurrency the pool observes for a raw cell value: always clamped
/// into `1..=256`, whatever was stored.
pub fn current_fetch_concurrency(raw_value: usize) -> (r: usize)
    ensures
        r == sanitized_concurrency(raw_value),
        1 <= r <= 256,
{
    sanitize_fetch_concurrency(raw_value)
}

/// Whatever value the control channel stored, the pool observes a
/// concurrency between 1 and 256.
pub proof fn lemma_observed_concurrency_bounded(raw_value: usize)
    ensures
        1 <= sanitized_concurrency(raw_value) <= 256,
{
}

/// May one more fetch be spawned at this in-flight count?
pub fn may_spawn_fetch(in_flight: usize, raw_concurrency: usize) -> (r: bool)
    ensures
        r == (in_flight < sanitized_concurrency(raw_concurrency)),
{
    in_flight < current_fetch_concurrency(raw_concurrency)
}

/// What the fetch loop does after one attempt comes back.
#[derive(Debug, Clone, Copy, PartialEq, Eq, Structural)]
pub enum FetchStep {
    /// The attempts for this URL are over; judge the last response.
    Done,
    /// Retry the same URL after this many milliseconds.
    RetryAfterMs(u64),
    /// Start the next requeue round after this many milliseconds.
    RequeueAfterMs(u64),
}

/// The step after a response with `status` at attempt `attempt` (counted
/// from 0) of `retries` per round, in round `round` (counted from 0) of
/// `retry_5xx + 1` rounds: anything below 500 ends the attempts; otherwise
/// the round retries after 150 ms until its attempts are spent, then the
/// next round starts after `350 * (round + 1)` ms, until the rounds are
/// spent too.
pub fn next_fetch_step(
    status: u16,
    attempt: usize,
    retries: usize,
    round: usize,
    retry_5xx: usize,
) -> (r: FetchStep)
    requires
        round <= retry_5xx,
        retry_5xx < 1000000,
    ensures
        status < 500 ==> r == FetchStep::Done,
        status >= 500 && attempt + 1 < retries ==> r == FetchStep::RetryAfterMs(150),
        status >= 500 && attempt + 1 >= retries && round == retry_5xx ==> r == FetchStep::Done,
        status >= 500 && attempt + 1 >= retries && round < retry_5xx ==> (r matches
            FetchStep::RequeueAfterMs(d) && d == 350 * (round as int + 1)),
{
    if status < 500 {
        FetchStep::Done
    } else if retries > 0 && attempt < retries - 1 {
        FetchStep::RetryAfterMs(150)
    } else if round == retry_5xx {
        FetchStep::Done
    } else {
        FetchStep::RequeueAfterMs(350u64 * (round as u64 + 1))
    }
}

/// What is reported for a URL once its attempts are over.
#[derive(Debug)]
pub enum FetchOutcome {
    /// The final page is analyzed and emitted as a `Page` record.
    Emit,
    /// The page stays unretrieved, with this reason.
    Unretrieved(String),
}

/// The reason string for an empty 5xx body that survived every retry.
pub open spec fn exhausted_reason(status: u16, retries: usize, retry_5xx: usize) -> Seq<char> {
    "http "@ + dec_str(status as nat) + " after "@ + dec_str(retries as nat) + " retries and "@
        + dec_str(retry_5xx as nat) + " requeues"@
}

/// Judge the final response of one URL: an empty body with a 5xx status
/// after all retries is reported unretrieved, everything else is emitted
/// as a page record.
pub fn judge_final_fetch(status: u16, body_size: usize, retries: usize, retry_5xx: usize) -> (r:
    FetchOutcome)
    ensures
        (body_size == 0 && status >= 500) <==> r is Unretrieved,
        r matches FetchOutcome::Unretrieved(reason) ==> reason@ == exhausted_reason(
            status,
            retries,
            retry_5xx,
        ),
{
    if body_size == 0 && status >= 500 {
        let mut msg: Vec<char> = str_chars("http ");
        let mut sv = fmt_u16(status);
        msg.append(&mut sv);
        let mut mid = str_chars(" after ");
        msg.append(&mut mid);
        let mut rv = fmt_usize(retries);
        msg.append(&mut rv);
        let mut mid2 = str_chars(" retries and ");
        msg.append(&mut mid2);
        let mut qv = fmt_usize(retry_5xx);
        msg.append(&mut qv);
        let mut tail = str_chars(" requeues");
        msg.append(&mut tail);
        FetchOutcome::Unretrieved(chars_string(&msg))
    } else {
        FetchOutcome::Emit
    }
}

} // verus!
