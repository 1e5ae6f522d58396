//! The waiting times between attempts to reach the annotator.

use vstd::prelude::*;

verus! {

/// The first waiting time, in milliseconds.
pub const BASE_DELAY_MS: u64 = 300;

/// The longest waiting time before jitter, in milliseconds.
pub const MAX_DELAY_MS: u64 = 8000;

/// The jitter stays below this many nanoseconds.
pub const JITTER_SPAN_NANOS: u32 = 250_000_000;

/// `base` doubled `times` times.
pub open spec fn doubled(base: nat, times: nat) -> nat
    decreases times,
{
    if times == 0 {
        base
    } else {
        2 * doubled(base, (times - 1) as nat)
    }
}

/// The waiting time in milliseconds after the failed attempt number
/// `attempt`, counted from 1: the base time doubled with each further
/// attempt, sixteen times at most, and never more than the cap.
pub open spec fn spec_backoff_ms(attempt: nat) -> nat {
    let times = if attempt <= 1 {
        0
    } else if attempt - 1 <= 16 {
        (attempt - 1) as nat
    } else {
        16
    };
    let grown = doubled(BASE_DELAY_MS as nat, times);
    if grown <= MAX_DELAY_MS {
        grown
    } else {
        MAX_DELAY_MS as nat
    }
}

proof fn lemma_doubled_grows(base: nat, a: nat, b: nat)
    requires
        a <= b,
    ensures
        doubled(base, a) <= doubled(base, b),
    decreases b,
{
    if a < b {
        lemma_doubled_grows(base, a, (b - 1) as nat);
    }
}

/// The waiting time in milliseconds after the failed attempt number `attempt`.
pub fn backoff_ms(attempt: usize) -> (ms: u64)
    ensures
        ms == spec_backoff_ms(attempt as nat),
{
    let times: usize = if attempt <= 1 {
        0
    } else if attempt - 1 <= 16 {
        attempt - 1
    } else {
        16
    };
    let mut grown: u64 = BASE_DELAY_MS;
    let mut k: usize = 0;
    while k < times && grown <= MAX_DELAY_MS
        invariant
            k <= times,
            grown == doubled(BASE_DELAY_MS as nat, k as nat),
            grown <= 2 * MAX_DELAY_MS,
        decreases times - k,
    {
        grown = grown * 2;
        k = k + 1;
    }
    proof {
        lemma_doubled_grows(BASE_DELAY_MS as nat, k as nat, times as nat);
    }
    if grown <= MAX_DELAY_MS {
        grown
    } else {
        MAX_DELAY_MS
    }
}

/// The jitter in nanoseconds, drawn from the nanoseconds of the clock.
pub fn jitter_nanos(subsec_nanos: u32) -> (j: u64)
    ensures
        j == subsec_nanos % JITTER_SPAN_NANOS,
        j < JITTER_SPAN_NANOS,
{
    (subsec_nanos % JITTER_SPAN_NANOS) as u64
}

/// What follows an attempt.
#[derive(Clone, Copy, PartialEq, Eq, Structural, Debug)]
pub enum AfterAttempt {
    /// The attempt succeeded: its answer stands.
    Done,
    /// It failed and was the last one allowed: its error stands.
    GiveUp,
    /// It failed: wait this long, then try again.
    Wait { millis: u64, nanos: u64 },
}

/// Decides what follows the attempt number `attempt` of `max_attempts`;
/// `jitter` is in nanoseconds.
pub fn after_attempt(attempt: usize, max_attempts: usize, succeeded: bool, jitter: u64) -> (r:
    AfterAttempt)
    ensures
        r == (if succeeded {
            AfterAttempt::Done
        } else if attempt == max_attempts {
            AfterAttempt::GiveUp
        } else {
            AfterAttempt::Wait { millis: spec_backoff_ms(attempt as nat) as u64, nanos: jitter }
        }),
{
    if succeeded {
        AfterAttempt::Done
    } else if attempt == max_attempts {
        AfterAttempt::GiveUp
    } else {
        AfterAttempt::Wait { millis: backoff_ms(attempt), nanos: jitter }
    }
}

} // verus!
