//! Per-collaborator circuit breaker: after a run of consecutive failures
//! the circuit opens; once its timeout passes it half-opens for one probe,
//! which either closes it again or re-opens it with a doubled timeout.

use vstd::prelude::*;

verus! {

/// Ceiling for the open-circuit timeout, in milliseconds.
pub const MAX_BACKOFF_MS: u64 = 0x4000_0000;

/// State of one circuit.
#[derive(Clone, Copy, Debug, PartialEq, Eq, Structural)]
pub enum CircuitState {
    /// Requests flow; counts the consecutive failures seen so far.
    Closed { consecutive_failures: u64 },
    /// Requests are blocked until the deadline passes.
    Open { until_ms: u64, backoff_ms: u64 },
    /// One probe request is allowed through.
    HalfOpen { backoff_ms: u64 },
}

/// Whether a request may be sent now: always when closed, as the single
/// probe when half-open, and when open only once the deadline passed (the
/// circuit then half-opens).
pub fn circuit_admit(state: CircuitState, now_ms: u64) -> (r: (bool, CircuitState))
    ensures
        match state {
            CircuitState::Closed { .. } => r == (true, state),
            CircuitState::HalfOpen { .. } => r == (true, state),
            CircuitState::Open { until_ms, backoff_ms } => r == if now_ms >= until_ms {
                (true, CircuitState::HalfOpen { backoff_ms })
            } else {
                (false, state)
            },
        },
{
    match state {
        CircuitState::Closed { .. } => (true, state),
        CircuitState::HalfOpen { .. } => (true, state),
        CircuitState::Open { until_ms, backoff_ms } => {
            if now_ms >= until_ms {
                (true, CircuitState::HalfOpen { backoff_ms })
            } else {
                (false, state)
            }
        },
    }
}

/// Feeds one request's outcome into the circuit.
///
/// Success closes it with a clean slate. A failure while closed counts up
/// and, at the threshold, opens the circuit with the base timeout; a failed
/// half-open probe re-opens it with the previous timeout doubled (capped).
pub fn circuit_observe(
    state: CircuitState,
    ok: bool,
    threshold: u64,
    now_ms: u64,
    base_backoff_ms: u64,
) -> (r: CircuitState)
    requires
        threshold >= 1,
        1 <= base_backoff_ms <= MAX_BACKOFF_MS,
        now_ms <= u64::MAX - 2 * MAX_BACKOFF_MS,
        match state {
            CircuitState::Open { backoff_ms, .. } => backoff_ms <= MAX_BACKOFF_MS,
            CircuitState::HalfOpen { backoff_ms } => backoff_ms <= MAX_BACKOFF_MS,
            CircuitState::Closed { consecutive_failures } => consecutive_failures < threshold,
        },
    ensures
        ok ==> r == (CircuitState::Closed { consecutive_failures: 0 }),
        !ok ==> match state {
            CircuitState::Closed { consecutive_failures } => r == if consecutive_failures + 1
                >= threshold {
                CircuitState::Open {
                    until_ms: (now_ms + base_backoff_ms) as u64,
                    backoff_ms: base_backoff_ms,
                }
            } else {
                CircuitState::Closed { consecutive_failures: (consecutive_failures + 1) as u64 }
            },
            CircuitState::HalfOpen { backoff_ms } => {
                let doubled = if 2 * backoff_ms <= MAX_BACKOFF_MS {
                    2 * backoff_ms
                } else {
                    MAX_BACKOFF_MS as int
                };
                r == (CircuitState::Open {
                    until_ms: (now_ms + doubled) as u64,
                    backoff_ms: doubled as u64,
                })
            },
            CircuitState::Open { .. } => r == state,
        },
        match r {
            CircuitState::Open { backoff_ms, .. } => backoff_ms <= MAX_BACKOFF_MS,
            CircuitState::HalfOpen { backoff_ms } => backoff_ms <= MAX_BACKOFF_MS,
            CircuitState::Closed { consecutive_failures } => consecutive_failures == 0
                || consecutive_failures < threshold,
        },
{
    if ok {
        return CircuitState::Closed { consecutive_failures: 0 };
    }
    match state {
        CircuitState::Closed { consecutive_failures } => {
            let bumped = consecutive_failures + 1;
            if bumped >= threshold {
                CircuitState::Open {
                    until_ms: now_ms + base_backoff_ms,
                    backoff_ms: base_backoff_ms,
                }
            } else {
                CircuitState::Closed { consecutive_failures: bumped }
            }
        },
        CircuitState::HalfOpen { backoff_ms } => {
            let doubled = if backoff_ms <= MAX_BACKOFF_MS / 2 {
                2 * backoff_ms
            } else {
                MAX_BACKOFF_MS
            };
            CircuitState::Open { until_ms: now_ms + doubled, backoff_ms: doubled }
        },
        CircuitState::Open { .. } => state,
    }
}

} // verus!
