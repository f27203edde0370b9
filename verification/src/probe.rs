//! The decision rules of the probing pipelines: what counts as a reachable
//! candidate, the one-shot retry around every outbound call, the
//! try-last-first shortcut within one domain, and the two-tier fallback
//! across time-encoding conventions.
//!
//! The outbound calls themselves happen outside this crate; each rule here
//! takes their observed outcomes as arguments and is verified for every
//! value they could take.

use vstd::prelude::*;

verus! {

/// Whether an HTTP status makes a probed URL valid: exactly 200.
pub fn status_is_success(status: u16) -> (r: bool)
    ensures
        r == (status == 200),
{
    status == 200
}

/// Whether the one-shot retry fires: after any failure, never after a
/// success.
pub fn retry_needed<T, E>(first: &Result<T, E>) -> (r: bool)
    ensures
        r == (first is Err),
{
    first.is_err()
}

/// What the one-shot retry resolves to: the first outcome when it
/// succeeded, otherwise the second outcome unconditionally — there is no
/// further attempt and no distinction between kinds of failure.
pub open spec fn retry_outcome<T, E>(first: Result<T, E>, second: Result<T, E>) -> Result<T, E> {
    if first is Ok {
        first
    } else {
        second
    }
}

/// Exec mirror of [`retry_outcome`].
pub fn resolve_retry<T, E>(first: Result<T, E>, second: Result<T, E>) -> (r: Result<T, E>)
    ensures
        r == retry_outcome(first, second),
{
    match first {
        Ok(v) => Ok(v),
        Err(_) => second,
    }
}

/// What probing one domain resolves to. The last path variant is tried
/// eagerly first — one early request lets the connection be established
/// and reused. Only when it fails are the remaining variants raced, and
/// only when that race reports nothing (an empty race) does the eager
/// failure itself survive.
pub open spec fn eager_then_race_outcome<T, E>(
    eager: Result<T, E>,
    raced: Option<Result<T, E>>,
) -> Result<T, E> {
    if eager is Ok {
        eager
    } else {
        match raced {
            Some(outcome) => outcome,
            None => eager,
        }
    }
}

/// Exec mirror of [`eager_then_race_outcome`]. `raced` must be `None`
/// exactly when the eager attempt succeeded (no race was run) or the
/// remaining candidate list was empty.
pub fn resolve_eager_then_race<T, E>(eager: Result<T, E>, raced: Option<Result<T, E>>) -> (r:
    Result<T, E>)
    ensures
        r == eager_then_race_outcome(eager, raced),
{
    match eager {
        Ok(v) => Ok(v),
        Err(e) => match raced {
            Some(outcome) => outcome,
            None => Err(e),
        },
    }
}

/// What a whole probe resolves to across its two tiers.
pub enum ProbeResolution<T, E> {
    /// Some candidate of some tier answered.
    Found(T),
    /// Both tiers raced and the second tier's last-completed failure
    /// survives; the first tier's failures are discarded.
    Exhausted(E),
    /// The second tier raced no domains at all.
    NoDomains,
}

/// The two-tier fallback: the first tier's success is taken as is; any
/// first-tier failure is discarded and the second tier decides, its own
/// race result passed through; with no domains to race there is a distinct
/// "no domains supplied" resolution.
pub open spec fn two_tier_outcome<T, E>(
    first: Option<Result<T, E>>,
    second: Option<Result<T, E>>,
) -> ProbeResolution<T, E> {
    match first {
        Some(Ok(v)) => ProbeResolution::Found(v),
        _ => match second {
            Some(Ok(v)) => ProbeResolution::Found(v),
            Some(Err(e)) => ProbeResolution::Exhausted(e),
            None => ProbeResolution::NoDomains,
        },
    }
}

/// Exec mirror of [`two_tier_outcome`].
pub fn resolve_two_tier<T, E>(first: Option<Result<T, E>>, second: Option<Result<T, E>>) -> (r:
    ProbeResolution<T, E>)
    ensures
        r == two_tier_outcome(first, second),
{
    match first {
        Some(Ok(v)) => ProbeResolution::Found(v),
        _ => match second {
            Some(Ok(v)) => ProbeResolution::Found(v),
            Some(Err(e)) => ProbeResolution::Exhausted(e),
            None => ProbeResolution::NoDomains,
        },
    }
}

} // verus!
