//! Adaptive round-trip estimation and the timeouts derived from it.

use vstd::prelude::*;

verus! {

/// Lower bound of every transfer timeout, in milliseconds.
pub const MIN_TIMEOUT: u64 = 500;

/// Timeout used when no round-trip is known yet, in milliseconds.
pub const MAX_TIMEOUT: u64 = 10000;

/// Pause between two polls of a transfer loop, in milliseconds.
pub const TRANSFER_LOOP_INTERVAL: u64 = 10;

/// Most symbols sent in one wave before progress is checked.
pub const MAX_TRANSFER_WAVE: u32 = 10;

/// The timeout for a round-trip estimate: the estimate itself, never below
/// `MIN_TIMEOUT`; `MAX_TIMEOUT` when there is none.
pub open spec fn timeout_for(roundtrip: Option<u64>) -> int {
    match roundtrip {
        Some(r) => if r >= MIN_TIMEOUT { r as int } else { MIN_TIMEOUT as int },
        None => MAX_TIMEOUT as int,
    }
}

/// The round-trip estimate after a measurement of `elapsed_ms`: the
/// measurement itself for a zero estimate, else the estimate plus half of it.
pub open spec fn next_roundtrip(roundtrip: u64, elapsed_ms: u64) -> int {
    if roundtrip == 0 {
        elapsed_ms as int
    } else {
        roundtrip + elapsed_ms / 2
    }
}

/// Whether `elapsed_ms` exceeds `timeout` stretched by `updates` percent.
pub open spec fn timed_out(elapsed_ms: u64, timeout: u64, updates: u32) -> bool {
    elapsed_ms > timeout + timeout * updates / 100
}

pub fn calc_timeout(roundtrip: Option<u64>) -> (r: u64)
    ensures
        r == timeout_for(roundtrip),
{
    match roundtrip {
        Some(r) => if r >= MIN_TIMEOUT { r } else { MIN_TIMEOUT },
        None => MAX_TIMEOUT,
    }
}

/// Folds a measured round-trip into the estimate and returns the new timeout.
pub fn update_roundtrip(roundtrip: &mut u64, elapsed_ms: u64) -> (timeout: u64)
    requires
        next_roundtrip(*old(roundtrip), elapsed_ms) <= u64::MAX,
    ensures
        *final(roundtrip) == next_roundtrip(*old(roundtrip), elapsed_ms),
        timeout == timeout_for(Some(*final(roundtrip))),
{
    if *roundtrip == 0 {
        *roundtrip = elapsed_ms;
    } else {
        *roundtrip = *roundtrip + elapsed_ms / 2;
    }
    calc_timeout(Some(*roundtrip))
}

pub fn is_timed_out(elapsed_ms: u64, timeout: u64, updates: u32) -> (r: bool)
    ensures
        r == timed_out(elapsed_ms, timeout, updates),
{
    let t = timeout as u128;
    assert(t * (updates as u128) <= 0xffff_ffff_ffff_ffffu128 * 0xffff_ffffu128) by (nonlinear_arith)
        requires t <= 0xffff_ffff_ffff_ffffu128, updates <= 0xffff_ffffu32;
    (elapsed_ms as u128) > t + t * (updates as u128) / 100
}

/// The round-trip reported after a stalled send: twice the estimate, capped
/// at `MAX_TIMEOUT`.
pub fn stalled_roundtrip(roundtrip: u64) -> (r: u64)
    ensures
        r == if 2 * roundtrip <= MAX_TIMEOUT { 2 * roundtrip } else { MAX_TIMEOUT as int },
{
    if roundtrip <= MAX_TIMEOUT / 2 {
        roundtrip * 2
    } else {
        MAX_TIMEOUT
    }
}

/// Every timeout is at least `MIN_TIMEOUT`, and no estimate gives `MAX_TIMEOUT`.
pub proof fn lemma_timeout_floor(roundtrip: Option<u64>)
    ensures
        timeout_for(roundtrip) >= MIN_TIMEOUT,
        timeout_for(None) == MAX_TIMEOUT,
{
}

/// From a zero estimate, a first measurement `e` becomes the estimate and a
/// second measurement `e2` adds half of itself (a first measurement of zero
/// leaves the estimate at zero, so the second one would replace it).
pub proof fn lemma_roundtrip_from_zero(e: u64, e2: u64)
    requires
        e > 0,
        e + e2 / 2 <= u64::MAX,
    ensures
        next_roundtrip(0, e) == e,
        next_roundtrip(e, e2) == e + e2 / 2,
{
}

/// The timeout test is `elapsed > timeout * (1 + updates / 100)` in exact
/// arithmetic, and is monotone in the number of updates: more updates never
/// make it fire where fewer did not.
pub proof fn lemma_timed_out_scaling(elapsed_ms: u64, timeout: u64, u1: u32, u2: u32)
    requires
        u1 <= u2,
    ensures
        timed_out(elapsed_ms, timeout, u1) <==> 100 * elapsed_ms > timeout * (100 + u1),
        timed_out(elapsed_ms, timeout, u2) ==> timed_out(elapsed_ms, timeout, u1),
{
    let e = elapsed_ms as int;
    let t = timeout as int;
    let a = u1 as int;
    let b = u2 as int;
    assert(e > t + (t * a) / 100 <==> 100 * e > t * (100 + a)) by (nonlinear_arith)
        requires t >= 0, a >= 0;
    assert(t * a <= t * b) by (nonlinear_arith) requires t >= 0, a <= b;
    assert((t * a) / 100 <= (t * b) / 100) by (nonlinear_arith) requires t * a <= t * b;
}

} // verus!
