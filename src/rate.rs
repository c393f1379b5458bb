//! Counter-to-rate engine: turns a monotonically increasing counter into a
//! per-second rate, safe against counter resets and clocks that stand still.

use vstd::prelude::*;

verus! {

pub const NANOS_PER_SEC: u64 = 1000000000;

/// Largest rate reported: rates are emitted as signed 64-bit integers.
pub const RATE_CAP: u64 = 9223372036854775807;

/// Counter growth between two readings; a decrease counts as a reset and gives 0.
pub open spec fn counter_delta(previous: nat, current: nat) -> nat {
    if current >= previous {
        (current - previous) as nat
    } else {
        0
    }
}

pub open spec fn cap_rate(r: nat) -> nat {
    if r > RATE_CAP {
        RATE_CAP as nat
    } else {
        r
    }
}

/// Whole units per second for `delta` units over `elapsed_ns` nanoseconds.
pub open spec fn per_second(delta: nat, elapsed_ns: nat) -> nat
    recommends
        elapsed_ns > 0,
{
    cap_rate(((delta * NANOS_PER_SEC) as int / elapsed_ns as int) as nat)
}

/// Rate of `delta` units over `elapsed_ns` nanoseconds, rounded down.
pub fn rate_per_second(delta: u64, elapsed_ns: u64) -> (r: u64)
    requires
        elapsed_ns > 0,
    ensures
        r == per_second(delta as nat, elapsed_ns as nat),
        r <= RATE_CAP,
{
    let scaled: u128 = delta as u128 * NANOS_PER_SEC as u128;
    let q: u128 = scaled / elapsed_ns as u128;
    if q > RATE_CAP as u128 {
        RATE_CAP
    } else {
        q as u64
    }
}

/// The last reading of one counter family and when it was taken
/// (nanoseconds on a monotonic clock).
pub struct RateWindow {
    pub previous: Option<(u64, u64)>,
}

impl RateWindow {
    /// The window after observing `value` at `now`, and the rate it yields.
    pub open spec fn step(self, value: u64, now: u64) -> (RateWindow, Option<u64>) {
        match self.previous {
            None => (RateWindow { previous: Some((value, now)) }, None),
            Some((pv, pt)) => {
                if now <= pt {
                    (self, None)
                } else {
                    (
                        RateWindow { previous: Some((value, now)) },
                        Some(
                            per_second(
                                counter_delta(pv as nat, value as nat),
                                (now - pt) as nat,
                            ) as u64,
                        ),
                    )
                }
            },
        }
    }

    pub fn new() -> (r: Self)
        ensures
            r.previous is None,
    {
        RateWindow { previous: None }
    }

    /// Records `value` read at `now` and returns the per-second rate since the
    /// previous reading, if there is one and time has moved forward.
    pub fn observe(&mut self, value: u64, now: u64) -> (r: Option<u64>)
        ensures
            (*final(self), r) == old(self).step(value, now),
    {
        match self.previous {
            None => {
                self.previous = Some((value, now));
                None
            },
            Some((pv, pt)) => {
                if now <= pt {
                    None
                } else {
                    let delta = value.saturating_sub(pv);
                    let r = rate_per_second(delta, now - pt);
                    self.previous = Some((value, now));
                    Some(r)
                }
            },
        }
    }
}

/// A window that holds no reading yields no rate on its first observation.
pub proof fn lemma_first_observation_has_no_rate(w: RateWindow, value: u64, now: u64)
    requires
        w.previous is None,
    ensures
        w.step(value, now).1 is None,
        w.step(value, now).0.previous == Some((value, now)),
{
}

/// Once a reading is held and time moves forward, a rate comes out; it is the
/// counter's growth per second, never above the cap.
pub proof fn lemma_rate_after_positive_interval(
    w: RateWindow,
    previous_value: u64,
    previous_time: u64,
    value: u64,
    now: u64,
)
    requires
        w.previous == Some((previous_value, previous_time)),
        now > previous_time,
    ensures
        w.step(value, now).1 == Some(
            per_second(counter_delta(previous_value as nat, value as nat), (now - previous_time) as nat) as u64,
        ),
        w.step(value, now).1.unwrap() <= RATE_CAP,
{
}

/// A counter that went down between two readings (a device reset) yields a
/// rate of exactly zero.
pub proof fn lemma_counter_reset_gives_zero(
    w: RateWindow,
    previous_value: u64,
    previous_time: u64,
    value: u64,
    now: u64,
)
    requires
        w.previous == Some((previous_value, previous_time)),
        now > previous_time,
        value < previous_value,
    ensures
        w.step(value, now).1 == Some(0u64),
{
    let e: int = now - previous_time;
    assert(0int * NANOS_PER_SEC / e == 0) by (nonlinear_arith)
        requires
            e > 0,
    ;
}

/// A clock that did not move forward yields no rate and leaves the window as it was.
pub proof fn lemma_stalled_clock_keeps_window(w: RateWindow, value: u64, now: u64)
    requires
        w.previous is Some,
        now <= w.previous.unwrap().1,
    ensures
        w.step(value, now) == (w, Option::<u64>::None),
{
}

} // verus!
