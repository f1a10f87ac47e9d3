//! Monotonic clock: the single authoritative time base.
//!
//! The hardware counter is a fixed-width register that wraps; the clock
//! extends it to a monotone 64-bit instant by accumulating wraparound-safe
//! differences between successive raw readings. Callers hand each new raw
//! reading to `advance`; the extended instant never moves backward.

use vstd::prelude::*;

verus! {

/// One more than the largest raw counter value: the width the hardware
/// counter wraps at.
pub const RAW_WRAP: u64 = 0x1_0000_0000;

/// Ticks elapsed from raw reading `prev` to raw reading `raw`, taking one
/// wrap of the fixed-width counter into account.
pub open spec fn raw_elapsed(prev: u32, raw: u32) -> int {
    if raw >= prev {
        raw - prev
    } else {
        RAW_WRAP - prev + raw
    }
}

/// Monotone extended time base over a wrapping hardware counter.
pub struct MonotonicClock {
    ticks: u64,
    last_raw: u32,
}

impl MonotonicClock {
    /// The current extended instant, in counter ticks since construction.
    pub closed spec fn spec_now(self) -> u64 {
        self.ticks
    }

    /// The raw counter reading the clock last saw.
    pub closed spec fn spec_last_raw(self) -> u32 {
        self.last_raw
    }

    /// Starts the time base at instant zero from the counter's current raw
    /// reading.
    pub fn new(raw: u32) -> (c: MonotonicClock)
        ensures
            c.spec_now() == 0,
            c.spec_last_raw() == raw,
    {
        MonotonicClock { ticks: 0, last_raw: raw }
    }

    /// The current instant.
    pub fn now(&self) -> (t: u64)
        ensures
            t == self.spec_now(),
    {
        self.ticks
    }

    /// Folds a fresh raw counter reading into the extended instant. At most
    /// one counter wrap may have happened since the previous reading; the
    /// instant advances by the wraparound-safe difference and never moves
    /// backward.
    pub fn advance(&mut self, raw: u32) -> (t: u64)
        requires
            old(self).spec_now() + RAW_WRAP <= u64::MAX,
        ensures
            final(self).spec_now() == old(self).spec_now() + raw_elapsed(
                old(self).spec_last_raw(),
                raw,
            ),
            final(self).spec_last_raw() == raw,
            final(self).spec_now() >= old(self).spec_now(),
            t == final(self).spec_now(),
    {
        let elapsed: u64 = if raw >= self.last_raw {
            (raw - self.last_raw) as u64
        } else {
            RAW_WRAP - (self.last_raw as u64) + (raw as u64)
        };
        self.ticks = self.ticks + elapsed;
        self.last_raw = raw;
        self.ticks
    }
}

} // verus!
