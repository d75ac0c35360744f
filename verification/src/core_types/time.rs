//! Time types. Execution logic runs on logical time; wall-clock values are
//! metadata only.
use vstd::prelude::*;

verus! {

/// Nanoseconds in one second.
pub const NANOS_PER_SEC: u32 = 1_000_000_000;

/// Logical time: a monotonically increasing counter.
#[derive(Debug, Clone, Copy, PartialEq, Eq, Hash, PartialOrd, Ord, Structural)]
pub struct LogicalTime {
    value: u64,
}

impl View for LogicalTime {
    type V = nat;

    closed spec fn view(&self) -> nat {
        self.value as nat
    }
}

impl LogicalTime {
    /// The logical time zero.
    pub fn zero() -> (t: Self)
        ensures
            t@ == 0,
    {
        LogicalTime { value: 0 }
    }

    /// Builds a logical time from its raw counter.
    pub fn from_raw(value: u64) -> (t: Self)
        ensures
            t@ == value,
    {
        LogicalTime { value }
    }

    /// The raw counter.
    pub fn as_u64(&self) -> (v: u64)
        ensures
            v == self@,
    {
        self.value
    }

    /// Advances the time by one tick.
    pub fn increment(&mut self)
        requires
            old(self)@ < u64::MAX,
        ensures
            final(self)@ == old(self)@ + 1,
    {
        self.value = self.value + 1;
    }

    /// The time one tick later; `self` is left unchanged.
    pub fn incremented(&self) -> (t: Self)
        requires
            self@ < u64::MAX,
        ensures
            t@ == self@ + 1,
    {
        LogicalTime { value: self.value + 1 }
    }

    /// Advances the time by `n` ticks.
    pub fn advance(&mut self, n: u64)
        requires
            old(self)@ + n <= u64::MAX,
        ensures
            final(self)@ == old(self)@ + n,
    {
        self.value = self.value + n;
    }

    /// The time `n` ticks later, stopping at the largest representable time.
    pub fn saturating_add(&self, n: u64) -> (t: Self)
        ensures
            t@ == if self@ + n <= u64::MAX { (self@ + n) as nat } else { u64::MAX as nat },
    {
        LogicalTime { value: self.value.saturating_add(n) }
    }

    /// Rendering as `T<counter>`.
    pub fn to_string(&self) -> (s: String)
        ensures
            s@ == seq!['T'] + crate::core_types::text::spec_u64_decimal(self@ as u64),
    {
        proof {
            reveal_strlit("T");
        }
        let mut s = String::new();
        s.append("T");
        let digits = crate::core_types::text::u64_to_decimal(self.value);
        s.append(digits.as_str());
        s
    }
}

impl Default for LogicalTime {
    fn default() -> (t: Self)
        ensures
            t@ == 0,
    {
        LogicalTime { value: 0 }
    }
}


/// Wall-clock timestamp: metadata only, never used by execution logic.
#[derive(Debug, Clone, Copy, PartialEq, Eq, Hash, PartialOrd, Ord, Structural)]
pub struct Timestamp {
    pub seconds: u64,
    pub nanos: u32,
}

/// Nanoseconds of `a - b`, borrowing one second when `a < b`, as the
/// unsigned 32-bit value the subtraction leaves.
pub open spec fn spec_nanos_diff(a: u32, b: u32) -> u32 {
    if a >= b {
        (a - b) as u32
    } else {
        (a - b + NANOS_PER_SEC) as u32
    }
}

impl Timestamp {
    /// A timestamp from seconds and nanoseconds.
    pub fn new(seconds: u64, nanos: u32) -> (t: Self)
        ensures
            t.seconds == seconds,
            t.nanos == nanos,
    {
        Timestamp { seconds, nanos }
    }

    /// The timestamp in whole milliseconds.
    pub fn as_millis(&self) -> (m: u128)
        ensures
            m == self.seconds * 1000 + self.nanos / 1_000_000,
    {
        (self.seconds as u128) * 1000 + (self.nanos as u128) / 1_000_000
    }

    /// The duration since `earlier`; the seconds stop at zero.
    pub fn duration_since(&self, earlier: &Timestamp) -> (d: Duration)
        ensures
            d.seconds == (if self.nanos >= earlier.nanos {
                if self.seconds >= earlier.seconds { self.seconds - earlier.seconds } else { 0 }
            } else {
                if self.seconds >= earlier.seconds + 1 { self.seconds - earlier.seconds - 1 } else { 0 }
            }),
            d.nanos == spec_nanos_diff(self.nanos, earlier.nanos),
    {
        let mut seconds = self.seconds.saturating_sub(earlier.seconds);
        let mut nanos: i64 = self.nanos as i64 - earlier.nanos as i64;
        if nanos < 0 {
            seconds = seconds.saturating_sub(1);
            nanos = nanos + NANOS_PER_SEC as i64;
        }
        Duration { seconds, nanos: nanos as u32 }
    }

    /// The timestamp `duration` later, carrying whole seconds out of the
    /// nanoseconds.
    pub fn add(&self, duration: &Duration) -> (t: Timestamp)
        requires
            self.nanos + duration.nanos <= u32::MAX,
            self.seconds + duration.seconds + (if self.nanos + duration.nanos >= NANOS_PER_SEC {
                1int
            } else {
                0int
            }) <= u64::MAX,
        ensures
            t.seconds == self.seconds + duration.seconds + (if self.nanos + duration.nanos
                >= NANOS_PER_SEC { 1int } else { 0int }),
            t.nanos == (if self.nanos + duration.nanos >= NANOS_PER_SEC {
                self.nanos + duration.nanos - NANOS_PER_SEC
            } else {
                self.nanos + duration.nanos
            }),
    {
        let nanos = self.nanos + duration.nanos;
        if nanos >= NANOS_PER_SEC {
            Timestamp { seconds: self.seconds + duration.seconds + 1, nanos: nanos - NANOS_PER_SEC }
        } else {
            Timestamp { seconds: self.seconds + duration.seconds, nanos }
        }
    }

    /// Rendering as `<seconds>.<nanos padded to nine digits>`.
    pub fn to_string(&self) -> (s: String)
        ensures
            s@ == crate::core_types::text::spec_u64_decimal(self.seconds) + seq!['.']
                + crate::core_types::text::spec_decimal_padded(self.nanos as nat, 9),
    {
        proof {
            reveal_strlit(".");
        }
        let mut s = crate::core_types::text::u64_to_decimal(self.seconds);
        s.append(".");
        let frac = crate::core_types::text::u64_to_decimal_padded(self.nanos as u64, 9);
        s.append(frac.as_str());
        s
    }
}

/// A span between two timestamps.
#[derive(Debug, Clone, Copy, PartialEq, Eq, Hash, PartialOrd, Ord, Structural)]
pub struct Duration {
    pub seconds: u64,
    pub nanos: u32,
}

impl Duration {
    /// A duration from seconds and nanoseconds.
    pub fn new(seconds: u64, nanos: u32) -> (d: Self)
        ensures
            d.seconds == seconds,
            d.nanos == nanos,
    {
        Duration { seconds, nanos }
    }

    /// The empty duration.
    pub fn zero() -> (d: Self)
        ensures
            d.seconds == 0,
            d.nanos == 0,
    {
        Duration { seconds: 0, nanos: 0 }
    }

    /// A duration of whole seconds.
    pub fn from_secs(seconds: u64) -> (d: Self)
        ensures
            d.seconds == seconds,
            d.nanos == 0,
    {
        Duration { seconds, nanos: 0 }
    }

    /// A duration of `millis` milliseconds.
    pub fn from_millis(millis: u64) -> (d: Self)
        ensures
            d.seconds == millis / 1000,
            d.nanos == (millis % 1000) * 1_000_000,
    {
        let rem = millis % 1000;
        Duration { seconds: millis / 1000, nanos: (rem * 1_000_000) as u32 }
    }

    /// Whole seconds.
    pub fn as_secs(&self) -> (s: u64)
        ensures
            s == self.seconds,
    {
        self.seconds
    }

    /// Total whole milliseconds.
    pub fn as_millis(&self) -> (m: u128)
        ensures
            m == self.seconds * 1000 + self.nanos / 1_000_000,
    {
        (self.seconds as u128) * 1000 + (self.nanos as u128) / 1_000_000
    }

    /// Total whole microseconds.
    pub fn as_micros(&self) -> (m: u128)
        ensures
            m == self.seconds * 1_000_000 + self.nanos / 1000,
    {
        (self.seconds as u128) * 1_000_000 + (self.nanos as u128) / 1000
    }

    /// Total nanoseconds.
    pub fn as_nanos(&self) -> (m: u128)
        ensures
            m == self.seconds * 1_000_000_000 + self.nanos,
    {
        (self.seconds as u128) * 1_000_000_000 + (self.nanos as u128)
    }

    /// Sum of two durations; the seconds stop at `u64::MAX`.
    pub fn saturating_add(&self, other: &Duration) -> (d: Duration)
        requires
            self.nanos + other.nanos <= u32::MAX,
        ensures
            ({
                let carry: int = if self.nanos + other.nanos >= NANOS_PER_SEC { 1 } else { 0 };
                &&& d.seconds == (if self.seconds + other.seconds + carry <= u64::MAX {
                    self.seconds + other.seconds + carry
                } else {
                    u64::MAX as int
                })
                &&& d.nanos == self.nanos + other.nanos - carry * NANOS_PER_SEC
            }),
    {
        let mut seconds = self.seconds.saturating_add(other.seconds);
        let mut nanos = self.nanos + other.nanos;
        if nanos >= NANOS_PER_SEC {
            seconds = seconds.saturating_add(1);
            nanos = nanos - NANOS_PER_SEC;
        }
        Duration { seconds, nanos }
    }

    /// Rendering: `0s`, `<n>ns`, `<n>s` or `<s>.<nanos padded to nine>s`.
    pub fn to_string(&self) -> (s: String)
        ensures
            s@ == (if self.seconds == 0 && self.nanos == 0 {
                seq!['0', 's']
            } else if self.seconds == 0 {
                crate::core_types::text::spec_decimal(self.nanos as nat) + seq!['n', 's']
            } else if self.nanos == 0 {
                crate::core_types::text::spec_u64_decimal(self.seconds) + seq!['s']
            } else {
                crate::core_types::text::spec_u64_decimal(self.seconds) + seq!['.']
                    + crate::core_types::text::spec_decimal_padded(self.nanos as nat, 9) + seq!['s']
            }),
    {
        proof {
            reveal_strlit("0s");
            reveal_strlit("ns");
            reveal_strlit("s");
            reveal_strlit(".");
        }
        if self.seconds == 0 && self.nanos == 0 {
            let mut s = String::new();
            s.append("0s");
            s
        } else if self.seconds == 0 {
            let mut s = crate::core_types::text::u64_to_decimal(self.nanos as u64);
            s.append("ns");
            s
        } else if self.nanos == 0 {
            let mut s = crate::core_types::text::u64_to_decimal(self.seconds);
            s.append("s");
            s
        } else {
            let mut s = crate::core_types::text::u64_to_decimal(self.seconds);
            s.append(".");
            let frac = crate::core_types::text::u64_to_decimal_padded(self.nanos as u64, 9);
            s.append(frac.as_str());
            s.append("s");
            s
        }
    }
}

impl Default for Duration {
    fn default() -> (d: Self)
        ensures
            d.seconds == 0,
            d.nanos == 0,
    {
        Duration { seconds: 0, nanos: 0 }
    }
}

/// The time since the Unix epoch: whole seconds and the nanoseconds past
/// them.
///
/// Calls `SystemTime::now` and `duration_since(UNIX_EPOCH)`, read with
/// `as_secs` and `subsec_nanos`; a clock set before the epoch reads as zero.
/// The value depends on the clock: the contract states only that the
/// nanoseconds are below one second, as `subsec_nanos` documents.
#[verifier::external_body]
pub(crate) fn system_time_parts() -> (r: (u64, u32))
    ensures
        r.1 < NANOS_PER_SEC,
{
    let d = std::time::SystemTime::now().duration_since(std::time::UNIX_EPOCH).unwrap_or(std::time::Duration::ZERO);
    (d.as_secs(), d.subsec_nanos())
}

/// The whole milliseconds since the Unix epoch, cut to 64 bits.
pub(crate) fn system_time_millis() -> (t: u64) {
    let (secs, nanos) = system_time_parts();
    (((secs as u128) * 1000 + (nanos as u128) / 1_000_000) as u64)
}

impl Timestamp {
    /// The current wall-clock time, for metadata.
    pub fn now() -> (t: Self)
        ensures
            t.nanos < NANOS_PER_SEC,
    {
        let (seconds, nanos) = system_time_parts();
        Timestamp { seconds, nanos }
    }
}

} // verus!
