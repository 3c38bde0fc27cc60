//! Instants on the UTC time line, as whole nanoseconds since the Unix epoch.

use vstd::prelude::*;

verus! {

/// Nanoseconds in one second.
pub const NANOS_PER_SECOND: i128 = 1_000_000_000;

/// An instant, counted in nanoseconds from 1970-01-01T00:00:00Z.
#[derive(Clone, Copy, Debug, PartialEq, Eq, Structural)]
pub struct Time {
    pub nanos: i128,
}

impl DeepView for Time {
    type V = Time;

    open spec fn deep_view(&self) -> Time {
        *self
    }
}

/// Reads the clock with `chrono::Utc::now` and hands out the reading as
/// `DateTime::timestamp` and `DateTime::timestamp_subsec_nanos` give it: whole
/// seconds since the epoch, and the nanoseconds past that second. Nothing is
/// claimed of the reading. `Utc::now` does not return on a machine whose clock
/// stands before the epoch.
#[verifier::external_body]
fn read_clock() -> (parts: (i64, u32)) {
    let now = chrono::Utc::now();
    (now.timestamp(), now.timestamp_subsec_nanos())
}

impl Time {
    /// The instant `secs` whole seconds and `subsec_nanos` nanoseconds after
    /// the epoch.
    pub fn from_parts(secs: i64, subsec_nanos: u32) -> (t: Time)
        ensures
            t.nanos == secs * NANOS_PER_SECOND + subsec_nanos,
    {
        let s: i128 = secs as i128;
        let n: i128 = subsec_nanos as i128;
        Time { nanos: s * NANOS_PER_SECOND + n }
    }

    /// The whole seconds from the epoch to the instant, rounded down, and
    /// the nanoseconds from that second to the instant. An instant further
    /// from the epoch than seconds can be counted gives the first or the
    /// last second that can.
    pub open spec fn parts(self) -> (i64, u32) {
        let secs = (self.nanos as int) / (NANOS_PER_SECOND as int);
        let rest = (self.nanos as int) % (NANOS_PER_SECOND as int);
        if secs < i64::MIN {
            (i64::MIN, 0)
        } else if secs > i64::MAX {
            (i64::MAX, 999_999_999)
        } else {
            (secs as i64, rest as u32)
        }
    }

    /// Splits the instant into whole seconds since the epoch and the
    /// nanoseconds past that second.
    pub fn to_parts(&self) -> (r: (i64, u32))
        ensures
            r == self.parts(),
            r.1 < NANOS_PER_SECOND,
            i64::MIN * NANOS_PER_SECOND <= self.nanos < (i64::MAX + 1) * NANOS_PER_SECOND
                ==> self.nanos == r.0 * NANOS_PER_SECOND + r.1,
    {
        let low: i128 = (i64::MIN as i128) * NANOS_PER_SECOND;
        let high: i128 = (i64::MAX as i128 + 1) * NANOS_PER_SECOND;
        if self.nanos < low {
            assert((self.nanos as int) / 1_000_000_000 < i64::MIN);
            (i64::MIN, 0)
        } else if self.nanos >= high {
            assert((self.nanos as int) / 1_000_000_000 > i64::MAX);
            (i64::MAX, 999_999_999)
        } else {
            // Division rounds towards zero; below the epoch the quotient is
            // taken down by one where there is a remainder.
            let quotient: i128 = self.nanos / NANOS_PER_SECOND;
            let remainder: i128 = self.nanos % NANOS_PER_SECOND;
            if remainder < 0 {
                let secs: i128 = quotient - 1;
                let rest: i128 = remainder + NANOS_PER_SECOND;
                assert(self.nanos == secs * 1_000_000_000 + rest);
                assert((self.nanos as int) / 1_000_000_000 == secs && (self.nanos as int)
                    % 1_000_000_000 == rest) by {
                    vstd::arithmetic::div_mod::lemma_fundamental_div_mod_converse(
                        self.nanos as int,
                        1_000_000_000,
                        secs as int,
                        rest as int,
                    );
                }
                (secs as i64, rest as u32)
            } else {
                assert(self.nanos == quotient * 1_000_000_000 + remainder);
                assert((self.nanos as int) / 1_000_000_000 == quotient && (self.nanos as int)
                    % 1_000_000_000 == remainder) by {
                    vstd::arithmetic::div_mod::lemma_fundamental_div_mod_converse(
                        self.nanos as int,
                        1_000_000_000,
                        quotient as int,
                        remainder as int,
                    );
                }
                (quotient as i64, remainder as u32)
            }
        }
    }

    /// The instant that the system clock reads, in seconds and nanoseconds.
    pub fn now() -> (t: Time)
        ensures
            exists|secs: i64, subsec_nanos: u32| t == #[trigger] Time::of_parts(secs, subsec_nanos),
    {
        let parts = read_clock();
        let t = Time::from_parts(parts.0, parts.1);
        assert(t == Time::of_parts(parts.0, parts.1));
        t
    }

    /// Tells whether `self` is strictly earlier than `other`.
    pub fn earlier(&self, other: &Time) -> (r: bool)
        ensures
            r == (self.nanos < other.nanos),
    {
        self.nanos < other.nanos
    }

    /// The instant `secs` whole seconds and `subsec_nanos` nanoseconds after
    /// the epoch.
    pub open spec fn of_parts(secs: i64, subsec_nanos: u32) -> Time {
        Time { nanos: (secs * NANOS_PER_SECOND + subsec_nanos) as i128 }
    }
}

} // verus!
