//! Spans of time as plain values.

use vstd::prelude::*;

verus! {

/// A span of time: whole seconds and the nanoseconds beyond them.
#[derive(Clone, Copy, Debug, PartialEq, Eq, Structural, Hash)]
pub struct Duration {
    pub secs: u64,
    pub nanos: u32,
}

/// The text that the `Debug` formatting of `std::time::Duration` gives for
/// `secs` seconds and `nanos` nanoseconds.
pub uninterp spec fn duration_debug(secs: u64, nanos: u32) -> Seq<char>;

/// Formats a span with the `Debug` implementation of `std::time::Duration`,
/// which depends on the span alone. `Duration::new` panics where the carry of
/// the nanoseconds overflows the seconds, so only normalised values are taken.
#[verifier::external_body]
fn std_duration_debug(secs: u64, nanos: u32) -> (s: String)
    requires
        nanos < 1_000_000_000,
    ensures
        s@ == duration_debug(secs, nanos),
{
    format!("{:?}", std::time::Duration::new(secs, nanos))
}

impl Duration {
    /// The nanoseconds stay below one second.
    pub open spec fn wf(self) -> bool {
        self.nanos < 1_000_000_000
    }

    /// The whole span in nanoseconds.
    pub open spec fn total_nanos(self) -> nat {
        self.secs as nat * 1_000_000_000 + self.nanos as nat
    }

    /// The whole span in milliseconds, rounded down.
    pub open spec fn total_millis(self) -> nat {
        self.secs as nat * 1000 + self.nanos as nat / 1_000_000
    }

    /// `secs` seconds.
    pub fn from_secs(secs: u64) -> (d: Duration)
        ensures
            d == (Duration { secs, nanos: 0 }),
            d.wf(),
    {
        Duration { secs, nanos: 0 }
    }

    /// `millis` milliseconds.
    pub fn from_millis(millis: u64) -> (d: Duration)
        ensures
            d.wf(),
            d.total_nanos() == millis * 1_000_000,
            d.total_millis() == millis,
    {
        Duration { secs: millis / 1000, nanos: ((millis % 1000) * 1_000_000) as u32 }
    }

    /// The whole span in milliseconds, rounded down.
    pub fn as_millis(&self) -> (n: u128)
        ensures
            n == self.total_millis(),
    {
        self.secs as u128 * 1000 + (self.nanos / 1_000_000) as u128
    }

    /// The whole span in nanoseconds.
    pub fn as_nanos(&self) -> (n: u128)
        ensures
            n == self.total_nanos(),
    {
        self.secs as u128 * 1_000_000_000 + self.nanos as u128
    }

    /// The span of so many nanoseconds.
    pub fn from_nanos(n: u128) -> (d: Duration)
        requires
            n < 0x1_0000_0000_0000_0000u128 * 1_000_000_000,
        ensures
            d.wf(),
            d.total_nanos() == n,
    {
        let secs: u128 = n / 1_000_000_000;
        Duration { secs: secs as u64, nanos: (n % 1_000_000_000) as u32 }
    }

    /// The whole seconds.
    pub fn as_secs(&self) -> (n: u64)
        ensures
            n == self.secs,
    {
        self.secs
    }

    /// The whole span in milliseconds, at most `u64::MAX`.
    pub fn millis_clamped(&self) -> (n: u64)
        ensures
            n == (if self.total_millis() <= u64::MAX {
                self.total_millis() as int
            } else {
                u64::MAX as int
            }),
    {
        let n: u128 = self.as_millis();
        if n <= 0xffff_ffff_ffff_ffffu128 {
            n as u64
        } else {
            u64::MAX
        }
    }

    /// Whether the span is empty.
    pub fn is_zero(&self) -> (r: bool)
        ensures
            r == (self.secs == 0 && self.nanos == 0),
    {
        self.secs == 0 && self.nanos == 0
    }

    /// The text that logs and errors show for the span.
    pub fn to_text(&self) -> (s: String)
        requires
            self.wf(),
        ensures
            s@ == duration_debug(self.secs, self.nanos),
    {
        std_duration_debug(self.secs, self.nanos)
    }
}

} // verus!
