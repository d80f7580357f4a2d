//! A span of time at microsecond resolution.

use vstd::prelude::*;

verus! {

/// Microseconds in one second.
pub const MICROS_PER_SEC: u64 = 1_000_000;

/// A non-negative span of time: whole seconds and a sub-second part in
/// microseconds. Its view is the whole span in microseconds.
#[derive(Clone, Copy, Debug, PartialEq, Eq, Structural)]
pub struct Duration {
    secs: u64,
    micros: u32,
}

impl View for Duration {
    type V = nat;

    closed spec fn view(&self) -> nat {
        (self.secs * 1_000_000 + self.micros) as nat
    }
}

impl Duration {
    #[verifier::type_invariant]
    spec fn well_formed(self) -> bool {
        self.micros < 1_000_000
    }

    /// The largest span that can be held, in microseconds.
    pub open spec fn max_micros() -> nat {
        (u64::MAX as nat) * 1_000_000 + 999_999
    }

    /// The empty span.
    pub fn zero() -> (d: Duration)
        ensures
            d@ == 0,
    {
        Duration { secs: 0, micros: 0 }
    }

    /// A span of `secs` seconds and `micros` microseconds, where `micros`
    /// is less than one second; `None` where it is not.
    pub fn new(secs: u64, micros: u32) -> (d: Option<Duration>)
        ensures
            micros < 1_000_000 ==> d.is_some() && d.unwrap()@ == secs * 1_000_000 + micros,
            micros >= 1_000_000 ==> d.is_none(),
    {
        if micros < 1_000_000 {
            Some(Duration { secs, micros })
        } else {
            None
        }
    }

    /// A span of `secs` seconds and `micros` microseconds.
    pub(crate) fn from_parts(secs: u64, micros: u32) -> (d: Duration)
        requires
            micros < 1_000_000,
        ensures
            d@ == secs * 1_000_000 + micros,
    {
        Duration { secs, micros }
    }

    /// The sum of two spans that is no longer than the longest span that
    /// can be held.
    pub(crate) fn plus(self, other: Duration) -> (sum: Duration)
        requires
            self@ + other@ <= Self::max_micros(),
        ensures
            sum@ == self@ + other@,
    {
        proof {
            use_type_invariant(&self);
            use_type_invariant(&other);
        }
        let low: u32 = self.micros + other.micros;
        if low >= 1_000_000 {
            Duration { secs: self.secs + other.secs + 1, micros: low - 1_000_000 }
        } else {
            Duration { secs: self.secs + other.secs, micros: low }
        }
    }

    /// A span of whole seconds.
    pub fn from_secs(secs: u64) -> (d: Duration)
        ensures
            d@ == secs * 1_000_000,
    {
        Duration { secs, micros: 0 }
    }

    /// A span of whole milliseconds.
    pub fn from_millis(millis: u64) -> (d: Duration)
        ensures
            d@ == millis * 1_000,
    {
        let secs: u64 = millis / 1_000;
        let rest: u64 = millis % 1_000;
        Duration { secs, micros: (rest * 1_000) as u32 }
    }

    /// A span of whole microseconds.
    pub fn from_micros(micros: u64) -> (d: Duration)
        ensures
            d@ == micros,
    {
        let secs: u64 = micros / MICROS_PER_SEC;
        let rest: u64 = micros % MICROS_PER_SEC;
        Duration { secs, micros: rest as u32 }
    }

    /// The whole seconds of the span.
    pub fn as_secs(&self) -> (s: u64)
        ensures
            s == self@ / 1_000_000,
    {
        proof {
            use_type_invariant(self);
        }
        self.secs
    }

    /// The part below one second, in microseconds.
    pub fn subsec_micros(&self) -> (m: u32)
        ensures
            m == self@ % 1_000_000,
    {
        proof {
            use_type_invariant(self);
        }
        self.micros
    }

    /// The part below one second, in whole milliseconds.
    pub fn subsec_millis(&self) -> (m: u32)
        ensures
            m == (self@ % 1_000_000) / 1_000,
    {
        proof {
            use_type_invariant(self);
        }
        self.micros / 1_000
    }

    /// The sum of two spans, or `None` where it is longer than the longest
    /// span that can be held.
    pub fn checked_add(self, other: Duration) -> (sum: Option<Duration>)
        ensures
            self@ + other@ <= Self::max_micros() ==> sum.is_some() && sum.unwrap()@ == self@ + other@,
            self@ + other@ > Self::max_micros() ==> sum.is_none(),
    {
        proof {
            use_type_invariant(&self);
            use_type_invariant(&other);
        }
        let low: u32 = self.micros + other.micros;
        let carry: u64 = if low >= 1_000_000 { 1 } else { 0 };
        let micros: u32 = if low >= 1_000_000 { low - 1_000_000 } else { low };
        match self.secs.checked_add(other.secs) {
            None => None,
            Some(s) => match s.checked_add(carry) {
                None => None,
                Some(secs) => Some(Duration { secs, micros }),
            },
        }
    }
}

} // verus!
