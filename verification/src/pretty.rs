//! Rendering a span of time as an English phrase.

use crate::duration::Duration;
use vstd::prelude::*;
use vstd::string::StringExecFns;

verus! {

/// Seconds in one minute.
pub const SECONDS_PER_MINUTE: u64 = 60;

/// Seconds in one hour.
pub const SECONDS_PER_HOUR: u64 = 3_600;

/// Seconds in one day.
pub const SECONDS_PER_DAY: u64 = 86_400;

/// The character of one decimal digit.
pub open spec fn digit_char(d: nat) -> char {
    if d == 0 {
        '0'
    } else if d == 1 {
        '1'
    } else if d == 2 {
        '2'
    } else if d == 3 {
        '3'
    } else if d == 4 {
        '4'
    } else if d == 5 {
        '5'
    } else if d == 6 {
        '6'
    } else if d == 7 {
        '7'
    } else if d == 8 {
        '8'
    } else {
        '9'
    }
}

/// The decimal numeral of `n`, without leading zeros.
pub open spec fn decimal(n: nat) -> Seq<char>
    decreases n,
{
    if n < 10 {
        seq![digit_char(n)]
    } else {
        decimal(n / 10).push(digit_char(n % 10))
    }
}

/// The last `width` decimal digits of `n`, with leading zeros.
pub open spec fn zero_padded(n: nat, width: nat) -> Seq<char>
    decreases width,
{
    if width == 0 {
        Seq::empty()
    } else {
        zero_padded(n / 10, (width - 1) as nat).push(digit_char(n % 10))
    }
}

/// A count with its unit, the unit in the plural unless the count is one:
/// "1 hour", "3 hours", "0 hours".
pub open spec fn quantity(n: nat, unit: Seq<char>) -> Seq<char> {
    decimal(n) + " "@ + unit + if n == 1 {
        ""@
    } else {
        "s"@
    }
}

/// The quantity as a list of one phrase, or the empty list for a count of
/// zero.
pub open spec fn present(n: nat, unit: Seq<char>) -> Seq<Seq<char>> {
    if n == 0 {
        Seq::empty()
    } else {
        seq![quantity(n, unit)]
    }
}

/// Up to three phrases as an English list: "a", "a and b", "a, b, and c".
pub open spec fn listing(items: Seq<Seq<char>>) -> Seq<char> {
    if items.len() == 1 {
        items[0]
    } else if items.len() == 2 {
        items[0] + " and "@ + items[1]
    } else if items.len() == 3 {
        items[0] + ", "@ + items[1] + ", and "@ + items[2]
    } else {
        Seq::empty()
    }
}

/// The phrase for a span of `micros` microseconds.
///
/// The span is broken into days, hours, minutes, seconds and milliseconds.
/// Below one minute the seconds are shown with four decimal places, except
/// for exactly zero and exactly one second. From one minute on, minutes and
/// whole seconds are listed. From one hour on, days, hours and minutes are
/// listed and the seconds are left out. A unit whose count is zero is not
/// listed.
pub open spec fn pretty_text(micros: nat) -> Seq<char> {
    let secs = micros / 1_000_000;
    let millis = micros % 1_000_000 / 1_000;
    let days = secs / SECONDS_PER_DAY as nat;
    let hours = secs % SECONDS_PER_DAY as nat / SECONDS_PER_HOUR as nat;
    let minutes = secs % SECONDS_PER_HOUR as nat / SECONDS_PER_MINUTE as nat;
    let seconds = secs % SECONDS_PER_MINUTE as nat;
    if days == 0 && hours == 0 && minutes == 0 {
        if seconds == 0 && millis == 0 {
            "0 seconds"@
        } else if seconds == 1 && millis == 0 {
            "1 second"@
        } else {
            decimal(seconds) + "."@ + zero_padded(millis * 10, 4) + " seconds"@
        }
    } else if days == 0 && hours == 0 {
        listing(present(minutes, "minute"@) + present(seconds, "second"@))
    } else {
        listing(present(days, "day"@) + present(hours, "hour"@) + present(minutes, "minute"@))
    }
}

/// The one-character string of a decimal digit.
fn digit_str(d: u64) -> (s: &'static str)
    requires
        d < 10,
    ensures
        s@ == seq![digit_char(d as nat)],
{
    proof {
        reveal_strlit("0");
        reveal_strlit("1");
        reveal_strlit("2");
        reveal_strlit("3");
        reveal_strlit("4");
        reveal_strlit("5");
        reveal_strlit("6");
        reveal_strlit("7");
        reveal_strlit("8");
        reveal_strlit("9");
    }
    let s: &'static str = if d == 0 {
        "0"
    } else if d == 1 {
        "1"
    } else if d == 2 {
        "2"
    } else if d == 3 {
        "3"
    } else if d == 4 {
        "4"
    } else if d == 5 {
        "5"
    } else if d == 6 {
        "6"
    } else if d == 7 {
        "7"
    } else if d == 8 {
        "8"
    } else {
        "9"
    };
    assert(s@ =~= seq![digit_char(d as nat)]);
    s
}

/// Appends the decimal numeral of `n`.
fn push_decimal(out: &mut String, n: u64)
    ensures
        final(out)@ == old(out)@ + decimal(n as nat),
    decreases n,
{
    if n >= 10 {
        push_decimal(out, n / 10);
    }
    out.append(digit_str(n % 10));
    assert(out@ =~= old(out)@ + decimal(n as nat));
}

/// Appends the last `width` decimal digits of `n`, with leading zeros.
fn push_zero_padded(out: &mut String, n: u64, width: u32)
    ensures
        final(out)@ == old(out)@ + zero_padded(n as nat, width as nat),
    decreases width,
{
    if width > 0 {
        push_zero_padded(out, n / 10, width - 1);
        out.append(digit_str(n % 10));
    }
    assert(out@ =~= old(out)@ + zero_padded(n as nat, width as nat));
}

/// Appends a count with its unit.
fn push_quantity(out: &mut String, n: u64, unit: &str)
    ensures
        final(out)@ == old(out)@ + quantity(n as nat, unit@),
{
    push_decimal(out, n);
    out.append(" ");
    out.append(unit);
    if n != 1 {
        out.append("s");
    }
    proof {
        reveal_strlit("");
    }
    assert(out@ =~= old(out)@ + quantity(n as nat, unit@));
}

/// A span of time that is rendered as an English phrase.
#[derive(Clone, Copy, Debug, PartialEq, Eq, Structural)]
pub struct PrettyDuration(pub Duration);

impl PrettyDuration {
    /// The phrase for this span.
    pub fn to_string(&self) -> (text: String)
        ensures
            text@ == pretty_text(self.0@),
    {
        let total: u64 = self.0.as_secs();
        let millis: u64 = self.0.subsec_millis() as u64;
        let days: u64 = total / SECONDS_PER_DAY;
        let hours: u64 = total % SECONDS_PER_DAY / SECONDS_PER_HOUR;
        let minutes: u64 = total % SECONDS_PER_HOUR / SECONDS_PER_MINUTE;
        let seconds: u64 = total % SECONDS_PER_MINUTE;
        let mut out = String::new();
        if days == 0 && hours == 0 && minutes == 0 {
            if seconds == 0 && millis == 0 {
                out.append("0 seconds");
            } else if seconds == 1 && millis == 0 {
                out.append("1 second");
            } else {
                push_decimal(&mut out, seconds);
                out.append(".");
                push_zero_padded(&mut out, millis * 10, 4);
                out.append(" seconds");
            }
        } else if days == 0 && hours == 0 {
            push_quantity(&mut out, minutes, "minute");
            if seconds != 0 {
                out.append(" and ");
                push_quantity(&mut out, seconds, "second");
            }
        } else if hours == 0 && minutes == 0 {
            push_quantity(&mut out, days, "day");
        } else if hours == 0 {
            push_quantity(&mut out, days, "day");
            out.append(" and ");
            push_quantity(&mut out, minutes, "minute");
        } else if days == 0 {
            push_quantity(&mut out, hours, "hour");
            if minutes != 0 {
                out.append(" and ");
                push_quantity(&mut out, minutes, "minute");
            }
        } else if minutes == 0 {
            push_quantity(&mut out, days, "day");
            out.append(" and ");
            push_quantity(&mut out, hours, "hour");
        } else {
            push_quantity(&mut out, days, "day");
            out.append(", ");
            push_quantity(&mut out, hours, "hour");
            out.append(", and ");
            push_quantity(&mut out, minutes, "minute");
        }
        assert(out@ =~= pretty_text(self.0@));
        out
    }
}

} // verus!
