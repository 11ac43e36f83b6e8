//! Writing a duration in the vocabulary in which durations are read.
use vstd::prelude::*;
use vstd::string::StringExecFns;
use crate::duration::{Duration, Span};
use crate::text::{decimal, push_decimal};
use crate::units::{DAY, HOUR, MINUTE, MONTH, YEAR};

verus! {

/// A duration taken apart, largest unit first. There are no weeks: days
/// count up to the month.
pub struct Parts {
    pub years: int,
    pub months: int,
    pub days: int,
    pub hours: int,
    pub minutes: int,
    pub seconds: int,
    pub millis: int,
    pub micros: int,
    pub nanos: int,
}

/// The parts of a duration: of each unit as many as fit into what the
/// larger units have left.
pub open spec fn parts(d: Span) -> Parts {
    let in_year = d.secs % (YEAR as int);
    let in_month = in_year % (MONTH as int);
    let in_day = in_month % (DAY as int);
    Parts {
        years: d.secs / (YEAR as int),
        months: in_year / (MONTH as int),
        days: in_month / (DAY as int),
        hours: in_day / (HOUR as int),
        minutes: in_day % (HOUR as int) / (MINUTE as int),
        seconds: in_day % (MINUTE as int),
        millis: d.nanos / 1_000_000,
        micros: d.nanos / 1_000 % 1_000,
        nanos: d.nanos % 1_000,
    }
}

/// A line of text under way, and whether an item stands in it yet.
pub struct Line {
    pub text: Seq<char>,
    pub started: bool,
}

/// The line with one more item, `value` and `suffix` written together and
/// set off from an earlier item by one space. An item of zero is left out.
pub open spec fn with_item(line: Line, value: int, suffix: Seq<char>) -> Line {
    if value <= 0 {
        line
    } else if line.started {
        Line { text: line.text + " "@ + decimal(value) + suffix, started: true }
    } else {
        Line { text: line.text + decimal(value) + suffix, started: true }
    }
}

/// The name of a unit that takes an `s` in the plural.
pub open spec fn plural(name: Seq<char>, value: int) -> Seq<char> {
    if value > 1 {
        name + "s"@
    } else {
        name
    }
}

/// The text of a duration: `0s` for none at all, else its parts that are not
/// zero, from years down to nanoseconds.
pub open spec fn rendered(d: Span) -> Seq<char> {
    if d.secs == 0 && d.nanos == 0 {
        "0s"@
    } else {
        let p = parts(d);
        let line = Line { text: Seq::empty(), started: false };
        let line = with_item(line, p.years, plural("year"@, p.years));
        let line = with_item(line, p.months, plural("month"@, p.months));
        let line = with_item(line, p.days, plural("day"@, p.days));
        let line = with_item(line, p.hours, "h"@);
        let line = with_item(line, p.minutes, "m"@);
        let line = with_item(line, p.seconds, "s"@);
        let line = with_item(line, p.millis, "ms"@);
        let line = with_item(line, p.micros, "µs"@);
        let line = with_item(line, p.nanos, "ns"@);
        line.text
    }
}

/// A duration that is ready to be written out.
#[derive(Debug, Clone)]
pub struct FormattedDuration(Duration);

impl View for FormattedDuration {
    type V = Span;

    closed spec fn view(&self) -> Span {
        self.0@
    }
}

/// Wraps a duration for writing. What [`parse_duration`] reads from the
/// text that comes out is the duration that went in.
///
/// [`parse_duration`]: crate::parse::parse_duration
pub fn format_duration(val: Duration) -> (f: FormattedDuration)
    ensures
        f@ == val@,
{
    FormattedDuration(val)
}

/// Writes an item whose unit takes an `s` in the plural.
fn item_plural(out: &mut String, started: &mut bool, name: &str, value: u64)
    ensures
        (Line { text: final(out)@, started: *final(started) }) == with_item(
            Line { text: old(out)@, started: *old(started) },
            value as int,
            plural(name@, value as int),
        ),
{
    if value > 0 {
        if *started {
            out.append(" ");
        }
        push_decimal(out, value);
        out.append(name);
        if value > 1 {
            out.append("s");
        }
        *started = true;
    }
    proof {
        let line = with_item(
            Line { text: old(out)@, started: *old(started) },
            value as int,
            plural(name@, value as int),
        );
        assert(out@ =~= line.text);
    }
}

/// Writes an item whose unit is the same for any number.
fn item(out: &mut String, started: &mut bool, name: &str, value: u32)
    ensures
        (Line { text: final(out)@, started: *final(started) }) == with_item(
            Line { text: old(out)@, started: *old(started) },
            value as int,
            name@,
        ),
{
    if value > 0 {
        if *started {
            out.append(" ");
        }
        push_decimal(out, value as u64);
        out.append(name);
        *started = true;
    }
    proof {
        let line = with_item(Line { text: old(out)@, started: *old(started) }, value as int, name@);
        assert(out@ =~= line.text);
    }
}

impl FormattedDuration {
    /// The duration that is being written.
    pub fn get_ref(&self) -> (d: &Duration)
        ensures
            d@ == self@,
    {
        &self.0
    }

    /// The text of the duration, such as `2h 37m`.
    pub fn to_string(&self) -> (text: String)
        ensures
            text@ == rendered(self@),
    {
        let secs: u64 = self.0.as_secs();
        let nanos: u32 = self.0.subsec_nanos();
        let mut out = String::new();
        if secs == 0 && nanos == 0 {
            out.append("0s");
            assert(out@ =~= "0s"@);
            return out;
        }
        let years: u64 = secs / YEAR;
        let ydays: u64 = secs % YEAR;
        let months: u64 = ydays / MONTH;
        let mdays: u64 = ydays % MONTH;
        let days: u64 = mdays / DAY;
        let day_secs: u64 = mdays % DAY;
        let hours: u64 = day_secs / HOUR;
        let minutes: u64 = day_secs % HOUR / MINUTE;
        let seconds: u64 = day_secs % MINUTE;

        let millis: u32 = nanos / 1_000_000;
        let micros: u32 = nanos / 1_000 % 1_000;
        let nanosec: u32 = nanos % 1_000;

        let mut started = false;
        item_plural(&mut out, &mut started, "year", years);
        item_plural(&mut out, &mut started, "month", months);
        item_plural(&mut out, &mut started, "day", days);
        item(&mut out, &mut started, "h", hours as u32);
        item(&mut out, &mut started, "m", minutes as u32);
        item(&mut out, &mut started, "s", seconds as u32);
        item(&mut out, &mut started, "ms", millis);
        item(&mut out, &mut started, "µs", micros);
        item(&mut out, &mut started, "ns", nanosec);
        out
    }
}

} // verus!
