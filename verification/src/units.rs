//! The unit table: every accepted spelling and what one of it is worth.
use vstd::prelude::*;
use crate::duration::{Span, NANOS_PER_SEC};
use crate::offsets::same_text;
use crate::text::is_letter;

verus! {

/// The seconds in a minute.
pub const MINUTE: u64 = 60;

/// The seconds in an hour.
pub const HOUR: u64 = 3_600;

/// The seconds in a day.
pub const DAY: u64 = 86_400;

/// The seconds in a week of seven days.
pub const WEEK: u64 = 604_800;

/// A month of 30.44 days, the average over the calendar.
pub const MONTH: u64 = 2_630_016;

/// A year of 365.25 days, the average over the calendar.
pub const YEAR: u64 = 31_557_600;

/// What one of a unit is worth: a number of nanoseconds for the units
/// below a second, a number of seconds for the others.
#[derive(Clone, Copy, Debug, PartialEq, Eq)]
pub enum Multiplier {
    /// So many nanoseconds to the unit.
    Nanos(u64),
    /// So many seconds to the unit.
    Secs(u64),
}

impl Multiplier {
    /// The worth of one unit in nanoseconds.
    pub open spec fn nanos(self) -> int {
        match self {
            Multiplier::Nanos(k) => k as int,
            Multiplier::Secs(k) => k * NANOS_PER_SEC,
        }
    }
}

/// The unit table. Spellings are case-sensitive: `M` is a month, `m` a
/// minute.
#[verifier::opaque]
pub open spec fn multiplier_of(name: Seq<char>) -> Option<Multiplier> {
    if name == "ns"@ || name == "nsec"@ || name == "nanos"@ {
        Some(Multiplier::Nanos(1))
    } else if name == "us"@ || name == "µs"@ || name == "usec"@ {
        Some(Multiplier::Nanos(1_000))
    } else if name == "ms"@ || name == "msec"@ || name == "millis"@ {
        Some(Multiplier::Nanos(1_000_000))
    } else if name == "s"@ || name == "sec"@ || name == "secs"@ || name == "second"@ || name
        == "seconds"@ {
        Some(Multiplier::Secs(1))
    } else if name == "m"@ || name == "min"@ || name == "mins"@ || name == "minute"@ || name
        == "minutes"@ {
        Some(Multiplier::Secs(MINUTE))
    } else if name == "h"@ || name == "hr"@ || name == "hrs"@ || name == "hour"@ || name
        == "hours"@ {
        Some(Multiplier::Secs(HOUR))
    } else if name == "d"@ || name == "day"@ || name == "days"@ {
        Some(Multiplier::Secs(DAY))
    } else if name == "w"@ || name == "week"@ || name == "weeks"@ {
        Some(Multiplier::Secs(WEEK))
    } else if name == "M"@ || name == "month"@ || name == "months"@ {
        Some(Multiplier::Secs(MONTH))
    } else if name == "y"@ || name == "year"@ || name == "years"@ {
        Some(Multiplier::Secs(YEAR))
    } else {
        None
    }
}

/// Looks a spelling up in the unit table.
pub fn lookup(name: &str) -> (m: Option<Multiplier>)
    ensures
        m == multiplier_of(name@),
{
    reveal(multiplier_of);
    if same_text(name, "ns") || same_text(name, "nsec") || same_text(name, "nanos") {
        Some(Multiplier::Nanos(1))
    } else if same_text(name, "us") || same_text(name, "µs") || same_text(name, "usec") {
        Some(Multiplier::Nanos(1_000))
    } else if same_text(name, "ms") || same_text(name, "msec") || same_text(name, "millis") {
        Some(Multiplier::Nanos(1_000_000))
    } else if same_text(name, "s") || same_text(name, "sec") || same_text(name, "secs")
        || same_text(name, "second") || same_text(name, "seconds") {
        Some(Multiplier::Secs(1))
    } else if same_text(name, "m") || same_text(name, "min") || same_text(name, "mins")
        || same_text(name, "minute") || same_text(name, "minutes") {
        Some(Multiplier::Secs(MINUTE))
    } else if same_text(name, "h") || same_text(name, "hr") || same_text(name, "hrs")
        || same_text(name, "hour") || same_text(name, "hours") {
        Some(Multiplier::Secs(HOUR))
    } else if same_text(name, "d") || same_text(name, "day") || same_text(name, "days") {
        Some(Multiplier::Secs(DAY))
    } else if same_text(name, "w") || same_text(name, "week") || same_text(name, "weeks") {
        Some(Multiplier::Secs(WEEK))
    } else if same_text(name, "M") || same_text(name, "month") || same_text(name, "months") {
        Some(Multiplier::Secs(MONTH))
    } else if same_text(name, "y") || same_text(name, "year") || same_text(name, "years") {
        Some(Multiplier::Secs(YEAR))
    } else {
        None
    }
}

/// Every spelling of the table is made of letters, and of one at least, and
/// no unit is worth nothing.
pub proof fn lemma_unit_names(name: Seq<char>)
    requires
        multiplier_of(name) is Some,
    ensures
        name.len() >= 1,
        forall|x: int| 0 <= x < name.len() ==> is_letter(#[trigger] name[x]),
        multiplier_of(name)->0.nanos() >= 1,
{
    reveal(multiplier_of);
    reveal_strlit("ns");
    reveal_strlit("nsec");
    reveal_strlit("nanos");
    reveal_strlit("us");
    reveal_strlit("µs");
    reveal_strlit("usec");
    reveal_strlit("ms");
    reveal_strlit("msec");
    reveal_strlit("millis");
    reveal_strlit("s");
    reveal_strlit("sec");
    reveal_strlit("secs");
    reveal_strlit("second");
    reveal_strlit("seconds");
    reveal_strlit("m");
    reveal_strlit("min");
    reveal_strlit("mins");
    reveal_strlit("minute");
    reveal_strlit("minutes");
    reveal_strlit("h");
    reveal_strlit("hr");
    reveal_strlit("hrs");
    reveal_strlit("hour");
    reveal_strlit("hours");
    reveal_strlit("d");
    reveal_strlit("day");
    reveal_strlit("days");
    reveal_strlit("w");
    reveal_strlit("week");
    reveal_strlit("weeks");
    reveal_strlit("M");
    reveal_strlit("month");
    reveal_strlit("months");
    reveal_strlit("y");
    reveal_strlit("year");
    reveal_strlit("years");
}

/// What the table holds for the names under which durations are written.
pub proof fn lemma_written_units()
    ensures
        multiplier_of("year"@) == Some(Multiplier::Secs(YEAR)),
        multiplier_of("year"@ + "s"@) == Some(Multiplier::Secs(YEAR)),
        multiplier_of("month"@) == Some(Multiplier::Secs(MONTH)),
        multiplier_of("month"@ + "s"@) == Some(Multiplier::Secs(MONTH)),
        multiplier_of("day"@) == Some(Multiplier::Secs(DAY)),
        multiplier_of("day"@ + "s"@) == Some(Multiplier::Secs(DAY)),
        multiplier_of("h"@) == Some(Multiplier::Secs(HOUR)),
        multiplier_of("m"@) == Some(Multiplier::Secs(MINUTE)),
        multiplier_of("s"@) == Some(Multiplier::Secs(1)),
        multiplier_of("ms"@) == Some(Multiplier::Nanos(1_000_000)),
        multiplier_of("µs"@) == Some(Multiplier::Nanos(1_000)),
        multiplier_of("ns"@) == Some(Multiplier::Nanos(1)),
{
    reveal(multiplier_of);
    reveal_strlit("ns");
    reveal_strlit("nsec");
    reveal_strlit("nanos");
    reveal_strlit("us");
    reveal_strlit("µs");
    reveal_strlit("usec");
    reveal_strlit("ms");
    reveal_strlit("msec");
    reveal_strlit("millis");
    reveal_strlit("s");
    reveal_strlit("sec");
    reveal_strlit("secs");
    reveal_strlit("second");
    reveal_strlit("seconds");
    reveal_strlit("m");
    reveal_strlit("min");
    reveal_strlit("mins");
    reveal_strlit("minute");
    reveal_strlit("minutes");
    reveal_strlit("h");
    reveal_strlit("hr");
    reveal_strlit("hrs");
    reveal_strlit("hour");
    reveal_strlit("hours");
    reveal_strlit("d");
    reveal_strlit("day");
    reveal_strlit("days");
    reveal_strlit("w");
    reveal_strlit("week");
    reveal_strlit("weeks");
    reveal_strlit("M");
    reveal_strlit("month");
    reveal_strlit("months");
    reveal_strlit("y");
    reveal_strlit("year");
    reveal_strlit("years");
    assert("ns"@.len() == 2 && "ns"@[0] == 'n');
    assert("nsec"@.len() == 4 && "nsec"@[0] == 'n');
    assert("nanos"@.len() == 5 && "nanos"@[0] == 'n');
    assert("us"@.len() == 2 && "us"@[0] == 'u');
    assert("µs"@.len() == 2 && "µs"@[0] == 'µ');
    assert("usec"@.len() == 4 && "usec"@[0] == 'u');
    assert("ms"@.len() == 2 && "ms"@[0] == 'm');
    assert("msec"@.len() == 4 && "msec"@[0] == 'm');
    assert("millis"@.len() == 6 && "millis"@[0] == 'm');
    assert("s"@.len() == 1 && "s"@[0] == 's');
    assert("sec"@.len() == 3 && "sec"@[0] == 's');
    assert("secs"@.len() == 4 && "secs"@[0] == 's');
    assert("second"@.len() == 6 && "second"@[0] == 's');
    assert("seconds"@.len() == 7 && "seconds"@[0] == 's');
    assert("m"@.len() == 1 && "m"@[0] == 'm');
    assert("min"@.len() == 3 && "min"@[0] == 'm');
    assert("mins"@.len() == 4 && "mins"@[0] == 'm');
    assert("minute"@.len() == 6 && "minute"@[0] == 'm');
    assert("minutes"@.len() == 7 && "minutes"@[0] == 'm');
    assert("h"@.len() == 1 && "h"@[0] == 'h');
    assert("hr"@.len() == 2 && "hr"@[0] == 'h');
    assert("hrs"@.len() == 3 && "hrs"@[0] == 'h');
    assert("hour"@.len() == 4 && "hour"@[0] == 'h');
    assert("hours"@.len() == 5 && "hours"@[0] == 'h');
    assert("d"@.len() == 1 && "d"@[0] == 'd');
    assert("day"@.len() == 3 && "day"@[0] == 'd');
    assert("days"@.len() == 4 && "days"@[0] == 'd');
    assert("w"@.len() == 1 && "w"@[0] == 'w');
    assert("week"@.len() == 4 && "week"@[0] == 'w');
    assert("weeks"@.len() == 5 && "weeks"@[0] == 'w');
    assert("M"@.len() == 1 && "M"@[0] == 'M');
    assert("month"@.len() == 5 && "month"@[0] == 'm');
    assert("months"@.len() == 6 && "months"@[0] == 'm');
    assert("y"@.len() == 1 && "y"@[0] == 'y');
    assert("year"@.len() == 4 && "year"@[0] == 'y');
    assert("years"@.len() == 5 && "years"@[0] == 'y');
    assert("millis"@[1] == 'i' && "minute"@[1] == 'i' && "months"@[1] == 'o');
    assert("year"@ + "s"@ =~= "years"@);
    assert("month"@ + "s"@ =~= "months"@);
    assert("day"@ + "s"@ =~= "days"@);
}

/// Adds `n` units to a running total, as the parser does it: the product,
/// the sum of the nanoseconds and the sum of the seconds must each fit a
/// `u64`, and a full second of nanoseconds is carried into the seconds.
/// `None` where one of them does not fit.
pub open spec fn add_units(total: Span, n: int, m: Multiplier) -> Option<Span> {
    let (secs, nanos) = match m {
        Multiplier::Nanos(k) => (0, n * k),
        Multiplier::Secs(k) => (n * k, 0),
    };
    let sum = total.nanos + nanos;
    let carried = total.secs + secs + sum / (NANOS_PER_SEC as int);
    if secs > u64::MAX || nanos > u64::MAX || sum > u64::MAX || carried > u64::MAX {
        None
    } else {
        Some(Span { secs: carried, nanos: sum % (NANOS_PER_SEC as int) })
    }
}

/// Units added to a valid span give a valid span.
pub proof fn lemma_add_units_valid(total: Span, n: int, m: Multiplier)
    requires
        total.valid(),
        0 <= n,
    ensures
        add_units(total, n, m) matches Some(sum) ==> sum.valid(),
{
    match m {
        Multiplier::Nanos(k) => {
            assert(0 <= n * k) by (nonlinear_arith)
                requires
                    0 <= n,
                    0 <= k,
            ;
        },
        Multiplier::Secs(k) => {
            assert(0 <= n * k) by (nonlinear_arith)
                requires
                    0 <= n,
                    0 <= k,
            ;
        },
    }
}

/// Adding units to the span of a count of nanoseconds gives, where it fits,
/// the span of the count with the units' worth added.
pub proof fn lemma_add_units(total: int, n: int, m: Multiplier)
    requires
        0 <= total,
        0 <= n,
    ensures
        add_units(Span::of_nanos(total), n, m) matches Some(sum) ==> sum == Span::of_nanos(
            total + n * m.nanos(),
        ),
{
    match m {
        Multiplier::Nanos(k) => {},
        Multiplier::Secs(k) => {
            assert(n * (k * NANOS_PER_SEC) == (n * k) * NANOS_PER_SEC) by (nonlinear_arith);
        },
    }
}

} // verus!
