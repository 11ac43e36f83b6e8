//! What can go wrong while a duration is read, and how it is told.
use vstd::prelude::*;
use vstd::string::StringExecFns;
use crate::text::{decimal, push_decimal};

verus! {

/// Why a text was not read as a duration. Offsets count bytes from the
/// start of the text.
#[derive(Debug, PartialEq, Clone)]
pub enum Error {
    /// A character that is no digit, letter or white space, or one of these
    /// where it cannot stand; the field is the offset of the character.
    InvalidCharacter(usize),
    /// Something other than a number where a number must start, as when a
    /// unit is broken into words (`m sec`) or a number is left out
    /// (`2 hours min`); the field is the offset of the character.
    NumberExpected(usize),
    /// The letters after a number are no unit of the table.
    UnknownUnit {
        /// Offset at which the letters start.
        start: usize,
        /// Offset just behind the letters.
        end: usize,
        /// The letters as written; empty where the text ends with a number.
        unit: String,
        /// The number in front of them.
        value: u64,
    },
    /// A number, or a sum on the way to the result, does not fit 64 bits.
    NumberOverflow,
    /// The text is empty or holds white space only.
    Empty,
}

/// An error as specifications see it, with the unit as a sequence of
/// characters.
pub enum ErrorView {
    InvalidCharacter(int),
    NumberExpected(int),
    UnknownUnit { start: int, end: int, unit: Seq<char>, value: int },
    NumberOverflow,
    Empty,
}

impl View for Error {
    type V = ErrorView;

    open spec fn view(&self) -> ErrorView {
        match self {
            Error::InvalidCharacter(offset) => ErrorView::InvalidCharacter(*offset as int),
            Error::NumberExpected(offset) => ErrorView::NumberExpected(*offset as int),
            Error::UnknownUnit { start, end, unit, value } => ErrorView::UnknownUnit {
                start: *start as int,
                end: *end as int,
                unit: unit@,
                value: *value as int,
            },
            Error::NumberOverflow => ErrorView::NumberOverflow,
            Error::Empty => ErrorView::Empty,
        }
    }
}

/// The text that std's `Debug` gives for a string: the string between double
/// quotes, with escapes where std writes them.
pub uninterp spec fn quoted(s: Seq<char>) -> Seq<char>;

/// Formats a string with `{:?}`, that is with std's `Debug` for `str`. What
/// comes out depends on the characters alone.
#[verifier::external_body]
fn quote(s: &str) -> (r: String)
    ensures
        r@ == quoted(s@),
{
    format!("{:?}", s)
}

/// The sentence for a unit that the table does not hold, where `name` is the
/// unit in its quotes.
pub open spec fn unknown_unit_message(name: Seq<char>) -> Seq<char> {
    "unknown time unit "@ + name
        + ", supported units: ns, us, ms, sec, min, hours, days, weeks, months, years (and few variations)"@
}

/// Writes the sentence for a unit that the table does not hold, where `name`
/// is the unit in its quotes.
pub fn unknown_unit_sentence(name: &str) -> (text: String)
    ensures
        text@ == unknown_unit_message(name@),
{
    let mut out = String::new();
    out.append("unknown time unit ");
    out.append(name);
    out.append(
        ", supported units: ns, us, ms, sec, min, hours, days, weeks, months, years (and few variations)",
    );
    assert(out@ =~= unknown_unit_message(name@));
    out
}

impl ErrorView {
    /// The sentence that describes the error.
    pub open spec fn message(self) -> Seq<char> {
        match self {
            ErrorView::InvalidCharacter(offset) => "invalid character at "@ + decimal(offset),
            ErrorView::NumberExpected(offset) => "expected number at "@ + decimal(offset),
            ErrorView::UnknownUnit { unit, value, .. } => if unit.len() == 0 {
                "time unit needed, for example "@ + decimal(value) + "sec or "@ + decimal(value)
                    + "ms"@
            } else {
                unknown_unit_message(quoted(unit))
            },
            ErrorView::NumberOverflow => "number is too large"@,
            ErrorView::Empty => "value was empty"@,
        }
    }
}

impl Error {
    /// The sentence that describes the error. A number without a unit gets
    /// a sentence of its own, which says what to append.
    pub fn to_string(&self) -> (text: String)
        ensures
            text@ == self@.message(),
    {
        let mut out = String::new();
        match self {
            Error::InvalidCharacter(offset) => {
                out.append("invalid character at ");
                push_decimal(&mut out, *offset as u64);
            },
            Error::NumberExpected(offset) => {
                out.append("expected number at ");
                push_decimal(&mut out, *offset as u64);
            },
            Error::UnknownUnit { unit, value, .. } => {
                if unit.as_str().is_empty() {
                    out.append("time unit needed, for example ");
                    push_decimal(&mut out, *value);
                    out.append("sec or ");
                    push_decimal(&mut out, *value);
                    out.append("ms");
                } else {
                    let name = quote(unit.as_str());
                    return unknown_unit_sentence(name.as_str());
                }
            },
            Error::NumberOverflow => {
                out.append("number is too large");
            },
            Error::Empty => {
                out.append("value was empty");
            },
        }
        assert(out@ =~= self@.message());
        out
    }
}

} // verus!
