//! What a text means as a duration: the grammar of numbers and units, and
//! the outcome of reading a text by it, stated over sequences of characters.
use vstd::prelude::*;
use crate::duration::Span;
use crate::error::ErrorView;
use crate::offsets::offset;
use crate::text::{classify, number, CharClass};
use crate::units::{add_units, multiplier_of};

verus! {

/// The end of the run of class `k` that starts at `i`: the first index at or
/// after `i` whose character is of another class, or the length of `s`.
pub open spec fn run_end(s: Seq<char>, i: int, k: CharClass) -> int
    decreases s.len() - i,
{
    if 0 <= i < s.len() && classify(s[i]) == k {
        run_end(s, i + 1, k)
    } else {
        i
    }
}

/// A run ends within the text, holds its class throughout and stops at a
/// character of another class.
pub proof fn lemma_run_end(s: Seq<char>, i: int, k: CharClass)
    requires
        0 <= i <= s.len(),
    ensures
        i <= run_end(s, i, k) <= s.len(),
        forall|x: int| i <= x < run_end(s, i, k) ==> classify(#[trigger] s[x]) == k,
        run_end(s, i, k) < s.len() ==> classify(s[run_end(s, i, k)]) != k,
    decreases s.len() - i,
{
    if i < s.len() && classify(s[i]) == k {
        lemma_run_end(s, i + 1, k);
    }
}

/// A run that is seen to hold its class up to `j` ends where the run from
/// `j` ends.
pub proof fn lemma_run_goes_on(s: Seq<char>, i: int, j: int, k: CharClass)
    requires
        0 <= i <= j <= s.len(),
        forall|x: int| i <= x < j ==> classify(#[trigger] s[x]) == k,
    ensures
        run_end(s, i, k) == run_end(s, j, k),
    decreases j - i,
{
    if i < j {
        lemma_run_goes_on(s, i + 1, j, k);
    }
}

/// A run that is seen to hold its class up to `j` and to stop there ends
/// at `j`.
pub proof fn lemma_run_end_is(s: Seq<char>, i: int, j: int, k: CharClass)
    requires
        0 <= i <= j <= s.len(),
        forall|x: int| i <= x < j ==> classify(#[trigger] s[x]) == k,
        j < s.len() ==> classify(s[j]) != k,
    ensures
        run_end(s, i, k) == j,
    decreases j - i,
{
    if i < j {
        lemma_run_end_is(s, i + 1, j, k);
    }
}

/// Reads the tokens of `s` from index `i` on and adds them to `total`.
///
/// White space is skipped in front of a number only. A number is a run of
/// digits and must be followed at once by its unit, a run of letters. A unit
/// ends at a digit, at white space or with the text. The first thing that
/// goes wrong, in reading order, is the error.
#[verifier::opaque]
pub open spec fn parse_from(s: Seq<char>, i: int, total: Span) -> Result<Span, ErrorView>
    decreases s.len() - i,
    when 0 <= i <= s.len()
{
    let a = run_end(s, i, CharClass::Space);
    if a >= s.len() {
        Ok(total)
    } else if classify(s[a]) != CharClass::Digit {
        Err(ErrorView::NumberExpected(offset(s, a)))
    } else {
        let b = run_end(s, a, CharClass::Digit);
        let n = number(s.subrange(a, b));
        if n > u64::MAX {
            Err(ErrorView::NumberOverflow)
        } else if b >= s.len() {
            Err(
                ErrorView::UnknownUnit {
                    start: offset(s, b),
                    end: offset(s, b),
                    unit: Seq::empty(),
                    value: n,
                },
            )
        } else if classify(s[b]) != CharClass::Letter {
            Err(ErrorView::InvalidCharacter(offset(s, b)))
        } else {
            let c = run_end(s, b, CharClass::Letter);
            let name = s.subrange(b, c);
            if c < s.len() && classify(s[c]) == CharClass::Other {
                Err(ErrorView::InvalidCharacter(offset(s, c)))
            } else {
                match multiplier_of(name) {
                    None => Err(
                        ErrorView::UnknownUnit {
                            start: offset(s, b),
                            end: offset(s, c),
                            unit: name,
                            value: n,
                        },
                    ),
                    Some(m) => match add_units(total, n, m) {
                        None => Err(ErrorView::NumberOverflow),
                        Some(sum) => {
                            proof {
                                lemma_run_end(s, i, CharClass::Space);
                                lemma_run_end(s, a, CharClass::Digit);
                                lemma_run_end(s, b, CharClass::Letter);
                            }
                            parse_from(s, c, sum)
                        },
                    },
                }
            }
        }
    }
}

/// What reading `s` as a duration gives: the sum of its tokens, or the first
/// error. A text without any token is an error of its own.
pub open spec fn parsed(s: Seq<char>) -> Result<Span, ErrorView> {
    if run_end(s, 0, CharClass::Space) >= s.len() {
        Err(ErrorView::Empty)
    } else {
        parse_from(s, 0, Span::zero())
    }
}

/// Reading from `i` and reading from the end of the white space at `i` give
/// the same.
pub proof fn lemma_skip_space(s: Seq<char>, i: int, total: Span)
    requires
        0 <= i <= s.len(),
    ensures
        parse_from(s, i, total) == parse_from(s, run_end(s, i, CharClass::Space), total),
{
    let a = run_end(s, i, CharClass::Space);
    reveal(parse_from);
    lemma_run_end(s, i, CharClass::Space);
    lemma_run_end_is(s, a, a, CharClass::Space);
}

} // verus!
