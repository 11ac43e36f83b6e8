//! What holds of reading and writing taken together.
use vstd::prelude::*;
use crate::duration::{lemma_span_of_total, Span};
use crate::error::ErrorView;
use crate::format::{parts, plural, rendered, with_item, Line, Parts};
use crate::grammar::{lemma_run_end, lemma_run_end_is, parse_from, parsed, run_end};
use crate::text::{
    classify, decimal, is_digit, is_letter, lemma_decimal, lemma_number_grows, number, CharClass,
};
use crate::units::{
    add_units, lemma_add_units, lemma_add_units_valid, lemma_unit_names, lemma_written_units,
    multiplier_of, Multiplier, DAY, HOUR, MINUTE, MONTH, YEAR,
};

verus! {

/// A token as it is written: the white space in front of it, the digits of
/// its number, and the name of its unit.
pub struct Token {
    pub gap: Seq<char>,
    pub digits: Seq<char>,
    pub name: Seq<char>,
}

impl Token {
    /// The token as it stands in a text.
    pub open spec fn text(self) -> Seq<char> {
        self.gap + self.digits + self.name
    }

    /// White space only in front, at least one digit, and a unit of the
    /// table.
    pub open spec fn well_formed(self) -> bool {
        &&& forall|x: int|
            0 <= x < self.gap.len() ==> classify(#[trigger] self.gap[x]) == CharClass::Space
        &&& self.digits.len() > 0
        &&& forall|x: int| 0 <= x < self.digits.len() ==> is_digit(#[trigger] self.digits[x])
        &&& multiplier_of(self.name) is Some
    }

    /// The number that the digits denote.
    pub open spec fn value(self) -> int {
        number(self.digits)
    }

    /// What one of the unit is worth.
    pub open spec fn multiplier(self) -> Multiplier {
        multiplier_of(self.name)->0
    }

    /// What the token is worth, in nanoseconds.
    pub open spec fn nanos(self) -> int {
        self.value() * self.multiplier().nanos()
    }
}

/// The text of a row of tokens, one behind the other.
pub open spec fn text_of(tokens: Seq<Token>) -> Seq<char>
    decreases tokens.len(),
{
    if tokens.len() == 0 {
        Seq::empty()
    } else {
        text_of(tokens.drop_last()) + tokens.last().text()
    }
}

/// What a row of tokens is worth, in nanoseconds: the sum over the tokens.
pub open spec fn worth(tokens: Seq<Token>) -> int
    decreases tokens.len(),
{
    if tokens.len() == 0 {
        0
    } else {
        worth(tokens.drop_last()) + tokens.last().nanos()
    }
}

/// The token can be added to `before` nanoseconds: its number fits 64 bits,
/// and so does every number on the way to the sum.
pub open spec fn fits(before: int, t: Token) -> bool {
    &&& t.value() <= u64::MAX
    &&& add_units(Span::of_nanos(before), t.value(), t.multiplier()) is Some
}

/// Every token can be added to the sum of those in front of it.
pub open spec fn all_fit(tokens: Seq<Token>) -> bool {
    forall|k: int| 0 <= k < tokens.len() ==> fits(worth(tokens.take(k)), #[trigger] tokens[k])
}

/// A text made of well-formed tokens, with white space behind them at most,
/// reads as the sum of what the tokens are worth, each worked out by itself
/// in exact arithmetic. This holds wherever no number on the way leaves 64
/// bits.
pub proof fn law_tokens_add_up(tokens: Seq<Token>, tail: Seq<char>)
    requires
        tokens.len() > 0,
        forall|j: int| 0 <= j < tokens.len() ==> (#[trigger] tokens[j]).well_formed(),
        forall|x: int| 0 <= x < tail.len() ==> classify(#[trigger] tail[x]) == CharClass::Space,
        all_fit(tokens),
    ensures
        parsed(text_of(tokens) + tail) == Ok::<Span, ErrorView>(Span::of_nanos(worth(tokens))),
{
    lemma_first_digit(tokens, tail);
    lemma_read_row(tokens, tail, 0);
    assert(tokens.take(0) =~= Seq::<Token>::empty());
}

/// Where a number on the way leaves 64 bits, such a text is refused for
/// that and for nothing else.
pub proof fn law_tokens_overflow(tokens: Seq<Token>, tail: Seq<char>)
    requires
        tokens.len() > 0,
        forall|j: int| 0 <= j < tokens.len() ==> (#[trigger] tokens[j]).well_formed(),
        forall|x: int| 0 <= x < tail.len() ==> classify(#[trigger] tail[x]) == CharClass::Space,
        !all_fit(tokens),
    ensures
        parsed(text_of(tokens) + tail) == Err::<Span, ErrorView>(ErrorView::NumberOverflow),
{
    lemma_first_digit(tokens, tail);
    lemma_read_row(tokens, tail, 0);
    assert(tokens.take(0) =~= Seq::<Token>::empty());
}

/// Tokens that are worth no more than `u64::MAX` nanoseconds together, some
/// 584 years, all fit: a text of them reads as their sum.
pub proof fn law_small_sums_fit(tokens: Seq<Token>)
    requires
        forall|j: int| 0 <= j < tokens.len() ==> (#[trigger] tokens[j]).well_formed(),
        worth(tokens) <= u64::MAX,
    ensures
        all_fit(tokens),
{
    assert forall|k: int| 0 <= k < tokens.len() implies fits(
        worth(tokens.take(k)),
        #[trigger] tokens[k],
    ) by {
        let t = tokens[k];
        lemma_token_worth(t);
        lemma_worth_grows(tokens, k);
        lemma_worth_grows(tokens, k + 1);
        assert(tokens.take(k + 1).drop_last() =~= tokens.take(k));
        assert(tokens.take(k + 1).last() == t);
        lemma_small_sum_fits(worth(tokens.take(k)), t.value(), t.multiplier());
    }
}

/// Reading the text of a duration gives the duration back.
pub proof fn law_round_trip(d: Span)
    requires
        d.valid(),
    ensures
        parsed(rendered(d)) == Ok::<Span, ErrorView>(d),
{
    if d == Span::zero() {
        lemma_written_units();
        reveal_strlit("0s");
        reveal_strlit("s");
        let zero = Token { gap: Seq::empty(), digits: decimal(0), name: "s"@ };
        let none = Seq::<Token>::empty();
        let tokens = none.push(zero);
        lemma_decimal(0);
        assert(tokens.drop_last() =~= none);
        assert(tokens.take(0) =~= none);
        assert(text_of(none) =~= Seq::<char>::empty());
        assert(worth(none) == 0);
        assert(text_of(tokens) =~= "0s"@);
        assert(all_fit(tokens));
        law_tokens_add_up(tokens, Seq::empty());
        assert(text_of(tokens) + Seq::<char>::empty() =~= text_of(tokens));
    } else {
        let tokens = lemma_rendered_tokens(d);
        law_tokens_add_up(tokens, Seq::empty());
        assert(text_of(tokens) + Seq::<char>::empty() =~= text_of(tokens));
        lemma_span_of_total(d);
    }
}

/// Whatever is read is a valid span: the seconds fit 64 bits and the
/// nanoseconds stay below one second.
pub proof fn law_read_is_valid(s: Seq<char>)
    ensures
        parsed(s) matches Ok(d) ==> d.valid(),
{
    lemma_read_from_is_valid(s, 0, Span::zero());
}

/// The parts of a duration are not negative and add up to it.
pub proof fn law_parts_add_up(d: Span)
    requires
        d.valid(),
    ensures
        ({
            let p = parts(d);
            &&& 0 <= p.years && 0 <= p.months && 0 <= p.days && 0 <= p.hours && 0 <= p.minutes
                && 0 <= p.seconds
            &&& 0 <= p.millis && 0 <= p.micros && 0 <= p.nanos
            &&& p.years * YEAR + p.months * MONTH + p.days * DAY + p.hours * HOUR + p.minutes
                * MINUTE + p.seconds == d.secs
            &&& p.millis * 1_000_000 + p.micros * 1_000 + p.nanos == d.nanos
        }),
{
}

/// One token read: where white space, digits and letters lie as stated, the
/// reading from `i` is decided by the number, the unit and the sum, and goes
/// on behind the letters.
proof fn lemma_read_token(s: Seq<char>, i: int, a: int, b: int, c: int, total: Span)
    requires
        0 <= i <= a < b < c <= s.len(),
        forall|x: int| i <= x < a ==> classify(#[trigger] s[x]) == CharClass::Space,
        forall|x: int| a <= x < b ==> classify(#[trigger] s[x]) == CharClass::Digit,
        forall|x: int| b <= x < c ==> classify(#[trigger] s[x]) == CharClass::Letter,
        c < s.len() ==> classify(s[c]) == CharClass::Space || classify(s[c]) == CharClass::Digit,
        multiplier_of(s.subrange(b, c)) is Some,
    ensures
        parse_from(s, i, total) == (if number(s.subrange(a, b)) > u64::MAX {
            Err::<Span, ErrorView>(ErrorView::NumberOverflow)
        } else {
            match add_units(total, number(s.subrange(a, b)), multiplier_of(s.subrange(b, c))->0) {
                None => Err(ErrorView::NumberOverflow),
                Some(sum) => parse_from(s, c, sum),
            }
        }),
{
    reveal(parse_from);
    lemma_run_end_is(s, i, a, CharClass::Space);
    lemma_run_end_is(s, a, b, CharClass::Digit);
    lemma_run_end_is(s, b, c, CharClass::Letter);
}

/// Where the token of index `k` stands in the text of the row.
proof fn lemma_token_at(tokens: Seq<Token>, tail: Seq<char>, k: int)
    requires
        0 <= k < tokens.len(),
    ensures
        ({
            let s = text_of(tokens) + tail;
            let p = text_of(tokens.take(k)).len() as int;
            let q = text_of(tokens.take(k + 1)).len() as int;
            &&& q == p + tokens[k].text().len()
            &&& q <= text_of(tokens).len()
            &&& s.subrange(p, q) == tokens[k].text()
        }),
    decreases tokens.len(),
{
    let s = text_of(tokens) + tail;
    let front = tokens.drop_last();
    assert(tokens.take(k + 1).drop_last() =~= tokens.take(k));
    assert(tokens.take(k + 1).last() == tokens[k]);
    if k == tokens.len() - 1 {
        assert(tokens.take(k) =~= front);
        assert(tokens.take(k + 1) =~= tokens);
        assert(s.subrange(text_of(front).len() as int, text_of(tokens).len() as int)
            =~= tokens[k].text());
    } else {
        lemma_token_at(front, tokens.last().text() + tail, k);
        assert(front.take(k) =~= tokens.take(k));
        assert(front.take(k + 1) =~= tokens.take(k + 1));
        assert(text_of(front) + (tokens.last().text() + tail) =~= s);
    }
}

/// How the token of index `k` lies in the text of a row of well-formed
/// tokens: its white space, its digits, its letters, and what follows them.
proof fn lemma_token_layout(tokens: Seq<Token>, tail: Seq<char>, k: int)
    requires
        forall|j: int| 0 <= j < tokens.len() ==> (#[trigger] tokens[j]).well_formed(),
        forall|x: int| 0 <= x < tail.len() ==> classify(#[trigger] tail[x]) == CharClass::Space,
        0 <= k < tokens.len(),
    ensures
        ({
            let s = text_of(tokens) + tail;
            let t = tokens[k];
            let p = text_of(tokens.take(k)).len() as int;
            let a = p + t.gap.len();
            let b = a + t.digits.len();
            let c = b + t.name.len();
            &&& 0 <= p <= a < b < c <= s.len()
            &&& c == text_of(tokens.take(k + 1)).len()
            &&& forall|x: int| p <= x < a ==> classify(#[trigger] s[x]) == CharClass::Space
            &&& forall|x: int| a <= x < b ==> classify(#[trigger] s[x]) == CharClass::Digit
            &&& forall|x: int| b <= x < c ==> classify(#[trigger] s[x]) == CharClass::Letter
            &&& c < s.len() ==> classify(s[c]) == CharClass::Space || classify(s[c])
                == CharClass::Digit
            &&& s.subrange(a, b) == t.digits
            &&& s.subrange(b, c) == t.name
        }),
{
    let s = text_of(tokens) + tail;
    let t = tokens[k];
    let p = text_of(tokens.take(k)).len() as int;
    let a = p + t.gap.len();
    let b = a + t.digits.len();
    let c = b + t.name.len();
    assert(t.well_formed());
    lemma_token_at(tokens, tail, k);
    lemma_unit_names(t.name);
    let text = s.subrange(p, c);
    assert(text == t.gap + t.digits + t.name);
    assert forall|x: int| p <= x < a implies classify(#[trigger] s[x]) == CharClass::Space by {
        assert(s[x] == text[x - p]);
        assert(text[x - p] == t.gap[x - p]);
    }
    assert forall|x: int| a <= x < b implies classify(#[trigger] s[x]) == CharClass::Digit by {
        assert(s[x] == text[x - p]);
        assert(text[x - p] == t.digits[x - a]);
        assert(is_digit(t.digits[x - a]));
    }
    assert forall|x: int| b <= x < c implies classify(#[trigger] s[x]) == CharClass::Letter by {
        assert(s[x] == text[x - p]);
        assert(text[x - p] == t.name[x - b]);
        assert(is_letter(t.name[x - b]));
    }
    assert(s.subrange(a, b) =~= t.digits) by {
        assert forall|x: int| 0 <= x < b - a implies s.subrange(a, b)[x] == t.digits[x] by {
            assert(s[a + x] == text[a + x - p]);
        }
    }
    assert(s.subrange(b, c) =~= t.name) by {
        assert forall|x: int| 0 <= x < c - b implies s.subrange(b, c)[x] == t.name[x] by {
            assert(s[b + x] == text[b + x - p]);
        }
    }
    if c < s.len() {
        lemma_next_char(tokens, tail, k);
    }
}

/// Behind a token of the row stands white space or a digit, if anything.
proof fn lemma_next_char(tokens: Seq<Token>, tail: Seq<char>, k: int)
    requires
        forall|j: int| 0 <= j < tokens.len() ==> (#[trigger] tokens[j]).well_formed(),
        forall|x: int| 0 <= x < tail.len() ==> classify(#[trigger] tail[x]) == CharClass::Space,
        0 <= k < tokens.len(),
        text_of(tokens.take(k + 1)).len() < (text_of(tokens) + tail).len(),
    ensures
        ({
            let s = text_of(tokens) + tail;
            let c = text_of(tokens.take(k + 1)).len() as int;
            classify(s[c]) == CharClass::Space || classify(s[c]) == CharClass::Digit
        }),
{
    let s = text_of(tokens) + tail;
    let c = text_of(tokens.take(k + 1)).len() as int;
    if k + 1 < tokens.len() {
        let u = tokens[k + 1];
        assert(u.well_formed());
        lemma_token_at(tokens, tail, k + 1);
        let q = c + u.text().len();
        let text = s.subrange(c, q);
        assert(s[c] == text[0]);
        if u.gap.len() > 0 {
            assert(text[0] == u.gap[0]);
        } else {
            assert(text[0] == u.digits[0]);
            assert(is_digit(u.digits[0]));
        }
    } else {
        assert(tokens.take(k + 1) =~= tokens);
        assert(s[c] == tail[0]);
    }
}

/// Units can be added to a count of nanoseconds where the sum stays within
/// `u64::MAX` nanoseconds.
proof fn lemma_small_sum_fits(before: int, n: int, m: Multiplier)
    requires
        0 <= before,
        0 <= n,
        1 <= m.nanos(),
        before + n * m.nanos() <= u64::MAX,
    ensures
        add_units(Span::of_nanos(before), n, m) is Some,
{
    match m {
        Multiplier::Nanos(f) => {
            assert(0 <= n * f) by (nonlinear_arith)
                requires
                    0 <= n,
                    1 <= f,
            ;
        },
        Multiplier::Secs(f) => {
            assert(0 <= n * f <= n * (f * 1_000_000_000)) by (nonlinear_arith)
                requires
                    0 <= n,
                    1 <= f,
            ;
            assert(n * (f * 1_000_000_000) == (n * f) * 1_000_000_000) by (nonlinear_arith);
        },
    }
}

/// A well-formed token is worth its number at least, and its number is not
/// negative.
proof fn lemma_token_worth(t: Token)
    requires
        t.well_formed(),
    ensures
        0 <= t.value() <= t.nanos(),
        1 <= t.multiplier().nanos(),
{
    lemma_unit_names(t.name);
    lemma_number_grows(t.digits, 0, 0, t.digits.len() as int);
    assert(t.digits.subrange(0, t.digits.len() as int) =~= t.digits);
    assert(t.value() <= t.value() * t.multiplier().nanos()) by (nonlinear_arith)
        requires
            0 <= t.value(),
            1 <= t.multiplier().nanos(),
    ;
}

/// No row of well-formed tokens is worth less than nothing.
proof fn lemma_worth(tokens: Seq<Token>)
    requires
        forall|j: int| 0 <= j < tokens.len() ==> (#[trigger] tokens[j]).well_formed(),
    ensures
        0 <= worth(tokens),
    decreases tokens.len(),
{
    if tokens.len() > 0 {
        lemma_worth(tokens.drop_last());
        lemma_token_worth(tokens.last());
    }
}

/// The tokens in front are worth no more than the whole row, and not less
/// than nothing.
proof fn lemma_worth_grows(tokens: Seq<Token>, k: int)
    requires
        forall|j: int| 0 <= j < tokens.len() ==> (#[trigger] tokens[j]).well_formed(),
        0 <= k <= tokens.len(),
    ensures
        0 <= worth(tokens.take(k)) <= worth(tokens),
    decreases tokens.len() - k,
{
    lemma_worth(tokens.take(k));
    if k < tokens.len() {
        lemma_worth_grows(tokens, k + 1);
        lemma_token_worth(tokens[k]);
        assert(tokens.take(k + 1).drop_last() =~= tokens.take(k));
        assert(tokens.take(k + 1).last() == tokens[k]);
    } else {
        assert(tokens.take(k) =~= tokens);
    }
}

/// A row of tokens does not read as empty: its first digit ends the white
/// space at the start.
proof fn lemma_first_digit(tokens: Seq<Token>, tail: Seq<char>)
    requires
        tokens.len() > 0,
        forall|j: int| 0 <= j < tokens.len() ==> (#[trigger] tokens[j]).well_formed(),
    ensures
        run_end(text_of(tokens) + tail, 0, CharClass::Space) < (text_of(tokens) + tail).len(),
{
    let s = text_of(tokens) + tail;
    let t = tokens[0];
    assert(t.well_formed());
    lemma_token_at(tokens, tail, 0);
    assert(tokens.take(0) =~= Seq::<Token>::empty());
    let a = t.gap.len() as int;
    let c = t.text().len() as int;
    assert forall|x: int| 0 <= x < a implies classify(#[trigger] s[x]) == CharClass::Space by {
        assert(s[x] == s.subrange(0, c)[x]);
        assert(s[x] == t.gap[x]);
    }
    assert(s[a] == s.subrange(0, c)[a]);
    assert(s[a] == t.digits[0]);
    lemma_run_end_is(s, 0, a, CharClass::Space);
}

/// Reading the token of index `k` of a row, with the sum of the tokens in
/// front of it in hand: it is added and the reading goes on behind it, or it
/// does not fit.
proof fn lemma_row_step(tokens: Seq<Token>, tail: Seq<char>, k: int)
    requires
        forall|j: int| 0 <= j < tokens.len() ==> (#[trigger] tokens[j]).well_formed(),
        forall|x: int| 0 <= x < tail.len() ==> classify(#[trigger] tail[x]) == CharClass::Space,
        0 <= k < tokens.len(),
    ensures
        worth(tokens.take(k + 1)) == worth(tokens.take(k)) + tokens[k].nanos(),
        parse_from(
            text_of(tokens) + tail,
            text_of(tokens.take(k)).len() as int,
            Span::of_nanos(worth(tokens.take(k))),
        ) == (if fits(worth(tokens.take(k)), tokens[k]) {
            parse_from(
                text_of(tokens) + tail,
                text_of(tokens.take(k + 1)).len() as int,
                Span::of_nanos(worth(tokens.take(k + 1))),
            )
        } else {
            Err::<Span, ErrorView>(ErrorView::NumberOverflow)
        }),
{
    let s = text_of(tokens) + tail;
    let p = text_of(tokens.take(k)).len() as int;
    let before = worth(tokens.take(k));
    let t = tokens[k];
    let a = p + t.gap.len();
    let b = a + t.digits.len();
    let c = b + t.name.len();
    assert(t.well_formed());
    lemma_token_layout(tokens, tail, k);
    lemma_read_token(s, p, a, b, c, Span::of_nanos(before));
    lemma_worth(tokens.take(k));
    lemma_token_worth(t);
    lemma_add_units(before, t.value(), t.multiplier());
    assert(tokens.take(k + 1).drop_last() =~= tokens.take(k));
    assert(tokens.take(k + 1).last() == t);
}

/// Behind the last token of a row only white space is left, and the reading
/// ends with the sum in hand.
proof fn lemma_row_end(tokens: Seq<Token>, tail: Seq<char>, total: Span)
    requires
        forall|x: int| 0 <= x < tail.len() ==> classify(#[trigger] tail[x]) == CharClass::Space,
    ensures
        parse_from(text_of(tokens) + tail, text_of(tokens).len() as int, total) == Ok::<
            Span,
            ErrorView,
        >(total),
{
    let s = text_of(tokens) + tail;
    let p = text_of(tokens).len() as int;
    assert forall|x: int| p <= x < s.len() implies classify(#[trigger] s[x])
        == CharClass::Space by {
        assert(s[x] == tail[x - p]);
    }
    reveal(parse_from);
    lemma_run_end_is(s, p, s.len() as int, CharClass::Space);
}

/// Reading a row of well-formed tokens from the token of index `k` on, with
/// the sum of the tokens in front of it in hand.
proof fn lemma_read_row(tokens: Seq<Token>, tail: Seq<char>, k: int)
    requires
        forall|j: int| 0 <= j < tokens.len() ==> (#[trigger] tokens[j]).well_formed(),
        forall|x: int| 0 <= x < tail.len() ==> classify(#[trigger] tail[x]) == CharClass::Space,
        0 <= k <= tokens.len(),
        forall|j: int| 0 <= j < k ==> fits(worth(tokens.take(j)), #[trigger] tokens[j]),
    ensures
        parse_from(
            text_of(tokens) + tail,
            text_of(tokens.take(k)).len() as int,
            Span::of_nanos(worth(tokens.take(k))),
        ) == (if all_fit(tokens) {
            Ok::<Span, ErrorView>(Span::of_nanos(worth(tokens)))
        } else {
            Err::<Span, ErrorView>(ErrorView::NumberOverflow)
        }),
    decreases tokens.len() - k,
{
    if k == tokens.len() {
        assert(tokens.take(k) =~= tokens);
        lemma_row_end(tokens, tail, Span::of_nanos(worth(tokens)));
    } else {
        lemma_row_step(tokens, tail, k);
        if fits(worth(tokens.take(k)), tokens[k]) {
            lemma_read_row(tokens, tail, k + 1);
        }
    }
}

proof fn lemma_read_from_is_valid(s: Seq<char>, i: int, total: Span)
    requires
        0 <= i <= s.len(),
        total.valid(),
    ensures
        parse_from(s, i, total) matches Ok(d) ==> d.valid(),
    decreases s.len() - i,
{
    let a = run_end(s, i, CharClass::Space);
    reveal(parse_from);
    lemma_run_end(s, i, CharClass::Space);
    if a < s.len() && classify(s[a]) == CharClass::Digit {
        let b = run_end(s, a, CharClass::Digit);
        lemma_run_end(s, a, CharClass::Digit);
        let n = number(s.subrange(a, b));
        lemma_number_grows(s, a, a, b);
        if b < s.len() && classify(s[b]) == CharClass::Letter {
            let c = run_end(s, b, CharClass::Letter);
            lemma_run_end(s, b, CharClass::Letter);
            match multiplier_of(s.subrange(b, c)) {
                Some(m) => match add_units(total, n, m) {
                    Some(sum) => {
                        assert(0 <= n * m.nanos()) by (nonlinear_arith)
                            requires
                                0 <= n,
                                0 <= m.nanos(),
                        ;
                        lemma_add_units_valid(total, n, m);
                        lemma_read_from_is_valid(s, c, sum);
                    },
                    None => {},
                },
                None => {},
            }
        }
    }
}

/// The tokens of a line under way with one more item: nothing for an item
/// of zero, else a token with one space in front unless it is the first.
spec fn with_token(tokens: Seq<Token>, value: int, suffix: Seq<char>) -> Seq<Token> {
    if value <= 0 {
        tokens
    } else {
        tokens.push(
            Token {
                gap: if tokens.len() > 0 {
                    " "@
                } else {
                    Seq::empty()
                },
                digits: decimal(value),
                name: suffix,
            },
        )
    }
}

/// The line that a row of tokens makes.
spec fn line_of(tokens: Seq<Token>) -> Line {
    Line { text: text_of(tokens), started: tokens.len() > 0 }
}

/// The line of the parts from years down to seconds.
spec fn upper_line(p: Parts) -> Line {
    let line = Line { text: Seq::empty(), started: false };
    let line = with_item(line, p.years, plural("year"@, p.years));
    let line = with_item(line, p.months, plural("month"@, p.months));
    let line = with_item(line, p.days, plural("day"@, p.days));
    let line = with_item(line, p.hours, "h"@);
    let line = with_item(line, p.minutes, "m"@);
    with_item(line, p.seconds, "s"@)
}

/// An item written to a line is a token added to its row.
proof fn lemma_with_token(tokens: Seq<Token>, value: int, suffix: Seq<char>)
    requires
        forall|j: int| 0 <= j < tokens.len() ==> (#[trigger] tokens[j]).well_formed(),
        multiplier_of(suffix) is Some,
        all_fit(tokens),
        value > 0 ==> add_units(
            Span::of_nanos(worth(tokens)),
            value,
            multiplier_of(suffix)->0,
        ) is Some,
        value <= u64::MAX,
    ensures
        ({
            let added = with_token(tokens, value, suffix);
            &&& with_item(line_of(tokens), value, suffix) == line_of(added)
            &&& forall|j: int| 0 <= j < added.len() ==> (#[trigger] added[j]).well_formed()
            &&& all_fit(added)
            &&& worth(added) == worth(tokens) + (if value > 0 {
                value * multiplier_of(suffix)->0.nanos()
            } else {
                0
            })
        }),
{
    if value > 0 {
        let added = with_token(tokens, value, suffix);
        let t = added.last();
        reveal_strlit(" ");
        lemma_decimal(value);
        assert(added.drop_last() =~= tokens);
        assert(t.well_formed());
        assert(with_item(line_of(tokens), value, suffix).text =~= text_of(added));
        assert forall|k: int| 0 <= k < added.len() implies fits(
            worth(added.take(k)),
            #[trigger] added[k],
        ) by {
            if k < tokens.len() {
                assert(added.take(k) =~= tokens.take(k));
                assert(added[k] == tokens[k]);
            } else {
                assert(added.take(k) =~= tokens);
            }
        }
    }
}

/// An item of seconds or more, written behind `secs` whole seconds.
proof fn lemma_item_secs(tokens: Seq<Token>, value: int, suffix: Seq<char>, k: u64, secs: int)
    requires
        forall|j: int| 0 <= j < tokens.len() ==> (#[trigger] tokens[j]).well_formed(),
        all_fit(tokens),
        multiplier_of(suffix) == Some(Multiplier::Secs(k)),
        worth(tokens) == secs * 1_000_000_000,
        0 <= secs,
        0 <= value,
        secs + value * k <= u64::MAX,
        k >= 1,
    ensures
        ({
            let added = with_token(tokens, value, suffix);
            &&& with_item(line_of(tokens), value, suffix) == line_of(added)
            &&& forall|j: int| 0 <= j < added.len() ==> (#[trigger] added[j]).well_formed()
            &&& all_fit(added)
            &&& worth(added) == (secs + value * k) * 1_000_000_000
            &&& added.len() >= tokens.len()
            &&& value > 0 ==> added.len() > 0
        }),
{
    let m = Multiplier::Secs(k);
    let added = with_token(tokens, value, suffix);
    assert(value * m.nanos() == (value * k) * 1_000_000_000) by (nonlinear_arith)
        requires
            m.nanos() == k * 1_000_000_000,
    ;
    assert(value <= value * k) by (nonlinear_arith)
        requires
            0 <= value,
            k >= 1,
    ;
    assert(value == 0 ==> value * k == 0) by (nonlinear_arith);
    assert(value > 0 ==> add_units(Span::of_nanos(worth(tokens)), value, m) is Some);
    lemma_with_token(tokens, value, suffix);
    assert(worth(added) == (secs + value * k) * 1_000_000_000);
}

/// An item below the second, written behind `secs` whole seconds and
/// `nanos` nanoseconds.
proof fn lemma_item_nanos(
    tokens: Seq<Token>,
    value: int,
    suffix: Seq<char>,
    k: u64,
    secs: int,
    nanos: int,
)
    requires
        forall|j: int| 0 <= j < tokens.len() ==> (#[trigger] tokens[j]).well_formed(),
        all_fit(tokens),
        multiplier_of(suffix) == Some(Multiplier::Nanos(k)),
        worth(tokens) == secs * 1_000_000_000 + nanos,
        0 <= secs <= u64::MAX,
        0 <= nanos,
        0 <= value,
        nanos + value * k < 1_000_000_000,
        k >= 1,
    ensures
        ({
            let added = with_token(tokens, value, suffix);
            &&& with_item(line_of(tokens), value, suffix) == line_of(added)
            &&& forall|j: int| 0 <= j < added.len() ==> (#[trigger] added[j]).well_formed()
            &&& all_fit(added)
            &&& worth(added) == secs * 1_000_000_000 + nanos + value * k
            &&& added.len() >= tokens.len()
            &&& value > 0 ==> added.len() > 0
        }),
{
    let m = Multiplier::Nanos(k);
    let added = with_token(tokens, value, suffix);
    assert(value <= value * k) by (nonlinear_arith)
        requires
            0 <= value,
            k >= 1,
    ;
    assert(value == 0 ==> value * k == 0) by (nonlinear_arith);
    assert(value > 0 ==> add_units(Span::of_nanos(worth(tokens)), value, m) is Some);
    lemma_with_token(tokens, value, suffix);
    assert(worth(added) == secs * 1_000_000_000 + nanos + value * k);
}

/// The line of the parts from years down to seconds is a row of well-formed
/// tokens that fit and are worth the whole seconds.
proof fn lemma_upper_tokens(d: Span) -> (tokens: Seq<Token>)
    requires
        d.valid(),
    ensures
        upper_line(parts(d)) == line_of(tokens),
        forall|j: int| 0 <= j < tokens.len() ==> (#[trigger] tokens[j]).well_formed(),
        all_fit(tokens),
        worth(tokens) == d.secs * 1_000_000_000,
        d.secs > 0 ==> tokens.len() > 0,
{
    let p = parts(d);
    law_parts_add_up(d);
    lemma_written_units();
    let t0 = Seq::<Token>::empty();
    assert(line_of(t0) == Line { text: Seq::empty(), started: false });
    let s1 = p.years * YEAR;
    lemma_item_secs(t0, p.years, plural("year"@, p.years), YEAR, 0);
    let t1 = with_token(t0, p.years, plural("year"@, p.years));
    let s2 = s1 + p.months * MONTH;
    lemma_item_secs(t1, p.months, plural("month"@, p.months), MONTH, s1);
    let t2 = with_token(t1, p.months, plural("month"@, p.months));
    let s3 = s2 + p.days * DAY;
    lemma_item_secs(t2, p.days, plural("day"@, p.days), DAY, s2);
    let t3 = with_token(t2, p.days, plural("day"@, p.days));
    let s4 = s3 + p.hours * HOUR;
    lemma_item_secs(t3, p.hours, "h"@, HOUR, s3);
    let t4 = with_token(t3, p.hours, "h"@);
    let s5 = s4 + p.minutes * MINUTE;
    lemma_item_secs(t4, p.minutes, "m"@, MINUTE, s4);
    let t5 = with_token(t4, p.minutes, "m"@);
    lemma_item_secs(t5, p.seconds, "s"@, 1, s5);
    let t6 = with_token(t5, p.seconds, "s"@);
    t6
}

/// The text of a duration is a row of well-formed tokens that fit and are
/// worth the duration.
proof fn lemma_rendered_tokens(d: Span) -> (tokens: Seq<Token>)
    requires
        d.valid(),
        d != Span::zero(),
    ensures
        rendered(d) == text_of(tokens),
        tokens.len() > 0,
        forall|j: int| 0 <= j < tokens.len() ==> (#[trigger] tokens[j]).well_formed(),
        all_fit(tokens),
        worth(tokens) == d.total_nanos(),
{
    let p = parts(d);
    law_parts_add_up(d);
    lemma_written_units();
    let t6 = lemma_upper_tokens(d);
    let n1 = p.millis * 1_000_000;
    lemma_item_nanos(t6, p.millis, "ms"@, 1_000_000, d.secs, 0);
    let t7 = with_token(t6, p.millis, "ms"@);
    let n2 = n1 + p.micros * 1_000;
    lemma_item_nanos(t7, p.micros, "µs"@, 1_000, d.secs, n1);
    let t8 = with_token(t7, p.micros, "µs"@);
    lemma_item_nanos(t8, p.nanos, "ns"@, 1, d.secs, n2);
    let t9 = with_token(t8, p.nanos, "ns"@);
    let line = with_item(
        with_item(with_item(upper_line(p), p.millis, "ms"@), p.micros, "µs"@),
        p.nanos,
        "ns"@,
    );
    assert(rendered(d) == line.text);
    t9
}

} // verus!
