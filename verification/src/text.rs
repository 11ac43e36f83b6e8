//! Characters as the parser and the formatter meet them: their classes and
//! decimal numerals.
use vstd::prelude::*;

verus! {

/// Whether `c` is white space as std's `char::is_whitespace` tells it, that
/// is whether Unicode gives it the property `White_Space`.
pub uninterp spec fn white_space(c: char) -> bool;

/// `char::is_whitespace` of std. Believed of it: the answer is a property of
/// the character and of nothing else.
pub assume_specification[ char::is_whitespace ](c: char) -> (r: bool)
    ensures
        r == white_space(c),
;

/// `String::push` of std. Believed of it: the string afterwards is the string
/// before with the character appended.
pub assume_specification[ String::push ](s: &mut String, c: char)
    ensures
        final(s)@ == old(s)@.push(c),
;

/// The four kinds of character that the grammar tells apart.
#[derive(Clone, Copy, Debug, PartialEq, Eq, Structural)]
pub enum CharClass {
    /// `0` to `9`.
    Digit,
    /// An ASCII letter, or the micro sign of `µs`.
    Letter,
    /// White space that is neither a digit nor a letter.
    Space,
    /// Anything else.
    Other,
}

/// A decimal digit of ASCII.
pub open spec fn is_digit(c: char) -> bool {
    '0' <= c <= '9'
}

/// A character that unit names are made of: an ASCII letter or the micro
/// sign.
pub open spec fn is_letter(c: char) -> bool {
    ('a' <= c <= 'z') || ('A' <= c <= 'Z') || c == 'µ'
}

/// The class of a character of which it is known whether it is white
/// space. Digits and letters are recognised first, so the answer counts only
/// for the remaining characters; the plain space is white space in any case.
pub open spec fn classify_given(c: char, white: bool) -> CharClass {
    if is_digit(c) {
        CharClass::Digit
    } else if is_letter(c) {
        CharClass::Letter
    } else if c == ' ' || white {
        CharClass::Space
    } else {
        CharClass::Other
    }
}

/// The class of a character.
pub open spec fn classify(c: char) -> CharClass {
    classify_given(c, white_space(c))
}

/// Finds the class of a character of which it is known whether it is white
/// space.
pub fn class_given(c: char, white: bool) -> (k: CharClass)
    ensures
        k == classify_given(c, white),
{
    if c >= '0' && c <= '9' {
        CharClass::Digit
    } else if (c >= 'a' && c <= 'z') || (c >= 'A' && c <= 'Z') || c == 'µ' {
        CharClass::Letter
    } else if c == ' ' || white {
        CharClass::Space
    } else {
        CharClass::Other
    }
}

/// Finds the class of a character.
pub fn class_of(c: char) -> (k: CharClass)
    ensures
        k == classify(c),
{
    class_given(c, c.is_whitespace())
}

/// The number that a decimal digit stands for.
pub open spec fn digit_value(c: char) -> int {
    c as int - '0' as int
}

/// The number that the digit `c` stands for.
pub fn value_of_digit(c: char) -> (d: u64)
    requires
        is_digit(c),
    ensures
        d == digit_value(c),
        d <= 9,
{
    c as u64 - '0' as u64
}

/// The decimal digit for a number below ten.
pub open spec fn digit_char(d: int) -> char {
    ('0' as int + d) as char
}

/// The digit that stands for `d`.
pub fn char_of_digit(d: u8) -> (c: char)
    requires
        d <= 9,
    ensures
        c == digit_char(d as int),
        is_digit(c),
        digit_value(c) == d,
{
    (48u8 + d) as char
}

/// The number that a run of decimal digits denotes, leading zeros allowed.
/// It is unbounded: whether it fits a machine word is the reader's concern.
pub open spec fn number(digits: Seq<char>) -> int
    decreases digits.len(),
{
    if digits.len() == 0 {
        0
    } else {
        number(digits.drop_last()) * 10 + digit_value(digits.last())
    }
}

/// A numeral with one more digit is worth ten times the numeral plus the
/// digit.
pub proof fn lemma_number_push(digits: Seq<char>, c: char)
    ensures
        number(digits.push(c)) == number(digits) * 10 + digit_value(c),
{
    assert(digits.push(c).drop_last() =~= digits);
}

/// Among the digits of `s` from `a` on, a longer numeral is worth no less
/// than a shorter one, and none is negative.
pub proof fn lemma_number_grows(s: Seq<char>, a: int, i: int, j: int)
    requires
        0 <= a <= i <= j <= s.len(),
        forall|x: int| a <= x < j ==> is_digit(#[trigger] s[x]),
    ensures
        0 <= number(s.subrange(a, i)) <= number(s.subrange(a, j)),
    decreases j - a,
{
    if a < j {
        assert(s.subrange(a, j).drop_last() =~= s.subrange(a, j - 1));
        assert(is_digit(s[j - 1]));
        if i < j {
            lemma_number_grows(s, a, i, j - 1);
        } else {
            lemma_number_grows(s, a, j - 1, j - 1);
        }
    }
}

/// The decimal numeral of `n`, without leading zeros.
pub open spec fn decimal(n: int) -> Seq<char>
    decreases n,
{
    if n < 10 {
        seq![digit_char(n)]
    } else {
        decimal(n / 10).push(digit_char(n % 10))
    }
}

/// A decimal numeral is a run of digits, not empty, that denotes its number.
pub proof fn lemma_decimal(n: int)
    requires
        0 <= n,
    ensures
        decimal(n).len() >= 1,
        forall|x: int| 0 <= x < decimal(n).len() ==> is_digit(#[trigger] decimal(n)[x]),
        number(decimal(n)) == n,
    decreases n,
{
    if n < 10 {
        lemma_number_push(Seq::<char>::empty(), digit_char(n));
        assert(decimal(n) =~= Seq::<char>::empty().push(digit_char(n)));
    } else {
        lemma_decimal(n / 10);
        lemma_number_push(decimal(n / 10), digit_char(n % 10));
    }
}

/// Appends the decimal numeral of `n` to `out`.
pub fn push_decimal(out: &mut String, n: u64)
    ensures
        final(out)@ == old(out)@ + decimal(n as int),
    decreases n,
{
    if n >= 10 {
        push_decimal(out, n / 10);
    }
    let d: u8 = (n % 10) as u8;
    out.push(char_of_digit(d));
    assert(out@ =~= old(out)@ + decimal(n as int));
}

} // verus!
