//! Reading a duration from text in one pass over its characters.
use std::str::Chars;
use vstd::prelude::*;
use vstd::std_specs::iter::IteratorSpec;
use vstd::utf8::encode_utf8;
use crate::duration::{Duration, Span, NANOS_PER_SEC};
use crate::error::{Error, ErrorView};
use crate::grammar::{
    lemma_run_end, lemma_run_end_is, lemma_run_goes_on, lemma_skip_space, parse_from, parsed,
    run_end,
};
use crate::offsets::{lemma_offset_ends, lemma_offset_step, offset, substring, width_of};
use crate::text::{
    class_of, classify, digit_value, lemma_number_grows, lemma_number_push, number, value_of_digit,
    CharClass,
};
use crate::units::{add_units, lookup, multiplier_of, Multiplier};

verus! {

/// The product of two numbers, where it fits.
fn times(a: u64, b: u64) -> (r: Result<u64, Error>)
    ensures
        match r {
            Ok(p) => p == a * b,
            Err(e) => a * b > u64::MAX && e@ == ErrorView::NumberOverflow,
        },
{
    match a.checked_mul(b) {
        Some(p) => Ok(p),
        None => Err(Error::NumberOverflow),
    }
}

/// The sum of two numbers, where it fits.
fn plus(a: u64, b: u64) -> (r: Result<u64, Error>)
    ensures
        match r {
            Ok(p) => p == a + b,
            Err(e) => a + b > u64::MAX && e@ == ErrorView::NumberOverflow,
        },
{
    match a.checked_add(b) {
        Some(p) => Ok(p),
        None => Err(Error::NumberOverflow),
    }
}

struct Parser<'a> {
    iter: Chars<'a>,
    src: &'a str,
    /// Bytes of `src` that `iter` has gone over.
    pos: usize,
    /// Characters of `src` that `iter` has gone over.
    index: Ghost<int>,
    /// Seconds and nanoseconds read so far.
    current: (u64, u64),
}

impl<'a> Parser<'a> {
    /// What was read so far.
    spec fn total(&self) -> Span {
        Span { secs: self.current.0 as int, nanos: self.current.1 as int }
    }

    /// The parts of the parser agree, where `rest` is what the iterator
    /// still holds: it is the text from `index` on, `pos` is the byte offset
    /// of `index`, and the nanoseconds read so far are below one second.
    spec fn wf(&self, rest: Seq<char>) -> bool {
        &&& 0 <= self.index@ <= self.src@.len()
        &&& rest == self.src@.subrange(self.index@, self.src@.len() as int)
        &&& self.pos == offset(self.src@, self.index@)
        &&& encode_utf8(self.src@).len() <= usize::MAX
        &&& self.current.1 < NANOS_PER_SEC
    }

    /// The byte offset of the next character.
    fn off(&self) -> (r: usize)
        ensures
            r == self.pos,
    {
        self.pos
    }

    /// Takes the next character, if there is one.
    fn next(&mut self) -> (r: Option<char>)
        requires
            old(self).wf(old(self).iter.remaining()),
        ensures
            final(self).wf(final(self).iter.remaining()),
            final(self).src == old(self).src,
            final(self).current == old(self).current,
            match r {
                Some(c) => {
                    &&& old(self).index@ < old(self).src@.len()
                    &&& c == old(self).src@[old(self).index@]
                    &&& final(self).index@ == old(self).index@ + 1
                },
                None => {
                    &&& old(self).index@ == old(self).src@.len()
                    &&& final(self).index@ == old(self).index@
                },
            },
    {
        broadcast use vstd::string::group_string_axioms;

        let r = self.iter.next();
        match r {
            Some(c) => {
                proof {
                    let s = self.src@;
                    let i = self.index@;
                    lemma_offset_step(s, i);
                    assert(self.iter.remaining() =~= s.subrange(i + 1, s.len() as int));
                }
                self.pos = self.pos + width_of(c);
                self.index = Ghost(self.index@ + 1);
            },
            None => {},
        }
        r
    }

    /// Skips white space up to the first digit of a number and returns what
    /// the digit stands for, or `None` where the text ends first.
    fn parse_first_char(&mut self) -> (r: Result<Option<u64>, Error>)
        requires
            old(self).wf(old(self).iter.remaining()),
        ensures
            final(self).src == old(self).src,
            final(self).current == old(self).current,
            ({
                let s = old(self).src@;
                let a = run_end(s, old(self).index@, CharClass::Space);
                match r {
                    Ok(Some(d)) => {
                        &&& old(self).index@ <= a < s.len()
                        &&& classify(s[a]) == CharClass::Digit
                        &&& d == digit_value(s[a])
                        &&& final(self).index@ == a + 1
                        &&& final(self).wf(final(self).iter.remaining())
                    },
                    Ok(None) => {
                        &&& a == s.len()
                        &&& final(self).index@ == a
                        &&& final(self).wf(final(self).iter.remaining())
                    },
                    Err(e) => {
                        &&& old(self).index@ <= a < s.len()
                        &&& classify(s[a]) != CharClass::Digit
                        &&& e@ == ErrorView::NumberExpected(offset(s, a))
                    },
                }
            }),
    {
        let ghost s = self.src@;
        let ghost from = self.index@;
        loop
            invariant
                self.wf(self.iter.remaining()),
                self.src == old(self).src,
                self.current == old(self).current,
                s == self.src@,
                from == old(self).index@,
                0 <= from <= self.index@,
                forall|x: int| from <= x < self.index@ ==> classify(#[trigger] s[x]) == CharClass::Space,
            decreases s.len() - self.index@,
        {
            let off = self.off();
            proof {
                lemma_run_goes_on(s, from, self.index@, CharClass::Space);
            }
            match self.next() {
                Some(c) => {
                    match class_of(c) {
                        CharClass::Digit => {
                            return Ok(Some(value_of_digit(c)));
                        },
                        CharClass::Space => {},
                        _ => {
                            return Err(Error::NumberExpected(off));
                        },
                    }
                },
                None => {
                    return Ok(None);
                },
            }
        }
    }

    /// Looks up the unit that stands between the byte offsets `start` and
    /// `end`, which are those of the characters of index `b` and `c`, and
    /// adds `n` of it to what was read so far.
    fn parse_unit(
        &mut self,
        n: u64,
        start: usize,
        end: usize,
        Ghost(b): Ghost<int>,
        Ghost(c): Ghost<int>,
    ) -> (r: Result<(), Error>)
        requires
            0 <= b <= c <= old(self).src@.len(),
            start == offset(old(self).src@, b),
            end == offset(old(self).src@, c),
            old(self).current.1 < NANOS_PER_SEC,
        ensures
            final(self).src == old(self).src,
            final(self).iter == old(self).iter,
            final(self).pos == old(self).pos,
            final(self).index == old(self).index,
            final(self).current.1 < NANOS_PER_SEC,
            ({
                let name = old(self).src@.subrange(b, c);
                match r {
                    Ok(_) => {
                        &&& multiplier_of(name) matches Some(m)
                        &&& add_units(old(self).total(), n as int, m) == Some(final(self).total())
                    },
                    Err(e) => match multiplier_of(name) {
                        None => e@ == (ErrorView::UnknownUnit {
                            start: start as int,
                            end: end as int,
                            unit: name,
                            value: n as int,
                        }),
                        Some(m) => {
                            &&& add_units(old(self).total(), n as int, m) is None
                            &&& e@ == ErrorView::NumberOverflow
                        },
                    },
                }
            }),
    {
        let name = substring(self.src, start, end, Ghost(b), Ghost(c));
        let (mut sec, nsec): (u64, u64) = match lookup(name) {
            Some(Multiplier::Nanos(k)) => (0, times(n, k)?),
            Some(Multiplier::Secs(k)) => (times(n, k)?, 0),
            None => {
                return Err(Error::UnknownUnit { start, end, unit: name.to_owned(), value: n });
            },
        };
        let mut nsec: u64 = plus(self.current.1, nsec)?;
        if nsec >= 1_000_000_000 {
            sec = plus(sec, nsec / 1_000_000_000)?;
            nsec = nsec % 1_000_000_000;
        }
        sec = plus(self.current.0, sec)?;
        self.current = (sec, nsec);
        Ok(())
    }

    /// Reads the whole text: a number, its unit, the next number, its unit,
    /// and so on to the end.
    fn parse(&mut self) -> (r: Result<Duration, Error>)
        requires
            old(self).wf(old(self).iter.remaining()),
            old(self).index@ == 0,
            old(self).current == (0u64, 0u64),
        ensures
            match r {
                Ok(d) => parsed(old(self).src@) == Ok::<Span, ErrorView>(d@),
                Err(e) => parsed(old(self).src@) == Err::<Span, ErrorView>(e@),
            },
    {
        let ghost s = self.src@;
        proof {
            reveal(parse_from);
            lemma_skip_space(s, 0, Span::zero());
        }
        let mut n: u64 = match self.parse_first_char() {
            Ok(Some(d)) => d,
            Ok(None) => {
                return Err(Error::Empty);
            },
            Err(e) => {
                return Err(e);
            },
        };
        // The number that is being read starts at index `a`, its unit at `b`,
        // and the unit ends in front of `c`.
        let ghost mut a: int = self.index@ - 1;
        loop
            invariant
                self.wf(self.iter.remaining()),
                self.src@ == s,
                old(self).src@ == s,
                0 <= a < s.len(),
                self.index@ == a + 1,
                classify(s[a]) == CharClass::Digit,
                n == digit_value(s[a]),
                parsed(s) == parse_from(s, a, self.total()),
            decreases s.len() - a,
        {
            let ghost total = self.total();
            let ghost mut b: int = a;
            let mut off: usize = self.off();
            proof {
                reveal(parse_from);
                lemma_run_end_is(s, a, a, CharClass::Space);
                assert(s.subrange(a, a + 1) =~= Seq::<char>::empty().push(s[a]));
                lemma_number_push(Seq::<char>::empty(), s[a]);
            }
            loop
                invariant_except_break
                    self.wf(self.iter.remaining()),
                    a < self.index@ <= s.len(),
                    forall|x: int|
                        a <= x < self.index@ ==> classify(#[trigger] s[x]) == CharClass::Digit,
                    n == number(s.subrange(a, self.index@)),
                invariant
                    self.src@ == s,
                    old(self).src@ == s,
                    0 <= a < s.len(),
                    run_end(s, a, CharClass::Space) == a,
                    classify(s[a]) == CharClass::Digit,
                    self.total() == total,
                    parsed(s) == parse_from(s, a, total),
                ensures
                    self.wf(self.iter.remaining()),
                    a < b < s.len(),
                    self.index@ == b + 1,
                    run_end(s, a, CharClass::Digit) == b,
                    n == number(s.subrange(a, b)),
                    classify(s[b]) == CharClass::Letter,
                    off == offset(s, b),
                decreases s.len() - self.index@,
            {
                let ghost i = self.index@;
                off = self.off();
                proof {
                    reveal(parse_from);
                    lemma_run_goes_on(s, a, i, CharClass::Digit);
                }
                match self.next() {
                    Some(c) => {
                        match class_of(c) {
                            CharClass::Digit => {
                                proof {
                                    assert(s.subrange(a, i + 1) =~= s.subrange(a, i).push(s[i]));
                                    lemma_number_push(s.subrange(a, i), s[i]);
                                }
                                let ten = n.checked_mul(10);
                                let more = match ten {
                                    Some(x) => x.checked_add(value_of_digit(c)),
                                    None => None,
                                };
                                match more {
                                    Some(x) => {
                                        n = x;
                                    },
                                    None => {
                                        proof {
                                            let e = run_end(s, a, CharClass::Digit);
                                            lemma_run_end(s, a, CharClass::Digit);
                                            assert(e >= i + 1) by {
                                                if e <= i {
                                                    assert(classify(s[e]) == CharClass::Digit);
                                                }
                                            }
                                            lemma_number_grows(s, a, i + 1, e);
                                        }
                                        return Err(Error::NumberOverflow);
                                    },
                                }
                            },
                            CharClass::Letter => {
                                proof {
                                    b = i;
                                }
                                break ;
                            },
                            _ => {
                                return Err(Error::InvalidCharacter(off));
                            },
                        }
                    },
                    None => {
                        return Err(
                            Error::UnknownUnit { start: off, end: off, unit: String::new(), value: n },
                        );
                    },
                }
            }
            let start: usize = off;
            let mut next_digit: Option<u64> = None;
            let ghost mut c: int = b;
            loop
                invariant_except_break
                    b < self.index@ <= s.len(),
                    forall|x: int|
                        b <= x < self.index@ ==> classify(#[trigger] s[x]) == CharClass::Letter,
                    next_digit is None,
                invariant
                    self.wf(self.iter.remaining()),
                    self.src@ == s,
                    old(self).src@ == s,
                    0 <= a < b < s.len(),
                    run_end(s, a, CharClass::Space) == a,
                    classify(s[a]) == CharClass::Digit,
                    run_end(s, a, CharClass::Digit) == b,
                    n == number(s.subrange(a, b)),
                    classify(s[b]) == CharClass::Letter,
                    start == offset(s, b),
                    self.total() == total,
                    parsed(s) == parse_from(s, a, total),
                ensures
                    b < c <= s.len(),
                    run_end(s, b, CharClass::Letter) == c,
                    off == offset(s, c),
                    match next_digit {
                        Some(d) => {
                            &&& c < s.len()
                            &&& self.index@ == c + 1
                            &&& classify(s[c]) == CharClass::Digit
                            &&& d == digit_value(s[c])
                        },
                        None => {
                            ||| self.index@ == c && c == s.len()
                            ||| self.index@ == c + 1 && c < s.len() && classify(s[c])
                                == CharClass::Space
                        },
                    },
                decreases s.len() - self.index@,
            {
                let ghost i = self.index@;
                off = self.off();
                proof {
                    reveal(parse_from);
                    lemma_run_goes_on(s, b, i, CharClass::Letter);
                    c = i;
                }
                match self.next() {
                    Some(ch) => {
                        match class_of(ch) {
                            CharClass::Digit => {
                                next_digit = Some(value_of_digit(ch));
                                break ;
                            },
                            CharClass::Space => {
                                break ;
                            },
                            CharClass::Letter => {},
                            CharClass::Other => {
                                return Err(Error::InvalidCharacter(off));
                            },
                        }
                    },
                    None => {
                        break ;
                    },
                }
            }
            match self.parse_unit(n, start, off, Ghost(b), Ghost(c)) {
                Ok(_) => {},
                Err(e) => {
                    return Err(e);
                },
            }
            match next_digit {
                Some(d) => {
                    n = d;
                    proof {
                        a = c;
                    }
                },
                None => {
                    proof {
                        lemma_skip_space(s, c, self.total());
                        lemma_skip_space(s, self.index@, self.total());
                    }
                    match self.parse_first_char() {
                        Ok(Some(d)) => {
                            n = d;
                            proof {
                                a = self.index@ - 1;
                            }
                        },
                        Ok(None) => {
                            return Ok(Duration::new(self.current.0, self.current.1 as u32));
                        },
                        Err(e) => {
                            return Err(e);
                        },
                    }
                },
            }
        }
    }
}

/// Reads a duration such as `1hour 12min 5s`.
///
/// The text is a row of numbers, each followed at once by its unit; white
/// space may stand between a unit and the next number, and around the whole.
/// The units are
///
/// * `ns`, `nsec`, `nanos`
/// * `us`, `µs`, `usec`
/// * `ms`, `msec`, `millis`
/// * `s`, `sec`, `secs`, `second`, `seconds`
/// * `m`, `min`, `mins`, `minute`, `minutes`
/// * `h`, `hr`, `hrs`, `hour`, `hours`
/// * `d`, `day`, `days`
/// * `w`, `week`, `weeks`
/// * `M`, `month`, `months`, of 30.44 days each
/// * `y`, `year`, `years`, of 365.25 days each
///
/// The result is the sum of all of them, or the first error met on the way.
pub fn parse_duration(s: &str) -> (r: Result<Duration, Error>)
    ensures
        match r {
            Ok(d) => parsed(s@) == Ok::<Span, ErrorView>(d@),
            Err(e) => parsed(s@) == Err::<Span, ErrorView>(e@),
        },
{
    broadcast use vstd::string::group_string_axioms;

    if s.as_bytes().len() == 0 {
        proof {
            if s@.len() > 0 {
                lemma_offset_step(s@, 0);
            }
        }
        return Err(Error::Empty);
    }
    let mut parser = Parser { iter: s.chars(), src: s, pos: 0, index: Ghost(0), current: (0, 0) };
    proof {
        lemma_offset_ends(s@);
        assert(parser.iter.remaining() =~= s@.subrange(0, s@.len() as int));
    }
    parser.parse()
}

} // verus!
