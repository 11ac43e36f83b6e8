use humantime::error::unknown_unit_sentence;
use humantime::offsets::{same_text, width_of};
use humantime::text::{char_of_digit, class_given, class_of, push_decimal, value_of_digit, CharClass};
use humantime::units::{lookup, Multiplier};

#[test]
fn classes_with_white_space_given() {
    assert_eq!(class_given('7', false), CharClass::Digit);
    assert_eq!(class_given('7', true), CharClass::Digit);
    assert_eq!(class_given('x', false), CharClass::Letter);
    assert_eq!(class_given('Z', true), CharClass::Letter);
    assert_eq!(class_given('µ', true), CharClass::Letter);
    assert_eq!(class_given(' ', false), CharClass::Space);
    assert_eq!(class_given('\t', true), CharClass::Space);
    assert_eq!(class_given('\t', false), CharClass::Other);
    assert_eq!(class_given('~', false), CharClass::Other);
    assert_eq!(class_given('~', true), CharClass::Space);
}

#[test]
fn classes_of_characters() {
    assert_eq!(class_of('0'), CharClass::Digit);
    assert_eq!(class_of('9'), CharClass::Digit);
    assert_eq!(class_of('a'), CharClass::Letter);
    assert_eq!(class_of('z'), CharClass::Letter);
    assert_eq!(class_of('A'), CharClass::Letter);
    assert_eq!(class_of('Z'), CharClass::Letter);
    assert_eq!(class_of('µ'), CharClass::Letter);
    assert_eq!(class_of(' '), CharClass::Space);
    assert_eq!(class_of('\t'), CharClass::Space);
    assert_eq!(class_of('\n'), CharClass::Space);
    assert_eq!(class_of('\u{a0}'), CharClass::Space);
    assert_eq!(class_of('\u{3000}'), CharClass::Space);
    assert_eq!(class_of('/'), CharClass::Other);
    assert_eq!(class_of(':'), CharClass::Other);
    assert_eq!(class_of('@'), CharClass::Other);
    assert_eq!(class_of('['), CharClass::Other);
    assert_eq!(class_of('`'), CharClass::Other);
    assert_eq!(class_of('{'), CharClass::Other);
    assert_eq!(class_of('\0'), CharClass::Other);
    assert_eq!(class_of('é'), CharClass::Other);
    assert_eq!(class_of('\u{3bc}'), CharClass::Other);
    assert_eq!(class_of('\u{661}'), CharClass::Other);
}

#[test]
fn digits_and_their_values() {
    for d in 0..10u8 {
        let c = char_of_digit(d);
        assert_eq!(c, (b'0' + d) as char);
        assert_eq!(value_of_digit(c), u64::from(d));
    }
}

#[test]
fn decimal_numerals() {
    let cases: Vec<(u64, &str)> = vec![
        (0, "0"),
        (7, "7"),
        (10, "10"),
        (99, "99"),
        (100, "100"),
        (9420, "9420"),
        (1_000_000_007, "1000000007"),
        (18_446_744_073_709_551_615, "18446744073709551615"),
    ];
    for (n, text) in cases {
        let mut out = String::from("n=");
        push_decimal(&mut out, n);
        assert_eq!(out, format!("n={}", text));
    }
}

#[test]
fn widths_in_bytes() {
    assert_eq!(width_of('a'), 1);
    assert_eq!(width_of('\u{7f}'), 1);
    assert_eq!(width_of('\u{80}'), 2);
    assert_eq!(width_of('µ'), 2);
    assert_eq!(width_of('\u{7ff}'), 2);
    assert_eq!(width_of('\u{800}'), 3);
    assert_eq!(width_of('€'), 3);
    assert_eq!(width_of('\u{ffff}'), 3);
    assert_eq!(width_of('\u{10000}'), 4);
    assert_eq!(width_of('\u{1f600}'), 4);
    for c in ['a', 'µ', '€', '\u{1f600}'] {
        assert_eq!(width_of(c), c.len_utf8());
    }
}

#[test]
fn texts_compared() {
    assert!(same_text("", ""));
    assert!(same_text("µs", "µs"));
    assert!(!same_text("µs", "us"));
    assert!(!same_text("ms", "msec"));
    assert!(!same_text("msec", "ms"));
    assert!(!same_text("mins", "minx"));
    assert!(!same_text("M", "m"));
}

#[test]
fn table_lookups() {
    assert_eq!(lookup("ns"), Some(Multiplier::Nanos(1)));
    assert_eq!(lookup("us"), Some(Multiplier::Nanos(1_000)));
    assert_eq!(lookup("µs"), Some(Multiplier::Nanos(1_000)));
    assert_eq!(lookup("millis"), Some(Multiplier::Nanos(1_000_000)));
    assert_eq!(lookup("s"), Some(Multiplier::Secs(1)));
    assert_eq!(lookup("m"), Some(Multiplier::Secs(60)));
    assert_eq!(lookup("M"), Some(Multiplier::Secs(2_630_016)));
    assert_eq!(lookup("hrs"), Some(Multiplier::Secs(3_600)));
    assert_eq!(lookup("days"), Some(Multiplier::Secs(86_400)));
    assert_eq!(lookup("w"), Some(Multiplier::Secs(604_800)));
    assert_eq!(lookup("years"), Some(Multiplier::Secs(31_557_600)));
    assert_eq!(lookup(""), None);
    assert_eq!(lookup("S"), None);
    assert_eq!(lookup("yrs"), None);
    assert_eq!(lookup(" s"), None);
}

#[test]
fn sentence_for_an_unknown_unit() {
    assert_eq!(
        unknown_unit_sentence("\"xyz\""),
        "unknown time unit \"xyz\", supported units: ns, us, ms, sec, min, hours, days, weeks, months, years (and few variations)"
    );
    assert_eq!(
        unknown_unit_sentence(""),
        "unknown time unit , supported units: ns, us, ms, sec, min, hours, days, weeks, months, years (and few variations)"
    );
}
