use humantime::{parse_duration, Duration, Error};

fn unknown(start: usize, end: usize, unit: &str, value: u64) -> Error {
    Error::UnknownUnit { start, end, unit: unit.to_string(), value }
}

#[test]
fn hours_and_minutes() {
    assert_eq!(parse_duration("2h 37min"), Ok(Duration::new(9420, 0)));
}

#[test]
fn milliseconds() {
    assert_eq!(parse_duration("32ms"), Ok(Duration::new(0, 32_000_000)));
}

#[test]
fn empty_text() {
    assert_eq!(parse_duration(""), Err(Error::Empty));
    assert_eq!(parse_duration("   "), Err(Error::Empty));
    assert_eq!(parse_duration("\r"), Err(Error::Empty));
    assert_eq!(parse_duration(" \t\n\u{a0}\u{2003}"), Err(Error::Empty));
}

#[test]
fn unknown_unit_spans_its_letters() {
    assert_eq!(parse_duration("1xyz"), Err(unknown(1, 4, "xyz", 1)));
    assert_eq!(parse_duration("10 s 7nope 1s"), Err(Error::InvalidCharacter(2)));
    assert_eq!(parse_duration("10s 7nope 1s"), Err(unknown(5, 9, "nope", 7)));
    assert_eq!(parse_duration("10s7nope1s"), Err(unknown(4, 8, "nope", 7)));
}

#[test]
fn unknown_unit_counts_bytes() {
    assert_eq!(parse_duration("1µx"), Err(unknown(1, 4, "µx", 1)));
    assert_eq!(parse_duration("3sµ 1s"), Err(unknown(1, 4, "sµ", 3)));
}

#[test]
fn largest_number_of_years_overflows() {
    assert_eq!(parse_duration("18446744073709551615y"), Err(Error::NumberOverflow));
}

#[test]
fn month_and_minute_differ_by_case() {
    assert_eq!(parse_duration("1M"), Ok(Duration::new(2_630_016, 0)));
    assert_eq!(parse_duration("1m"), Ok(Duration::new(60, 0)));
    assert_ne!(parse_duration("1M"), parse_duration("1m"));
}

#[test]
fn tokens_need_no_space_between_them() {
    assert_eq!(parse_duration("1h2m3s"), parse_duration("1h 2m 3s"));
    assert_eq!(parse_duration("1h2m3s"), Ok(Duration::new(3723, 0)));
    assert_eq!(parse_duration("2h37min"), parse_duration("2h 37min"));
}

#[test]
fn every_spelling_of_the_table() {
    let table: Vec<(&str, u64, u32)> = vec![
        ("ns", 0, 1),
        ("nsec", 0, 1),
        ("nanos", 0, 1),
        ("us", 0, 1_000),
        ("µs", 0, 1_000),
        ("usec", 0, 1_000),
        ("ms", 0, 1_000_000),
        ("msec", 0, 1_000_000),
        ("millis", 0, 1_000_000),
        ("s", 1, 0),
        ("sec", 1, 0),
        ("secs", 1, 0),
        ("second", 1, 0),
        ("seconds", 1, 0),
        ("m", 60, 0),
        ("min", 60, 0),
        ("mins", 60, 0),
        ("minute", 60, 0),
        ("minutes", 60, 0),
        ("h", 3_600, 0),
        ("hr", 3_600, 0),
        ("hrs", 3_600, 0),
        ("hour", 3_600, 0),
        ("hours", 3_600, 0),
        ("d", 86_400, 0),
        ("day", 86_400, 0),
        ("days", 86_400, 0),
        ("w", 604_800, 0),
        ("week", 604_800, 0),
        ("weeks", 604_800, 0),
        ("M", 2_630_016, 0),
        ("month", 2_630_016, 0),
        ("months", 2_630_016, 0),
        ("y", 31_557_600, 0),
        ("year", 31_557_600, 0),
        ("years", 31_557_600, 0),
    ];
    for (unit, secs, nanos) in table {
        let one = format!("1{}", unit);
        assert_eq!(parse_duration(&one), Ok(Duration::new(secs, nanos)), "{}", one);
        let many = format!("17{}", unit);
        assert_eq!(
            parse_duration(&many),
            Ok(Duration::new(17 * secs, 17 * nanos)),
            "{}",
            many
        );
    }
}

#[test]
fn spellings_are_case_sensitive() {
    assert_eq!(parse_duration("1S"), Err(unknown(1, 2, "S", 1)));
    assert_eq!(parse_duration("1Min"), Err(unknown(1, 4, "Min", 1)));
    assert_eq!(parse_duration("1MS"), Err(unknown(1, 3, "MS", 1)));
    assert_eq!(parse_duration("1Y"), Err(unknown(1, 2, "Y", 1)));
}

#[test]
fn tokens_add_up() {
    assert_eq!(parse_duration("1h 30m 1h"), Ok(Duration::new(9_000, 0)));
    assert_eq!(
        parse_duration("1y 2M 3w 4d 5h 6m 7s 8ms 9us 10ns"),
        Ok(Duration::new(
            31_557_600 + 2 * 2_630_016 + 3 * 604_800 + 4 * 86_400 + 5 * 3_600 + 6 * 60 + 7,
            8_009_010
        ))
    );
    assert_eq!(parse_duration("0s"), Ok(Duration::new(0, 0)));
    assert_eq!(parse_duration("007s"), Ok(Duration::new(7, 0)));
}

#[test]
fn nanoseconds_carry_into_seconds() {
    assert_eq!(parse_duration("1000000000ns"), Ok(Duration::new(1, 0)));
    assert_eq!(parse_duration("999999999ns 1ns"), Ok(Duration::new(1, 0)));
    assert_eq!(parse_duration("1500ms"), Ok(Duration::new(1, 500_000_000)));
    assert_eq!(parse_duration("2s 3500ms 700000us"), Ok(Duration::new(6, 200_000_000)));
    assert_eq!(
        parse_duration("18446744073709551615ns"),
        Ok(Duration::new(18_446_744_073, 709_551_615))
    );
}

#[test]
fn white_space_around_tokens() {
    assert_eq!(parse_duration("  1s"), Ok(Duration::new(1, 0)));
    assert_eq!(parse_duration("1s  "), Ok(Duration::new(1, 0)));
    assert_eq!(parse_duration(" 1s   2s "), Ok(Duration::new(3, 0)));
    assert_eq!(parse_duration("1s\t2s"), Ok(Duration::new(3, 0)));
    assert_eq!(parse_duration("1s\n2s"), Ok(Duration::new(3, 0)));
    assert_eq!(parse_duration("1s\u{a0}2s"), Ok(Duration::new(3, 0)));
    assert_eq!(parse_duration("1s\u{2003}2s"), Ok(Duration::new(3, 0)));
}

#[test]
fn no_white_space_inside_a_token() {
    assert_eq!(parse_duration("1 s"), Err(Error::InvalidCharacter(1)));
    assert_eq!(parse_duration("1 2s"), Err(Error::InvalidCharacter(1)));
    assert_eq!(parse_duration("12 "), Err(Error::InvalidCharacter(2)));
    assert_eq!(parse_duration("2 hours"), Err(Error::InvalidCharacter(1)));
    assert_eq!(parse_duration("2m sec"), Err(Error::NumberExpected(3)));
    assert_eq!(parse_duration("2hours min"), Err(Error::NumberExpected(7)));
}

#[test]
fn number_expected_at_the_character() {
    assert_eq!(parse_duration("\0"), Err(Error::NumberExpected(0)));
    assert_eq!(parse_duration("x"), Err(Error::NumberExpected(0)));
    assert_eq!(parse_duration("  x"), Err(Error::NumberExpected(2)));
    assert_eq!(parse_duration("s1"), Err(Error::NumberExpected(0)));
    assert_eq!(parse_duration("1s  x"), Err(Error::NumberExpected(4)));
    assert_eq!(parse_duration("1s -2s"), Err(Error::NumberExpected(3)));
    assert_eq!(parse_duration("1s\u{2003}~"), Err(Error::NumberExpected(5)));
    assert_eq!(parse_duration("1µs\u{a0}\u{a0}µs"), Err(Error::NumberExpected(8)));
}

#[test]
fn invalid_character_at_the_character() {
    assert_eq!(parse_duration("1~"), Err(Error::InvalidCharacter(1)));
    assert_eq!(parse_duration("1.5h"), Err(Error::InvalidCharacter(1)));
    assert_eq!(parse_duration("1s~"), Err(Error::InvalidCharacter(2)));
    assert_eq!(parse_duration("1N\u{e5}"), Err(Error::InvalidCharacter(2)));
    assert_eq!(parse_duration("1µs~"), Err(Error::InvalidCharacter(4)));
    assert_eq!(parse_duration("1xyz~"), Err(Error::InvalidCharacter(4)));
    assert_eq!(parse_duration("1s 22_s"), Err(Error::InvalidCharacter(5)));
}

#[test]
fn number_without_unit() {
    assert_eq!(parse_duration("12"), Err(unknown(2, 2, "", 12)));
    assert_eq!(parse_duration("1s 5"), Err(unknown(4, 4, "", 5)));
    assert_eq!(parse_duration("1µs5"), Err(unknown(5, 5, "", 5)));
}

#[test]
fn overflow_of_a_number() {
    assert_eq!(parse_duration("18446744073709551616s"), Err(Error::NumberOverflow));
    assert_eq!(parse_duration("100000000000000000000ns"), Err(Error::NumberOverflow));
    assert_eq!(parse_duration("100000000000000000000"), Err(Error::NumberOverflow));
    assert_eq!(parse_duration("100000000000000000000~"), Err(Error::NumberOverflow));
    assert_eq!(
        parse_duration("18446744073709551615s"),
        Ok(Duration::new(18_446_744_073_709_551_615, 0))
    );
}

#[test]
fn overflow_of_a_product_or_a_sum() {
    assert_eq!(parse_duration("18446744073709551615m"), Err(Error::NumberOverflow));
    assert_eq!(parse_duration("18446744073709551615us"), Err(Error::NumberOverflow));
    assert_eq!(parse_duration("18446744073709551615s 1s"), Err(Error::NumberOverflow));
    assert_eq!(parse_duration("18446744073709551615s 1000000000ns"), Err(Error::NumberOverflow));
    assert_eq!(parse_duration("1ns 18446744073709551615ns"), Err(Error::NumberOverflow));
    assert_eq!(
        parse_duration("18446744073709551615s 999999999ns"),
        Ok(Duration::new(18_446_744_073_709_551_615, 999_999_999))
    );
    assert_eq!(
        parse_duration("18446744073709551615ns 1ns"),
        Ok(Duration::new(18_446_744_073, 709_551_616))
    );
}

#[test]
fn first_error_in_reading_order() {
    assert_eq!(parse_duration("18446744073709551615m 1xyz"), Err(Error::NumberOverflow));
    assert_eq!(parse_duration("1xyz 18446744073709551615m"), Err(unknown(1, 4, "xyz", 1)));
    assert_eq!(parse_duration("1xyz2~"), Err(unknown(1, 4, "xyz", 1)));
}

#[test]
fn duration_carries_nanoseconds() {
    let d = Duration::new(1, 1_500_000_000);
    assert_eq!(d.as_secs(), 2);
    assert_eq!(d.subsec_nanos(), 500_000_000);
    assert_eq!(d, Duration::new(2, 500_000_000));
}

#[test]
fn unit_names_are_matched_whole() {
    assert_eq!(parse_duration("1se"), Err(unknown(1, 3, "se", 1)));
    assert_eq!(parse_duration("1secx"), Err(unknown(1, 5, "secx", 1)));
    assert_eq!(parse_duration("1secondss"), Err(unknown(1, 9, "secondss", 1)));
    assert_eq!(parse_duration("1n"), Err(unknown(1, 2, "n", 1)));
    assert_eq!(parse_duration("1mss"), Err(unknown(1, 4, "mss", 1)));
    assert_eq!(parse_duration("1u"), Err(unknown(1, 2, "u", 1)));
    assert_eq!(parse_duration("1µ"), Err(unknown(1, 3, "µ", 1)));
}

#[test]
fn offsets_behind_wide_characters() {
    assert_eq!(parse_duration("1µs 2xyz"), Err(unknown(6, 9, "xyz", 2)));
    assert_eq!(parse_duration("1µs\u{3000}2µµ"), Err(unknown(8, 12, "µµ", 2)));
    assert_eq!(parse_duration("1µs\u{3000}2µs€"), Err(Error::InvalidCharacter(11)));
    assert_eq!(parse_duration("\u{2003}\u{2003}é"), Err(Error::NumberExpected(6)));
    assert_eq!(parse_duration("1µs\u{1f600}"), Err(Error::InvalidCharacter(4)));
}

#[test]
fn digits_of_other_scripts_are_no_digits() {
    assert_eq!(parse_duration("\u{661}s"), Err(Error::NumberExpected(0)));
    assert_eq!(parse_duration("1\u{661}s"), Err(Error::InvalidCharacter(1)));
}
