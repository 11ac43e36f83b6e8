use humantime::{format_duration, parse_duration, Duration, Error};

fn text(secs: u64, nanos: u32) -> String {
    format_duration(Duration::new(secs, nanos)).to_string()
}

#[test]
fn nothing_is_zero_seconds() {
    assert_eq!(text(0, 0), "0s");
}

#[test]
fn hours_and_minutes_written() {
    assert_eq!(text(9420, 0), "2h 37m");
}

#[test]
fn milliseconds_written() {
    assert_eq!(text(0, 32_000_000), "32ms");
    assert_eq!(parse_duration("32ms"), Ok(Duration::new(0, 32_000_000)));
}

#[test]
fn single_units() {
    assert_eq!(text(1, 0), "1s");
    assert_eq!(text(60, 0), "1m");
    assert_eq!(text(3_600, 0), "1h");
    assert_eq!(text(86_400, 0), "1day");
    assert_eq!(text(2_630_016, 0), "1month");
    assert_eq!(text(31_557_600, 0), "1year");
    assert_eq!(text(0, 1), "1ns");
    assert_eq!(text(0, 1_000), "1µs");
    assert_eq!(text(0, 1_000_000), "1ms");
}

#[test]
fn plural_of_years_months_days() {
    assert_eq!(text(2 * 86_400, 0), "2days");
    assert_eq!(text(2 * 2_630_016, 0), "2months");
    assert_eq!(text(2 * 31_557_600, 0), "2years");
    assert_eq!(text(2 * 31_557_600 + 2_630_016 + 3 * 86_400, 0), "2years 1month 3days");
    assert_eq!(text(7200, 0), "2h");
}

#[test]
fn a_week_is_seven_days() {
    assert_eq!(text(604_800, 0), "7days");
}

#[test]
fn zero_parts_are_left_out() {
    assert_eq!(text(3_600, 5), "1h 5ns");
    assert_eq!(text(31_557_600 + 1, 0), "1year 1s");
    assert_eq!(text(61, 1_000_001), "1m 1s 1ms 1ns");
}

#[test]
fn all_parts() {
    assert_eq!(
        text(
            3 * 31_557_600 + 4 * 2_630_016 + 5 * 86_400 + 6 * 3_600 + 7 * 60 + 8,
            9_010_011
        ),
        "3years 4months 5days 6h 7m 8s 9ms 10µs 11ns"
    );
    assert_eq!(text(0, 999_999_999), "999ms 999µs 999ns");
    assert_eq!(
        text(18_446_744_073_709_551_615, 999_999_999),
        "584542046090years 7months 15days 17h 5m 3s 999ms 999µs 999ns"
    );
}

#[test]
fn inner_duration() {
    let d = Duration::new(9420, 7);
    let f = format_duration(d);
    assert_eq!(*f.get_ref(), d);
    assert_eq!(f.clone().to_string(), f.to_string());
}

#[test]
fn written_and_read_again() {
    let samples: Vec<(u64, u32)> = vec![
        (0, 0),
        (0, 1),
        (0, 999),
        (0, 1_000),
        (0, 999_999),
        (0, 1_000_000),
        (0, 999_999_999),
        (1, 0),
        (59, 0),
        (60, 0),
        (3_599, 999_999_999),
        (3_600, 0),
        (86_399, 0),
        (86_400, 1),
        (604_800, 0),
        (2_630_015, 0),
        (2_630_016, 0),
        (31_557_599, 0),
        (31_557_600, 0),
        (31_557_600 * 12 + 2_630_016 * 11 + 86_400 * 29 + 7, 120_034_056),
        (1_000_000_007, 1_000_007),
        (18_446_744_073_709_551_615, 0),
        (18_446_744_073_709_551_615, 999_999_999),
    ];
    for (secs, nanos) in samples {
        let d = Duration::new(secs, nanos);
        let written = format_duration(d).to_string();
        assert_eq!(parse_duration(&written), Ok(d), "{}", written);
    }
}

#[test]
fn written_and_read_again_many() {
    let mut seed: u64 = 0x2545_f491_4f6c_dd1d;
    for round in 0..2_000 {
        seed ^= seed << 13;
        seed ^= seed >> 7;
        seed ^= seed << 17;
        let secs = if round % 2 == 0 { seed } else { seed % 100_000_000 };
        let nanos = ((seed >> 11) % 1_000_000_000) as u32;
        let d = Duration::new(secs, nanos);
        let written = format_duration(d).to_string();
        assert_eq!(parse_duration(&written), Ok(d), "{}", written);
    }
}

#[test]
fn messages() {
    assert_eq!(Error::InvalidCharacter(0).to_string(), "invalid character at 0");
    assert_eq!(Error::InvalidCharacter(1207).to_string(), "invalid character at 1207");
    assert_eq!(Error::NumberExpected(4).to_string(), "expected number at 4");
    assert_eq!(Error::NumberOverflow.to_string(), "number is too large");
    assert_eq!(Error::Empty.to_string(), "value was empty");
    assert_eq!(
        Error::UnknownUnit { start: 2, end: 2, unit: String::new(), value: 12 }.to_string(),
        "time unit needed, for example 12sec or 12ms"
    );
    assert_eq!(
        Error::UnknownUnit { start: 1, end: 4, unit: "xyz".to_string(), value: 1 }.to_string(),
        "unknown time unit \"xyz\", supported units: ns, us, ms, sec, min, hours, days, weeks, months, years (and few variations)"
    );
}

#[test]
fn messages_of_parse_errors() {
    assert_eq!(parse_duration("\0").unwrap_err().to_string(), "expected number at 0");
    assert_eq!(parse_duration("\r").unwrap_err().to_string(), "value was empty");
    assert_eq!(parse_duration("1~").unwrap_err().to_string(), "invalid character at 1");
    assert_eq!(parse_duration("1N\u{e5}").unwrap_err().to_string(), "invalid character at 2");
    assert_eq!(
        parse_duration("12").unwrap_err().to_string(),
        "time unit needed, for example 12sec or 12ms"
    );
    assert_eq!(
        parse_duration("222nsec221nanosmsec7s5msec572s").unwrap_err().to_string(),
        "unknown time unit \"nanosmsec\", supported units: ns, us, ms, sec, min, hours, days, weeks, months, years (and few variations)"
    );
}

#[test]
fn unit_in_a_message_is_quoted_and_escaped() {
    let e = Error::UnknownUnit { start: 0, end: 3, unit: "a\"b\n".to_string(), value: 1 };
    assert_eq!(
        e.to_string(),
        "unknown time unit \"a\\\"b\\n\", supported units: ns, us, ms, sec, min, hours, days, weeks, months, years (and few variations)"
    );
}

#[test]
fn decimal_numbers_in_messages() {
    assert_eq!(Error::InvalidCharacter(9).to_string(), "invalid character at 9");
    assert_eq!(Error::InvalidCharacter(10).to_string(), "invalid character at 10");
    assert_eq!(
        Error::UnknownUnit {
            start: 0,
            end: 0,
            unit: String::new(),
            value: 18_446_744_073_709_551_615
        }
        .to_string(),
        "time unit needed, for example 18446744073709551615sec or 18446744073709551615ms"
    );
}
