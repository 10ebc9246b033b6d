use flitter::duration::Duration;
use flitter::duration_format::parse_duration;
use flitter::duration_format::DurationError;
use flitter::utils::format_duration;
use flitter::utils::Prefix;
use flitter::utils::Sign;

#[test]
fn formats_seconds_only() {
    let d = Duration::new(5, 250_000_000);
    assert_eq!(format_duration(d, 3, Sign::Positive, Prefix::NoneOrMinus), "5.250");
    assert_eq!(format_duration(d, 2, Sign::Positive, Prefix::PlusOrMinus), "+5.25");
    assert_eq!(format_duration(d, 0, Sign::Negative, Prefix::NoneOrMinus), "-5.");
}

#[test]
fn formats_days_hours_minutes() {
    let d = Duration::new(86400 + 2 * 3600 + 3 * 60 + 4, 5_000_000);
    assert_eq!(format_duration(d, 3, Sign::Positive, Prefix::NoneOrMinus), "1:02:03:04.005");
    let h = Duration::new(3600, 0);
    assert_eq!(format_duration(h, 3, Sign::Positive, Prefix::NoneOrMinus), "1:00:00.000");
    let m = Duration::new(61, 999_999_999);
    assert_eq!(format_duration(m, 3, Sign::Positive, Prefix::NoneOrMinus), "1:01.999");
}

#[test]
fn parses_what_it_formats() {
    for secs in [0u64, 1, 59, 60, 61, 3599, 3600, 86399, 86400, 90061, 1_000_000_007] {
        for millis in [0u32, 1, 10, 100, 999] {
            let d = Duration::new(secs, millis * 1_000_000);
            let text = format_duration(d, 3, Sign::Positive, Prefix::NoneOrMinus);
            assert_eq!(parse_duration(&text), Ok(d), "{}", text);
        }
    }
}

#[test]
fn parse_pads_fraction_on_the_right() {
    assert_eq!(parse_duration("1.5"), Ok(Duration::from_millis(1500)));
    assert_eq!(parse_duration("1.05"), Ok(Duration::from_millis(1050)));
    assert_eq!(parse_duration("1:90"), Ok(Duration::from_secs(150)));
    assert_eq!(parse_duration("2:0:0:0"), Ok(Duration::from_secs(172800)));
}

#[test]
fn parse_rejects_malformed_text() {
    for text in ["", ".", "1.", ".5", "1:", ":1", "1::2", "1:2:3:4:5", "1.2345", "a", "1.2.3", "-1", "+1", "1 "] {
        assert_eq!(parse_duration(text), Err(DurationError::InvalidFormat), "{}", text);
    }
}

#[test]
fn parse_rejects_what_does_not_fit() {
    assert_eq!(parse_duration("18446744073709551616"), Err(DurationError::TooLarge));
    assert_eq!(parse_duration("18446744073709551615:00"), Err(DurationError::TooLarge));
    assert_eq!(
        parse_duration("18446744073709551615.999"),
        Ok(Duration::new(u64::MAX, 999_000_000))
    );
}

#[test]
fn formats_with_fewer_millisecond_digits() {
    let d = Duration::new(3723, 456_789_000);
    assert_eq!(format_duration(d, 3, Sign::Positive, Prefix::NoneOrMinus), "1:02:03.456");
    assert_eq!(format_duration(d, 2, Sign::Positive, Prefix::NoneOrMinus), "1:02:03.45");
    assert_eq!(format_duration(d, 1, Sign::Negative, Prefix::PlusOrMinus), "-1:02:03.4");
    assert_eq!(format_duration(d, 0, Sign::Positive, Prefix::PlusOrMinus), "+1:02:03.");
    assert_eq!(
        format_duration(Duration::longest(), 3, Sign::Positive, Prefix::NoneOrMinus),
        "213503982334601:07:00:15.999"
    );
    assert_eq!(format_duration(Duration::zero(), 3, Sign::from(true), Prefix::NoneOrMinus), "0.000");
    assert_eq!(Sign::from(false), Sign::Negative);
}

#[test]
fn what_is_finer_than_a_millisecond_is_lost() {
    let d = Duration::new(61, 1_999_999);
    let text = format_duration(d, 3, Sign::Positive, Prefix::NoneOrMinus);
    assert_eq!(text, "1:01.001");
    assert_eq!(parse_duration(&text), Ok(d.trunc_millis()));
    assert_eq!(parse_duration(&text), Ok(Duration::from_millis(61_001)));
}
