use flitter::duration::Duration;
use flitter::duration::Instant;
use flitter::duration_format::parse_duration;
use flitter::duration_format::DurationError;
use regex::Regex;

#[test]
fn durations_are_built_from_their_parts() {
    assert_eq!(Duration::new(2, 500_000_000), Duration::from_millis(2500));
    assert_eq!(Duration::from_secs(3).as_nanos(), 3_000_000_000);
    assert_eq!(Duration::from_millis(1).as_nanos(), 1_000_000);
    assert_eq!(Duration::zero().as_nanos(), 0);
    assert_eq!(Duration::from_nanos(17).map(|d| d.as_nanos()), Some(17));
    assert_eq!(Duration::from_nanos(u128::MAX), None);
    assert_eq!(Duration::longest(), Duration::new(u64::MAX, 999_999_999));
    assert_eq!(Duration::from_nanos(Duration::longest().as_nanos() + 1), None);
    let d = Duration::new(u64::MAX, 999_999_999);
    assert_eq!(d.as_secs(), u64::MAX);
    assert_eq!(d.subsec_nanos(), 999_999_999);
    assert_eq!(d.subsec_millis(), 999);
    assert_eq!(d.as_millis(), u64::MAX as u128 * 1000 + 999);
    assert_eq!(Duration::new(1, 2_999_999).trunc_millis(), Duration::from_millis(1002));
}

#[test]
fn durations_add_subtract_and_compare() {
    let a = Duration::from_millis(1500);
    let b = Duration::from_millis(400);
    assert_eq!(a.checked_add(b), Some(Duration::from_millis(1900)));
    assert_eq!(a.checked_sub(b), Some(Duration::from_millis(1100)));
    assert_eq!(b.checked_sub(a), None);
    assert_eq!(a.checked_sub(a), Some(Duration::zero()));
    assert_eq!(Duration::longest().checked_add(Duration::from_nanos(1).unwrap()), None);
    assert_eq!(b.saturating_sub(a), Duration::zero());
    assert_eq!(a.saturating_sub(b), Duration::from_millis(1100));
    assert_eq!(a.abs_diff(b), Duration::from_millis(1100));
    assert_eq!(b.abs_diff(a), Duration::from_millis(1100));
    assert_eq!(a.min(b), b);
    assert_eq!(b.min(a), b);
    assert!(b.lt(&a) && !a.lt(&b) && !a.lt(&a));
    assert!(b.le(&a) && a.le(&a) && !a.le(&b));
    assert!(a.same(&a) && !a.same(&b));
    assert!(b < a);
}

#[test]
fn instants_measure_from_their_origin() {
    let t = Instant::at(Duration::from_secs(10));
    let later = Instant::at(Duration::from_secs(25));
    assert_eq!(t.since_origin(), Duration::from_secs(10));
    assert_eq!(later.duration_since(t), Duration::from_secs(15));
    assert_eq!(t.duration_since(later), Duration::zero());
    assert_eq!(later.checked_sub(Duration::from_secs(5)), Some(Instant::at(Duration::from_secs(20))));
    assert_eq!(t.checked_sub(Duration::from_secs(11)), None);
}

// The shape of a duration, as a regular expression.
fn shape() -> Regex {
    Regex::new(r"^(?:(?:(?:(\d+):)?(\d+):)?(\d+):)?(\d+)(?:\.(\d{1,3}))?$").unwrap()
}

fn by_regex(shape: &Regex, text: &str) -> Option<Duration> {
    let caps = shape.captures(text)?;
    let field = |i: usize| -> Option<u64> {
        match caps.get(i) {
            Some(m) => m.as_str().parse().ok(),
            None => Some(0),
        }
    };
    let millis = match caps.get(5) {
        Some(m) => {
            let mut digits = m.as_str().to_string();
            while digits.len() < 3 {
                digits.push('0');
            }
            digits.parse::<u32>().ok()?
        }
        None => 0,
    };
    let secs = field(4)?
        .checked_add(field(3)?.checked_mul(60)?)?
        .checked_add(field(2)?.checked_mul(3600)?)?
        .checked_add(field(1)?.checked_mul(86400)?)?;
    Some(Duration::new(secs, millis * 1_000_000))
}

#[test]
fn parsing_agrees_with_the_regular_expression() {
    let alphabet = ['0', '1', '7', ':', '.', 'x'];
    let mut texts: Vec<String> = vec![String::new()];
    let mut frontier: Vec<String> = vec![String::new()];
    for _ in 0..6 {
        let mut next = Vec::new();
        for text in &frontier {
            for c in alphabet {
                let mut longer = text.clone();
                longer.push(c);
                next.push(longer);
            }
        }
        texts.extend(next.iter().cloned());
        frontier = next;
    }
    assert_eq!(texts.len(), 1 + 6 + 36 + 216 + 1296 + 7776 + 46656);
    let shape = shape();
    for text in &texts {
        assert_eq!(parse_duration(text).ok(), by_regex(&shape, text), "{:?}", text);
    }
    for text in [
        "1:2:3:4.5",
        "0:0:0:0.000",
        "10:23:59:59.999",
        "213503982334601:7:0:15",
        "213503982334601:7:0:16",
        "18446744073709551615",
        "18446744073709551616",
        "0:307445734561825860:15",
        "0:307445734561825860:16",
        "000000000000000000000000000000001:00",
        "99999999999999999999:00:00:00",
    ] {
        assert_eq!(parse_duration(text).ok(), by_regex(&shape, text), "{:?}", text);
    }
}

#[test]
fn only_ascii_digits_count() {
    assert_eq!(parse_duration("\u{661}\u{662}"), Err(DurationError::InvalidFormat));
    assert_eq!(parse_duration("1.\u{663}"), Err(DurationError::InvalidFormat));
    assert_eq!(parse_duration("\u{ff11}:00"), Err(DurationError::InvalidFormat));
}
