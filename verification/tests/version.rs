use mod_util::version::Version;
use mod_util::version::VersionParseError;
use mod_util::NumberError;
use std::cmp::Ordering;

fn invalid(detail: &str) -> VersionParseError {
    VersionParseError::InvalidNumber(detail.to_owned())
}

#[test]
fn new_keeps_the_three_parts() {
    let v = Version::new(1, 2, 3);
    assert_eq!(v.major, 1);
    assert_eq!(v.minor, 2);
    assert_eq!(v.patch, 3);
    assert_eq!(Version::new(0, 0, 0), Version { major: 0, minor: 0, patch: 0 });
    assert_eq!(Version::new(65535, 65535, 65535).patch, u16::MAX);
}

#[test]
fn order_goes_by_major_then_minor_then_patch() {
    assert!(Version::new(1, 0, 0) < Version::new(2, 0, 0));
    assert!(Version::new(1, 9, 9) < Version::new(2, 0, 0));
    assert!(Version::new(1, 2, 0) < Version::new(1, 3, 0));
    assert!(Version::new(1, 2, 9) < Version::new(1, 3, 0));
    assert!(Version::new(1, 2, 3) < Version::new(1, 2, 4));
    assert!(Version::new(1, 2, 3) <= Version::new(1, 2, 3));
    assert!(Version::new(1, 2, 3) >= Version::new(1, 2, 3));
    assert!(Version::new(0, 0, 1) > Version::new(0, 0, 0));
    assert!(!(Version::new(1, 2, 3) < Version::new(1, 2, 3)));
    assert!(!(Version::new(2, 0, 0) < Version::new(1, 9, 9)));
}

#[test]
fn compare_returns_the_ordering() {
    assert_eq!(Version::new(1, 2, 3).compare(&Version::new(1, 2, 3)), Ordering::Equal);
    assert_eq!(Version::new(1, 2, 3).compare(&Version::new(1, 2, 4)), Ordering::Less);
    assert_eq!(Version::new(1, 3, 0).compare(&Version::new(1, 2, 4)), Ordering::Greater);
    assert_eq!(Version::new(0, 9, 9).compare(&Version::new(1, 0, 0)), Ordering::Less);
    assert_eq!(Version::new(2, 0, 0).compare(&Version::new(1, 9, 9)), Ordering::Greater);
}

#[test]
fn exactly_one_of_less_equal_greater_holds() {
    let parts: [u16; 4] = [0, 1, 2, 65535];
    let mut all: Vec<Version> = Vec::new();
    for major in parts {
        for minor in parts {
            for patch in parts {
                all.push(Version::new(major, minor, patch));
            }
        }
    }
    for a in &all {
        for b in &all {
            let less = a < b;
            let equal = a == b;
            let greater = a > b;
            let count = [less, equal, greater].iter().filter(|x| **x).count();
            assert_eq!(count, 1);
            let by_parts = (a.major, a.minor, a.patch).cmp(&(b.major, b.minor, b.patch));
            assert_eq!(a.compare(b), by_parts);
            assert_eq!(a.partial_cmp(b), Some(by_parts));
            assert_eq!(a.cmp(b), by_parts);
            assert_eq!(less, by_parts == Ordering::Less);
            assert_eq!(greater, by_parts == Ordering::Greater);
            assert_eq!(a <= b, by_parts != Ordering::Greater);
            assert_eq!(a >= b, by_parts != Ordering::Less);
        }
    }
}

#[test]
fn maximum_of_a_list_is_the_highest_version() {
    let list = vec![Version::new(1, 0, 0), Version::new(1, 10, 0), Version::new(1, 9, 7)];
    assert_eq!(list.iter().max(), Some(&Version::new(1, 10, 0)));
    assert_eq!(list.iter().min(), Some(&Version::new(1, 0, 0)));
}

#[test]
fn to_string_is_major_dot_minor_dot_patch() {
    assert_eq!(Version::new(1, 2, 3).to_string(), "1.2.3");
    assert_eq!(Version::new(0, 0, 0).to_string(), "0.0.0");
    assert_eq!(Version::new(10, 0, 205).to_string(), "10.0.205");
    assert_eq!(Version::new(65535, 65535, 65535).to_string(), "65535.65535.65535");
    assert_eq!(Version::new(1, 0, 0).to_string(), "1.0.0");
}

#[test]
fn strict_parse_reads_three_parts() {
    assert_eq!(Version::parse_strict("1.2.3"), Ok(Version::new(1, 2, 3)));
    assert_eq!(Version::parse_strict("0.0.0"), Ok(Version::new(0, 0, 0)));
    assert_eq!(Version::parse_strict("65535.0.65535"), Ok(Version::new(65535, 0, 65535)));
    assert_eq!(Version::parse_strict("001.02.0003"), Ok(Version::new(1, 2, 3)));
    assert_eq!(Version::parse_strict("+1.+2.+3"), Ok(Version::new(1, 2, 3)));
}

#[test]
fn strict_parse_does_not_look_behind_the_third_part() {
    assert_eq!(Version::parse_strict("1.2.3.4"), Ok(Version::new(1, 2, 3)));
    assert_eq!(Version::parse_strict("1.2.3.x"), Ok(Version::new(1, 2, 3)));
    assert_eq!(Version::parse_strict("1.2.3."), Ok(Version::new(1, 2, 3)));
}

#[test]
fn strict_parse_rejects_short_forms() {
    assert_eq!(Version::parse_strict("1.2"), Err(VersionParseError::InvalidFormat));
    assert_eq!(Version::parse_strict("1"), Err(VersionParseError::InvalidFormat));
    assert_eq!(Version::parse_strict("0.65535"), Err(VersionParseError::InvalidFormat));
}

#[test]
fn strict_parse_reports_the_first_part_that_is_no_number() {
    assert_eq!(Version::parse_strict(""), Err(invalid("cannot parse integer from empty string")));
    assert_eq!(Version::parse_strict("1..3"), Err(invalid("cannot parse integer from empty string")));
    assert_eq!(Version::parse_strict("1.2."), Err(invalid("cannot parse integer from empty string")));
    assert_eq!(Version::parse_strict("x"), Err(invalid("invalid digit found in string")));
    assert_eq!(Version::parse_strict("x.2"), Err(invalid("invalid digit found in string")));
    assert_eq!(Version::parse_strict("1.x"), Err(invalid("invalid digit found in string")));
    assert_eq!(Version::parse_strict("1.2.x"), Err(invalid("invalid digit found in string")));
    assert_eq!(Version::parse_strict("1.2.-3"), Err(invalid("invalid digit found in string")));
    assert_eq!(Version::parse_strict(" 1.2.3"), Err(invalid("invalid digit found in string")));
    assert_eq!(Version::parse_strict("1.2.3 "), Err(invalid("invalid digit found in string")));
    assert_eq!(
        Version::parse_strict("65536.0.0"),
        Err(invalid("number too large to fit in target type"))
    );
    assert_eq!(
        Version::parse_strict("1.2.99999"),
        Err(invalid("number too large to fit in target type"))
    );
    assert_eq!(
        Version::parse_strict("70000.x"),
        Err(invalid("number too large to fit in target type"))
    );
}

#[test]
fn strict_parse_failure_texts_are_those_of_the_standard_library() {
    for part in ["", "x", "+", "-", "-1", "1_0", "65536", "99999999999", "12a", "999999x", "٣"] {
        let expected = part.parse::<u16>().unwrap_err().to_string();
        assert_eq!(Version::parse_strict(part), Err(invalid(&expected)));
        let text = format!("1.{}.3", part);
        assert_eq!(Version::parse_strict(&text), Err(invalid(&expected)));
    }
}

#[test]
fn round_trip_through_text() {
    let parts: [u16; 9] = [0, 1, 9, 10, 99, 100, 4096, 65534, 65535];
    for major in parts {
        for minor in parts {
            for patch in parts {
                let v = Version::new(major, minor, patch);
                assert_eq!(Version::parse_strict(&v.to_string()), Ok(v));
                assert_eq!(Version::parse_lenient(&v.to_string()), Ok(v));
                assert_eq!(v.to_string(), format!("{}.{}.{}", major, minor, patch));
            }
        }
    }
}

#[test]
fn lenient_parse_fills_missing_parts_with_zero() {
    assert_eq!(Version::parse_lenient("1.2"), Ok(Version::new(1, 2, 0)));
    assert_eq!(Version::parse_lenient("1"), Ok(Version::new(1, 0, 0)));
    assert_eq!(Version::parse_lenient("1.2.3"), Ok(Version::new(1, 2, 3)));
    assert_eq!(Version::parse_lenient("0"), Ok(Version::new(0, 0, 0)));
    assert_eq!(Version::parse_lenient("65535"), Ok(Version::new(65535, 0, 0)));
}

#[test]
fn lenient_parse_ignores_a_fourth_part() {
    assert_eq!(Version::parse_lenient("1.2.3.4"), Ok(Version::new(1, 2, 3)));
    assert_eq!(Version::parse_lenient("1.2.3.junk"), Ok(Version::new(1, 2, 3)));
    assert_eq!(Version::parse_lenient("1.2.3."), Ok(Version::new(1, 2, 3)));
}

#[test]
fn lenient_parse_rejects_parts_that_are_no_numbers() {
    assert_eq!(Version::parse_lenient(""), Err(NumberError::Empty));
    assert_eq!(Version::parse_lenient("x"), Err(NumberError::InvalidDigit));
    assert_eq!(Version::parse_lenient("1.x"), Err(NumberError::InvalidDigit));
    assert_eq!(Version::parse_lenient("1.2.x"), Err(NumberError::InvalidDigit));
    assert_eq!(Version::parse_lenient("1."), Err(NumberError::Empty));
    assert_eq!(Version::parse_lenient("1.2."), Err(NumberError::Empty));
    assert_eq!(Version::parse_lenient(".1"), Err(NumberError::Empty));
    assert_eq!(Version::parse_lenient("1.65536"), Err(NumberError::Overflow));
    assert_eq!(Version::parse_lenient("1.2.-1"), Err(NumberError::InvalidDigit));
    assert_eq!(Version::parse_lenient("a.b.c"), Err(NumberError::InvalidDigit));
}

#[test]
fn lenient_parse_from_characters() {
    let chars: Vec<char> = "3.4".chars().collect();
    assert_eq!(Version::parse_lenient_chars(&chars), Ok(Version::new(3, 4, 0)));
    let none: Vec<char> = Vec::new();
    assert_eq!(Version::parse_lenient_chars(&none), Err(NumberError::Empty));
}

#[test]
fn parse_error_texts() {
    assert_eq!(
        VersionParseError::InvalidFormat.to_string(),
        "invalid version format: expected \"major.minor.patch\""
    );
    assert_eq!(
        invalid("invalid digit found in string").to_string(),
        "invalid version number: invalid digit found in string"
    );
    assert_eq!(invalid("").to_string(), "invalid version number: ");
}
