use mod_util::decimal::parse_u16_chars;
use mod_util::decimal::push_decimal;
use mod_util::text::chars_of;
use mod_util::text::is_whitespace_char;
use mod_util::text::join_range;
use mod_util::text::split_on;
use mod_util::text::string_of;
use mod_util::text::trim_slice;
use mod_util::NumberError;

fn chars(text: &str) -> Vec<char> {
    text.chars().collect()
}

fn text(chars: &[char]) -> String {
    chars.iter().collect()
}

#[test]
fn chars_and_strings_convert_both_ways() {
    assert_eq!(chars_of("a-b c"), vec!['a', '-', 'b', ' ', 'c']);
    assert_eq!(chars_of(""), Vec::<char>::new());
    assert_eq!(chars_of("é٣"), vec!['é', '٣']);
    assert_eq!(string_of(&['x', 'y', 'z']), "xyz");
    assert_eq!(string_of(&[]), "");
    assert_eq!(string_of(&chars_of("mod-name é")), "mod-name é");
}

#[test]
fn white_space_is_what_the_standard_library_calls_white_space() {
    for code in 0..=0x10FFFFu32 {
        if let Some(c) = char::from_u32(code) {
            assert_eq!(is_whitespace_char(c), c.is_whitespace(), "U+{:04X}", code);
        }
    }
}

#[test]
fn trim_removes_white_space_at_both_ends() {
    for sample in [
        "",
        " ",
        "   ",
        "a",
        " a",
        "a ",
        "  a b  ",
        "\t\n mod >= 1.0 \r\n",
        "\u{3000}x\u{a0}",
        "x\u{2003}y",
        "\u{1680}",
        "no-space",
    ] {
        assert_eq!(text(trim_slice(&chars(sample))), sample.trim(), "{:?}", sample);
    }
    assert_eq!(text(trim_slice(&chars("  a b  "))), "a b");
}

#[test]
fn split_cuts_at_every_separator() {
    for sample in ["", ".", "..", "1.2.3", "1..3", ".1", "1.", "abc", "a.b.c.d.e", "1.2.3.4"] {
        let expected: Vec<String> = sample.split('.').map(|p| p.to_owned()).collect();
        let got: Vec<String> = split_on(&chars(sample), '.').iter().map(|p| text(p)).collect();
        assert_eq!(got, expected, "{:?}", sample);
    }
    for sample in ["a b", " a", "a  b", "~ lazy-mod >= 0.5.0", "x"] {
        let expected: Vec<String> = sample.split(' ').map(|p| p.to_owned()).collect();
        let got: Vec<String> = split_on(&chars(sample), ' ').iter().map(|p| text(p)).collect();
        assert_eq!(got, expected, "{:?}", sample);
    }
    let parts = split_on(&chars("1..3"), '.');
    assert_eq!(parts, vec![vec!['1'], vec![], vec!['3']]);
    assert_eq!(split_on(&chars(""), '.'), vec![Vec::<char>::new()]);
}

#[test]
fn join_puts_the_separator_between_neighbours() {
    let parts = vec![chars("a"), chars("bc"), chars(""), chars("d")];
    assert_eq!(text(&join_range(&parts, 0, 4, ' ')), "a bc  d");
    assert_eq!(text(&join_range(&parts, 1, 2, ' ')), "bc");
    assert_eq!(text(&join_range(&parts, 2, 4, '-')), "-d");
    assert_eq!(text(&join_range(&parts, 3, 3, ' ')), "");
    assert_eq!(text(&join_range(&parts, 0, 0, ' ')), "");
    for from in 0..=parts.len() {
        for to in from..=parts.len() {
            let expected = parts[from..to].iter().map(|p| text(p)).collect::<Vec<String>>().join(" ");
            assert_eq!(text(&join_range(&parts, from, to, ' ')), expected);
        }
    }
}

#[test]
fn numbers_are_read_as_the_standard_library_reads_them() {
    let mut samples: Vec<String> = Vec::new();
    for n in [0u32, 1, 9, 10, 255, 6553, 6554, 65529, 65530, 65534, 65535, 65536, 65540, 99999, 100000] {
        samples.push(n.to_string());
        samples.push(format!("+{}", n));
        samples.push(format!("-{}", n));
        samples.push(format!("000{}", n));
        samples.push(format!("{}x", n));
        samples.push(format!("x{}", n));
        samples.push(format!(" {}", n));
        samples.push(format!("{} ", n));
        samples.push(format!("{}0000000000", n));
    }
    for s in ["", "+", "-", "++1", "+-1", "1+", "1.0", "1e3", "0x10", "١٢٣", "1_000", "00000000000000000001", "0000065535", "0000065536", "655360x", "65535x", "6553x5", "x99999999"] {
        samples.push(s.to_owned());
    }
    for sample in &samples {
        let got = parse_u16_chars(&chars(sample));
        match sample.parse::<u16>() {
            Ok(n) => assert_eq!(got, Ok(n), "{:?}", sample),
            Err(e) => {
                let error = got.expect_err(sample);
                assert_eq!(error.message(), e.to_string(), "{:?}", sample);
            }
        }
    }
}

#[test]
fn every_number_is_read_back_from_its_digits() {
    for n in 0..=u16::MAX {
        let digits = n.to_string();
        assert_eq!(parse_u16_chars(&chars(&digits)), Ok(n));
        let mut out = String::from(">");
        push_decimal(&mut out, n);
        assert_eq!(out, format!(">{}", n));
    }
}

#[test]
fn the_first_fault_decides_the_number_error() {
    assert_eq!(parse_u16_chars(&chars("")), Err(NumberError::Empty));
    assert_eq!(parse_u16_chars(&chars("+")), Err(NumberError::InvalidDigit));
    assert_eq!(parse_u16_chars(&chars("12x")), Err(NumberError::InvalidDigit));
    assert_eq!(parse_u16_chars(&chars("65536")), Err(NumberError::Overflow));
    assert_eq!(parse_u16_chars(&chars("65535x")), Err(NumberError::InvalidDigit));
    assert_eq!(parse_u16_chars(&chars("65536x")), Err(NumberError::Overflow));
    assert_eq!(parse_u16_chars(&chars("6553x6")), Err(NumberError::InvalidDigit));
    assert_eq!(parse_u16_chars(&chars("+65535")), Ok(65535));
    assert_eq!(parse_u16_chars(&chars("0000")), Ok(0));
}

#[test]
fn number_error_messages() {
    assert_eq!(NumberError::Empty.message(), "cannot parse integer from empty string");
    assert_eq!(NumberError::InvalidDigit.message(), "invalid digit found in string");
    assert_eq!(NumberError::Overflow.message(), "number too large to fit in target type");
}
