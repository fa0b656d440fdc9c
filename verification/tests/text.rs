use std::num::IntErrorKind;

use ffmonitor::text::{
    chars_of, is_white_space, parse_u64, spells, split_once, string_of, strip_suffix, trim,
    NumberError,
};

fn trimmed(s: &str) -> String {
    string_of(trim(&chars_of(s)))
}

fn parsed(s: &str) -> Option<u64> {
    parse_u64(&chars_of(s)).ok()
}

fn by_std(s: &str) -> Result<u64, NumberError> {
    s.parse::<u64>().map_err(|e| match e.kind() {
        IntErrorKind::Empty => NumberError::Empty,
        IntErrorKind::InvalidDigit => NumberError::InvalidDigit,
        IntErrorKind::PosOverflow => NumberError::Overflow,
        other => panic!("{:?}", other),
    })
}

#[test]
fn white_space_is_what_std_calls_white_space() {
    for code in 0..=0x10FFFFu32 {
        if let Some(c) = char::from_u32(code) {
            assert_eq!(is_white_space(c), c.is_whitespace(), "U+{:04X}", code);
        }
    }
}

#[test]
fn chars_and_strings_convert_both_ways() {
    let s = "frame=10 \u{e9}\u{4e2d}\u{1f600}";
    let chars = chars_of(s);
    assert_eq!(chars, s.chars().collect::<Vec<char>>());
    assert_eq!(string_of(&chars), s);
    assert_eq!(chars_of(""), Vec::<char>::new());
}

#[test]
fn trim_agrees_with_std() {
    let samples = [
        "",
        " ",
        "a",
        "  a  ",
        "\t\r\nframe=1\n",
        "a b",
        " a b ",
        "\u{a0}x\u{2003}",
        "\u{3000}\u{85}",
        "x\u{200b}",
        "\u{feff}x",
    ];
    for s in samples {
        assert_eq!(trimmed(s), s.trim(), "{:?}", s);
    }
}

#[test]
fn split_once_agrees_with_std() {
    let samples = ["", "=", "a=b", "a=b=c", "=b", "a=", "ab", "==", "a:b"];
    for s in samples {
        let chars = chars_of(s);
        let got = split_once(&chars, '=').map(|(a, b)| (string_of(a), string_of(b)));
        let want = s.split_once('=').map(|(a, b)| (a.to_string(), b.to_string()));
        assert_eq!(got, want, "{:?}", s);
    }
}

#[test]
fn strip_suffix_agrees_with_std() {
    let samples = ["1000kbits/s", "kbits/s", "1000", "", "bits/s", "1000kbits/s ", "1.5x", "x", "xx"];
    for s in samples {
        for suffix in ["kbits/s", "x", ""] {
            let chars = chars_of(s);
            let got = string_of(strip_suffix(&chars, suffix));
            let want = s.strip_suffix(suffix).unwrap_or(s);
            assert_eq!(got, want, "{:?} {:?}", s, suffix);
        }
    }
}

#[test]
fn spells_compares_whole_texts() {
    assert!(spells(&chars_of("frame"), "frame"));
    assert!(!spells(&chars_of("frame "), "frame"));
    assert!(!spells(&chars_of("fram"), "frame"));
    assert!(!spells(&chars_of("Frame"), "frame"));
    assert!(spells(&chars_of(""), ""));
}

#[test]
fn unsigned_numbers_agree_with_std() {
    let samples = [
        "",
        "0",
        "7",
        "10",
        "007",
        "+5",
        "+",
        "-",
        "-5",
        "++5",
        "+-5",
        "5+",
        " 5",
        "5 ",
        "1_000",
        "1.0",
        "1e3",
        "0x10",
        "abc",
        "18446744073709551615",
        "18446744073709551616",
        "+18446744073709551615",
        "99999999999999999999999999",
        "00000000000000000000000000000001",
        "\u{ff11}",
        "\u{661}",
    ];
    for s in samples {
        assert_eq!(parsed(s), s.parse::<u64>().ok(), "{:?}", s);
    }
}

#[test]
fn unsigned_number_values() {
    assert_eq!(parsed("10"), Some(10));
    assert_eq!(parsed("+42"), Some(42));
    assert_eq!(parsed("18446744073709551615"), Some(u64::MAX));
    assert_eq!(parsed("18446744073709551616"), None);
    assert_eq!(parsed(""), None);
}

#[test]
fn unsigned_numbers_fail_for_the_reason_that_std_gives() {
    let samples = [
        "",
        "+",
        "-",
        "+-",
        "0",
        "-0",
        "12x",
        "x12",
        " 1",
        "1 ",
        "18446744073709551615",
        "18446744073709551616",
        "18446744073709551615x",
        "18446744073709551616x",
        "1844674407370955161x",
        "184467440737095516150",
        "99999999999999999999x",
        "x99999999999999999999",
        "9999999999999999x",
        "99999999999999999x",
        "1x99999999999999999999999",
        "0000000000000000000000018446744073709551615",
        "0000000000000000000000018446744073709551616",
        "+18446744073709551616",
        "++18446744073709551616",
        "\u{661}\u{662}",
    ];
    for s in samples {
        assert_eq!(parse_u64(&chars_of(s)), by_std(s), "{:?}", s);
    }
}

#[test]
fn every_reason_for_no_number_occurs() {
    assert_eq!(parse_u64(&chars_of("")), Err(NumberError::Empty));
    assert_eq!(parse_u64(&chars_of("+")), Err(NumberError::InvalidDigit));
    assert_eq!(parse_u64(&chars_of("1a")), Err(NumberError::InvalidDigit));
    assert_eq!(parse_u64(&chars_of("18446744073709551616")), Err(NumberError::Overflow));
    assert_eq!(parse_u64(&chars_of("18446744073709551616a")), Err(NumberError::Overflow));
    assert_eq!(parse_u64(&chars_of("18446744073709551615a")), Err(NumberError::InvalidDigit));
    assert_eq!(parse_u64(&chars_of("18446744073709551615")), Ok(u64::MAX));
}
