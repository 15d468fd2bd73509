use bib::error::{parse_error_message, parse_id, BibErrorResponse};
use bib::text::{
    atoi, decimal_string, replace_all, same_text, starts_with, strip_nul, ParseError,
};

#[test]
fn atoi_reads_plain_digits() {
    assert_eq!(atoi("123"), Ok(123));
    assert_eq!(atoi("0"), Ok(0));
    assert_eq!(atoi("007"), Ok(7));
    assert_eq!(atoi("+7"), Ok(7));
    assert_eq!(atoi("4294967295"), Ok(u32::MAX));
}

#[test]
fn atoi_refuses_what_is_not_a_number() {
    assert_eq!(atoi(""), Err(ParseError::Empty));
    assert_eq!(atoi("+"), Err(ParseError::InvalidDigit));
    assert_eq!(atoi("-"), Err(ParseError::InvalidDigit));
    assert_eq!(atoi("-5"), Err(ParseError::InvalidDigit));
    assert_eq!(atoi("12a"), Err(ParseError::InvalidDigit));
    assert_eq!(atoi(" 12"), Err(ParseError::InvalidDigit));
    assert_eq!(atoi("１２"), Err(ParseError::InvalidDigit));
    assert_eq!(atoi("4294967296"), Err(ParseError::Overflow));
}

#[test]
fn atoi_reports_the_first_error_from_the_left() {
    assert_eq!(atoi("99999999999a"), Err(ParseError::Overflow));
    assert_eq!(atoi("a99999999999"), Err(ParseError::InvalidDigit));
}

#[test]
fn atoi_agrees_with_the_standard_parser() {
    let samples = [
        "", "+", "-", "0", "00", "+0", "-0", "1", "+12", "12+", "4294967295", "4294967296",
        "99999999999a", "a", "1 ", "٣", "18446744073709551616", "0000000000042",
    ];
    for s in samples.iter() {
        let ours = atoi(s);
        let theirs = s.parse::<u32>();
        match (ours, theirs) {
            (Ok(a), Ok(b)) => assert_eq!(a, b, "{}", s),
            (Err(e), Err(f)) => assert_eq!(parse_error_message(e), f.to_string(), "{}", s),
            (a, b) => panic!("{}: {:?} vs {:?}", s, a, b),
        }
    }
}

#[test]
fn parse_messages_are_the_standard_ones() {
    assert_eq!(parse_error_message(ParseError::Empty), "".parse::<u32>().unwrap_err().to_string());
    assert_eq!(
        parse_error_message(ParseError::InvalidDigit),
        "x".parse::<u32>().unwrap_err().to_string()
    );
    assert_eq!(
        parse_error_message(ParseError::Overflow),
        "4294967296".parse::<u32>().unwrap_err().to_string()
    );
}

#[test]
fn parse_id_refuses_with_the_message() {
    assert_eq!(parse_id("15"), Ok(15));
    assert_eq!(
        parse_id("x"),
        Err(BibErrorResponse::InvalidArgument("invalid digit found in string".to_string()))
    );
}

#[test]
fn decimal_string_writes_as_to_string() {
    for n in [0u32, 7, 10, 42, 100, 1289, 65535, u32::MAX].iter() {
        assert_eq!(decimal_string(*n), n.to_string());
    }
}

#[test]
fn decimal_text_reads_back() {
    for n in [0u32, 9, 10, 1500, 3000, 4294967295].iter() {
        assert_eq!(atoi(&decimal_string(*n)), Ok(*n));
    }
}

#[test]
fn prefixes_and_equal_texts() {
    assert!(starts_with("2026/03/07 10:00", "2026/03/07"));
    assert!(!starts_with("2026/03/0", "2026/03/07"));
    assert!(starts_with("abc", ""));
    assert!(same_text("abc", "abc"));
    assert!(!same_text("abc", "abd"));
    assert!(!same_text("abc", "ab"));
}

#[test]
fn replace_all_replaces_each_occurrence() {
    assert_eq!(replace_all("a{{X}}b{{X}}", "{{X}}", "7"), "a7b7");
    assert_eq!(replace_all("aaa", "aa", "X"), "Xa");
    assert_eq!(replace_all("none", "{{X}}", "7"), "none");
    assert_eq!(replace_all("héllo {{X}}", "{{X}}", "wörld"), "héllo wörld");
    assert_eq!(replace_all("aaa", "aa", "X"), "aaa".replace("aa", "X"));
}

#[test]
fn strip_nul_drops_nul_characters() {
    assert_eq!(strip_nul("a\0b\0"), ("ab".to_string(), true));
    assert_eq!(strip_nul("abc"), ("abc".to_string(), false));
    assert_eq!(strip_nul("\0"), ("".to_string(), true));
    let (once, _) = strip_nul("x\0y\0\0z");
    assert_eq!(strip_nul(&once), (once.clone(), false));
}
