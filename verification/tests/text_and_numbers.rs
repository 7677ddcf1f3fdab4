use srtlib::number::{parse_digits, push_padded};
use srtlib::text::{
    chars_of, cut_at, find_first, holds_alphanumeric, remove_char, skip_leading, string_of,
};
use srtlib::{IntError, Subtitle, Timestamp};

fn chars(s: &str) -> Vec<char> {
    s.chars().collect()
}

#[test]
fn strings_to_characters_and_back() {
    assert_eq!(chars_of(""), Vec::<char>::new());
    assert_eq!(chars_of("a\u{3b1}\u{1f600}\n"), ['a', '\u{3b1}', '\u{1f600}', '\n']);
    assert_eq!(string_of(&['a', '\u{3b1}', '\u{1f600}', '\n']), "a\u{3b1}\u{1f600}\n");
    assert_eq!(string_of(&[]), "");
}

#[test]
fn finding_and_cutting() {
    let text = chars("a --> b --> c");
    let arrow = chars(" --> ");
    assert_eq!(find_first(&text, &arrow), Some(1));
    assert_eq!(find_first(&text, &chars("c")), Some(12));
    assert_eq!(find_first(&text, &chars("d")), None);
    assert_eq!(find_first(&text, &chars("a --> b --> c!")), None);
    assert_eq!(find_first(&chars("\n\n\n"), &chars("\n\n")), Some(0));
    assert_eq!(find_first(&chars("-->"), &chars("->")), Some(1));
    let (head, rest) = cut_at(&text, &arrow);
    assert_eq!(head, ['a']);
    assert_eq!(rest.unwrap(), chars("b --> c"));
    let (head, rest) = cut_at(&text, &chars(";"));
    assert_eq!(head, text);
    assert!(rest.is_none());
    let whole = chars("ab");
    let (head, rest) = cut_at(&whole, &whole);
    assert!(head.is_empty());
    assert!(rest.unwrap().is_empty());
}

#[test]
fn trimming_and_removing() {
    assert_eq!(skip_leading(&chars("\n\n1\n"), '\n'), chars("1\n"));
    assert_eq!(skip_leading(&chars("1\n"), '\n'), chars("1\n"));
    assert_eq!(skip_leading(&chars("\n\n"), '\n'), chars(""));
    assert_eq!(remove_char(&chars("\ra\r\nb\r\r"), '\r'), chars("a\nb"));
    assert_eq!(remove_char(&chars("ab"), '\r'), chars("ab"));
}

#[test]
fn letters_and_numbers() {
    assert!(holds_alphanumeric(&chars("--- 7 ---")));
    assert!(holds_alphanumeric(&chars("\n x")));
    assert!(holds_alphanumeric(&chars("\u{663}")));
    assert!(!holds_alphanumeric(&chars("")));
    assert!(!holds_alphanumeric(&chars(" \n-->:,.!?")));
}

#[test]
fn numbers_are_parsed_within_a_bound() {
    assert_eq!(parse_digits(&chars("0"), 255), Ok(0));
    assert_eq!(parse_digits(&chars("255"), 255), Ok(255));
    assert_eq!(parse_digits(&chars("000255"), 255), Ok(255));
    assert_eq!(parse_digits(&chars("256"), 255), Err(IntError::TooLarge));
    assert_eq!(parse_digits(&chars("18446744073709551615"), u64::MAX), Ok(u64::MAX));
    assert_eq!(
        parse_digits(&chars("18446744073709551616"), u64::MAX),
        Err(IntError::TooLarge)
    );
    assert_eq!(parse_digits(&chars("7"), 5), Err(IntError::TooLarge));
    assert_eq!(parse_digits(&chars(""), 255), Err(IntError::Empty));
    assert_eq!(parse_digits(&chars("12a"), 255), Err(IntError::InvalidDigit));
    assert_eq!(parse_digits(&chars("\u{663}"), 255), Err(IntError::InvalidDigit));
}

#[test]
fn numbers_are_written_with_a_least_width() {
    let mut out = String::from(">");
    push_padded(&mut out, 7, 3);
    out.push('|');
    push_padded(&mut out, 1234, 3);
    out.push('|');
    push_padded(&mut out, 0, 0);
    out.push('|');
    push_padded(&mut out, 0, 2);
    out.push('|');
    push_padded(&mut out, u64::MAX, 1);
    assert_eq!(out, ">007|1234|0|00|18446744073709551615");
}

#[test]
fn parsing_from_characters() {
    assert_eq!(
        Timestamp::parse_chars(&chars("01:02:03,004")).unwrap(),
        Timestamp::new(1, 2, 3, 4)
    );
    let sub = Subtitle::parse_chars(&chars("9\n01:02:03,004 --> 01:02:04,000\nhi")).unwrap();
    assert_eq!(sub.num, 9);
    assert_eq!(sub.text, "hi");
    assert_eq!(sub.end_time.to_string(), "01:02:04,000");
}
