use srtlib::{IntError, ParsingError, Subtitle, Subtitles, Timestamp};
use std::cmp::Ordering;

#[test]
fn subtitle_parsing() {
    let input = "1\n00:00:00,000 --> 00:00:01,000\nHello world!\nNew line!";
    let result = Subtitle::new(
        1,
        Timestamp::new(0, 0, 0, 0),
        Timestamp::new(0, 0, 1, 0),
        "Hello world!\nNew line!".to_string(),
    );

    assert_eq!(Subtitle::parse(input.to_string()).unwrap(), result);
}

#[test]
fn subtitle_ordering() {
    let sub1 =
        Subtitle::parse("1\n00:00:00,000 --> 00:00:02,000\nHello world!".to_string()).unwrap();
    let sub2 = Subtitle::parse("2\n00:00:02,500 --> 00:00:05,000\nTest subtitle.".to_string())
        .unwrap();
    let sub3 =
        Subtitle::parse("2\n00:00:03,500 --> 00:00:06,000\nTest subtitle two.".to_string())
            .unwrap();

    assert!(sub1 < sub2);
    assert!(sub2 < sub3);
    assert_eq!(sub1.compare(&sub2), Ordering::Less);
    assert_eq!(sub2.compare(&sub3), Ordering::Less);
    assert_eq!(sub3.compare(&sub1), Ordering::Greater);
    assert!(sub1.is_before(&sub2));
    assert!(sub2.is_before(&sub3));
    assert!(!sub3.is_before(&sub2));
}

#[test]
fn add_time_subtitle() {
    let mut sub =
        Subtitle::parse("1\n00:00:00,000 --> 00:00:02,000\nHello world!".to_string()).unwrap();
    sub.add_seconds(10);
    assert_eq!(
        sub.to_string(),
        "1\n00:00:10,000 --> 00:00:12,000\nHello world!"
    );
    sub.add_seconds(110);
    assert_eq!(
        sub.to_string(),
        "1\n00:02:00,000 --> 00:02:02,000\nHello world!"
    );
    let t1 = Timestamp::new(0, 0, 0, 0);
    let t2 = Timestamp::new(1, 20, 0, 0);
    sub.add(&t1);
    assert_eq!(
        sub.to_string(),
        "1\n00:02:00,000 --> 00:02:02,000\nHello world!"
    );
    sub.add(&t2);
    assert_eq!(
        sub.to_string(),
        "1\n01:22:00,000 --> 01:22:02,000\nHello world!"
    );
}

#[test]
fn sub_to_string() {
    let input = Subtitle::new(
        1,
        Timestamp::new(0, 0, 0, 0),
        Timestamp::new(0, 0, 1, 0),
        "Hello world!\nNew line!".to_string(),
    );
    let result = "1\n00:00:00,000 --> 00:00:01,000\nHello world!\nNew line!";

    assert_eq!(input.to_string(), result);
}

#[test]
fn subtitles_from_str_parsing() {
    let subs = "1\n00:00:00,000 --> 00:00:01,000\nHello world!\nExtra!\n\n\
                2\n00:00:01,500 --> 00:00:02,500\nThis is a subtitle!";

    let parsed_subs = Subtitles::parse_from_str(subs.to_string()).unwrap();
    assert_eq!(
        *parsed_subs.get(0).unwrap(),
        Subtitle::new(
            1,
            Timestamp::new(0, 0, 0, 0),
            Timestamp::new(0, 0, 1, 0),
            "Hello world!\nExtra!".to_string()
        )
    );
    assert_eq!(
        *parsed_subs.get(1).unwrap(),
        Subtitle::new(
            2,
            Timestamp::new(0, 0, 1, 500),
            Timestamp::new(0, 0, 2, 500),
            "This is a subtitle!".to_string()
        )
    );
}

#[test]
fn empty_subtitles_display() {
    let out = Subtitles::new().to_string();
    assert_eq!(out, String::new());
}

#[test]
fn empty_subtitles_parse() {
    let subs = Subtitles::parse_from_str(String::new()).expect("Failed to parse empty subs");
    assert_eq!(subs.len(), 0);
}

#[test]
fn subtitle_with_position_information() {
    let input = "1\n00:00:07,001 --> 00:00:09,015 position:50,00%,middle align:middle size:80,00% line:84,67%\nThis is a subtitle text";
    let result = Subtitle::new(
        1,
        Timestamp::new(0, 0, 7, 1),
        Timestamp::new(0, 0, 9, 15),
        "This is a subtitle text".to_string(),
    );

    assert_eq!(Subtitle::parse(input.to_string()).unwrap(), result);
}

#[test]
fn subtitle_structure_errors_carry_the_number() {
    assert!(matches!(
        Subtitle::parse("7".to_string()),
        Err(ParsingError::BadSubtitleStructure(7))
    ));
    assert!(matches!(
        Subtitle::parse("7\n00:00:00,000".to_string()),
        Err(ParsingError::BadSubtitleStructure(7))
    ));
    assert!(matches!(
        Subtitle::parse("7\n00:00:00,000 --> 00:00:01,000".to_string()),
        Err(ParsingError::BadSubtitleStructure(7))
    ));
    assert!(matches!(
        Subtitle::parse("0\n00:00:00,000\ntext".to_string()),
        Err(ParsingError::BadSubtitleStructure(0))
    ));
    assert!(matches!(
        Subtitle::parse("7\n00:00:00,000 -> 00:00:01,000\ntext".to_string()),
        Err(ParsingError::ParseIntError(IntError::InvalidDigit))
    ));
}

#[test]
fn subtitle_number_and_timestamps_are_read_in_turn() {
    assert!(matches!(
        Subtitle::parse("".to_string()),
        Err(ParsingError::ParseIntError(IntError::Empty))
    ));
    assert!(matches!(
        Subtitle::parse("\n\n\n".to_string()),
        Err(ParsingError::ParseIntError(IntError::Empty))
    ));
    assert!(matches!(
        Subtitle::parse("one\n00:00:00,000 --> 00:00:01,000\ntext".to_string()),
        Err(ParsingError::ParseIntError(IntError::InvalidDigit))
    ));
    assert!(matches!(
        Subtitle::parse("99999999999999999999999999\n00:00:00,000 --> 00:00:01,000\ntext".to_string()),
        Err(ParsingError::ParseIntError(IntError::TooLarge))
    ));
    assert!(matches!(
        Subtitle::parse("1\n00:00:00 --> 00:00:01,000\ntext".to_string()),
        Err(ParsingError::MalformedTimestamp)
    ));
    assert!(matches!(
        Subtitle::parse("1\n00:00:00,000 --> 00:00:01\ntext".to_string()),
        Err(ParsingError::MalformedTimestamp)
    ));
    // The end is read before the missing text is noticed.
    assert!(matches!(
        Subtitle::parse("1\n00:00:00,000 --> 00:00".to_string()),
        Err(ParsingError::MalformedTimestamp)
    ));
    // A second space after the arrow leaves an empty end.
    assert!(matches!(
        Subtitle::parse("1\n00:00:00,000 -->  00:00:01,000\ntext".to_string()),
        Err(ParsingError::ParseIntError(IntError::Empty))
    ));
}

#[test]
fn subtitle_parsing_edges() {
    let plain = Subtitle::new(
        3,
        Timestamp::new(0, 0, 0, 0),
        Timestamp::new(0, 0, 1, 0),
        String::new(),
    );
    assert_eq!(
        Subtitle::parse("3\n00:00:00,000 --> 00:00:01,000\n".to_string()).unwrap(),
        plain
    );
    assert_eq!(
        Subtitle::parse("\n\n3\n00:00:00,000 --> 00:00:01,000\n".to_string()).unwrap(),
        plain
    );
    let sub = Subtitle::parse("003\n0:0:0,0 --> 0:0:1,0 --> 5:5:5,5\n\nkept\n".to_string()).unwrap();
    assert_eq!(sub.num, 3);
    assert_eq!(sub.start_time, Timestamp::new(0, 0, 0, 0));
    assert_eq!(sub.end_time, Timestamp::new(0, 0, 1, 0));
    assert_eq!(sub.text, "\nkept\n");
}

#[test]
fn subtitle_round_trip() {
    let sub = Subtitle::new(
        42,
        Timestamp::new(1, 2, 3, 4),
        Timestamp::new(255, 59, 59, 999),
        "Two\nlines --> with an arrow".to_string(),
    );
    assert_eq!(
        sub.to_string(),
        "42\n01:02:03,004 --> 255:59:59,999\nTwo\nlines --> with an arrow"
    );
    assert_eq!(Subtitle::parse(sub.to_string()).unwrap(), sub);
}

#[test]
fn subtitle_moves_both_timestamps() {
    let mut sub = Subtitle::new(
        1,
        Timestamp::new(0, 59, 59, 999),
        Timestamp::new(1, 0, 0, 0),
        "x".to_string(),
    );
    sub.add_milliseconds(1);
    assert_eq!(sub.start_time.get(), (1, 0, 0, 0));
    assert_eq!(sub.end_time.get(), (1, 0, 0, 1));
    sub.add_minutes(-60);
    assert_eq!(sub.start_time.get(), (0, 0, 0, 0));
    assert_eq!(sub.end_time.get(), (0, 0, 0, 1));
    sub.add_hours(2);
    assert_eq!(sub.start_time.get(), (2, 0, 0, 0));
    assert_eq!(sub.end_time.get(), (2, 0, 0, 1));
    sub.sub(&Timestamp::new(1, 30, 0, 0));
    assert_eq!(sub.start_time.get(), (0, 30, 0, 0));
    assert_eq!(sub.end_time.get(), (0, 30, 0, 1));
    assert_eq!(sub.num, 1);
    assert_eq!(sub.text, "x");
}

#[test]
fn collection_basics() {
    let mut subs = Subtitles::new();
    assert!(subs.is_empty());
    assert_eq!(subs.len(), 0);
    assert!(subs.get(0).is_none());
    let one = Subtitle::new(
        1,
        Timestamp::new(0, 0, 0, 0),
        Timestamp::new(0, 0, 2, 0),
        "Hello world!".to_string(),
    );
    let two = Subtitle::parse("2\n00:00:02,500 --> 00:00:05,000\nThis is a subtitle.".to_string())
        .unwrap();
    subs.push(one.clone());
    subs.push(two.clone());
    assert!(!subs.is_empty());
    assert_eq!(subs.len(), 2);
    assert_eq!(subs.get(0), Some(&one));
    assert_eq!(subs.get(1), Some(&two));
    assert!(subs.get(2).is_none());
    assert_eq!(
        subs.to_string(),
        "1\n00:00:00,000 --> 00:00:02,000\nHello world!\n\n2\n00:00:02,500 --> 00:00:05,000\nThis is a subtitle."
    );
    subs.get_mut(1).unwrap().add_seconds(10);
    assert_eq!(subs.get(1).unwrap().start_time.get(), (0, 0, 12, 500));
    assert!(subs.get_mut(2).is_none());
    let again = Subtitles::new_from_vec(vec![one.clone(), two]);
    assert_eq!(again.get(0), Some(&one));
    assert_eq!(again.to_vec().len(), 2);
    assert_eq!(Subtitles::new_from_vec(Vec::new()), Subtitles::new());
}

#[test]
fn one_subtitle_renders_without_separator() {
    let subs = Subtitles::parse_from_str("5\n0:0:0,0 --> 0:0:1,0\nonly".to_string()).unwrap();
    assert_eq!(subs.to_string(), "5\n00:00:00,000 --> 00:00:01,000\nonly");
}

#[test]
fn windows_line_endings_and_byte_order_mark() {
    let plain = "1\n00:00:00,000 --> 00:00:01,000\nHello world!\nExtra!\n\n\
                 2\n00:00:01,500 --> 00:00:02,500\nThis is a subtitle!\n";
    let windows = "\u{feff}1\r\n00:00:00,000 --> 00:00:01,000\r\nHello world!\r\nExtra!\r\n\r\n\
                   2\r\n00:00:01,500 --> 00:00:02,500\r\nThis is a subtitle!\r\n";
    let expected = Subtitles::parse_from_str(plain.to_string()).unwrap();
    assert_eq!(expected.len(), 2);
    assert_eq!(Subtitles::parse_from_str(windows.to_string()).unwrap(), expected);
    assert_eq!(
        Subtitles::parse_from_str(format!("\u{feff}\u{feff}{}", plain)).unwrap(),
        expected
    );
    assert_eq!(expected.get(0).unwrap().text, "Hello world!\nExtra!");
    assert_eq!(expected.get(1).unwrap().text, "This is a subtitle!\n");
}

#[test]
fn chunks_without_letters_or_numbers_are_passed_over() {
    let text = "\n\n\n\n1\n00:00:00,000 --> 00:00:01,000\none\n\n--- ***\n\n\n\n\n2\n00:00:01,000 --> 00:00:02,000\ntwo\n\n\n";
    let subs = Subtitles::parse_from_str(text.to_string()).unwrap();
    assert_eq!(subs.len(), 2);
    assert_eq!(subs.get(0).unwrap().text, "one");
    assert_eq!(subs.get(1).unwrap().text, "two");
    assert_eq!(Subtitles::parse_from_str("\n\n \n\n...\n\n".to_string()).unwrap().len(), 0);
    // Letters of any script count.
    assert!(matches!(
        Subtitles::parse_from_str("\u{3b1}".to_string()),
        Err(ParsingError::ParseIntError(IntError::InvalidDigit))
    ));
}

#[test]
fn the_first_bad_chunk_fails_the_document() {
    let text = "1\n00:00:00,000 --> 00:00:01,000\none\n\n2\n00:00:01,000\n\nthree\n\n4";
    assert!(matches!(
        Subtitles::parse_from_str(text.to_string()),
        Err(ParsingError::BadSubtitleStructure(2))
    ));
    let text = "1\n00:00:00,000 --> 00:00:01,000\none\n\nthree\n\n4";
    assert!(matches!(
        Subtitles::parse_from_str(text.to_string()),
        Err(ParsingError::ParseIntError(IntError::InvalidDigit))
    ));
    // An empty line inside a text ends the subtitle.
    let text = "1\n00:00:00,000 --> 00:00:01,000\none\n\nmore text";
    assert!(matches!(
        Subtitles::parse_from_str(text.to_string()),
        Err(ParsingError::ParseIntError(IntError::InvalidDigit))
    ));
}

#[test]
fn document_round_trip() {
    let text = "\u{feff}3\r\n00:00:05,000 --> 00:00:07,200 position:50%\r\nFoobar\r\n\r\n\
                1\r\n00:00:00,000 --> 00:00:02,400\r\nHello\r\nthere\r\n\r\n\
                2\r\n00:00:03,000 --> 00:00:05,000\r\nWorld\r\n";
    let subs = Subtitles::parse_from_str(text.to_string()).unwrap();
    assert_eq!(
        subs.to_string(),
        "3\n00:00:05,000 --> 00:00:07,200\nFoobar\n\n1\n00:00:00,000 --> 00:00:02,400\nHello\nthere\n\n2\n00:00:03,000 --> 00:00:05,000\nWorld\n"
    );
    assert_eq!(Subtitles::parse_from_str(subs.to_string()).unwrap(), subs);
}

#[test]
fn leading_line_feeds_are_dropped() {
    let plain = Subtitle::parse("1\n00:00:00,000 --> 00:00:01,000\ntext".to_string()).unwrap();
    assert_eq!(
        Subtitle::parse("\n1\n00:00:00,000 --> 00:00:01,000\ntext".to_string()).unwrap(),
        plain
    );
    assert_eq!(
        Subtitle::parse("\n\n\n1\n00:00:00,000 --> 00:00:01,000\ntext".to_string()).unwrap(),
        plain
    );
}

#[test]
fn equality_of_subtitles_and_collections() {
    let a = Subtitle::new(
        1,
        Timestamp::new(0, 0, 0, 0),
        Timestamp::new(0, 0, 1, 0),
        "a".to_string(),
    );
    let mut other_num = a.clone();
    other_num.num = 2;
    let mut other_start = a.clone();
    other_start.start_time = Timestamp::new(0, 0, 0, 1);
    let mut other_end = a.clone();
    other_end.end_time = Timestamp::new(0, 0, 1, 1);
    let mut other_text = a.clone();
    other_text.text = "b".to_string();
    assert!(a == a.clone());
    assert!(a != other_num);
    assert!(a != other_start);
    assert!(a != other_end);
    assert!(a != other_text);
    // The text is no part of the order that `compare` gives.
    assert_eq!(a.compare(&other_text), Ordering::Equal);
    assert!(a < other_text);

    let one = Subtitles::new_from_vec(vec![a.clone()]);
    let two = Subtitles::new_from_vec(vec![a.clone(), other_text.clone()]);
    let swapped = Subtitles::new_from_vec(vec![other_text.clone(), a.clone()]);
    assert!(one == one.clone());
    assert!(one != two);
    assert!(two != swapped);
    assert!(two == Subtitles::new_from_vec(vec![a, other_text]));
    assert!(Subtitles::default() == Subtitles::new());
    assert!(Subtitles::default().is_empty());
}
