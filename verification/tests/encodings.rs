use srtlib::encoding::{decode_text, encode_text, is_encoding_label};
use srtlib::{ParsingError, Subtitles};

#[test]
fn labels_are_looked_up() {
    assert!(is_encoding_label("utf-8"));
    assert!(is_encoding_label("iso-8859-7"));
    assert!(is_encoding_label("greek"));
    assert!(is_encoding_label("  Latin1 "));
    assert!(!is_encoding_label("unrecognized label"));
    assert!(!is_encoding_label(""));
}

#[test]
fn bytes_are_decoded_by_label() {
    // Greek small letters alpha, beta, gamma in ISO-8859-7.
    let bytes = [0xe1u8, 0xe2, 0xe3];
    assert_eq!(decode_text(&bytes, "iso-8859-7").unwrap(), "\u{3b1}\u{3b2}\u{3b3}");
    assert_eq!(decode_text(&bytes, "greek").unwrap(), "\u{3b1}\u{3b2}\u{3b3}");
    assert_eq!(decode_text(&bytes, "windows-1252").unwrap(), "\u{e1}\u{e2}\u{e3}");
    assert_eq!(decode_text(b"plain", "utf-8").unwrap(), "plain");
    assert!(matches!(
        decode_text(&bytes, "no such encoding"),
        Err(ParsingError::BadEncodingName)
    ));
}

#[test]
fn text_is_encoded_by_label() {
    assert_eq!(
        encode_text("\u{3b1}\u{3b2}\u{3b3}", "iso-8859-7").unwrap(),
        [0xe1u8, 0xe2, 0xe3]
    );
    assert_eq!(
        encode_text("\u{e9}t\u{e9}", "windows-1252").unwrap(),
        [0xe9u8, b't', 0xe9]
    );
    assert_eq!(
        encode_text("\u{e9}", "utf-8").unwrap(),
        [0xc3u8, 0xa9]
    );
    assert!(matches!(
        encode_text("text", "no such encoding"),
        Err(ParsingError::BadEncodingName)
    ));
}

#[test]
fn a_file_in_another_encoding_is_parsed() {
    let mut bytes = b"1\r\n00:00:00,000 --> 00:00:01,000\r\n".to_vec();
    bytes.extend_from_slice(&[0xe1, 0xe2, 0xe3]);
    let subs = Subtitles::parse_from_bytes(&bytes, "greek").unwrap();
    assert_eq!(subs.len(), 1);
    assert_eq!(subs.get(0).unwrap().text, "\u{3b1}\u{3b2}\u{3b3}");
    assert!(matches!(
        Subtitles::parse_from_bytes(&bytes, "klingon"),
        Err(ParsingError::BadEncodingName)
    ));
    assert!(matches!(
        Subtitles::parse_from_bytes(b"1\nnot a time line\ntext", "utf-8"),
        Err(ParsingError::ParseIntError(_))
    ));
}

#[test]
fn a_file_is_written_in_another_encoding() {
    let subs =
        Subtitles::parse_from_str("1\n00:00:00,000 --> 00:00:01,000\n\u{3b1}\u{3b2}".to_string())
            .unwrap();
    let mut expected = b"1\n00:00:00,000 --> 00:00:01,000\n".to_vec();
    expected.extend_from_slice(&[0xe1, 0xe2]);
    assert_eq!(subs.to_bytes("iso-8859-7").unwrap(), expected);
    assert_eq!(
        subs.to_bytes("utf-8").unwrap(),
        subs.to_string().as_bytes()
    );
    assert!(matches!(
        subs.to_bytes("klingon"),
        Err(ParsingError::BadEncodingName)
    ));
    assert_eq!(
        Subtitles::parse_from_bytes(&subs.to_bytes("greek").unwrap(), "greek").unwrap(),
        subs
    );
}

#[test]
fn a_byte_order_mark_in_the_bytes_decides() {
    // The bytes begin with the mark of UTF-8, which overrules the label.
    let bytes = b"\xef\xbb\xbf1\n00:00:00,000 --> 00:00:01,000\n\xce\xb1";
    let subs = Subtitles::parse_from_bytes(bytes, "windows-1252").unwrap();
    assert_eq!(subs.get(0).unwrap().text, "\u{3b1}");
}
