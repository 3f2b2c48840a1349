use lantern::model::document::LineEnding;
use lantern::parser::sniff::{detect_line_ending, looks_like_json, skip_ascii_whitespace, strip_utf8_bom};

#[test]
fn looks_like_json_tolerates_bom_and_whitespace() {
    assert!(looks_like_json(br#"{"roots":{}}"#));
    assert!(looks_like_json(b"\xef\xbb\xbf\n  {\"a\":1}"));
    assert!(looks_like_json(b"  \n\t[1,2]"));
    assert!(!looks_like_json(b"<!DOCTYPE NETSCAPE-Bookmark-file-1>"));
    assert!(!looks_like_json(b""));
    assert!(!looks_like_json(b"   "));
}

#[test]
fn bom_is_stripped_once_and_reported() {
    let (had, rest) = strip_utf8_bom(b"\xef\xbb\xbfabc");
    assert!(had);
    assert_eq!(rest, b"abc");
    let (had, rest) = strip_utf8_bom(b"abc");
    assert!(!had);
    assert_eq!(rest, b"abc");
    assert_eq!(skip_ascii_whitespace(b" \t\r\n\x0cx y"), b"x y");
}

#[test]
fn carriage_return_means_crlf() {
    assert_eq!(detect_line_ending(b"a\r\nb"), LineEnding::Crlf);
    assert_eq!(detect_line_ending(b"a\nb"), LineEnding::Lf);
    assert_eq!(detect_line_ending(b""), LineEnding::Lf);
}
