use gish::screen::Span;
use gish::status::{status_entry, status_spans};
use gish::style::{Style, TermColor};

fn span(s: &str, style: Style) -> Span {
    Span { content: String::from(s), style }
}

#[test]
fn foreground_piece() {
    assert_eq!(
        status_entry("0ff0000hello"),
        Some(Some(span("hello", Style::default().fg(TermColor::Rgb(255, 0, 0)))))
    );
}

#[test]
fn background_piece() {
    assert_eq!(
        status_entry("1000080bar"),
        Some(Some(span("bar", Style::default().bg(TermColor::Rgb(0, 0, 128)))))
    );
}

#[test]
fn two_colour_piece_reads_overlapping_fields() {
    assert_eq!(
        status_entry("2aabbccddeeffXtext"),
        Some(Some(span(
            "Xtext",
            Style::default().bg(TermColor::Rgb(0xaa, 0xbb, 0xcc)).fg(TermColor::Rgb(0xcd, 0xde, 0xef))
        )))
    );
}

#[test]
fn other_grounds_are_skipped() {
    assert_eq!(status_entry("3000000x"), Some(None));
}

#[test]
fn plus_sign_and_unicode_text() {
    assert_eq!(
        status_entry("0+f0000\u{e9}"),
        Some(Some(span("\u{e9}", Style::default().fg(TermColor::Rgb(15, 0, 0)))))
    );
    assert_eq!(status_entry("0ABCDEF"), Some(Some(span("", Style::default().fg(TermColor::Rgb(0xab, 0xcd, 0xef))))));
}

#[test]
fn malformed_pieces() {
    assert_eq!(status_entry(""), None);
    assert_eq!(status_entry("x000000"), None);
    assert_eq!(status_entry("0zz0000"), None);
    assert_eq!(status_entry("0ff00"), None);
    assert_eq!(status_entry("2aabbccddeef"), None);
    assert_eq!(status_entry("2aabbcc"), None);
}

#[test]
fn status_line() {
    let entries = vec![String::from("0ff0000a"), String::from("3000000b"), String::from("1000000c")];
    assert_eq!(
        status_spans(&entries),
        Some(vec![
            span("a", Style::default().fg(TermColor::Rgb(255, 0, 0))),
            span("c", Style::default().bg(TermColor::Rgb(0, 0, 0))),
        ])
    );
    let bad = vec![String::from("0ff0000a"), String::from("0q")];
    assert_eq!(status_spans(&bad), None);
}
