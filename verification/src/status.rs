//! The status bar: the configuration script describes each of its pieces
//! as a string, which is decoded here into a styled span.
//!
//! A piece is `G RR GG BB ...` with no spaces: `G` a digit for where the
//! colour goes (`0` foreground, `1` background, `2` both), then two hex
//! digits each for red, green and blue. For `0` and `1` the text follows
//! from byte 7 on; for `2` the foreground components are read from bytes
//! 6, 8 and 10 and the text follows from byte 13 on.

use vstd::prelude::*;
use vstd::utf8::{decode_utf8, encode_utf8, encode_utf8_decode_utf8, is_char_boundary};
use crate::screen::{line_view, Span, SpecSpan};
use crate::style::{default_style, with_bg, with_fg, Style, TermColor};

verus! {

/// The value of a hex digit byte.
pub open spec fn hex_digit(c: u8) -> Option<u8> {
    if 48 <= c && c <= 57 {
        Some((c - 48) as u8)
    } else if 97 <= c && c <= 102 {
        Some((c - 87) as u8)
    } else if 65 <= c && c <= 70 {
        Some((c - 55) as u8)
    } else {
        None
    }
}

/// The byte that the two bytes of `b` at `i` read as in base 16, in the
/// way Rust reads a `u8` (two hex digits, or `+` and one hex digit).
pub open spec fn hex_pair(b: Seq<u8>, i: int) -> Option<u8> {
    if i < 0 || i + 2 > b.len() {
        None
    } else {
        match (hex_digit(b[i]), hex_digit(b[i + 1])) {
            (Some(h), Some(l)) => Some((h * 16 + l) as u8),
            (_, Some(l)) => if b[i] == 43 {
                Some(l)
            } else {
                None
            },
            _ => None,
        }
    }
}

/// The text of a piece from byte `k` on, where `k` is a character
/// boundary of its bytes `b`.
pub open spec fn text_from(b: Seq<u8>, k: int) -> Option<Seq<char>> {
    if k <= b.len() && is_char_boundary(b, k) {
        Some(decode_utf8(b.subrange(k, b.len() as int)))
    } else {
        None
    }
}

/// The span a piece with bytes `b` stands for: `None` where it is
/// malformed, `Some(None)` where its first digit is not 0, 1 or 2.
pub open spec fn status_entry_of(b: Seq<u8>) -> Option<Option<SpecSpan>> {
    if b.len() < 1 || !(48 <= b[0] && b[0] <= 57) {
        None
    } else {
        let ground = b[0] - 48;
        match (hex_pair(b, 1), hex_pair(b, 3), hex_pair(b, 5)) {
            (Some(r), Some(g), Some(bl)) => {
                if ground == 2 {
                    match (hex_pair(b, 6), hex_pair(b, 8), hex_pair(b, 10), text_from(b, 13)) {
                        (Some(fr), Some(fg), Some(fb), Some(t)) => Some(
                            Some(
                                SpecSpan {
                                    content: t,
                                    style: with_fg(
                                        with_bg(default_style(), TermColor::Rgb(r, g, bl)),
                                        TermColor::Rgb(fr, fg, fb),
                                    ),
                                },
                            ),
                        ),
                        _ => None,
                    }
                } else if ground == 1 {
                    match text_from(b, 7) {
                        Some(t) => Some(
                            Some(
                                SpecSpan {
                                    content: t,
                                    style: with_bg(default_style(), TermColor::Rgb(r, g, bl)),
                                },
                            ),
                        ),
                        None => None,
                    }
                } else if ground == 0 {
                    match text_from(b, 7) {
                        Some(t) => Some(
                            Some(
                                SpecSpan {
                                    content: t,
                                    style: with_fg(default_style(), TermColor::Rgb(r, g, bl)),
                                },
                            ),
                        ),
                        None => None,
                    }
                } else {
                    Some(None)
                }
            },
            _ => None,
        }
    }
}

fn hex_value(c: u8) -> (r: Option<u8>)
    ensures
        r == hex_digit(c),
{
    if c >= 48 && c <= 57 {
        Some(c - 48)
    } else if c >= 97 && c <= 102 {
        Some(c - 87)
    } else if c >= 65 && c <= 70 {
        Some(c - 55)
    } else {
        None
    }
}

fn read_hex_pair(b: &[u8], i: usize) -> (r: Option<u8>)
    ensures
        r == hex_pair(b@, i as int),
{
    if i > b.len() || b.len() - i < 2 {
        return None;
    }
    match (hex_value(b[i]), hex_value(b[i + 1])) {
        (Some(h), Some(l)) => Some(h * 16 + l),
        (_, Some(l)) => {
            if b[i] == 43 {
                Some(l)
            } else {
                None
            }
        },
        _ => None,
    }
}

fn read_text_from(v: &str, k: usize) -> (r: Option<String>)
    ensures
        match r {
            Some(t) => text_from(encode_utf8(v@), k as int) == Some(t@),
            None => text_from(encode_utf8(v@), k as int) is None,
        },
{
    let n = v.as_bytes().len();
    if k > n || !v.is_char_boundary(k) {
        return None;
    }
    let (_, tail) = v.split_at(k);
    let t = tail.to_owned();
    proof {
        encode_utf8_decode_utf8(t@);
    }
    Some(t)
}

/// The span a piece of the status bar stands for (see `status_entry_of`).
pub fn status_entry(v: &str) -> (r: Option<Option<Span>>)
    ensures
        match r {
            None => status_entry_of(encode_utf8(v@)) is None,
            Some(None) => status_entry_of(encode_utf8(v@)) == Some(None::<SpecSpan>),
            Some(Some(s)) => status_entry_of(encode_utf8(v@)) == Some(Some(s@)),
        },
{
    let b = v.as_bytes();
    if b.len() < 1 || b[0] < 48 || b[0] > 57 {
        return None;
    }
    let ground = b[0] - 48;
    let r = match read_hex_pair(b, 1) {
        Some(x) => x,
        None => return None,
    };
    let g = match read_hex_pair(b, 3) {
        Some(x) => x,
        None => return None,
    };
    let bl = match read_hex_pair(b, 5) {
        Some(x) => x,
        None => return None,
    };
    if ground == 2 {
        let fr = match read_hex_pair(b, 6) {
            Some(x) => x,
            None => return None,
        };
        let fg = match read_hex_pair(b, 8) {
            Some(x) => x,
            None => return None,
        };
        let fb = match read_hex_pair(b, 10) {
            Some(x) => x,
            None => return None,
        };
        match read_text_from(v, 13) {
            Some(t) => Some(
                Some(
                    Span {
                        content: t,
                        style: Style::default().bg(TermColor::Rgb(r, g, bl)).fg(TermColor::Rgb(fr, fg, fb)),
                    },
                ),
            ),
            None => None,
        }
    } else if ground == 1 {
        match read_text_from(v, 7) {
            Some(t) => Some(Some(Span { content: t, style: Style::default().bg(TermColor::Rgb(r, g, bl)) })),
            None => None,
        }
    } else if ground == 0 {
        match read_text_from(v, 7) {
            Some(t) => Some(Some(Span { content: t, style: Style::default().fg(TermColor::Rgb(r, g, bl)) })),
            None => None,
        }
    } else {
        Some(None)
    }
}

/// The spans of the pieces `entries`, in order, leaving out those whose
/// first digit is not 0, 1 or 2; `None` where a piece is malformed.
pub open spec fn status_spans_of(entries: Seq<Seq<u8>>) -> Option<Seq<SpecSpan>>
    decreases entries.len(),
{
    if entries.len() == 0 {
        Some(Seq::empty())
    } else {
        match (status_spans_of(entries.drop_last()), status_entry_of(entries.last())) {
            (Some(l), Some(Some(s))) => Some(l.push(s)),
            (Some(l), Some(None)) => Some(l),
            _ => None,
        }
    }
}

/// The status bar the pieces `entries` describe (see `status_spans_of`).
pub fn status_spans(entries: &Vec<String>) -> (r: Option<Vec<Span>>)
    ensures
        match r {
            Some(l) => status_spans_of(entries@.map_values(|e: String| encode_utf8(e@))) == Some(line_view(l@)),
            None => status_spans_of(entries@.map_values(|e: String| encode_utf8(e@))) is None,
        },
{
    let ghost all = entries@.map_values(|e: String| encode_utf8(e@));
    let mut out: Vec<Span> = Vec::new();
    let mut i: usize = 0;
    assert(all.take(0) =~= Seq::<Seq<u8>>::empty());
    assert(line_view(out@) =~= Seq::<SpecSpan>::empty());
    while i < entries.len()
        invariant
            i <= entries@.len(),
            all == entries@.map_values(|e: String| encode_utf8(e@)),
            status_spans_of(all.take(i as int)) == Some(line_view(out@)),
        decreases entries.len() - i,
    {
        proof {
            assert(all.take(i + 1).drop_last() =~= all.take(i as int));
            assert(all.take(i + 1).last() == encode_utf8(entries@[i as int]@));
        }
        let e = entries[i].as_str();
        match status_entry(e) {
            None => {
                proof {
                    lemma_status_spans_prefix(all, i + 1);
                }
                return None;
            },
            Some(None) => {},
            Some(Some(s)) => {
                let ghost before = out@;
                out.push(s);
                assert(line_view(out@) =~= line_view(before).push(s@));
            },
        }
        i += 1;
    }
    assert(all.take(entries@.len() as int) =~= all);
    Some(out)
}

/// Where a prefix of the pieces is malformed, so are all of them.
proof fn lemma_status_spans_prefix(all: Seq<Seq<u8>>, i: int)
    requires
        0 <= i <= all.len(),
        status_spans_of(all.take(i)) is None,
    ensures
        status_spans_of(all) is None,
    decreases all.len() - i,
{
    if i < all.len() {
        assert(all.take(i + 1).drop_last() =~= all.take(i));
        lemma_status_spans_prefix(all, i + 1);
    } else {
        assert(all.take(i) =~= all);
    }
}

} // verus!
