//! Text styles: a foreground and a background colour and two sets of
//! modifiers, one to add and one to take away, with the operations that a
//! terminal front end uses to combine them.

use vstd::prelude::*;
use crate::ansi::{Sgr, Color};
use crate::sgr::sgr_code;

verus! {

/// The colours a styled span of text can be drawn in.
#[derive(Debug, Clone, Copy, PartialEq, Eq, Structural)]
pub enum TermColor {
    Reset,
    Black,
    Red,
    Green,
    Yellow,
    Blue,
    Magenta,
    Cyan,
    Gray,
    DarkGray,
    LightRed,
    LightGreen,
    LightYellow,
    LightBlue,
    LightMagenta,
    LightCyan,
    White,
    Rgb(u8, u8, u8),
    Indexed(u8),
}

/// Modifier bits, one per text attribute.
pub const BOLD: u16 = 0x001;
pub const DIM: u16 = 0x002;
pub const ITALIC: u16 = 0x004;
pub const UNDERLINED: u16 = 0x008;
pub const SLOW_BLINK: u16 = 0x010;
pub const RAPID_BLINK: u16 = 0x020;
pub const REVERSED: u16 = 0x040;
pub const HIDDEN: u16 = 0x080;
pub const CROSSED_OUT: u16 = 0x100;

/// A style: the colours to draw in, where set, the modifiers to switch on
/// (`add_modifier`) and those to switch off (`sub_modifier`).
#[derive(Debug, Clone, Copy, PartialEq, Eq, Structural)]
pub struct Style {
    pub fg: Option<TermColor>,
    pub bg: Option<TermColor>,
    pub add_modifier: u16,
    pub sub_modifier: u16,
}

/// The style that sets nothing.
pub open spec fn default_style() -> Style {
    Style { fg: None, bg: None, add_modifier: 0, sub_modifier: 0 }
}

/// `s` with its foreground set to `c`.
pub open spec fn with_fg(s: Style, c: TermColor) -> Style {
    Style { fg: Some(c), ..s }
}

/// `s` with its background set to `c`.
pub open spec fn with_bg(s: Style, c: TermColor) -> Style {
    Style { bg: Some(c), ..s }
}

/// `s` with the modifiers `m` switched on: added, and no longer taken away.
pub open spec fn with_modifier(s: Style, m: u16) -> Style {
    Style { add_modifier: s.add_modifier | m, sub_modifier: s.sub_modifier & !m, ..s }
}

/// `s` with the modifiers `m` switched off: taken away, and no longer added.
pub open spec fn without_modifier(s: Style, m: u16) -> Style {
    Style { add_modifier: s.add_modifier & !m, sub_modifier: s.sub_modifier | m, ..s }
}

/// `s` overlaid by `other`: the colours `other` sets win, and the modifiers
/// `other` adds or takes away override those of `s`.
pub open spec fn patched(s: Style, other: Style) -> Style {
    Style {
        fg: if other.fg is Some { other.fg } else { s.fg },
        bg: if other.bg is Some { other.bg } else { s.bg },
        add_modifier: (s.add_modifier & !other.sub_modifier) | other.add_modifier,
        sub_modifier: (s.sub_modifier & !other.add_modifier) | other.sub_modifier,
    }
}

impl Default for Style {
    fn default() -> (s: Style)
        ensures
            s == default_style(),
    {
        Style { fg: None, bg: None, add_modifier: 0, sub_modifier: 0 }
    }
}

impl Style {
    /// This style with the foreground colour `color`.
    pub fn fg(self, color: TermColor) -> (s: Style)
        ensures
            s == with_fg(self, color),
    {
        Style { fg: Some(color), ..self }
    }

    /// This style with the background colour `color`.
    pub fn bg(self, color: TermColor) -> (s: Style)
        ensures
            s == with_bg(self, color),
    {
        Style { bg: Some(color), ..self }
    }

    /// This style with the modifiers `modifier` switched on.
    pub fn add_modifier(self, modifier: u16) -> (s: Style)
        ensures
            s == with_modifier(self, modifier),
    {
        Style { add_modifier: self.add_modifier | modifier, sub_modifier: self.sub_modifier & !modifier, ..self }
    }

    /// This style with the modifiers `modifier` switched off.
    pub fn remove_modifier(self, modifier: u16) -> (s: Style)
        ensures
            s == without_modifier(self, modifier),
    {
        Style { add_modifier: self.add_modifier & !modifier, sub_modifier: self.sub_modifier | modifier, ..self }
    }

    /// This style overlaid by `other`.
    pub fn patch(self, other: Style) -> (s: Style)
        ensures
            s == patched(self, other),
    {
        let fg = match other.fg {
            Some(c) => Some(c),
            None => self.fg,
        };
        let bg = match other.bg {
            Some(c) => Some(c),
            None => self.bg,
        };
        Style {
            fg,
            bg,
            add_modifier: (self.add_modifier & !other.sub_modifier) | other.add_modifier,
            sub_modifier: (self.sub_modifier & !other.add_modifier) | other.sub_modifier,
        }
    }
}

proof fn lemma_bits_identities(a: u16, m: u16)
    ensures
        (a & !0u16) | m == a | m,
        (a & !m) | 0u16 == a & !m,
        0u16 | m == m,
        0u16 & !m == 0u16,
{
    assert((a & !0u16) | m == a | m) by (bit_vector);
    assert((a & !m) | 0u16 == a & !m) by (bit_vector);
    assert(0u16 | m == m) by (bit_vector);
    assert(0u16 & !m == 0u16) by (bit_vector);
}

/// Overlaying a style that switches modifiers on is switching them on.
pub proof fn lemma_patch_with_modifier(s: Style, m: u16)
    ensures
        patched(s, with_modifier(default_style(), m)) == with_modifier(s, m),
{
    lemma_bits_identities(s.add_modifier, m);
    lemma_bits_identities(s.sub_modifier, m);
}

/// Overlaying a style that switches modifiers off is switching them off.
pub proof fn lemma_patch_without_modifier(s: Style, m: u16)
    ensures
        patched(s, without_modifier(default_style(), m)) == without_modifier(s, m),
{
    lemma_bits_identities(s.add_modifier, m);
    lemma_bits_identities(s.sub_modifier, m);
}

/// The colour of the eight basic terminal colours with index `idx`; black
/// (0) and anything unknown draw in the terminal's own colour.
pub open spec fn color_of_index(idx: u8) -> TermColor {
    if idx == 1 {
        TermColor::Red
    } else if idx == 2 {
        TermColor::Green
    } else if idx == 3 {
        TermColor::Yellow
    } else if idx == 4 {
        TermColor::Blue
    } else if idx == 5 {
        TermColor::Magenta
    } else if idx == 6 {
        TermColor::Cyan
    } else if idx == 7 {
        TermColor::White
    } else {
        TermColor::Reset
    }
}

/// The colour of the basic terminal colour with index `idx`.
pub fn get_color_idx(idx: u8) -> (c: TermColor)
    ensures
        c == color_of_index(idx),
{
    match idx {
        1 => TermColor::Red,
        2 => TermColor::Green,
        3 => TermColor::Yellow,
        4 => TermColor::Blue,
        5 => TermColor::Magenta,
        6 => TermColor::Cyan,
        7 => TermColor::White,
        _ => TermColor::Reset,
    }
}

/// The colour of an SGR foreground or background attribute, where it sets
/// one: components do, a table entry does not.
pub open spec fn sgr_color(c: Color) -> Option<TermColor> {
    match c {
        Color::N(_) => None,
        Color::Rgb(rgb) => Some(TermColor::Rgb(rgb.r, rgb.g, rgb.b)),
    }
}

/// The style after the display attribute `a` on style `s`.
pub open spec fn sgr_effect(s: Style, a: Sgr) -> Style {
    match a {
        Sgr::Reset => default_style(),
        Sgr::Bold => with_modifier(s, BOLD),
        Sgr::Dim => with_modifier(s, DIM),
        Sgr::Italic => with_modifier(s, ITALIC),
        Sgr::Underline => with_modifier(s, UNDERLINED),
        Sgr::SlowBlink => with_modifier(s, SLOW_BLINK),
        Sgr::RapidBlink => with_modifier(s, RAPID_BLINK),
        Sgr::Invert => with_modifier(s, REVERSED),
        Sgr::Hide => with_modifier(s, HIDDEN),
        Sgr::Strike => with_modifier(s, CROSSED_OUT),
        Sgr::NotUnderlined => without_modifier(s, UNDERLINED),
        Sgr::NotBlinking => without_modifier(s, RAPID_BLINK | SLOW_BLINK),
        Sgr::NotInvert => without_modifier(s, REVERSED),
        Sgr::NotHidden => without_modifier(s, HIDDEN),
        Sgr::NotStrike => without_modifier(s, CROSSED_OUT),
        Sgr::SetForeground7(i) => with_fg(s, color_of_index(i)),
        Sgr::SetForeground(c) => match sgr_color(c) {
            Some(t) => with_fg(s, t),
            None => s,
        },
        Sgr::DefaultForeground => with_fg(s, TermColor::Reset),
        Sgr::SetBackground7(i) => with_bg(s, color_of_index(i)),
        Sgr::SetBackground(c) => match sgr_color(c) {
            Some(t) => with_bg(s, t),
            None => s,
        },
        Sgr::DefaultBackground => with_bg(s, TermColor::Reset),
        Sgr::SetBrightForground7(i) => with_fg(s, color_of_index(i)),
        Sgr::SetBrightBackground7(i) => with_bg(s, color_of_index(i)),
        _ => s,
    }
}

/// The style after the attributes `l`, in order, on style `s`.
pub open spec fn style_after(s: Style, l: Seq<Sgr>) -> Style
    decreases l.len(),
{
    if l.len() == 0 {
        s
    } else {
        sgr_effect(style_after(s, l.drop_last()), l.last())
    }
}

proof fn lemma_patch_colors(s: Style, c: TermColor)
    ensures
        patched(s, with_fg(default_style(), c)) == with_fg(s, c),
        patched(s, with_bg(default_style(), c)) == with_bg(s, c),
{
    let a = s.add_modifier;
    let b = s.sub_modifier;
    assert((a & !0u16) | 0u16 == a) by (bit_vector);
    assert((b & !0u16) | 0u16 == b) by (bit_vector);
}

proof fn lemma_patch_not_blinking(s: Style)
    ensures
        patched(s, without_modifier(without_modifier(default_style(), RAPID_BLINK), SLOW_BLINK))
            == without_modifier(s, RAPID_BLINK | SLOW_BLINK),
{
    let a = s.add_modifier;
    let b = s.sub_modifier;
    assert((a & !((0u16 | 0x20u16) | 0x10u16)) | ((0u16 & !0x20u16) & !0x10u16) == a & !(0x20u16 | 0x10u16)) by (bit_vector);
    assert((b & !((0u16 & !0x20u16) & !0x10u16)) | ((0u16 | 0x20u16) | 0x10u16) == b | (0x20u16 | 0x10u16)) by (bit_vector);
}

/// Applies the display attributes `sgrs`, in order, to `style`; returns
/// the default style.
pub fn parse_sgr(sgrs: &Vec<Sgr>, style: &mut Style) -> (r: Style)
    ensures
        *final(style) == style_after(*old(style), sgrs@),
        r == default_style(),
{
    let ghost start = *style;
    let mut i: usize = 0;
    while i < sgrs.len()
        invariant
            i <= sgrs@.len(),
            *style == style_after(start, sgrs@.take(i as int)),
        decreases sgrs.len() - i,
    {
        let ghost before = *style;
        proof {
            assert(sgrs@.take(i + 1).drop_last() =~= sgrs@.take(i as int));
            lemma_patch_with_modifier(before, BOLD);
            lemma_patch_with_modifier(before, DIM);
            lemma_patch_with_modifier(before, ITALIC);
            lemma_patch_with_modifier(before, UNDERLINED);
            lemma_patch_with_modifier(before, SLOW_BLINK);
            lemma_patch_with_modifier(before, RAPID_BLINK);
            lemma_patch_with_modifier(before, REVERSED);
            lemma_patch_with_modifier(before, HIDDEN);
            lemma_patch_with_modifier(before, CROSSED_OUT);
            lemma_patch_without_modifier(before, UNDERLINED);
            lemma_patch_without_modifier(before, REVERSED);
            lemma_patch_without_modifier(before, HIDDEN);
            lemma_patch_without_modifier(before, CROSSED_OUT);
            lemma_patch_not_blinking(before);
        }
        match sgrs[i] {
            Sgr::Reset => {
                *style = Style::default();
            },
            Sgr::Bold => {
                *style = style.patch(Style::default().add_modifier(BOLD));
            },
            Sgr::Dim => {
                *style = style.patch(Style::default().add_modifier(DIM));
            },
            Sgr::Italic => {
                *style = style.patch(Style::default().add_modifier(ITALIC));
            },
            Sgr::Underline => {
                *style = style.patch(Style::default().add_modifier(UNDERLINED));
            },
            Sgr::SlowBlink => {
                *style = style.patch(Style::default().add_modifier(SLOW_BLINK));
            },
            Sgr::RapidBlink => {
                *style = style.patch(Style::default().add_modifier(RAPID_BLINK));
            },
            Sgr::Invert => {
                *style = style.patch(Style::default().add_modifier(REVERSED));
            },
            Sgr::Hide => {
                *style = style.patch(Style::default().add_modifier(HIDDEN));
            },
            Sgr::Strike => {
                *style = style.patch(Style::default().add_modifier(CROSSED_OUT));
            },
            Sgr::NotUnderlined => {
                *style = style.patch(Style::default().remove_modifier(UNDERLINED));
            },
            Sgr::NotBlinking => {
                *style = style.patch(
                    Style::default().remove_modifier(RAPID_BLINK).remove_modifier(SLOW_BLINK),
                );
            },
            Sgr::NotInvert => {
                *style = style.patch(Style::default().remove_modifier(REVERSED));
            },
            Sgr::NotHidden => {
                *style = style.patch(Style::default().remove_modifier(HIDDEN));
            },
            Sgr::NotStrike => {
                *style = style.patch(Style::default().remove_modifier(CROSSED_OUT));
            },
            Sgr::SetForeground7(idx) => {
                proof {
                    lemma_patch_colors(before, color_of_index(idx));
                }
                *style = style.patch(Style::default().fg(get_color_idx(idx)));
            },
            Sgr::SetForeground(color) => {
                match color {
                    Color::N(_) => {},
                    Color::Rgb(rgb) => {
                        proof {
                            lemma_patch_colors(before, TermColor::Rgb(rgb.r, rgb.g, rgb.b));
                        }
                        *style = style.patch(Style::default().fg(TermColor::Rgb(rgb.r, rgb.g, rgb.b)));
                    },
                }
            },
            Sgr::DefaultForeground => {
                proof {
                    lemma_patch_colors(before, TermColor::Reset);
                }
                *style = style.patch(Style::default().fg(TermColor::Reset));
            },
            Sgr::SetBackground7(idx) => {
                proof {
                    lemma_patch_colors(before, color_of_index(idx));
                }
                *style = style.patch(Style::default().bg(get_color_idx(idx)));
            },
            Sgr::SetBackground(color) => {
                match color {
                    Color::N(_) => {},
                    Color::Rgb(rgb) => {
                        proof {
                            lemma_patch_colors(before, TermColor::Rgb(rgb.r, rgb.g, rgb.b));
                        }
                        *style = style.patch(Style::default().bg(TermColor::Rgb(rgb.r, rgb.g, rgb.b)));
                    },
                }
            },
            Sgr::DefaultBackground => {
                proof {
                    lemma_patch_colors(before, TermColor::Reset);
                }
                *style = style.patch(Style::default().bg(TermColor::Reset));
            },
            Sgr::SetBrightForground7(idx) => {
                proof {
                    lemma_patch_colors(before, color_of_index(idx));
                }
                *style = style.patch(Style::default().fg(get_color_idx(idx)));
            },
            Sgr::SetBrightBackground7(idx) => {
                proof {
                    lemma_patch_colors(before, color_of_index(idx));
                }
                *style = style.patch(Style::default().bg(get_color_idx(idx)));
            },
            _ => {},
        }
        i += 1;
    }
    assert(sgrs@.take(sgrs@.len() as int) =~= sgrs@);
    Style::default()
}

/// Applying two lists of attributes in turn is applying the two lists one
/// after the other as one list: the style carries over from one SGR
/// sequence to the next.
pub proof fn lemma_style_after_concat(s: Style, a: Seq<Sgr>, b: Seq<Sgr>)
    ensures
        style_after(style_after(s, a), b) == style_after(s, a + b),
    decreases b.len(),
{
    if b.len() == 0 {
        assert(a + b =~= a);
    } else {
        lemma_style_after_concat(s, a, b.drop_last());
        assert((a + b).drop_last() =~= a + b.drop_last());
        assert((a + b).last() == b.last());
    }
}

/// A reset ends every attribute: whatever came before, the style after a
/// list that ends in `Reset` is the default style.
pub proof fn lemma_reset_restores_default(s: Style, l: Seq<Sgr>)
    ensures
        style_after(s, l.push(Sgr::Reset)) == default_style(),
{
    assert(l.push(Sgr::Reset).drop_last() =~= l);
}

/// The modifiers an attribute switches off.
pub open spec fn switched_off(a: Sgr) -> u16 {
    match a {
        Sgr::NotUnderlined => UNDERLINED,
        Sgr::NotBlinking => RAPID_BLINK | SLOW_BLINK,
        Sgr::NotInvert => REVERSED,
        Sgr::NotHidden => HIDDEN,
        Sgr::NotStrike => CROSSED_OUT,
        _ => 0,
    }
}

proof fn lemma_bit_kept_by_or(a: u16, k: u16, m: u16)
    requires
        a & m == m,
    ensures
        (a | k) & m == m,
{
    assert((a & m == m) ==> ((a | k) & m == m)) by (bit_vector);
}

proof fn lemma_bit_kept_by_clear(a: u16, k: u16, m: u16)
    requires
        a & m == m,
        k & m == 0,
    ensures
        (a & !k) & m == m,
{
    assert((a & m == m && k & m == 0) ==> ((a & !k) & m == m)) by (bit_vector);
}

/// An attribute stays in effect until an SGR attribute resets it: once the
/// modifiers `m` are switched on, they stay on through any attributes that
/// neither reset nor switch one of them off.
pub proof fn lemma_modifier_persists(s: Style, l: Seq<Sgr>, rest: Seq<Sgr>, m: u16)
    requires
        style_after(s, l).add_modifier & m == m,
        forall|i: int| 0 <= i < rest.len() ==> (#[trigger] rest[i]) != Sgr::Reset,
        forall|i: int| 0 <= i < rest.len() ==> switched_off(#[trigger] rest[i]) & m == 0,
    ensures
        style_after(s, l + rest).add_modifier & m == m,
    decreases rest.len(),
{
    if rest.len() == 0 {
        assert(l + rest =~= l);
    } else {
        let r0 = rest.drop_last();
        lemma_modifier_persists(s, l, r0, m);
        assert((l + rest).drop_last() =~= l + r0);
        assert((l + rest).last() == rest[rest.len() - 1]);
        let before = style_after(s, l + r0);
        let a = before.add_modifier;
        let x = rest[rest.len() - 1];
        assert(x != Sgr::Reset);
        assert(switched_off(x) & m == 0);
        lemma_bit_kept_by_or(a, BOLD, m);
        lemma_bit_kept_by_or(a, DIM, m);
        lemma_bit_kept_by_or(a, ITALIC, m);
        lemma_bit_kept_by_or(a, UNDERLINED, m);
        lemma_bit_kept_by_or(a, SLOW_BLINK, m);
        lemma_bit_kept_by_or(a, RAPID_BLINK, m);
        lemma_bit_kept_by_or(a, REVERSED, m);
        lemma_bit_kept_by_or(a, HIDDEN, m);
        lemma_bit_kept_by_or(a, CROSSED_OUT, m);
        lemma_bit_kept_by_clear(a, switched_off(x), m);
    }
}

/// Whether an attribute sets the foreground colour.
pub open spec fn sets_fg(a: Sgr) -> bool {
    match a {
        Sgr::SetForeground7(_) | Sgr::DefaultForeground | Sgr::SetBrightForground7(_) => true,
        Sgr::SetForeground(c) => sgr_color(c) is Some,
        _ => false,
    }
}

/// Whether an attribute sets the background colour.
pub open spec fn sets_bg(a: Sgr) -> bool {
    match a {
        Sgr::SetBackground7(_) | Sgr::DefaultBackground | Sgr::SetBrightBackground7(_) => true,
        Sgr::SetBackground(c) => sgr_color(c) is Some,
        _ => false,
    }
}

/// Colours stay in effect until an SGR attribute resets them: attributes
/// that neither reset nor set the foreground (background) keep it.
pub proof fn lemma_colors_persist(s: Style, rest: Seq<Sgr>)
    requires
        forall|i: int| 0 <= i < rest.len() ==> (#[trigger] rest[i]) != Sgr::Reset,
    ensures
        (forall|i: int| 0 <= i < rest.len() ==> !sets_fg(#[trigger] rest[i])) ==> style_after(s, rest).fg
            == s.fg,
        (forall|i: int| 0 <= i < rest.len() ==> !sets_bg(#[trigger] rest[i])) ==> style_after(s, rest).bg
            == s.bg,
    decreases rest.len(),
{
    if rest.len() > 0 {
        let r0 = rest.drop_last();
        assert forall|i: int| 0 <= i < r0.len() implies (#[trigger] r0[i]) != Sgr::Reset by {
            assert(r0[i] == rest[i]);
        }
        lemma_colors_persist(s, r0);
        let x = rest[rest.len() - 1];
        assert(x != Sgr::Reset);
        if forall|i: int| 0 <= i < rest.len() ==> !sets_fg(#[trigger] rest[i]) {
            assert(!sets_fg(x));
            assert forall|i: int| 0 <= i < r0.len() implies !sets_fg(#[trigger] r0[i]) by {
                assert(r0[i] == rest[i]);
            }
        }
        if forall|i: int| 0 <= i < rest.len() ==> !sets_bg(#[trigger] rest[i]) {
            assert(!sets_bg(x));
            assert forall|i: int| 0 <= i < r0.len() implies !sets_bg(#[trigger] r0[i]) by {
                assert(r0[i] == rest[i]);
            }
        }
    }
}


/// The modifier bit with position `k`.
proof fn lemma_bit_positions()
    by (bit_vector)
    ensures
        1u16 << 0u16 == 0x001u16,
        1u16 << 1u16 == 0x002u16,
        1u16 << 2u16 == 0x004u16,
        1u16 << 3u16 == 0x008u16,
        1u16 << 4u16 == 0x010u16,
        1u16 << 5u16 == 0x020u16,
        1u16 << 6u16 == 0x040u16,
        1u16 << 7u16 == 0x080u16,
        1u16 << 8u16 == 0x100u16,
{
}

/// The codes `1` to `9` switch on one modifier each, in the order of the
/// modifier bits: code `n` switches on the bit at position `n - 1` (bold,
/// dim, italic, underlined, slow blink, rapid blink, reversed, hidden,
/// crossed out).
pub proof fn lemma_codes_switch_on_their_bit(s: Style, n: nat)
    requires
        1 <= n <= 9,
    ensures
        sgr_code(n) is Some,
        sgr_effect(s, sgr_code(n).unwrap()) == with_modifier(s, 1u16 << ((n - 1) as u16)),
{
    lemma_bit_positions();
}

proof fn lemma_off_bits(a: u16, b: u16, m: u16, big: u16)
    requires
        m & big == m,
    ensures
        (a | m) & !big == a & !big,
        (b & !m) | big == b | big,
{
    assert(m & big == m ==> (a | m) & !big == a & !big) by (bit_vector);
    assert(m & big == m ==> (b & !m) | big == b | big) by (bit_vector);
}

/// The attribute that switches a modifier off undoes the one that switches
/// it on: after the pair the style is as after the off-attribute alone.
pub proof fn lemma_off_undoes_on(s: Style)
    ensures
        sgr_effect(sgr_effect(s, Sgr::Underline), Sgr::NotUnderlined) == sgr_effect(s, Sgr::NotUnderlined),
        sgr_effect(sgr_effect(s, Sgr::SlowBlink), Sgr::NotBlinking) == sgr_effect(s, Sgr::NotBlinking),
        sgr_effect(sgr_effect(s, Sgr::RapidBlink), Sgr::NotBlinking) == sgr_effect(s, Sgr::NotBlinking),
        sgr_effect(sgr_effect(s, Sgr::Invert), Sgr::NotInvert) == sgr_effect(s, Sgr::NotInvert),
        sgr_effect(sgr_effect(s, Sgr::Hide), Sgr::NotHidden) == sgr_effect(s, Sgr::NotHidden),
        sgr_effect(sgr_effect(s, Sgr::Strike), Sgr::NotStrike) == sgr_effect(s, Sgr::NotStrike),
{
    let a = s.add_modifier;
    let b = s.sub_modifier;
    assert(UNDERLINED & UNDERLINED == UNDERLINED) by (bit_vector);
    assert(REVERSED & REVERSED == REVERSED) by (bit_vector);
    assert(HIDDEN & HIDDEN == HIDDEN) by (bit_vector);
    assert(CROSSED_OUT & CROSSED_OUT == CROSSED_OUT) by (bit_vector);
    assert(SLOW_BLINK & (RAPID_BLINK | SLOW_BLINK) == SLOW_BLINK) by (bit_vector);
    assert(RAPID_BLINK & (RAPID_BLINK | SLOW_BLINK) == RAPID_BLINK) by (bit_vector);
    lemma_off_bits(a, b, UNDERLINED, UNDERLINED);
    lemma_off_bits(a, b, REVERSED, REVERSED);
    lemma_off_bits(a, b, HIDDEN, HIDDEN);
    lemma_off_bits(a, b, CROSSED_OUT, CROSSED_OUT);
    lemma_off_bits(a, b, SLOW_BLINK, RAPID_BLINK | SLOW_BLINK);
    lemma_off_bits(a, b, RAPID_BLINK, RAPID_BLINK | SLOW_BLINK);
}

} // verus!
