//! Reading the parameters of a Select Graphic Rendition sequence.
//!
//! The parameters are `;`-separated fields, read without surrounding white
//! space and leading zeros, an empty field reading as `0`. Each field is a
//! code (`1` bold, `31` red foreground, ...), except that `38` and `48` open
//! an extended colour: the next field selects the kind (`5`: a table entry
//! given by one more field; `2`: components given by the following fields).

use vstd::prelude::*;
use crate::ansi::{Sgr, Color, RgbColor};
use crate::text::{
    lemma_split_on_join, bytes_to_chars, decimal_u16, parse_u16, push_char, same_text, split_on, string_is_empty,
    strip_prefixes, trim, trim_start_matches, trimmed,
};

verus! {

/// The kind of an extended colour.
#[derive(Debug, Clone, Copy, PartialEq, Eq, Structural)]
pub enum ColorType {
    N,
    Rgb,
}

/// Whether an extended colour is for the foreground or the background.
#[derive(Debug, Clone, Copy, PartialEq, Eq, Structural)]
pub enum ColorPushType {
    Forground,
    Background,
}

/// Why a list of SGR parameters cannot be read.
#[derive(Debug, Clone, Copy, PartialEq, Eq, Structural)]
pub enum SgrError {
    /// `38` or `48` was followed by a field other than `5` or `2`.
    InvalidColorType,
    /// A colour field is not a number that fits in a byte.
    ValueOutOfRange,
    /// A field is not a known code.
    UnsupportedCode,
}

/// Where the reading of SGR fields stands.
pub struct SgrState {
    pub in_color: bool,
    pub select_next: bool,
    pub color_type: ColorType,
    pub push_type: ColorPushType,
    pub rgb: Seq<u8>,
    pub out: Seq<Sgr>,
}

/// The state before the first field.
pub open spec fn sgr_initial() -> SgrState {
    SgrState {
        in_color: false,
        select_next: false,
        color_type: ColorType::N,
        push_type: ColorPushType::Forground,
        rgb: Seq::empty(),
        out: Seq::empty(),
    }
}

/// The attribute for an extended colour.
pub open spec fn colored(t: ColorPushType, c: Color) -> Sgr {
    match t {
        ColorPushType::Forground => Sgr::SetForeground(c),
        ColorPushType::Background => Sgr::SetBackground(c),
    }
}

/// The attribute a plain code stands for (`38` and `48` aside).
pub open spec fn sgr_code(v: nat) -> Option<Sgr> {
    if v == 0 {
        Some(Sgr::Reset)
    } else if v == 1 {
        Some(Sgr::Bold)
    } else if v == 2 {
        Some(Sgr::Dim)
    } else if v == 3 {
        Some(Sgr::Italic)
    } else if v == 4 {
        Some(Sgr::Underline)
    } else if v == 5 {
        Some(Sgr::SlowBlink)
    } else if v == 6 {
        Some(Sgr::RapidBlink)
    } else if v == 7 {
        Some(Sgr::Invert)
    } else if v == 8 {
        Some(Sgr::Hide)
    } else if v == 9 {
        Some(Sgr::Strike)
    } else if v == 10 {
        Some(Sgr::PrimaryFont)
    } else if 11 <= v <= 19 {
        Some(Sgr::AltFont((v - 10) as u8))
    } else if v == 20 {
        Some(Sgr::Gothic)
    } else if v == 21 {
        Some(Sgr::DoublyUnderlined)
    } else if v == 22 {
        Some(Sgr::NormalIntensity)
    } else if v == 23 {
        Some(Sgr::NotItalicOrBlackletter)
    } else if v == 24 {
        Some(Sgr::NotUnderlined)
    } else if v == 25 {
        Some(Sgr::NotBlinking)
    } else if v == 26 {
        Some(Sgr::ProportionalSpacing)
    } else if v == 27 {
        Some(Sgr::NotInvert)
    } else if v == 28 {
        Some(Sgr::NotHidden)
    } else if v == 29 {
        Some(Sgr::NotStrike)
    } else if 30 <= v <= 37 {
        Some(Sgr::SetForeground7((v - 30) as u8))
    } else if v == 39 {
        Some(Sgr::DefaultForeground)
    } else if 40 <= v <= 47 {
        Some(Sgr::SetBackground7((v - 40) as u8))
    } else if v == 49 {
        Some(Sgr::DefaultBackground)
    } else if v == 50 {
        Some(Sgr::DisableProportionalSpacing)
    } else if v == 51 {
        Some(Sgr::Framed)
    } else if v == 52 {
        Some(Sgr::Encircled)
    } else if v == 53 {
        Some(Sgr::Overlined)
    } else if v == 54 {
        Some(Sgr::NotFramedOrEncircled)
    } else if v == 55 {
        Some(Sgr::NotOverlined)
    } else if v == 56 {
        Some(Sgr::SetUnderline(Color::N(0)))
    } else if v == 57 {
        Some(Sgr::DefaultUnderline)
    } else if 90 <= v <= 97 {
        Some(Sgr::SetBrightForground7((v - 90) as u8))
    } else if 100 <= v <= 107 {
        Some(Sgr::SetBrightBackground7((v - 100) as u8))
    } else {
        None
    }
}

/// The text of one field as codes are matched against it: without
/// surrounding white space and leading zeros, and `0` where nothing is left.
pub open spec fn field_text(f: Seq<char>) -> Seq<char> {
    let a = strip_prefixes(trimmed(f), seq!['0']);
    if a.len() == 0 {
        seq!['0']
    } else {
        a
    }
}

/// The code a field text names: the number it is written as, where it is
/// written as a decimal number without sign or leading zeros, below 65536.
pub open spec fn code_value(a: Seq<char>) -> Option<u16> {
    if a.len() > 0 && a[0] != '+' && (a.len() == 1 || a[0] != '0') {
        decimal_u16(a)
    } else {
        None
    }
}

/// The byte a field text reads as, in the way Rust reads a `u8`: an
/// optional `+`, then decimal digits of a value below 256.
pub open spec fn byte_value(a: Seq<char>) -> Option<u8> {
    match decimal_u16(a) {
        Some(v) => if v <= 255 {
            Some(v as u8)
        } else {
            None
        },
        None => None,
    }
}

/// The state after reading the field whose text is `a` in state `st`.
pub open spec fn sgr_step(st: SgrState, a: Seq<char>) -> Result<SgrState, SgrError> {
    if st.select_next {
        if a == seq!['5'] {
            Ok(
                SgrState {
                    in_color: true,
                    select_next: false,
                    color_type: ColorType::N,
                    rgb: Seq::empty(),
                    ..st
                },
            )
        } else if a == seq!['2'] {
            Ok(
                SgrState {
                    in_color: true,
                    select_next: false,
                    color_type: ColorType::Rgb,
                    rgb: Seq::empty(),
                    ..st
                },
            )
        } else {
            Err(SgrError::InvalidColorType)
        }
    } else if st.in_color {
        match byte_value(a) {
            None => Err(SgrError::ValueOutOfRange),
            Some(v) => match st.color_type {
                ColorType::N => Ok(
                    SgrState {
                        in_color: false,
                        out: st.out.push(colored(st.push_type, Color::N(v))),
                        ..st
                    },
                ),
                ColorType::Rgb => {
                    let rgb = st.rgb.push(v);
                    if st.rgb.len() < 2 {
                        Ok(SgrState { rgb, ..st })
                    } else {
                        Ok(
                            SgrState {
                                rgb: Seq::empty(),
                                in_color: false,
                                out: st.out.push(
                                    colored(
                                        st.push_type,
                                        Color::Rgb(RgbColor { r: rgb[0], g: rgb[1], b: rgb[2] }),
                                    ),
                                ),
                                ..st
                            },
                        )
                    }
                },
            },
        }
    } else {
        match code_value(a) {
            Some(v) => if v == 38 {
                Ok(SgrState { select_next: true, push_type: ColorPushType::Forground, ..st })
            } else if v == 48 {
                Ok(SgrState { select_next: true, push_type: ColorPushType::Background, ..st })
            } else {
                match sgr_code(v as nat) {
                    Some(x) => Ok(SgrState { out: st.out.push(x), ..st }),
                    None => Err(SgrError::UnsupportedCode),
                }
            },
            None => Err(SgrError::UnsupportedCode),
        }
    }
}

/// The state after reading the fields `fields` in order, or the first
/// error.
pub open spec fn sgr_run(st: SgrState, fields: Seq<Seq<char>>) -> Result<SgrState, SgrError>
    decreases fields.len(),
{
    if fields.len() == 0 {
        Ok(st)
    } else {
        match sgr_step(st, fields[0]) {
            Ok(next) => sgr_run(next, fields.skip(1)),
            Err(e) => Err(e),
        }
    }
}

/// The texts of the `;`-separated fields of the parameter bytes `s`, each
/// byte read as the character with that code point.
pub open spec fn sgr_fields(s: Seq<u8>) -> Seq<Seq<char>> {
    split_on(bytes_to_chars(s), ';').map_values(|f: Seq<char>| field_text(f))
}

/// The attributes that the parameter bytes `s` select, or why they cannot
/// be read.
pub open spec fn sgr_parse(s: Seq<u8>) -> Result<Seq<Sgr>, SgrError> {
    match sgr_run(sgr_initial(), sgr_fields(s)) {
        Ok(st) => Ok(st.out),
        Err(e) => Err(e),
    }
}

/// One step of `sgr_run`.
pub proof fn lemma_sgr_run_cons(st: SgrState, a: Seq<char>, rest: Seq<Seq<char>>)
    ensures
        sgr_run(st, seq![a] + rest) == match sgr_step(st, a) {
            Ok(next) => sgr_run(next, rest),
            Err(e) => Err(e),
        },
{
    assert((seq![a] + rest).skip(1) =~= rest);
    assert((seq![a] + rest)[0] == a);
}

/// The attribute the field text `a` names on its own: a known code other
/// than the two that open an extended colour.
pub open spec fn plain_attr(a: Seq<char>) -> Option<Sgr> {
    match code_value(a) {
        Some(v) => if v == 38 || v == 48 {
            None
        } else {
            sgr_code(v as nat)
        },
        None => None,
    }
}

/// Several attributes can be set in one sequence: outside an extended
/// colour, fields that each name an attribute select those attributes, in
/// order, after the ones already read.
pub proof fn lemma_fields_select_in_order(st: SgrState, fields: Seq<Seq<char>>)
    requires
        !st.select_next,
        !st.in_color,
        forall|i: int| 0 <= i < fields.len() ==> (#[trigger] plain_attr(fields[i])) is Some,
    ensures
        sgr_run(st, fields) == Ok::<SgrState, SgrError>(
            SgrState { out: st.out + fields.map_values(|f: Seq<char>| plain_attr(f).unwrap()), ..st },
        ),
    decreases fields.len(),
{
    let attrs = fields.map_values(|f: Seq<char>| plain_attr(f).unwrap());
    if fields.len() == 0 {
        assert(st.out + attrs =~= st.out);
    } else {
        assert(plain_attr(fields[0]) is Some);
        let next = SgrState { out: st.out.push(plain_attr(fields[0]).unwrap()), ..st };
        assert(sgr_step(st, fields[0]) == Ok::<SgrState, SgrError>(next));
        let rest = fields.skip(1);
        assert forall|i: int| 0 <= i < rest.len() implies (#[trigger] plain_attr(rest[i])) is Some by {
            assert(rest[i] == fields[i + 1]);
        }
        lemma_fields_select_in_order(next, rest);
        assert(next.out + rest.map_values(|f: Seq<char>| plain_attr(f).unwrap()) =~= st.out + attrs);
    }
}

/// Whether the states `s` and `t` read the fields ahead alike: the same
/// flags, and, inside an extended colour, the same target, kind and
/// components gathered so far.
pub open spec fn alike(s: SgrState, t: SgrState) -> bool {
    &&& s.select_next == t.select_next
    &&& s.in_color == t.in_color
    &&& (s.select_next || s.in_color) ==> s.push_type == t.push_type
    &&& s.in_color ==> s.color_type == t.color_type && s.rgb == t.rgb
}

proof fn lemma_step_alike(s: SgrState, t: SgrState, a: Seq<char>, p: Seq<Sgr>)
    requires
        alike(s, t),
        s.out == p + t.out,
    ensures
        match (sgr_step(s, a), sgr_step(t, a)) {
            (Ok(s1), Ok(t1)) => alike(s1, t1) && s1.out == p + t1.out,
            (Err(e1), Err(e2)) => e1 == e2,
            _ => false,
        },
{
    assert forall|x: Sgr| #[trigger] (p + t.out).push(x) == p + t.out.push(x) by {
        assert((p + t.out).push(x) =~= p + t.out.push(x));
    }
}

proof fn lemma_run_alike(s: SgrState, t: SgrState, fields: Seq<Seq<char>>, p: Seq<Sgr>)
    requires
        alike(s, t),
        s.out == p + t.out,
    ensures
        match (sgr_run(s, fields), sgr_run(t, fields)) {
            (Ok(s1), Ok(t1)) => alike(s1, t1) && s1.out == p + t1.out,
            (Err(e1), Err(e2)) => e1 == e2,
            _ => false,
        },
    decreases fields.len(),
{
    if fields.len() > 0 {
        lemma_step_alike(s, t, fields[0], p);
        match (sgr_step(s, fields[0]), sgr_step(t, fields[0])) {
            (Ok(s1), Ok(t1)) => {
                lemma_run_alike(s1, t1, fields.skip(1), p);
            },
            _ => {},
        }
    }
}

/// Reading the fields `a` and then `b` is reading `a + b`.
proof fn lemma_sgr_run_concat(st: SgrState, a: Seq<Seq<char>>, b: Seq<Seq<char>>)
    ensures
        sgr_run(st, a + b) == match sgr_run(st, a) {
            Ok(m) => sgr_run(m, b),
            Err(e) => Err(e),
        },
    decreases a.len(),
{
    if a.len() == 0 {
        assert(a + b =~= b);
    } else {
        assert((a + b)[0] == a[0]);
        assert((a + b).skip(1) =~= a.skip(1) + b);
        match sgr_step(st, a[0]) {
            Ok(next) => lemma_sgr_run_concat(next, a.skip(1), b),
            Err(_) => {},
        }
    }
}

/// Whether the parameter bytes `s` read without error and end outside an
/// extended colour: every `38` or `48` in them has its full colour group.
pub open spec fn ends_outside_colour(s: Seq<u8>) -> bool {
    match sgr_run(sgr_initial(), sgr_fields(s)) {
        Ok(st) => !st.select_next && !st.in_color,
        Err(_) => false,
    }
}

/// The fields of two parameter lists joined by `;` are the fields of each,
/// one after the other.
pub proof fn lemma_sgr_fields_join(x: Seq<u8>, y: Seq<u8>)
    ensures
        sgr_fields(x + seq![59u8] + y) == sgr_fields(x) + sgr_fields(y),
{
    let cx = bytes_to_chars(x);
    let cy = bytes_to_chars(y);
    assert(bytes_to_chars(x + seq![59u8] + y) =~= cx + seq![';'] + cy);
    lemma_split_on_join(cx, cy, ';');
    let f = |f: Seq<char>| field_text(f);
    assert((split_on(cx, ';') + split_on(cy, ';')).map_values(f) =~= split_on(cx, ';').map_values(f)
        + split_on(cy, ';').map_values(f));
}

/// The attributes of one sequence are read one after another: where the
/// parameters `x` end outside an extended colour, `x;y` selects the
/// attributes of `x` followed by those of `y`, and fails where `y` does.
pub proof fn lemma_sgr_parse_concat(x: Seq<u8>, y: Seq<u8>)
    requires
        ends_outside_colour(x),
    ensures
        sgr_parse(x + seq![59u8] + y) == match sgr_parse(y) {
            Ok(l) => Ok::<Seq<Sgr>, SgrError>(sgr_parse(x)->Ok_0 + l),
            Err(e) => Err(e),
        },
{
    lemma_sgr_fields_join(x, y);
    lemma_sgr_run_concat(sgr_initial(), sgr_fields(x), sgr_fields(y));
    let m = sgr_run(sgr_initial(), sgr_fields(x))->Ok_0;
    assert(m.out == m.out + sgr_initial().out) by {
        assert(m.out + Seq::<Sgr>::empty() =~= m.out);
    }
    lemma_run_alike(m, sgr_initial(), sgr_fields(y), m.out);
}

/// The text of the field `f` as codes are matched against it (see
/// `field_text`).
pub fn read_field(f: &str) -> (a: String)
    ensures
        a@ == field_text(f@),
{
    let t = trim(f);
    let a = trim_start_matches(t.as_str(), "0");
    proof {
        reveal_strlit("0");
        assert("0"@ =~= seq!['0']);
    }
    if string_is_empty(&a) {
        let mut z = String::new();
        push_char(&mut z, '0');
        assert(z@ =~= seq!['0']);
        z
    } else {
        a
    }
}

/// The code the field text `a` names (see `code_value`).
pub fn code_of(a: &String) -> (r: Option<u16>)
    ensures
        r == code_value(a@),
{
    let t = a.as_str();
    let n = t.unicode_len();
    if n == 0 {
        return None;
    }
    let c = t.get_char(0);
    if c == '+' || (n > 1 && c == '0') {
        return None;
    }
    parse_u16(a)
}

/// The byte the field text `a` reads as (see `byte_value`).
pub fn byte_of(a: &String) -> (r: Option<u8>)
    ensures
        r == byte_value(a@),
{
    match parse_u16(a) {
        Some(v) => if v <= 255 {
            Some(v as u8)
        } else {
            None
        },
        None => None,
    }
}

/// The attribute a plain code stands for.
pub fn sgr_of_code(v: u16) -> (r: Option<Sgr>)
    ensures
        r == sgr_code(v as nat),
{
    match v {
        0 => Some(Sgr::Reset),
        1 => Some(Sgr::Bold),
        2 => Some(Sgr::Dim),
        3 => Some(Sgr::Italic),
        4 => Some(Sgr::Underline),
        5 => Some(Sgr::SlowBlink),
        6 => Some(Sgr::RapidBlink),
        7 => Some(Sgr::Invert),
        8 => Some(Sgr::Hide),
        9 => Some(Sgr::Strike),
        10 => Some(Sgr::PrimaryFont),
        11..=19 => Some(Sgr::AltFont((v - 10) as u8)),
        20 => Some(Sgr::Gothic),
        21 => Some(Sgr::DoublyUnderlined),
        22 => Some(Sgr::NormalIntensity),
        23 => Some(Sgr::NotItalicOrBlackletter),
        24 => Some(Sgr::NotUnderlined),
        25 => Some(Sgr::NotBlinking),
        26 => Some(Sgr::ProportionalSpacing),
        27 => Some(Sgr::NotInvert),
        28 => Some(Sgr::NotHidden),
        29 => Some(Sgr::NotStrike),
        30..=37 => Some(Sgr::SetForeground7((v - 30) as u8)),
        39 => Some(Sgr::DefaultForeground),
        40..=47 => Some(Sgr::SetBackground7((v - 40) as u8)),
        49 => Some(Sgr::DefaultBackground),
        50 => Some(Sgr::DisableProportionalSpacing),
        51 => Some(Sgr::Framed),
        52 => Some(Sgr::Encircled),
        53 => Some(Sgr::Overlined),
        54 => Some(Sgr::NotFramedOrEncircled),
        55 => Some(Sgr::NotOverlined),
        56 => Some(Sgr::SetUnderline(Color::N(0))),
        57 => Some(Sgr::DefaultUnderline),
        90..=97 => Some(Sgr::SetBrightForground7((v - 90) as u8)),
        100..=107 => Some(Sgr::SetBrightBackground7((v - 100) as u8)),
        _ => None,
    }
}

/// The reading of SGR fields under way: the flags, the colour components
/// gathered so far and the attributes read so far.
pub struct SgrMachine {
    pub in_color: bool,
    pub next_color_type_select: bool,
    pub color_type: ColorType,
    pub color_push_type: ColorPushType,
    pub rgb: Vec<u8>,
    pub ret: Vec<Sgr>,
}

impl View for SgrMachine {
    type V = SgrState;

    open spec fn view(&self) -> SgrState {
        SgrState {
            in_color: self.in_color,
            select_next: self.next_color_type_select,
            color_type: self.color_type,
            push_type: self.color_push_type,
            rgb: self.rgb@,
            out: self.ret@,
        }
    }
}

impl SgrMachine {
    /// The machine before the first field.
    pub fn new() -> (m: SgrMachine)
        ensures
            m@ == sgr_initial(),
    {
        SgrMachine {
            in_color: false,
            next_color_type_select: false,
            color_type: ColorType::N,
            color_push_type: ColorPushType::Forground,
            rgb: Vec::new(),
            ret: Vec::new(),
        }
    }

    fn push_color(&mut self, color: Color)
        ensures
            final(self)@ == (SgrState {
                out: old(self)@.out.push(colored(old(self).color_push_type, color)),
                ..old(self)@
            }),
    {
        match self.color_push_type {
            ColorPushType::Forground => self.ret.push(Sgr::SetForeground(color)),
            ColorPushType::Background => self.ret.push(Sgr::SetBackground(color)),
        }
    }

    /// Reads one field whose text is `a` (see `field_text`).
    pub fn step(&mut self, a: &String) -> (res: Result<(), SgrError>)
        ensures
            res is Ok ==> sgr_step(old(self)@, a@) == Ok::<SgrState, SgrError>(final(self)@),
            res matches Err(e) ==> sgr_step(old(self)@, a@) == Err::<SgrState, SgrError>(e),
    {
        proof {
            reveal_strlit("5");
            reveal_strlit("2");
            assert("5"@ =~= seq!['5']);
            assert("2"@ =~= seq!['2']);
        }
        if self.next_color_type_select {
            self.in_color = true;
            self.next_color_type_select = false;
            if same_text(a, "5") {
                self.color_type = ColorType::N;
            } else if same_text(a, "2") {
                self.color_type = ColorType::Rgb;
            } else {
                return Err(SgrError::InvalidColorType);
            }
            self.rgb = Vec::new();
            return Ok(());
        }
        if self.in_color {
            let v = match byte_of(a) {
                Some(v) => v,
                None => return Err(SgrError::ValueOutOfRange),
            };
            match self.color_type {
                ColorType::N => {
                    self.push_color(Color::N(v));
                    self.in_color = false;
                },
                ColorType::Rgb => {
                    if self.rgb.len() < 2 {
                        self.rgb.push(v);
                    } else {
                        self.rgb.push(v);
                        let color = Color::Rgb(
                            RgbColor { r: self.rgb[0], g: self.rgb[1], b: self.rgb[2] },
                        );
                        self.push_color(color);
                        self.in_color = false;
                        self.rgb = Vec::new();
                    }
                },
            }
            return Ok(());
        }
        let v = match code_of(a) {
            Some(v) => v,
            None => return Err(SgrError::UnsupportedCode),
        };
        if v == 38 {
            self.next_color_type_select = true;
            self.color_push_type = ColorPushType::Forground;
            return Ok(());
        }
        if v == 48 {
            self.next_color_type_select = true;
            self.color_push_type = ColorPushType::Background;
            return Ok(());
        }
        match sgr_of_code(v) {
            Some(x) => {
                self.ret.push(x);
                Ok(())
            },
            None => Err(SgrError::UnsupportedCode),
        }
    }
}


/// The colour codes name the eight basic colours in order: `30 + i` sets
/// the foreground to colour `i`, and the background (`40 + i`), bright
/// foreground (`90 + i`) and bright background (`100 + i`) codes name the
/// same colour at the same offset.
pub proof fn lemma_colour_codes(i: nat)
    requires
        i < 8,
    ensures
        sgr_code(30 + i) == Some(Sgr::SetForeground7(i as u8)),
        sgr_code(40 + i) == Some(Sgr::SetBackground7(i as u8)),
        sgr_code(90 + i) == Some(Sgr::SetBrightForground7(i as u8)),
        sgr_code(100 + i) == Some(Sgr::SetBrightBackground7(i as u8)),
{
}

/// A colour code differs from the next one by one colour: the index each
/// names goes up by one with the code.
pub proof fn lemma_colour_codes_step(v: nat)
    requires
        30 <= v < 37,
    ensures
        sgr_code(v) matches Some(Sgr::SetForeground7(i)) && sgr_code(v + 1) == Some(
            Sgr::SetForeground7((i + 1) as u8),
        ),
        sgr_code(v + 10) matches Some(Sgr::SetBackground7(i)) && sgr_code(v + 11) == Some(
            Sgr::SetBackground7((i + 1) as u8),
        ),
{
}

} // verus!
