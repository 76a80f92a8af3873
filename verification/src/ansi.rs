//! Parsing of terminal output: plain bytes become characters, and escape
//! sequences (`ESC [ params final`) become cursor movements, erasures and
//! Select Graphic Rendition (SGR) attribute lists.

use vstd::prelude::*;
use crate::text::{
    count_of, bytes_to_chars, digits_value, push_char, split_on, split_string, strings_view, trimmed, vec_to_string,
};
use crate::sgr::{
    field_text, sgr_parse, sgr_fields, sgr_run, sgr_initial, SgrError, SgrMachine, SgrState,
    lemma_sgr_run_cons, read_field,
};

verus! {

/// A colour given by components.
#[derive(Debug, Clone, Copy, PartialEq, Eq, Structural)]
pub struct RgbColor {
    pub r: u8,
    pub g: u8,
    pub b: u8,
}

/// The vector given to `RgbColor::try_from` holds fewer than three components.
#[derive(Debug, Clone, Copy, PartialEq, Eq, Structural)]
pub struct InvalidVector;

impl RgbColor {
    /// The colour of the first three components of `value`; an error when it
    /// holds fewer than three.
    pub fn try_from(value: Vec<u8>) -> (res: Result<RgbColor, InvalidVector>)
        ensures
            value@.len() < 3 ==> res is Err,
            value@.len() >= 3 ==> res == Ok::<RgbColor, InvalidVector>(
                RgbColor { r: value@[0], g: value@[1], b: value@[2] },
            ),
    {
        if value.len() < 3 {
            return Err(InvalidVector);
        }
        Ok(RgbColor { r: value[0], g: value[1], b: value[2] })
    }
}

/// A colour of an SGR attribute: an entry of the 256-colour table, or
/// components.
#[derive(Debug, Clone, Copy, PartialEq, Eq, Structural)]
pub enum Color {
    N(u8),
    Rgb(RgbColor),
}

/// One display attribute of a Select Graphic Rendition sequence
/// (`ESC [ 01;32 m` selects bold green).
#[derive(Debug, Clone, Copy, PartialEq, Eq, Structural)]
pub enum Sgr {
    Reset,
    Bold,
    Dim,
    Italic,
    Underline,
    SlowBlink,
    RapidBlink,
    Invert,
    Hide,
    Strike,
    PrimaryFont,
    AltFont(u8),
    Gothic,
    /// or not bold in some terminals
    DoublyUnderlined,
    NormalIntensity,
    NotItalicOrBlackletter,
    NotUnderlined,
    NotBlinking,
    ProportionalSpacing,
    NotInvert,
    NotHidden,
    NotStrike,
    SetForeground7(u8),
    SetForeground(Color),
    DefaultForeground,
    SetBackground7(u8),
    SetBackground(Color),
    DefaultBackground,
    DisableProportionalSpacing,
    Framed,
    Encircled,
    Overlined,
    NotFramedOrEncircled,
    NotOverlined,
    SetUnderline(Color),
    DefaultUnderline,
    SetBrightForground7(u8),
    SetBrightBackground7(u8),
}

/// A control sequence with its raw parameters.
#[derive(Debug, PartialEq)]
pub enum Ansi {
    CursorUp(String),
    CursonDown(String),
    CursorForward(String),
    CursorBack(String),
    CursorNextLine(String),
    CursorPreviousLine(String),
    CursorHorizontalAbsolute(String),
    CursorPosition((String, String)),
    EraseInDisplay(String),
    EraseInLine(String),
    ScrollUp(String),
    ScrollDown(String),
    HorizontalVerticalPosition((String, String)),
    Sgr(Vec<Sgr>),
}

/// What an `Ansi` value holds, with its strings as character sequences.
pub enum SpecAnsi {
    CursorUp(Seq<char>),
    CursonDown(Seq<char>),
    CursorForward(Seq<char>),
    CursorBack(Seq<char>),
    CursorNextLine(Seq<char>),
    CursorPreviousLine(Seq<char>),
    CursorHorizontalAbsolute(Seq<char>),
    CursorPosition(Seq<char>, Seq<char>),
    EraseInDisplay(Seq<char>),
    EraseInLine(Seq<char>),
    ScrollUp(Seq<char>),
    ScrollDown(Seq<char>),
    HorizontalVerticalPosition(Seq<char>, Seq<char>),
    Sgr(Seq<Sgr>),
}

impl View for Ansi {
    type V = SpecAnsi;

    open spec fn view(&self) -> SpecAnsi {
        match self {
            Ansi::CursorUp(a) => SpecAnsi::CursorUp(a@),
            Ansi::CursonDown(a) => SpecAnsi::CursonDown(a@),
            Ansi::CursorForward(a) => SpecAnsi::CursorForward(a@),
            Ansi::CursorBack(a) => SpecAnsi::CursorBack(a@),
            Ansi::CursorNextLine(a) => SpecAnsi::CursorNextLine(a@),
            Ansi::CursorPreviousLine(a) => SpecAnsi::CursorPreviousLine(a@),
            Ansi::CursorHorizontalAbsolute(a) => SpecAnsi::CursorHorizontalAbsolute(a@),
            Ansi::CursorPosition((a, b)) => SpecAnsi::CursorPosition(a@, b@),
            Ansi::EraseInDisplay(a) => SpecAnsi::EraseInDisplay(a@),
            Ansi::EraseInLine(a) => SpecAnsi::EraseInLine(a@),
            Ansi::ScrollUp(a) => SpecAnsi::ScrollUp(a@),
            Ansi::ScrollDown(a) => SpecAnsi::ScrollDown(a@),
            Ansi::HorizontalVerticalPosition((a, b)) => SpecAnsi::HorizontalVerticalPosition(a@, b@),
            Ansi::Sgr(l) => SpecAnsi::Sgr(l@),
        }
    }
}

/// One cell of terminal output: a printable character, a control
/// sequence, or nothing.
#[derive(Debug, PartialEq)]
pub enum Char {
    Ansi(Ansi),
    Char(char),
    Empty,
}

/// What a `Char` holds.
pub enum SpecChar {
    Ansi(SpecAnsi),
    Char(char),
    Empty,
}

impl View for Char {
    type V = SpecChar;

    open spec fn view(&self) -> SpecChar {
        match self {
            Char::Ansi(a) => SpecChar::Ansi(a@),
            Char::Char(c) => SpecChar::Char(*c),
            Char::Empty => SpecChar::Empty,
        }
    }
}

/// The cells of a sequence of `Char`s.
pub open spec fn chars_view(v: Seq<Char>) -> Seq<SpecChar> {
    v.map_values(|c: Char| c@)
}

impl From<u8> for Char {
    fn from(value: u8) -> (c: Char) {
        Char::Char(value as char)
    }
}

impl vstd::std_specs::convert::FromSpecImpl<u8> for Char {
    open spec fn obeys_from_spec() -> bool {
        true
    }

    open spec fn from_spec(value: u8) -> Char {
        Char::Char(value as char)
    }
}

// ---------------------------------------------------------------------------
// The grammar, as spec functions over the bytes of the input.
// ---------------------------------------------------------------------------

/// Bytes that may stand among the parameters of a control sequence: the
/// digits and `;`.
pub open spec fn is_param_byte(b: u8) -> bool {
    (48 <= b && b <= 57) || b == 59
}

/// The end of the run of parameter bytes that starts at `i`.
pub open spec fn param_end(s: Seq<u8>, i: int) -> int
    decreases s.len() - i,
{
    if i >= s.len() {
        i
    } else if is_param_byte(s[i]) {
        param_end(s, i + 1)
    } else {
        i
    }
}

/// The index of the first `;` at or after `i`, or the length of `s`.
pub open spec fn semicolon_from(s: Seq<u8>, i: int) -> int
    decreases s.len() - i,
{
    if i >= s.len() {
        s.len() as int
    } else if s[i] == 59 {
        i
    } else {
        semicolon_from(s, i + 1)
    }
}

/// The first parameter of `args`: the characters before its first `;`.
pub open spec fn first_arg(args: Seq<u8>) -> Seq<char> {
    bytes_to_chars(args.take(semicolon_from(args, 0)))
}

/// The two parameters of `args`: the characters before its first `;` and
/// those after it (empty where there is no `;`).
pub open spec fn two_args(args: Seq<u8>) -> (Seq<char>, Seq<char>) {
    let k = semicolon_from(args, 0);
    (
        bytes_to_chars(args.take(k)),
        if k < args.len() {
            bytes_to_chars(args.skip(k + 1))
        } else {
            Seq::empty()
        },
    )
}

/// The cell a control sequence with final byte `next` and parameter bytes
/// `args` stands for; `None` when its SGR parameters cannot be read.
pub open spec fn csi_char(next: u8, args: Seq<u8>) -> Option<SpecChar> {
    let a = first_arg(args);
    let (p, q) = two_args(args);
    if next == 65 {
        Some(SpecChar::Ansi(SpecAnsi::CursorUp(a)))
    } else if next == 66 {
        Some(SpecChar::Ansi(SpecAnsi::CursonDown(a)))
    } else if next == 67 {
        Some(SpecChar::Ansi(SpecAnsi::CursorForward(a)))
    } else if next == 68 {
        Some(SpecChar::Ansi(SpecAnsi::CursorBack(a)))
    } else if next == 69 {
        Some(SpecChar::Ansi(SpecAnsi::CursorNextLine(a)))
    } else if next == 70 {
        Some(SpecChar::Ansi(SpecAnsi::CursorPreviousLine(a)))
    } else if next == 71 {
        Some(SpecChar::Ansi(SpecAnsi::CursorHorizontalAbsolute(a)))
    } else if next == 72 {
        Some(SpecChar::Ansi(SpecAnsi::CursorPosition(p, q)))
    } else if next == 74 {
        Some(SpecChar::Ansi(SpecAnsi::EraseInDisplay(a)))
    } else if next == 75 {
        Some(SpecChar::Ansi(SpecAnsi::EraseInLine(a)))
    } else if next == 83 {
        Some(SpecChar::Ansi(SpecAnsi::ScrollUp(a)))
    } else if next == 84 {
        Some(SpecChar::Ansi(SpecAnsi::ScrollDown(a)))
    } else if next == 102 {
        Some(SpecChar::Ansi(SpecAnsi::HorizontalVerticalPosition(p, q)))
    } else if next == 109 {
        match sgr_parse(args) {
            Ok(l) => Some(SpecChar::Ansi(SpecAnsi::Sgr(l))),
            Err(_) => None,
        }
    } else {
        Some(SpecChar::Char(next as char))
    }
}

/// The control sequence whose parameters start at `i` (just after
/// `ESC [`), with the position after it; `None` where the input ends
/// before its final byte or its SGR parameters cannot be read.
pub open spec fn csi_token(s: Seq<u8>, i: int) -> Option<(SpecChar, int)> {
    let q = param_end(s, i);
    if q >= s.len() {
        None
    } else {
        match csi_char(s[q], s.subrange(i, q)) {
            Some(c) => Some((c, q + 1)),
            None => None,
        }
    }
}

/// What follows an `ESC` whose next byte is at `i`: `[` opens a control
/// sequence, any other byte stands for itself (the `ESC` is dropped).
pub open spec fn escape_token(s: Seq<u8>, i: int) -> Option<(SpecChar, int)> {
    if i >= s.len() {
        None
    } else if s[i] != 91 {
        Some((SpecChar::Char(s[i] as char), i + 1))
    } else {
        csi_token(s, i + 1)
    }
}

/// The cell that starts at `pos`, with the position after it.
pub open spec fn next_token(s: Seq<u8>, pos: int) -> Option<(SpecChar, int)> {
    if s[pos] == 27 {
        escape_token(s, pos + 1)
    } else {
        Some((SpecChar::Char(s[pos] as char), pos + 1))
    }
}

pub proof fn lemma_param_end_bounds(s: Seq<u8>, i: int)
    requires
        0 <= i <= s.len(),
    ensures
        i <= param_end(s, i) <= s.len(),
        forall|k: int| i <= k < param_end(s, i) ==> is_param_byte(#[trigger] s[k]),
        param_end(s, i) < s.len() ==> !is_param_byte(s[param_end(s, i)]),
    decreases s.len() - i,
{
    if i < s.len() && is_param_byte(s[i]) {
        lemma_param_end_bounds(s, i + 1);
    }
}

pub proof fn lemma_subrange_push<A>(s: Seq<A>, a: int, b: int)
    requires
        0 <= a <= b < s.len(),
    ensures
        s.subrange(a, b + 1) == s.subrange(a, b).push(s[b]),
{
    assert(s.subrange(a, b + 1) =~= s.subrange(a, b).push(s[b]));
}

pub proof fn lemma_semicolon_bounds(s: Seq<u8>, i: int)
    requires
        0 <= i <= s.len(),
    ensures
        i <= semicolon_from(s, i) <= s.len(),
    decreases s.len() - i,
{
    if i < s.len() && s[i] != 59 {
        lemma_semicolon_bounds(s, i + 1);
    }
}

pub proof fn lemma_next_token_advances(s: Seq<u8>, pos: int)
    requires
        0 <= pos < s.len(),
    ensures
        next_token(s, pos) matches Some((_, p)) ==> pos < p <= s.len(),
{
    if s[pos] == 27 && pos + 1 < s.len() && s[pos + 1] == 91 {
        lemma_param_end_bounds(s, pos + 2);
    }
}

/// The cells of the input from `pos` on; `None` where parsing them fails.
pub open spec fn tokens_from(s: Seq<u8>, pos: int) -> Option<Seq<SpecChar>>
    decreases s.len() - pos,
{
    if pos < 0 || pos >= s.len() {
        Some(Seq::empty())
    } else {
        match next_token(s, pos) {
            Some((c, p)) => {
                proof {
                    lemma_next_token_advances(s, pos);
                }
                match tokens_from(s, p) {
                    Some(rest) => Some(seq![c] + rest),
                    None => None,
                }
            },
            None => None,
        }
    }
}

/// The cells of the whole input `s`.
pub open spec fn parse_bytes(s: Seq<u8>) -> Option<Seq<SpecChar>> {
    tokens_from(s, 0)
}

/// The cells of bytes read one by one as characters.
pub open spec fn plain_cells(s: Seq<u8>) -> Seq<SpecChar> {
    s.map_values(|b: u8| SpecChar::Char(b as char))
}

/// Output without escape bytes reads as one character per byte: each byte
/// is the character with that code point.
pub proof fn lemma_plain_text_parses_bytewise(s: Seq<u8>)
    requires
        forall|i: int| 0 <= i < s.len() ==> #[trigger] s[i] != 27,
    ensures
        parse_bytes(s) == Some(plain_cells(s)),
{
    lemma_plain_tokens_from(s, 0);
    assert(s.skip(0) =~= s);
}

proof fn lemma_plain_tokens_from(s: Seq<u8>, pos: int)
    requires
        0 <= pos <= s.len(),
        forall|i: int| 0 <= i < s.len() ==> #[trigger] s[i] != 27,
    ensures
        tokens_from(s, pos) == Some(plain_cells(s.skip(pos))),
    decreases s.len() - pos,
{
    if pos < s.len() {
        lemma_plain_tokens_from(s, pos + 1);
        assert(s[pos] != 27);
        assert(plain_cells(s.skip(pos)) =~= seq![SpecChar::Char(s[pos] as char)] + plain_cells(
            s.skip(pos + 1),
        ));
    } else {
        assert(plain_cells(s.skip(pos)) =~= Seq::<SpecChar>::empty());
    }
}

proof fn lemma_param_end_shift(p: Seq<u8>, b: Seq<u8>, i: int)
    requires
        0 <= i <= b.len(),
    ensures
        param_end(p + b, p.len() + i) == p.len() + param_end(b, i),
    decreases b.len() - i,
{
    if i < b.len() {
        assert((p + b)[p.len() + i] == b[i]);
        lemma_param_end_shift(p, b, i + 1);
    }
}

proof fn lemma_next_token_shift(p: Seq<u8>, b: Seq<u8>, j: int)
    requires
        0 <= j < b.len(),
    ensures
        next_token(p + b, p.len() + j) == match next_token(b, j) {
            Some((c, q)) => Some((c, p.len() + q)),
            None => None,
        },
{
    let w = p + b;
    let k = p.len() + j;
    assert(w[k] == b[j]);
    if b[j] == 27 && j + 1 < b.len() {
        assert(w[k + 1] == b[j + 1]);
        if b[j + 1] == 91 {
            lemma_param_end_bounds(b, j + 2);
            lemma_param_end_shift(p, b, j + 2);
            let q = param_end(b, j + 2);
            if q < b.len() {
                assert(w[p.len() + q] == b[q]);
                assert(w.subrange(k + 2, p.len() + q) =~= b.subrange(j + 2, q));
            }
        }
    }
}

/// What follows a prefix parses as it does alone.
proof fn lemma_tokens_shift(p: Seq<u8>, b: Seq<u8>, j: int)
    requires
        0 <= j <= b.len(),
    ensures
        tokens_from(p + b, p.len() + j) == tokens_from(b, j),
    decreases b.len() - j,
{
    if j < b.len() {
        lemma_next_token_shift(p, b, j);
        lemma_next_token_advances(b, j);
        match next_token(b, j) {
            Some((c, q)) => {
                lemma_tokens_shift(p, b, q);
            },
            None => {},
        }
    }
}

proof fn lemma_plain_prefix_from(a: Seq<u8>, b: Seq<u8>, i: int)
    requires
        0 <= i <= a.len(),
        forall|k: int| 0 <= k < a.len() ==> #[trigger] a[k] != 27,
    ensures
        tokens_from(a + b, i) == match tokens_from(b, 0) {
            Some(t) => Some(plain_cells(a.skip(i)) + t),
            None => None,
        },
    decreases a.len() - i,
{
    if i < a.len() {
        assert((a + b)[i] == a[i]);
        assert(a[i] != 27);
        lemma_plain_prefix_from(a, b, i + 1);
        assert(plain_cells(a.skip(i)) =~= seq![SpecChar::Char(a[i] as char)] + plain_cells(a.skip(i + 1)));
        match tokens_from(b, 0) {
            Some(t) => {
                assert(seq![SpecChar::Char(a[i] as char)] + (plain_cells(a.skip(i + 1)) + t) =~= (seq![
                    SpecChar::Char(a[i] as char),
                ] + plain_cells(a.skip(i + 1))) + t);
            },
            None => {},
        }
    } else {
        lemma_tokens_shift(a, b, 0);
        assert(plain_cells(a.skip(i)) =~= Seq::<SpecChar>::empty());
        match tokens_from(b, 0) {
            Some(t) => {
                assert(Seq::<SpecChar>::empty() + t =~= t);
            },
            None => {},
        }
    }
}

/// Output without escape bytes reads as one character per byte ahead of
/// whatever follows it: `a + b` parses as the characters of `a` followed
/// by the parse of `b`, and fails where `b` does.
pub proof fn lemma_plain_prefix_parses_bytewise(a: Seq<u8>, b: Seq<u8>)
    requires
        forall|k: int| 0 <= k < a.len() ==> #[trigger] a[k] != 27,
    ensures
        parse_bytes(a + b) == match parse_bytes(b) {
            Some(t) => Some(plain_cells(a) + t),
            None => None,
        },
{
    lemma_plain_prefix_from(a, b, 0);
    assert(a.skip(0) =~= a);
}

/// An SGR sequence without parameters (`ESC [ m`) resets, as `ESC [ 0 m`
/// does.
pub proof fn lemma_empty_sgr_is_reset()
    ensures
        sgr_parse(Seq::<u8>::empty()) == Ok::<Seq<Sgr>, SgrError>(seq![Sgr::Reset]),
        sgr_parse(seq![48u8]) == Ok::<Seq<Sgr>, SgrError>(seq![Sgr::Reset]),
{
    let zero = seq!['0'];
    assert(digits_value(zero) == 0) by {
        assert(zero.drop_last() =~= Seq::<char>::empty());
        assert(digits_value(zero.drop_last()) == 0);
        assert(zero.last() == '0');
        assert(('0' as nat) == 48);
    }
    assert(crate::sgr::code_value(zero) == Some(0u16));
    assert(crate::sgr::sgr_step(sgr_initial(), zero) == Ok::<SgrState, SgrError>(
        SgrState { out: seq![Sgr::Reset], ..sgr_initial() },
    )) by {
        assert(sgr_initial().out.push(Sgr::Reset) =~= seq![Sgr::Reset]);
    }
    lemma_sgr_run_cons(sgr_initial(), zero, Seq::empty());
    assert(seq![zero] + Seq::<Seq<char>>::empty() =~= seq![zero]);

    let e = Seq::<u8>::empty();
    assert(bytes_to_chars(e) =~= Seq::<char>::empty());
    let empty = Seq::<char>::empty();
    assert(split_on(empty, ';') == seq![empty]);
    assert(trimmed(empty) =~= empty);
    assert(field_text(empty) == zero);
    assert(sgr_fields(e) =~= seq![zero]);

    let z = seq![48u8];
    assert(bytes_to_chars(z) =~= zero);
    assert(split_on(zero, ';') == seq![zero]) by {
        assert(empty.push('0') =~= zero);
        assert(crate::text::split_from(zero, ';', 1, zero) == seq![zero]);
    }
    assert(trimmed(zero) =~= zero);
    assert(zero.skip(1) =~= empty);
    assert(zero.take(1) =~= zero);
    assert(field_text(zero) == zero);
    assert(sgr_fields(z) =~= seq![zero]);
}

// ---------------------------------------------------------------------------
// Parameter strings.
// ---------------------------------------------------------------------------

/// The characters of `args` before its first `;`.
pub fn parse_one_arg(args: Vec<u8>) -> (ret: String)
    ensures
        ret@ == first_arg(args@),
{
    let mut ret = String::new();
    let mut i: usize = 0;
    proof {
        assert(args@.take(0) =~= Seq::<u8>::empty());
        assert(bytes_to_chars(Seq::<u8>::empty()) =~= Seq::<char>::empty());
    }
    while i < args.len()
        invariant
            i <= args.len(),
            semicolon_from(args@, 0) == semicolon_from(args@, i as int),
            ret@ == bytes_to_chars(args@.take(i as int)),
        ensures
            i == args.len() || args@[i as int] == 59,
        decreases args.len() - i,
    {
        if args[i] == 59u8 {
            break;
        }
        push_char(&mut ret, args[i] as char);
        assert(args@.take(i + 1) =~= args@.take(i as int).push(args@[i as int]));
        i += 1;
    }
    proof {
        lemma_semicolon_bounds(args@, 0);
        if i < args.len() {
            assert(semicolon_from(args@, i as int) == i);
        }
        if i == args.len() {
            assert(args@.take(i as int) =~= args@.take(args@.len() as int));
        }
    }
    ret
}

/// The two parameters of `args`, cut at its first `;` (see `two_args`).
pub fn parse_two_arg(args: Vec<u8>) -> (ret: (String, String))
    ensures
        (ret.0@, ret.1@) == two_args(args@),
{
    let mut one = String::new();
    let mut two = String::new();
    let mut found = false;
    let mut i: usize = 0;
    let ghost k = semicolon_from(args@, 0);
    proof {
        lemma_semicolon_bounds(args@, 0);
        assert(args@.take(0) =~= Seq::<u8>::empty());
        assert(bytes_to_chars(Seq::<u8>::empty()) =~= Seq::<char>::empty());
    }
    while i < args.len()
        invariant
            i <= args.len(),
            k == semicolon_from(args@, 0),
            found ==> k < i,
            !found ==> semicolon_from(args@, i as int) == k,
            0 <= k <= args@.len(),
            one@ == bytes_to_chars(args@.take(if found { k } else { i as int })),
            found ==> two@ == bytes_to_chars(args@.subrange(k + 1, i as int)),
            !found ==> two@.len() == 0,
        decreases args.len() - i,
    {
        if !found && args[i] == 59u8 {
            found = true;
            assert(args@.subrange(k + 1, i + 1) =~= Seq::<u8>::empty());
        } else if found {
            push_char(&mut two, args[i] as char);
            assert(args@.subrange(k + 1, i + 1) =~= args@.subrange(k + 1, i as int).push(args@[i as int]));
        } else {
            push_char(&mut one, args[i] as char);
            assert(args@.take(i + 1) =~= args@.take(i as int).push(args@[i as int]));
        }
        i += 1;
    }
    proof {
        if found {
            assert(args@.subrange(k + 1, args@.len() as int) =~= args@.skip(k + 1));
        } else {
            assert(two@ =~= Seq::<char>::empty());
        }
    }
    (one, two)
}

/// The two parameters read as positions, an empty one standing for 1.
pub open spec fn position_args(args: Seq<u8>) -> (Option<u16>, Option<u16>) {
    (count_of(two_args(args).0), count_of(two_args(args).1))
}

/// A first parameter left out stands for 1: `;n` and `1;n` give the same
/// positions.
pub proof fn lemma_omitted_row_is_one(rest: Seq<u8>)
    ensures
        position_args(seq![59u8] + rest) == position_args(seq![49u8, 59u8] + rest),
{
    let a = seq![59u8] + rest;
    let b = seq![49u8, 59u8] + rest;
    assert(semicolon_from(a, 0) == 0);
    assert(semicolon_from(b, 1) == 1);
    assert(semicolon_from(b, 0) == 1);
    assert(a.take(0) =~= Seq::<u8>::empty());
    assert(bytes_to_chars(Seq::<u8>::empty()) =~= Seq::<char>::empty());
    assert(a.skip(1) =~= rest);
    assert(b.skip(2) =~= rest);
    assert(b.take(1) =~= seq![49u8]);
    assert(bytes_to_chars(seq![49u8]) =~= seq!['1']);
    crate::text::lemma_one_is_one();
}

/// A trailing `;` adds nothing: `n;` and `n` give the same parameters.
pub proof fn lemma_trailing_semicolon(s: Seq<u8>)
    requires
        forall|i: int| 0 <= i < s.len() ==> s[i] != 59,
    ensures
        two_args(s + seq![59u8]) == two_args(s),
{
    let w = s + seq![59u8];
    lemma_no_semicolon(s, 0);
    lemma_semicolon_prefix(s, seq![59u8], 0);
    assert(w.take(s.len() as int) =~= s);
    assert(s.take(s.len() as int) =~= s);
    assert(w.skip(s.len() + 1 as int) =~= Seq::<u8>::empty());
    assert(bytes_to_chars(Seq::<u8>::empty()) =~= Seq::<char>::empty());
}

proof fn lemma_no_semicolon(s: Seq<u8>, i: int)
    requires
        0 <= i <= s.len(),
        forall|j: int| 0 <= j < s.len() ==> s[j] != 59,
    ensures
        semicolon_from(s, i) == s.len(),
    decreases s.len() - i,
{
    if i < s.len() {
        lemma_no_semicolon(s, i + 1);
    }
}

proof fn lemma_semicolon_prefix(s: Seq<u8>, t: Seq<u8>, i: int)
    requires
        0 <= i <= s.len(),
        t.len() > 0,
        t[0] == 59,
        forall|j: int| 0 <= j < s.len() ==> s[j] != 59,
    ensures
        semicolon_from(s + t, i) == s.len(),
    decreases s.len() - i,
{
    if i < s.len() {
        assert((s + t)[i] == s[i]);
        lemma_semicolon_prefix(s, t, i + 1);
    } else {
        assert((s + t)[i] == t[0]);
    }
}

// ---------------------------------------------------------------------------
// The parser.
// ---------------------------------------------------------------------------

/// A parser over the bytes `content`, at position `pos`.
pub struct AnsiParser {
    pub content: Vec<u8>,
    pub pos: usize,
}

impl AnsiParser {
    /// Whether the cell at the current position can be read.
    pub fn can_parse_next(&self) -> (b: bool)
        requires
            self.pos < self.content@.len(),
        ensures
            b == next_token(self.content@, self.pos as int) is Some,
    {
        let s = &self.content;
        let n = s.len();
        let p = self.pos;
        if s[p] != 27 {
            return true;
        }
        if p + 1 >= n {
            return false;
        }
        if s[p + 1] != 91 {
            return true;
        }
        let mut q = p + 2;
        proof {
            lemma_param_end_bounds(s@, p + 2);
        }
        while q < n && ((s[q] >= 48 && s[q] <= 57) || s[q] == 59)
            invariant
                n == s@.len(),
                p + 2 <= q <= n,
                param_end(s@, (p + 2) as int) == param_end(s@, q as int),
            decreases n - q,
        {
            q += 1;
        }
        if q >= n {
            return false;
        }
        if s[q] != 109 {
            return true;
        }
        let mut args: Vec<u8> = Vec::new();
        let mut k = p + 2;
        while k < q
            invariant
                n == s@.len(),
                p + 2 <= k <= q,
                q < n,
                q == param_end(s@, (p + 2) as int),
                args@ == s@.subrange((p + 2) as int, k as int),
            decreases q - k,
        {
            args.push(s[k]);
            proof {
                lemma_subrange_push(s@, (p + 2) as int, k as int);
            }
            k += 1;
        }
        read_sgr(args).is_ok()
    }

    /// All cells from the current position to the end of the input, or
    /// `None` where they cannot be read.
    pub fn try_parse(self) -> (ret: Option<Vec<Char>>)
        ensures
            ret is None <==> tokens_from(self.content@, self.pos as int) is None,
            ret matches Some(v) ==> chars_view(v@) == tokens_from(self.content@, self.pos as int).unwrap(),
    {
        let mut parser = self;
        let ghost s = parser.content@;
        let ghost p0 = parser.pos as int;
        let mut ret: Vec<Char> = Vec::new();
        while !parser.eof()
            invariant
                parser.content@ == s,
                s == self.content@,
                p0 == self.pos,
                p0 <= parser.pos,
                tokens_from(s, p0) is None <==> tokens_from(s, parser.pos as int) is None,
                tokens_from(s, parser.pos as int) is Some ==> tokens_from(s, p0).unwrap()
                    == chars_view(ret@) + tokens_from(s, parser.pos as int).unwrap(),
            decreases s.len() - parser.pos,
        {
            proof {
                lemma_next_token_advances(s, parser.pos as int);
            }
            if !parser.can_parse_next() {
                assert(tokens_from(s, parser.pos as int) is None);
                return None;
            }
            let ghost before = ret@;
            let c = parser.parse_next();
            ret.push(c);
            assert(chars_view(ret@) =~= chars_view(before).push(c@));
            proof {
                if tokens_from(s, parser.pos as int) is Some {
                    assert(chars_view(before) + tokens_from(s, (parser.pos) as int).unwrap().insert(0, c@)
                        =~= chars_view(ret@) + tokens_from(s, parser.pos as int).unwrap());
                }
            }
        }
        assert(tokens_from(s, parser.pos as int).unwrap() =~= Seq::<SpecChar>::empty());
        assert(chars_view(ret@) + Seq::<SpecChar>::empty() =~= chars_view(ret@));
        Some(ret)
    }

    /// All cells from the current position to the end of the input.
    pub fn parse(self) -> (ret: Vec<Char>)
        requires
            tokens_from(self.content@, self.pos as int) is Some,
        ensures
            chars_view(ret@) == tokens_from(self.content@, self.pos as int).unwrap(),
    {
        let mut parser = self;
        let ghost s = parser.content@;
        let ghost all = tokens_from(s, parser.pos as int).unwrap();
        let mut ret: Vec<Char> = Vec::new();
        while !parser.eof()
            invariant
                parser.content@ == s,
                tokens_from(s, parser.pos as int) is Some,
                all == chars_view(ret@) + tokens_from(s, parser.pos as int).unwrap(),
            decreases s.len() - parser.pos,
        {
            proof {
                lemma_next_token_advances(s, parser.pos as int);
            }
            let ghost before = ret@;
            let c = parser.parse_next();
            ret.push(c);
            assert(chars_view(ret@) =~= chars_view(before).push(c@));
        }
        assert(tokens_from(s, parser.pos as int).unwrap() =~= Seq::<SpecChar>::empty());
        assert(chars_view(ret@) + Seq::<SpecChar>::empty() =~= chars_view(ret@));
        ret
    }

    /// The cell that starts at the current position.
    pub fn parse_next(&mut self) -> (c: Char)
        requires
            old(self).pos < old(self).content@.len(),
            next_token(old(self).content@, old(self).pos as int) is Some,
        ensures
            final(self).content@ == old(self).content@,
            (c@, final(self).pos as int) == next_token(old(self).content@, old(self).pos as int).unwrap(),
    {
        let next = self.consume_next();
        if next == 27 {
            return self.parse_escap_sequences();
        }
        Char::from(next)
    }

    /// What follows an `ESC` that was just consumed.
    pub fn parse_escap_sequences(&mut self) -> (c: Char)
        requires
            escape_token(old(self).content@, old(self).pos as int) is Some,
        ensures
            final(self).content@ == old(self).content@,
            (c@, final(self).pos as int) == escape_token(old(self).content@, old(self).pos as int).unwrap(),
    {
        let v = self.consume_next();
        if v == 91 {
            self.parse_csi_sequences()
        } else {
            Char::from(v)
        }
    }

    /// The control sequence whose parameters start at the current position
    /// (just after `ESC [`).
    pub fn parse_csi_sequences(&mut self) -> (c: Char)
        requires
            csi_token(old(self).content@, old(self).pos as int) is Some,
        ensures
            final(self).content@ == old(self).content@,
            (c@, final(self).pos as int) == csi_token(old(self).content@, old(self).pos as int).unwrap(),
    {
        proof {
            lemma_param_end_bounds(self.content@, self.pos as int);
        }
        let args = self.parse_csi_parameter_bytes();
        let next = self.consume_next();
        if next == 65u8 {
            Char::Ansi(Ansi::CursorUp(parse_one_arg(args)))
        } else if next == 66u8 {
            Char::Ansi(Ansi::CursonDown(parse_one_arg(args)))
        } else if next == 67u8 {
            Char::Ansi(Ansi::CursorForward(parse_one_arg(args)))
        } else if next == 68u8 {
            Char::Ansi(Ansi::CursorBack(parse_one_arg(args)))
        } else if next == 69u8 {
            Char::Ansi(Ansi::CursorNextLine(parse_one_arg(args)))
        } else if next == 70u8 {
            Char::Ansi(Ansi::CursorPreviousLine(parse_one_arg(args)))
        } else if next == 71u8 {
            Char::Ansi(Ansi::CursorHorizontalAbsolute(parse_one_arg(args)))
        } else if next == 72u8 {
            Char::Ansi(Ansi::CursorPosition(parse_two_arg(args)))
        } else if next == 74u8 {
            Char::Ansi(Ansi::EraseInDisplay(parse_one_arg(args)))
        } else if next == 75u8 {
            Char::Ansi(Ansi::EraseInLine(parse_one_arg(args)))
        } else if next == 83u8 {
            Char::Ansi(Ansi::ScrollUp(parse_one_arg(args)))
        } else if next == 84u8 {
            Char::Ansi(Ansi::ScrollDown(parse_one_arg(args)))
        } else if next == 102u8 {
            Char::Ansi(Ansi::HorizontalVerticalPosition(parse_two_arg(args)))
        } else if next == 109u8 {
            match self.parse_sgr(args) {
                Ok(l) => Char::Ansi(Ansi::Sgr(l)),
                Err(_) => Char::Empty,
            }
        } else {
            Char::Char(next as char)
        }
    }

    /// The attributes that the SGR parameter bytes `args` select: their
    /// `;`-separated fields read in order (see `sgr_parse`). `requires`
    /// admits only bytes that can be read: parameters holding an unknown
    /// code, a colour kind other than `5` or `2`, or a colour value that is
    /// not a byte are not accepted (`read_sgr` tells which those are).
    pub fn parse_sgr(&mut self, args: Vec<u8>) -> (res: Result<Vec<Sgr>, SgrError>)
        requires
            sgr_parse(args@) is Ok,
        ensures
            *final(self) == *old(self),
            res is Ok,
            res matches Ok(l) ==> sgr_parse(args@) == Ok::<Seq<Sgr>, SgrError>(l@),
    {
        read_sgr(args)
    }
}

/// The attributes that the SGR parameter bytes `args` select (see
/// `sgr_parse`), or why they cannot be read.
pub fn read_sgr(args: Vec<u8>) -> (res: Result<Vec<Sgr>, SgrError>)
    ensures
        res matches Ok(l) ==> sgr_parse(args@) == Ok::<Seq<Sgr>, SgrError>(l@),
        res matches Err(e) ==> sgr_parse(args@) == Err::<Seq<Sgr>, SgrError>(e),
{
    let ghost fields = sgr_fields(args@);
    let ghost total = sgr_run(sgr_initial(), fields);
    let text = vec_to_string(args);
    let pieces = split_string(text.as_str(), ';');
    let mut machine = SgrMachine::new();
    let mut i: usize = 0;
    proof {
        assert(fields.len() == pieces@.len());
        assert(fields.skip(0) =~= fields);
    }
    while i < pieces.len()
        invariant
            fields == sgr_fields(args@),
            total == sgr_run(sgr_initial(), fields),
            strings_view(pieces@) == split_on(bytes_to_chars(args@), ';'),
            fields.len() == pieces@.len(),
            i <= pieces.len(),
            total == sgr_run(machine@, fields.skip(i as int)),
        decreases pieces.len() - i,
    {
        let a = read_field(pieces[i].as_str());
        let ghost before = machine@;
        proof {
            assert(fields[i as int] == field_text(pieces@[i as int]@));
            assert(fields.skip(i as int) =~= seq![fields[i as int]] + fields.skip(i + 1));
            lemma_sgr_run_cons(before, fields[i as int], fields.skip(i + 1));
        }
        match machine.step(&a) {
            Ok(()) => {},
            Err(e) => {
                return Err(e);
            },
        }
        i += 1;
    }
    assert(fields.skip(i as int) =~= Seq::<Seq<char>>::empty());
    Ok(machine.ret)
}

impl AnsiParser {

    /// The run of parameter bytes (digits and `;`) at the current position.
    pub fn parse_csi_parameter_bytes(&mut self) -> (ret: Vec<u8>)
        requires
            old(self).pos <= old(self).content@.len(),
        ensures
            final(self).content@ == old(self).content@,
            final(self).pos == param_end(old(self).content@, old(self).pos as int),
            ret@ == old(self).content@.subrange(old(self).pos as int, final(self).pos as int),
    {
        let ghost start = self.pos as int;
        let ghost s = self.content@;
        let mut ret: Vec<u8> = Vec::new();
        loop
            invariant
                self.content@ == s,
                0 <= start <= self.pos <= s.len(),
                param_end(s, start) == param_end(s, self.pos as int),
                ret@ == s.subrange(start, self.pos as int),
            ensures
                self.content@ == s,
                self.pos == param_end(s, start),
                ret@ == s.subrange(start, self.pos as int),
            decreases s.len() - self.pos,
        {
            if self.eof() {
                break;
            }
            let b = self.next();
            if (b >= 48 && b <= 57) || b == 59 {
                let ghost p0 = self.pos as int;
                let c = self.consume_next();
                ret.push(c);
                proof {
                    lemma_subrange_push(s, start, p0);
                }
            } else {
                break;
            }
        }
        ret
    }

    /// The byte at the current position.
    pub fn next(&self) -> (b: u8)
        requires
            self.pos < self.content@.len(),
        ensures
            b == self.content@[self.pos as int],
    {
        self.content[self.pos]
    }

    /// The byte at the current position, stepping past it.
    pub fn consume_next(&mut self) -> (b: u8)
        requires
            old(self).pos < old(self).content@.len(),
        ensures
            final(self).content@ == old(self).content@,
            final(self).pos == old(self).pos + 1,
            b == old(self).content@[old(self).pos as int],
    {
        let b = self.content[self.pos];
        assert(self.pos < self.content.len());
        self.pos = self.pos + 1;
        b
    }

    /// Whether the whole input has been read.
    pub fn eof(&self) -> (b: bool)
        ensures
            b == (self.pos >= self.content@.len()),
    {
        if self.pos >= self.content.len() {
            return true;
        }
        false
    }
}

} // verus!
