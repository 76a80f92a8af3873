//! The virtual screen a pane draws program output on, and the styled text
//! that is read back from it.
//!
//! Output is parsed into cells (see `ansi`); the cells are then played onto
//! a grid of rows under a cursor, and the grid is read back as lines of
//! styled spans.

use vstd::prelude::*;
use crate::ansi::{AnsiParser, Ansi, Char, Sgr, SpecAnsi, SpecChar, chars_view, tokens_from};
use crate::style::{Style, default_style, style_after, parse_sgr, lemma_style_after_concat};
use crate::text::{count_of, parse_count, push_char, string_is_empty};
use vstd::utf8::encode_utf8;

verus! {

// ---------------------------------------------------------------------------
// Styled text.
// ---------------------------------------------------------------------------

/// A run of text drawn in one style.
#[derive(Debug, PartialEq)]
pub struct Span {
    pub content: String,
    pub style: Style,
}

/// What a `Span` holds.
pub struct SpecSpan {
    pub content: Seq<char>,
    pub style: Style,
}

impl View for Span {
    type V = SpecSpan;

    open spec fn view(&self) -> SpecSpan {
        SpecSpan { content: self.content@, style: self.style }
    }
}

/// The spans of a line.
pub open spec fn line_view(l: Seq<Span>) -> Seq<SpecSpan> {
    l.map_values(|s: Span| s@)
}

/// The lines of a text.
pub open spec fn text_view(t: Seq<Vec<Span>>) -> Seq<Seq<SpecSpan>> {
    t.map_values(|l: Vec<Span>| line_view(l@))
}

// ---------------------------------------------------------------------------
// The screen and the cursor.
// ---------------------------------------------------------------------------

/// A virtual screen: a cursor (`vc`: column, row), a grid of cells
/// (`vstdout`: rows of cells) and a scroll offset.
pub struct Screen {
    pub vc: (u16, u16),
    pub vstdout: Vec<Vec<Char>>,
    pub scroll: (u16, u16),
}

/// What a `Screen` holds.
pub struct SpecScreen {
    pub vc: (u16, u16),
    pub grid: Seq<Seq<SpecChar>>,
    pub scroll: (u16, u16),
}

/// The cells of a grid.
pub open spec fn grid_view(g: Seq<Vec<Char>>) -> Seq<Seq<SpecChar>> {
    g.map_values(|r: Vec<Char>| chars_view(r@))
}

impl View for Screen {
    type V = SpecScreen;

    open spec fn view(&self) -> SpecScreen {
        SpecScreen { vc: self.vc, grid: grid_view(self.vstdout@), scroll: self.scroll }
    }
}

/// `st` with `c` written at the cursor and the cursor one column on;
/// `None` where the cursor is off the grid or in the last possible column.
pub open spec fn written(st: SpecScreen, c: SpecChar) -> Option<SpecScreen> {
    let x = st.vc.0;
    let y = st.vc.1;
    if y >= st.grid.len() || x >= st.grid[y as int].len() || x == 65535 {
        None
    } else {
        Some(
            SpecScreen {
                grid: st.grid.update(y as int, st.grid[y as int].update(x as int, c)),
                vc: ((x + 1) as u16, y),
                ..st
            },
        )
    }
}

/// `n` rows or columns back from `p`, stopping at 0.
pub open spec fn back_by(p: u16, n: u16) -> u16 {
    if p >= n {
        (p - n) as u16
    } else {
        0
    }
}

/// `st` after the cell `c` is played on it; `None` where that fails.
///
/// A newline moves to the start of the next row, except on the last row;
/// cursor up and cursor back move by their count (1 where it is left out),
/// stopping at the edge;
/// characters and SGR sequences are written at the cursor; the rest has no
/// effect.
pub open spec fn moved(st: SpecScreen, c: SpecChar) -> Option<SpecScreen> {
    match c {
        SpecChar::Char(ch) => {
            if ch == '\n' {
                let h = st.grid.len() % 65536;
                if h == 0 {
                    None
                } else if st.vc.1 == h - 1 {
                    Some(st)
                } else if st.vc.1 == 65535 {
                    None
                } else {
                    Some(SpecScreen { vc: (0, (st.vc.1 + 1) as u16), ..st })
                }
            } else {
                written(st, c)
            }
        },
        SpecChar::Ansi(a) => match a {
            SpecAnsi::CursorUp(amount) => match count_of(amount) {
                Some(n) => Some(SpecScreen { vc: (st.vc.0, back_by(st.vc.1, n)), ..st }),
                None => None,
            },
            SpecAnsi::CursorBack(amount) => match count_of(amount) {
                Some(n) => Some(SpecScreen { vc: (back_by(st.vc.0, n), st.vc.1), ..st }),
                None => None,
            },
            SpecAnsi::Sgr(_) => written(st, c),
            _ => Some(st),
        },
        SpecChar::Empty => Some(st),
    }
}

/// `st` after the cells `cs` are played on it, in order.
pub open spec fn moved_all(st: SpecScreen, cs: Seq<SpecChar>) -> Option<SpecScreen>
    decreases cs.len(),
{
    if cs.len() == 0 {
        Some(st)
    } else {
        match moved_all(st, cs.drop_last()) {
            Some(s) => moved(s, cs.last()),
            None => None,
        }
    }
}

/// Whether two grids have the same number of rows, each of the same length.
pub open spec fn same_shape(a: Seq<Seq<SpecChar>>, b: Seq<Seq<SpecChar>>) -> bool {
    &&& a.len() == b.len()
    &&& forall|i: int| 0 <= i < a.len() ==> (#[trigger] a[i]).len() == b[i].len()
}

/// Playing cells never changes the size of the screen: it keeps its rows,
/// each of its length.
pub proof fn lemma_moved_all_keeps_shape(st: SpecScreen, cs: Seq<SpecChar>)
    requires
        moved_all(st, cs) is Some,
    ensures
        same_shape(moved_all(st, cs).unwrap().grid, st.grid),
    decreases cs.len(),
{
    if cs.len() > 0 {
        lemma_moved_all_keeps_shape(st, cs.drop_last());
        let s = moved_all(st, cs.drop_last()).unwrap();
        let t = moved_all(st, cs).unwrap();
        assert(same_shape(t.grid, s.grid));
    }
}

/// At the edge of the screen, moving further towards it has no effect:
/// cursor up on the top row and cursor back in the first column leave the
/// screen as it is.
pub proof fn lemma_cursor_stops_at_edge(st: SpecScreen, amount: Seq<char>)
    requires
        count_of(amount) is Some,
    ensures
        st.vc.1 == 0 ==> moved(st, SpecChar::Ansi(SpecAnsi::CursorUp(amount))) == Some(st),
        st.vc.0 == 0 ==> moved(st, SpecChar::Ansi(SpecAnsi::CursorBack(amount))) == Some(st),
{
}

/// A count left out is 1: cursor up and cursor back without a count move
/// one row or column, as with the count `1`.
pub proof fn lemma_omitted_count_is_one(st: SpecScreen)
    ensures
        moved(st, SpecChar::Ansi(SpecAnsi::CursorUp(Seq::empty()))) == Some(
            SpecScreen { vc: (st.vc.0, back_by(st.vc.1, 1)), ..st },
        ),
        moved(st, SpecChar::Ansi(SpecAnsi::CursorBack(Seq::empty()))) == Some(
            SpecScreen { vc: (back_by(st.vc.0, 1), st.vc.1), ..st },
        ),
        moved(st, SpecChar::Ansi(SpecAnsi::CursorUp(Seq::empty()))) == moved(
            st,
            SpecChar::Ansi(SpecAnsi::CursorUp(seq!['1'])),
        ),
{
    crate::text::lemma_one_is_one();
}

/// Erasing part of a line, or of the display, leaves the cursor where it
/// is and the cells as they are.
pub proof fn lemma_erase_in_line_keeps_cursor(st: SpecScreen, v: Seq<char>)
    ensures
        moved(st, SpecChar::Ansi(SpecAnsi::EraseInLine(v))) == Some(st),
        moved(st, SpecChar::Ansi(SpecAnsi::EraseInDisplay(v))) == Some(st),
{
}

/// Where playing all of `cs` succeeds, playing a prefix of it does too.
pub proof fn lemma_moved_all_prefix(st: SpecScreen, cs: Seq<SpecChar>, i: int)
    requires
        0 <= i <= cs.len(),
        moved_all(st, cs) is Some,
    ensures
        moved_all(st, cs.take(i)) is Some,
    decreases cs.len() - i,
{
    if i < cs.len() {
        lemma_moved_all_prefix(st, cs.drop_last(), i);
        assert(cs.drop_last().take(i) =~= cs.take(i));
    } else {
        assert(cs.take(i) =~= cs);
    }
}

// ---------------------------------------------------------------------------
// Reading the grid back as text.
// ---------------------------------------------------------------------------

/// Where the reading of cells as text stands: the finished lines, the
/// spans of the line under way, its text not yet in a span, the style in
/// effect, the count of newlines still to end lines, and whether the
/// screen was cleared.
pub struct TextState {
    pub lines: Seq<Seq<SpecSpan>>,
    pub spans: Seq<SpecSpan>,
    pub current: Seq<char>,
    pub style: Style,
    pub found: int,
    pub erased: bool,
}

/// The state before the first cell, with `found` newlines ending lines
/// after the first.
pub open spec fn text_initial(found: int) -> TextState {
    TextState {
        lines: Seq::empty(),
        spans: Seq::empty(),
        current: Seq::empty(),
        style: default_style(),
        found,
        erased: false,
    }
}

/// The state after the cell `c`. A newline ends the line under way (and is
/// kept as the first character of the next one) when `counted` is false or
/// the count is not used up; an SGR sequence closes the span under way, if
/// it holds text, and changes the style; clearing the whole screen (`J`
/// with parameter `2`) is noted.
pub open spec fn text_step(st: TextState, c: SpecChar, counted: bool) -> TextState {
    match c {
        SpecChar::Char(ch) => {
            if ch == '\n' && (!counted || st.found >= 0) {
                TextState {
                    lines: st.lines.push(
                        st.spans.push(SpecSpan { content: st.current, style: st.style }),
                    ),
                    spans: Seq::empty(),
                    current: seq!['\n'],
                    found: if counted { st.found - 1 } else { st.found },
                    ..st
                }
            } else {
                TextState { current: st.current.push(ch), ..st }
            }
        },
        SpecChar::Ansi(a) => match a {
            SpecAnsi::EraseInDisplay(v) => {
                if v == seq!['2'] {
                    TextState { erased: true, ..st }
                } else {
                    st
                }
            },
            SpecAnsi::Sgr(l) => TextState {
                spans: if st.current.len() > 0 {
                    st.spans.push(SpecSpan { content: st.current, style: st.style })
                } else {
                    st.spans
                },
                current: Seq::empty(),
                style: style_after(st.style, l),
                ..st
            },
            _ => st,
        },
        SpecChar::Empty => st,
    }
}

/// The state after the cells `cs`, in order.
pub open spec fn text_fold(st: TextState, cs: Seq<SpecChar>, counted: bool) -> TextState
    decreases cs.len(),
{
    if cs.len() == 0 {
        st
    } else {
        text_step(text_fold(st, cs.drop_last(), counted), cs.last(), counted)
    }
}

/// The finished lines, with the line under way closed if it holds text.
pub open spec fn text_finish(st: TextState) -> Seq<Seq<SpecSpan>> {
    if st.current.len() > 0 {
        st.lines.push(st.spans.push(SpecSpan { content: st.current, style: st.style }))
    } else {
        st.lines
    }
}

/// The cells of a grid read row by row, each row followed by a newline.
pub open spec fn flat(g: Seq<Seq<SpecChar>>) -> Seq<SpecChar>
    decreases g.len(),
{
    if g.len() == 0 {
        Seq::empty()
    } else {
        flat(g.drop_last()) + g.last().push(SpecChar::Char('\n'))
    }
}

/// Whether a row holds anything but empty cells.
pub open spec fn row_has_content(r: Seq<SpecChar>) -> bool {
    exists|j: int| 0 <= j < r.len() && !(#[trigger] r[j] is Empty)
}

/// The index of the last row that holds anything, or 0.
pub open spec fn last_content_row(g: Seq<Seq<SpecChar>>) -> int
    decreases g.len(),
{
    if g.len() == 0 {
        0
    } else if row_has_content(g.last()) {
        g.len() - 1
    } else {
        last_content_row(g.drop_last())
    }
}

/// The text a grid reads as: its rows up to the last one that holds
/// anything become lines, the rest of it the final line; and whether a
/// cell clears the screen.
pub open spec fn grid_text(g: Seq<Seq<SpecChar>>) -> TextState {
    text_fold(text_initial(last_content_row(g)), flat(g), true)
}

/// The reading of cells as text under way.
pub struct TextBuilder {
    pub spans: Vec<Vec<Span>>,
    pub span: Vec<Span>,
    pub current_text: String,
    pub style: Style,
    pub found: i32,
    pub erased: bool,
}

impl View for TextBuilder {
    type V = TextState;

    open spec fn view(&self) -> TextState {
        TextState {
            lines: text_view(self.spans@),
            spans: line_view(self.span@),
            current: self.current_text@,
            style: self.style,
            found: self.found as int,
            erased: self.erased,
        }
    }
}

impl TextBuilder {
    /// The reader before the first cell, with `found` newlines counted.
    pub fn new(found: i32) -> (b: TextBuilder)
        ensures
            b@ == text_initial(found as int),
    {
        let b = TextBuilder {
            spans: Vec::new(),
            span: Vec::new(),
            current_text: String::new(),
            style: Style::default(),
            found,
            erased: false,
        };
        assert(text_view(b.spans@) =~= Seq::<Seq<SpecSpan>>::empty());
        assert(line_view(b.span@) =~= Seq::<SpecSpan>::empty());
        b
    }

    /// Reads the cell `c`.
    pub fn step(&mut self, c: &Char, counted: bool)
        requires
            counted ==> old(self).found >= -1,
        ensures
            final(self)@ == text_step(old(self)@, c@, counted),
            counted ==> final(self).found >= -1,
    {
        match c {
            Char::Char(ch) => {
                if *ch == '\n' && (!counted || self.found >= 0) {
                    let ghost old_lines = self.spans@;
                    let ghost old_span = self.span@;
                    let sp = Span { content: self.current_text.clone(), style: self.style };
                    self.span.push(sp);
                    let mut line: Vec<Span> = Vec::new();
                    std::mem::swap(&mut line, &mut self.span);
                    self.spans.push(line);
                    assert(line_view(old_span.push(sp)) =~= line_view(old_span).push(sp@));
                    assert(text_view(old_lines.push(line)) =~= text_view(old_lines).push(
                        line_view(line@),
                    ));
                    assert(line_view(self.span@) =~= Seq::<SpecSpan>::empty());
                    self.current_text = String::new();
                    if counted {
                        self.found = self.found - 1;
                    }
                }
                push_char(&mut self.current_text, *ch);
                proof {
                    if *ch == '\n' && (!counted || old(self).found >= 0) {
                        assert(Seq::<char>::empty().push('\n') =~= seq!['\n']);
                    }
                }
            },
            Char::Ansi(a) => {
                match a {
                    Ansi::EraseInDisplay(v) => {
                        let is_two = v.as_str().unicode_len() == 1 && v.as_str().get_char(0) == '2';
                        proof {
                            if is_two {
                                assert(v@ =~= seq!['2']);
                            }
                        }
                        if is_two {
                            self.erased = true;
                        }
                    },
                    Ansi::Sgr(sgr) => {
                        if !string_is_empty(&self.current_text) {
                            let ghost old_span = self.span@;
                            let sp = Span { content: self.current_text.clone(), style: self.style };
                            self.span.push(sp);
                            assert(line_view(old_span.push(sp)) =~= line_view(old_span).push(sp@));
                        }
                        self.current_text = String::new();
                        parse_sgr(sgr, &mut self.style);
                    },
                    _ => {},
                }
            },
            Char::Empty => {},
        }
    }

    /// The finished lines, with the line under way closed if it holds text.
    pub fn finish(self) -> (t: Vec<Vec<Span>>)
        ensures
            text_view(t@) == text_finish(self@),
    {
        let mut b = self;
        if !string_is_empty(&b.current_text) {
            let ghost old_span = b.span@;
            let ghost old_lines = b.spans@;
            let sp = Span { content: b.current_text.clone(), style: b.style };
            b.span.push(sp);
            assert(line_view(old_span.push(sp)) =~= line_view(old_span).push(sp@));
            let line = b.span;
            b.spans.push(line);
            assert(text_view(old_lines.push(line)) =~= text_view(old_lines).push(line_view(line@)));
        }
        b.spans
    }
}

/// A copy of a list of SGR attributes.
pub fn copy_sgrs(l: &Vec<crate::ansi::Sgr>) -> (r: Vec<crate::ansi::Sgr>)
    ensures
        r@ == l@,
{
    let mut r = Vec::new();
    let mut i: usize = 0;
    while i < l.len()
        invariant
            i <= l.len(),
            r@ == l@.take(i as int),
        decreases l.len() - i,
    {
        r.push(l[i]);
        assert(l@.take(i + 1) =~= l@.take(i as int).push(l@[i as int]));
        i += 1;
    }
    assert(l@.take(l@.len() as int) =~= l@);
    r
}

impl Screen {
    /// A screen with the cursor at the top left, the grid `vstdout` and no
    /// scroll.
    pub fn new(vstdout: Vec<Vec<Char>>) -> (s: Screen)
        ensures
            s.vc == (0u16, 0u16),
            s.vstdout == vstdout,
            s.scroll == (0u16, 0u16),
    {
        Screen { vc: (0, 0), vstdout, scroll: (0, 0) }
    }

    /// Writes `c` at the cursor and moves the cursor one column on.
    pub fn write_char(&mut self, c: Char)
        requires
            written(old(self)@, c@) is Some,
        ensures
            final(self)@ == written(old(self)@, c@).unwrap(),
    {
        let ghost old_grid = self.vstdout@;
        let ghost cv = c@;
        let x = self.vc.0 as usize;
        let y = self.vc.1 as usize;
        self.vstdout[y][x] = c;
        self.vc.0 = self.vc.0 + 1;
        proof {
            assert(chars_view(self.vstdout@[y as int]@) =~= chars_view(old_grid[y as int]@).update(
                x as int,
                cv,
            ));
            assert(grid_view(self.vstdout@) =~= grid_view(old_grid).update(
                y as int,
                grid_view(old_grid)[y as int].update(x as int, cv),
            ));
        }
    }

    /// Whether the cell `c` can be played on the screen.
    pub fn can_move(&self, c: &Char) -> (b: bool)
        ensures
            b == moved(self@, c@) is Some,
    {
        match c {
            Char::Char(ch) => {
                if *ch == '\n' {
                    let n = self.vstdout.len();
                    let rows = #[verifier::truncate] (n as u16);
                    assert(rows == n % 65536) by (bit_vector)
                        requires
                            rows == n as u16;
                    if rows == 0 {
                        false
                    } else if self.vc.1 == rows - 1 {
                        true
                    } else {
                        self.vc.1 != 65535
                    }
                } else {
                    self.can_write()
                }
            },
            Char::Ansi(a) => match a {
                Ansi::CursorUp(amount) => parse_count(amount).is_some(),
                Ansi::CursorBack(amount) => parse_count(amount).is_some(),
                Ansi::Sgr(_) => self.can_write(),
                _ => true,
            },
            Char::Empty => true,
        }
    }

    /// Whether a cell can be written at the cursor.
    fn can_write(&self) -> (b: bool)
        ensures
            b == (written(self@, SpecChar::Empty) is Some),
    {
        let x = self.vc.0 as usize;
        let y = self.vc.1 as usize;
        y < self.vstdout.len() && x < self.vstdout[y].len() && self.vc.0 != 65535
    }

    /// Plays the cell `c` on the screen.
    pub fn move_one(&mut self, c: &Char)
        requires
            moved(old(self)@, c@) is Some,
        ensures
            final(self)@ == moved(old(self)@, c@).unwrap(),
    {
        match c {
            Char::Char(ch) => {
                if *ch == '\n' {
                    let n = self.vstdout.len();
                    let rows = #[verifier::truncate] (n as u16);
                    assert(rows == n % 65536) by (bit_vector)
                        requires
                            rows == n as u16;
                    if self.vc.1 == rows - 1 {
                    } else {
                        self.vc.1 = self.vc.1 + 1;
                        self.vc.0 = 0;
                    }
                } else {
                    self.write_char(Char::Char(*ch));
                }
            },
            Char::Ansi(ansi) => {
                match ansi {
                    Ansi::CursorUp(amount) => {
                        let amount = parse_count(amount).unwrap();
                        if self.vc.1 >= amount {
                            self.vc.1 = self.vc.1 - amount;
                        } else {
                            self.vc.1 = 0;
                        }
                    },
                    Ansi::CursorBack(amount) => {
                        let amount = parse_count(amount).unwrap();
                        if self.vc.0 >= amount {
                            self.vc.0 = self.vc.0 - amount;
                        } else {
                            self.vc.0 = 0;
                        }
                    },
                    Ansi::Sgr(sgr) => {
                        self.write_char(Char::Ansi(Ansi::Sgr(copy_sgrs(sgr))));
                    },
                    _ => {},
                }
            },
            Char::Empty => {},
        }
    }

    /// Plays the cells `input` on the screen, in order.
    pub fn comput_cursore_moves(&mut self, input: Vec<Char>)
        requires
            moved_all(old(self)@, chars_view(input@)) is Some,
        ensures
            final(self)@ == moved_all(old(self)@, chars_view(input@)).unwrap(),
    {
        let ghost start = self@;
        let ghost cs = chars_view(input@);
        let mut i: usize = 0;
        while i < input.len()
            invariant
                i <= input.len(),
                cs == chars_view(input@),
                moved_all(start, cs) is Some,
                moved_all(start, cs.take(i as int)) == Some(self@),
            decreases input.len() - i,
        {
            proof {
                lemma_moved_all_prefix(start, cs, i + 1);
                assert(cs.take(i + 1).drop_last() =~= cs.take(i as int));
                assert(cs.take(i + 1).last() == input@[i as int]@);
            }
            self.move_one(&input[i]);
            i += 1;
        }
        assert(cs.take(input.len() as int) =~= cs);
    }

    /// Plays the cells `input` on the screen, in order, where that can be
    /// done; whether it could. Where it could not, the screen is left
    /// after the cells before the first one that cannot be played.
    pub fn try_comput_cursore_moves(&mut self, input: Vec<Char>) -> (ok: bool)
        ensures
            ok == moved_all(old(self)@, chars_view(input@)) is Some,
            ok ==> final(self)@ == moved_all(old(self)@, chars_view(input@)).unwrap(),
            !ok ==> exists|k: int|
                0 <= k < input@.len() && moved_all(old(self)@, chars_view(input@).take(k)) == Some(
                    final(self)@,
                ) && #[trigger] moved(final(self)@, chars_view(input@)[k]) is None,
    {
        let ghost start = self@;
        let ghost cs = chars_view(input@);
        let mut i: usize = 0;
        while i < input.len()
            invariant
                i <= input.len(),
                cs == chars_view(input@),
                start == old(self)@,
                moved_all(start, cs.take(i as int)) == Some(self@),
            decreases input.len() - i,
        {
            proof {
                assert(cs.take(i + 1).drop_last() =~= cs.take(i as int));
                assert(cs.take(i + 1).last() == input@[i as int]@);
            }
            if !self.can_move(&input[i]) {
                proof {
                    if moved_all(start, cs) is Some {
                        lemma_moved_all_prefix(start, cs, i + 1);
                    }
                    assert(cs[i as int] == input@[i as int]@);
                    assert(moved(self@, cs[i as int]) is None);
                }
                return false;
            }
            self.move_one(&input[i]);
            i += 1;
        }
        assert(cs.take(input.len() as int) =~= cs);
        true
    }

    /// The text the grid reads as (see `grid_text`); where a cell clears
    /// the whole screen, the scroll goes back to the top.
    pub fn new_construct_text(&mut self) -> (t: Vec<Vec<Span>>)
        requires
            old(self).vstdout@.len() <= 0x7fff_ffff,
        ensures
            text_view(t@) == text_finish(grid_text(old(self)@.grid)),
            final(self).vc == old(self).vc,
            final(self).vstdout == old(self).vstdout,
            final(self).scroll == (if grid_text(old(self)@.grid).erased {
                (0u16, 0u16)
            } else {
                old(self).scroll
            }),
    {
        let ghost g = self@.grid;
        let n = self.vstdout.len();
        let mut found: i32 = 0;
        let mut idx: i32 = 0;
        let mut r: usize = 0;
        while r < n
            invariant
                n == self.vstdout@.len(),
                n <= 0x7fff_ffff,
                g == self@.grid,
                r <= n,
                idx == r,
                found as int == last_content_row(g.take(r as int)),
                0 <= found,
            decreases n - r,
        {
            let row = &self.vstdout[r];
            let ghost before = found as int;
            let mut j: usize = 0;
            while j < row.len()
                invariant
                    j <= row@.len(),
                    g == self@.grid,
                    r < n,
                    n == self.vstdout@.len(),
                    row == self.vstdout@[r as int],
                    idx == r,
                    0 <= found,
                    found as int == (if (exists|k: int| 0 <= k < j && !(#[trigger] g[r as int][k] is Empty)) {
                        r as int
                    } else {
                        before
                    }),
                decreases row@.len() - j,
            {
                assert(g[r as int][j as int] == row@[j as int]@);
                match &row[j] {
                    Char::Empty => {},
                    _ => {
                        found = idx;
                    },
                }
                j += 1;
            }
            proof {
                assert(g.take(r + 1).drop_last() =~= g.take(r as int));
                assert(g.take(r + 1).last() == g[r as int]);
                assert(g[r as int].len() == row@.len());
                if row_has_content(g[r as int]) {
                    let k = choose|k: int| 0 <= k < g[r as int].len() && !(#[trigger] g[r as int][k] is Empty);
                    assert(!(g[r as int][k] is Empty));
                }
            }
            idx += 1;
            r += 1;
        }
        assert(g.take(n as int) =~= g);
        let ghost init = text_initial(found as int);
        let mut b = TextBuilder::new(found);
        let mut r: usize = 0;
        assert(g.take(0) =~= Seq::<Seq<SpecChar>>::empty());
        assert(flat(Seq::<Seq<SpecChar>>::empty()) =~= Seq::<SpecChar>::empty());
        while r < n
            invariant
                n == self.vstdout@.len(),
                g == self@.grid,
                r <= n,
                init == text_initial(last_content_row(g)),
                b@ == text_fold(init, flat(g.take(r as int)), true),
                b.found >= -1,
            decreases n - r,
        {
            let row = &self.vstdout[r];
            let ghost prefix = flat(g.take(r as int));
            let mut j: usize = 0;
            assert(prefix + g[r as int].take(0) =~= prefix);
            while j < row.len()
                invariant
                    j <= row@.len(),
                    r < n,
                    n == self.vstdout@.len(),
                    g == self@.grid,
                    row == self.vstdout@[r as int],
                    b@ == text_fold(init, prefix + g[r as int].take(j as int), true),
                    b.found >= -1,
                decreases row@.len() - j,
            {
                assert(g[r as int][j as int] == row@[j as int]@);
                proof {
                    lemma_text_fold_push(init, prefix + g[r as int].take(j as int), g[r as int][j as int], true);
                    assert(prefix + g[r as int].take(j + 1) =~= (prefix + g[r as int].take(j as int)).push(
                        g[r as int][j as int],
                    ));
                }
                b.step(&row[j], true);
                j += 1;
            }
            let nl = Char::Char('\n');
            proof {
                assert(g[r as int].take(j as int) =~= g[r as int]);
                lemma_text_fold_push(init, prefix + g[r as int], nl@, true);
                assert(g.take(r + 1).drop_last() =~= g.take(r as int));
                assert(g.take(r + 1).last() == g[r as int]);
                assert(flat(g.take(r + 1)) == prefix + g[r as int].push(SpecChar::Char('\n')));
                assert(prefix + g[r as int].push(SpecChar::Char('\n')) =~= (prefix + g[r as int]).push(nl@));
            }
            b.step(&nl, true);
            r += 1;
        }
        assert(g.take(n as int) =~= g);
        if b.erased {
            self.scroll = (0, 0);
        }
        b.finish()
    }

    /// The text the cells `input` read as, every newline ending a line;
    /// where a cell clears the whole screen, the scroll goes back to the
    /// top.
    pub fn construct_text(&mut self, input: Vec<Char>) -> (t: Vec<Vec<Span>>)
        ensures
            text_view(t@) == text_finish(text_fold(text_initial(0), chars_view(input@), false)),
            final(self).vc == old(self).vc,
            final(self).vstdout == old(self).vstdout,
            final(self).scroll == (if text_fold(text_initial(0), chars_view(input@), false).erased {
                (0u16, 0u16)
            } else {
                old(self).scroll
            }),
    {
        let ghost cs = chars_view(input@);
        let mut b = TextBuilder::new(0);
        let mut i: usize = 0;
        assert(cs.take(0) =~= Seq::<SpecChar>::empty());
        while i < input.len()
            invariant
                i <= input.len(),
                cs == chars_view(input@),
                b@ == text_fold(text_initial(0), cs.take(i as int), false),
            decreases input.len() - i,
        {
            proof {
                lemma_text_fold_push(text_initial(0), cs.take(i as int), cs[i as int], false);
                assert(cs.take(i + 1) =~= cs.take(i as int).push(cs[i as int]));
            }
            b.step(&input[i], false);
            i += 1;
        }
        assert(cs.take(input.len() as int) =~= cs);
        if b.erased {
            self.scroll = (0, 0);
        }
        b.finish()
    }
}

/// Reading one more cell.
pub proof fn lemma_text_fold_push(st: TextState, cs: Seq<SpecChar>, c: SpecChar, counted: bool)
    ensures
        text_fold(st, cs.push(c), counted) == text_step(text_fold(st, cs, counted), c, counted),
{
    assert(cs.push(c).drop_last() =~= cs);
}

// ---------------------------------------------------------------------------
// Styles carry over from one SGR sequence to the next.
// ---------------------------------------------------------------------------

/// The attributes of the SGR cells of `cs`, one sequence after another.
pub open spec fn cells_sgrs(cs: Seq<SpecChar>) -> Seq<Sgr>
    decreases cs.len(),
{
    if cs.len() == 0 {
        Seq::empty()
    } else {
        cells_sgrs(cs.drop_last()) + match cs.last() {
            SpecChar::Ansi(SpecAnsi::Sgr(l)) => l,
            _ => Seq::empty(),
        }
    }
}

/// Reading cells as text, the style in effect after them is the style
/// before them changed by all the attributes of their SGR cells, in order:
/// each sequence goes on from the style the ones before it left.
pub proof fn lemma_text_style_composes(st: TextState, cs: Seq<SpecChar>, counted: bool)
    ensures
        text_fold(st, cs, counted).style == style_after(st.style, cells_sgrs(cs)),
    decreases cs.len(),
{
    if cs.len() > 0 {
        let pre = cs.drop_last();
        lemma_text_style_composes(st, pre, counted);
        let mid = text_fold(st, pre, counted);
        match cs.last() {
            SpecChar::Ansi(SpecAnsi::Sgr(l)) => {
                lemma_style_after_concat(st.style, cells_sgrs(pre), l);
            },
            _ => {
                assert(cells_sgrs(pre) + Seq::<Sgr>::empty() =~= cells_sgrs(pre));
            },
        }
    }
}

/// Two SGR sequences in a row, then a character: the character is read in
/// the style both sequences select together, started from the style in
/// effect before them.
pub proof fn lemma_sgr_sequences_combine(st: TextState, a: Seq<Sgr>, b: Seq<Sgr>, c: char, counted: bool)
    requires
        c != '\n',
    ensures
        text_fold(
            st,
            seq![SpecChar::Ansi(SpecAnsi::Sgr(a)), SpecChar::Ansi(SpecAnsi::Sgr(b)), SpecChar::Char(c)],
            counted,
        ).style == style_after(st.style, a + b),
{
    let cs = seq![SpecChar::Ansi(SpecAnsi::Sgr(a)), SpecChar::Ansi(SpecAnsi::Sgr(b)), SpecChar::Char(c)];
    lemma_text_style_composes(st, cs, counted);
    assert(cs.drop_last() =~= seq![SpecChar::Ansi(SpecAnsi::Sgr(a)), SpecChar::Ansi(SpecAnsi::Sgr(b))]);
    assert(cs.drop_last().drop_last() =~= seq![SpecChar::Ansi(SpecAnsi::Sgr(a))]);
    assert(cs.drop_last().drop_last().drop_last() =~= Seq::<SpecChar>::empty());
    let p1 = cs.drop_last().drop_last();
    let p2 = cs.drop_last();
    assert(cells_sgrs(p1.drop_last()) == Seq::<Sgr>::empty());
    assert(Seq::<Sgr>::empty() + a =~= a);
    assert(cells_sgrs(p1) == a);
    assert(cells_sgrs(p2) == a + b);
    assert(a + b + Seq::<Sgr>::empty() =~= a + b);
    assert(cells_sgrs(cs) == a + b);
}

/// Read back from the start, a character after two SGR sequences is one
/// span in the style the two select together.
pub proof fn lemma_sgr_sequences_style_the_text(a: Seq<Sgr>, b: Seq<Sgr>, c: char, found: int, counted: bool)
    requires
        c != '\n',
    ensures
        text_finish(
            text_fold(
                text_initial(found),
                seq![SpecChar::Ansi(SpecAnsi::Sgr(a)), SpecChar::Ansi(SpecAnsi::Sgr(b)), SpecChar::Char(c)],
                counted,
            ),
        ) == seq![seq![SpecSpan { content: seq![c], style: style_after(default_style(), a + b) }]],
{
    let init = text_initial(found);
    let cs = seq![SpecChar::Ansi(SpecAnsi::Sgr(a)), SpecChar::Ansi(SpecAnsi::Sgr(b)), SpecChar::Char(c)];
    lemma_sgr_sequences_combine(init, a, b, c, counted);
    let p1 = cs.drop_last().drop_last();
    let p2 = cs.drop_last();
    assert(p2 =~= seq![SpecChar::Ansi(SpecAnsi::Sgr(a)), SpecChar::Ansi(SpecAnsi::Sgr(b))]);
    assert(p1 =~= seq![SpecChar::Ansi(SpecAnsi::Sgr(a))]);
    assert(p1.drop_last() =~= Seq::<SpecChar>::empty());
    assert(text_fold(init, p1.drop_last(), counted) == init);
    assert(p1.last() == SpecChar::Ansi(SpecAnsi::Sgr(a)));
    assert(p2.last() == SpecChar::Ansi(SpecAnsi::Sgr(b)));
    assert(p2.drop_last() == p1);
    assert(cs.last() == SpecChar::Char(c));
    let s1 = text_fold(init, p1, counted);
    assert(s1 == text_step(init, SpecChar::Ansi(SpecAnsi::Sgr(a)), counted));
    assert(s1.current.len() == 0 && s1.spans.len() == 0 && s1.lines.len() == 0);
    let s2 = text_fold(init, p2, counted);
    assert(s2.current.len() == 0 && s2.spans.len() == 0 && s2.lines.len() == 0);
    let s3 = text_fold(init, cs, counted);
    assert(s3.current =~= seq![c]);
    assert(s3.spans.len() == 0 && s3.lines.len() == 0);
    let sp = SpecSpan { content: seq![c], style: style_after(default_style(), a + b) };
    assert(s3.lines.push(s3.spans.push(sp)) =~= seq![seq![sp]]);
}

// ---------------------------------------------------------------------------
// The text read back holds the characters played.
// ---------------------------------------------------------------------------

/// The text of a line of spans, one after the other.
pub open spec fn spans_text(l: Seq<SpecSpan>) -> Seq<char>
    decreases l.len(),
{
    if l.len() == 0 {
        Seq::empty()
    } else {
        spans_text(l.drop_last()) + l.last().content
    }
}

/// The text of lines of spans, one after the other.
pub open spec fn lines_text(t: Seq<Seq<SpecSpan>>) -> Seq<char>
    decreases t.len(),
{
    if t.len() == 0 {
        Seq::empty()
    } else {
        lines_text(t.drop_last()) + spans_text(t.last())
    }
}

/// The characters of the character cells of `cs`, in order.
pub open spec fn cell_chars(cs: Seq<SpecChar>) -> Seq<char>
    decreases cs.len(),
{
    if cs.len() == 0 {
        Seq::empty()
    } else {
        cell_chars(cs.drop_last()) + match cs.last() {
            SpecChar::Char(c) => seq![c],
            _ => Seq::empty(),
        }
    }
}

/// The text a reading under way holds: its finished lines, the spans of
/// the line under way and the text not yet in a span.
pub open spec fn state_text(st: TextState) -> Seq<char> {
    lines_text(st.lines) + spans_text(st.spans) + st.current
}

proof fn lemma_fold_keeps_text(st: TextState, cs: Seq<SpecChar>, counted: bool)
    ensures
        state_text(text_fold(st, cs, counted)) =~= state_text(st) + cell_chars(cs),
    decreases cs.len(),
{
    if cs.len() == 0 {
    } else {
        let pre = cs.drop_last();
        lemma_fold_keeps_text(st, pre, counted);
        let mid = text_fold(st, pre, counted);
        assert(cs =~= pre.push(cs.last()));
        // Reading the last cell adds its character, if it is one.
        let c = cs.last();
        let nx = text_step(mid, c, counted);
        let span = SpecSpan { content: mid.current, style: mid.style };
        assert(mid.lines.push(mid.spans.push(span)).drop_last() =~= mid.lines);
        assert(mid.spans.push(span).drop_last() =~= mid.spans);
        assert(spans_text(Seq::<SpecSpan>::empty()) == Seq::<char>::empty());
        let added = match c {
            SpecChar::Char(ch) => seq![ch],
            _ => Seq::<char>::empty(),
        };
        assert(state_text(nx) =~= state_text(mid) + added);
        assert(cell_chars(cs) == cell_chars(pre) + added);
    }
}

/// Closing a reading keeps its text, where the text not yet in a span is
/// not empty or no span is under way.
proof fn lemma_finish_keeps_text(st: TextState)
    requires
        st.current.len() > 0 || st.spans.len() == 0,
    ensures
        lines_text(text_finish(st)) == state_text(st),
{
    let span = SpecSpan { content: st.current, style: st.style };
    if st.current.len() > 0 {
        assert(st.lines.push(st.spans.push(span)).drop_last() =~= st.lines);
        assert(st.spans.push(span).drop_last() =~= st.spans);
        assert(lines_text(text_finish(st)) =~= state_text(st));
    } else {
        assert(spans_text(st.spans) == Seq::<char>::empty());
        assert(state_text(st) =~= lines_text(st.lines));
    }
}

proof fn lemma_newline_leaves_text(st: TextState, counted: bool)
    ensures
        text_step(st, SpecChar::Char('\n'), counted).current.len() > 0,
{
}

/// The text a screen reads as holds its characters in order, each row
/// followed by a newline: nothing is lost or added in reading it back.
pub proof fn lemma_grid_text_holds_cells(g: Seq<Seq<SpecChar>>)
    requires
        g.len() > 0,
    ensures
        lines_text(text_finish(grid_text(g))) == cell_chars(flat(g)),
{
    let init = text_initial(last_content_row(g));
    let cs = flat(g);
    assert(cs == flat(g.drop_last()) + g.last().push(SpecChar::Char('\n')));
    let pre = flat(g.drop_last()) + g.last();
    assert(cs =~= pre.push(SpecChar::Char('\n')));
    lemma_text_fold_push(init, pre, SpecChar::Char('\n'), true);
    lemma_newline_leaves_text(text_fold(init, pre, true), true);
    lemma_fold_keeps_text(init, cs, true);
    assert(state_text(init) =~= Seq::<char>::empty());
    lemma_finish_keeps_text(grid_text(g));
}

/// The text a list of cells reads as holds their characters in order,
/// where the last cell is a character.
pub proof fn lemma_cells_text_holds_chars(cs: Seq<SpecChar>)
    requires
        cs.len() > 0,
        cs.last() is Char,
    ensures
        lines_text(text_finish(text_fold(text_initial(0), cs, false))) == cell_chars(cs),
{
    let init = text_initial(0);
    let pre = cs.drop_last();
    assert(cs =~= pre.push(cs.last()));
    lemma_text_fold_push(init, pre, cs.last(), false);
    lemma_fold_keeps_text(init, cs, false);
    assert(state_text(init) =~= Seq::<char>::empty());
    lemma_finish_keeps_text(text_fold(init, cs, false));
}

// ---------------------------------------------------------------------------
// Printed text reads back.
// ---------------------------------------------------------------------------

/// A row of `w` empty cells.
pub open spec fn empty_row(w: nat) -> Seq<SpecChar> {
    Seq::new(w, |j: int| SpecChar::Empty)
}

/// A grid of `h` rows of `w` empty cells.
pub open spec fn empty_grid(w: nat, h: nat) -> Seq<Seq<SpecChar>> {
    Seq::new(h, |i: int| empty_row(w))
}

/// The cell holding the character `c`.
pub open spec fn char_cell(c: char) -> SpecChar {
    SpecChar::Char(c)
}

/// The cells of the characters `t`.
pub open spec fn char_cells(t: Seq<char>) -> Seq<SpecChar> {
    t.map_values(|c: char| char_cell(c))
}

/// There is one cell for each character, holding it.
proof fn lemma_char_cells(t: Seq<char>)
    ensures
        char_cells(t).len() == t.len(),
        forall|i: int| 0 <= i < t.len() ==> #[trigger] char_cells(t)[i] == SpecChar::Char(t[i]),
{
}

/// `k` newlines.
pub open spec fn newlines(k: nat) -> Seq<char> {
    Seq::new(k, |i: int| '\n')
}

proof fn lemma_print_prefix(st0: SpecScreen, w: nat, h: nat, t: Seq<char>, k: int)
    requires
        1 <= h,
        t.len() <= w < 65535,
        0 <= k <= t.len(),
        forall|i: int| 0 <= i < t.len() ==> t[i] != '\n',
        st0.vc == (0u16, 0u16),
        st0.grid == empty_grid(w, h),
    ensures
        moved_all(st0, char_cells(t).take(k)) == Some(
            SpecScreen {
                vc: (k as u16, 0u16),
                grid: st0.grid.update(0, char_cells(t).take(k) + empty_row((w - k) as nat)),
                ..st0
            },
        ),
    decreases k,
{
    let cs = char_cells(t);
    lemma_char_cells(t);
    if k == 0 {
        assert(cs.take(0) =~= Seq::<SpecChar>::empty());
        assert(Seq::<SpecChar>::empty() + empty_row(w) =~= empty_row(w));
        assert(st0.grid.update(0, empty_row(w)) =~= st0.grid);
    } else {
        lemma_print_prefix(st0, w, h, t, k - 1);
        assert(cs.take(k).drop_last() =~= cs.take(k - 1));
        assert(cs.take(k).last() == SpecChar::Char(t[k - 1]));
        let row = cs.take(k - 1) + empty_row((w - (k - 1)) as nat);
        assert(row.len() == w);
        assert(row.update(k - 1, SpecChar::Char(t[k - 1])) =~= cs.take(k) + empty_row((w - k) as nat));
        let g = st0.grid.update(0, row);
        assert(g.update(0, row.update(k - 1, SpecChar::Char(t[k - 1]))) =~= st0.grid.update(
            0,
            cs.take(k) + empty_row((w - k) as nat),
        ));
    }
}

/// Reading one more cell after the cells `a`.
proof fn lemma_text_fold_concat(st: TextState, a: Seq<SpecChar>, b: Seq<SpecChar>, counted: bool)
    ensures
        text_fold(st, a + b, counted) == text_fold(text_fold(st, a, counted), b, counted),
    decreases b.len(),
{
    if b.len() == 0 {
        assert(a + b =~= a);
    } else {
        lemma_text_fold_concat(st, a, b.drop_last(), counted);
        assert((a + b).drop_last() =~= a + b.drop_last());
        assert((a + b).last() == b.last());
    }
}

proof fn lemma_fold_chars(st: TextState, t: Seq<char>)
    requires
        forall|i: int| 0 <= i < t.len() ==> t[i] != '\n',
    ensures
        text_fold(st, char_cells(t), true) == (TextState { current: st.current + t, ..st }),
    decreases t.len(),
{
    lemma_char_cells(t);
    if t.len() == 0 {
        assert(char_cells(t) =~= Seq::<SpecChar>::empty());
        assert(st.current + t =~= st.current);
    } else {
        lemma_char_cells(t.drop_last());
        lemma_fold_chars(st, t.drop_last());
        assert(char_cells(t) =~= char_cells(t.drop_last()).push(SpecChar::Char(t.last())));
        lemma_text_fold_push(st, char_cells(t.drop_last()), SpecChar::Char(t.last()), true);
        assert((st.current + t.drop_last()).push(t.last()) =~= st.current + t);
    }
}

proof fn lemma_fold_empties(st: TextState, k: nat)
    ensures
        text_fold(st, empty_row(k), true) == st,
    decreases k,
{
    if k > 0 {
        lemma_fold_empties(st, (k - 1) as nat);
        assert(empty_row(k).drop_last() =~= empty_row((k - 1) as nat));
    }
}

proof fn lemma_last_content_row_first(g: Seq<Seq<SpecChar>>, m: int)
    requires
        1 <= m <= g.len(),
        row_has_content(g[0]),
        forall|i: int| 1 <= i < g.len() ==> !row_has_content(#[trigger] g[i]),
    ensures
        last_content_row(g.take(m)) == 0,
    decreases m,
{
    assert(g.take(m).last() == g[m - 1]);
    if m > 1 {
        assert(g.take(m).drop_last() =~= g.take(m - 1));
        lemma_last_content_row_first(g, m - 1);
    }
}

proof fn lemma_read_rows(g: Seq<Seq<SpecChar>>, t: Seq<char>, w: nat, m: int)
    requires
        1 <= m <= g.len(),
        t.len() >= 1,
        t.len() <= w,
        forall|i: int| 0 <= i < t.len() ==> t[i] != '\n',
        g[0] == char_cells(t) + empty_row((w - t.len()) as nat),
        forall|i: int| 1 <= i < g.len() ==> #[trigger] g[i] == empty_row(w),
    ensures
        text_fold(text_initial(0), flat(g.take(m)), true) == (TextState {
            lines: seq![seq![SpecSpan { content: t, style: default_style() }]],
            spans: Seq::empty(),
            current: newlines(m as nat),
            style: default_style(),
            found: -1,
            erased: false,
        }),
    decreases m,
{
    let init = text_initial(0);
    let nl = SpecChar::Char('\n');
    assert(g.take(m).drop_last() =~= g.take(m - 1));
    assert(g.take(m).last() == g[m - 1]);
    if m == 1 {
        assert(g.take(0) =~= Seq::<Seq<SpecChar>>::empty());
        assert(flat(g.take(1)) =~= g[0].push(nl));
        lemma_text_fold_push(init, g[0], nl, true);
        lemma_text_fold_concat(init, char_cells(t), empty_row((w - t.len()) as nat), true);
        lemma_fold_chars(init, t);
        let after = TextState { current: init.current + t, ..init };
        lemma_fold_empties(after, (w - t.len()) as nat);
        assert(init.current + t =~= t);
        assert(Seq::<SpecSpan>::empty().push(SpecSpan { content: t, style: default_style() }) =~= seq![
            SpecSpan { content: t, style: default_style() },
        ]);
        assert(Seq::<Seq<SpecSpan>>::empty().push(seq![SpecSpan { content: t, style: default_style() }])
            =~= seq![seq![SpecSpan { content: t, style: default_style() }]]);
        assert(newlines(1) =~= seq!['\n']);
    } else {
        lemma_read_rows(g, t, w, m - 1);
        let prev = text_fold(init, flat(g.take(m - 1)), true);
        assert(flat(g.take(m)) == flat(g.take(m - 1)) + g[m - 1].push(nl));
        assert(g[m - 1].push(nl) =~= empty_row(w) + seq![nl]);
        lemma_text_fold_concat(init, flat(g.take(m - 1)), empty_row(w) + seq![nl], true);
        lemma_text_fold_concat(prev, empty_row(w), seq![nl], true);
        lemma_fold_empties(prev, w);
        lemma_text_fold_push(prev, Seq::empty(), nl, true);
        assert(Seq::<SpecChar>::empty().push(nl) =~= seq![nl]);
        assert(newlines((m - 1) as nat).push('\n') =~= newlines(m as nat));
    }
}

/// What is printed on an empty screen reads back: a line of text without
/// newlines that fits on the first row becomes the first line of the
/// screen's text, in the default style, followed by a line holding the
/// newlines that end the rows.
pub proof fn lemma_printed_text_reads_back(st0: SpecScreen, w: nat, h: nat, t: Seq<char>)
    requires
        1 <= h,
        1 <= t.len() <= w < 65535,
        forall|i: int| 0 <= i < t.len() ==> t[i] != '\n',
        st0.vc == (0u16, 0u16),
        st0.grid == empty_grid(w, h),
    ensures
        moved_all(st0, char_cells(t)) is Some,
        moved_all(st0, char_cells(t)).unwrap().vc == (t.len() as u16, 0u16),
        text_finish(grid_text(moved_all(st0, char_cells(t)).unwrap().grid)) == seq![
            seq![SpecSpan { content: t, style: default_style() }],
            seq![SpecSpan { content: newlines(h), style: default_style() }],
        ],
        !grid_text(moved_all(st0, char_cells(t)).unwrap().grid).erased,
{
    let cs = char_cells(t);
    lemma_char_cells(t);
    lemma_print_prefix(st0, w, h, t, t.len() as int);
    assert(cs.take(t.len() as int) =~= cs);
    let g = st0.grid.update(0, cs + empty_row((w - t.len()) as nat));
    assert(row_has_content(g[0])) by {
        assert(!(g[0][0] is Empty));
    }
    assert forall|i: int| 1 <= i < g.len() implies !row_has_content(#[trigger] g[i]) by {
        assert(g[i] == empty_row(w));
        if row_has_content(g[i]) {
            let j = choose|j: int| 0 <= j < g[i].len() && !(#[trigger] g[i][j] is Empty);
            assert(g[i][j] is Empty);
        }
    }
    lemma_last_content_row_first(g, g.len() as int);
    assert(g.take(g.len() as int) =~= g);
    assert forall|i: int| 1 <= i < g.len() implies #[trigger] g[i] == empty_row(w) by {}
    lemma_read_rows(g, t, w, h as int);
    assert(Seq::<SpecSpan>::empty().push(SpecSpan { content: newlines(h), style: default_style() }) =~= seq![
        SpecSpan { content: newlines(h), style: default_style() },
    ]);
}

/// The output `code` drawn on the screen as `test` draws it, where that
/// can be done; `None` where its bytes cannot be parsed, a cell cannot be
/// played, or the screen has more rows than the text can count.
pub fn try_test(screen: &mut Screen, code: String) -> (t: Option<Vec<Vec<Span>>>)
    ensures
        t is Some <==> {
            &&& tokens_from(encode_utf8(code@), 0) is Some
            &&& moved_all(old(screen)@, tokens_from(encode_utf8(code@), 0).unwrap()) is Some
            &&& old(screen).vstdout@.len() <= 0x7fff_ffff
        },
        tokens_from(encode_utf8(code@), 0) is None ==> final(screen)@ == old(screen)@,
        tokens_from(encode_utf8(code@), 0) matches Some(cs) ==> {
            moved_all(old(screen)@, cs) is None ==> exists|k: int|
                0 <= k < cs.len() && moved_all(old(screen)@, cs.take(k)) == Some(final(screen)@)
                    && #[trigger] moved(final(screen)@, cs[k]) is None
        },
        tokens_from(encode_utf8(code@), 0) matches Some(cs) ==> {
            moved_all(old(screen)@, cs) matches Some(after) ==> final(screen)@.vc == after.vc
                && final(screen)@.grid == after.grid && (t is None ==> final(screen)@ == after)
        },
        t matches Some(text) ==> {
            let after = moved_all(old(screen)@, tokens_from(encode_utf8(code@), 0).unwrap()).unwrap();
            &&& final(screen)@.vc == after.vc
            &&& final(screen)@.grid == after.grid
            &&& final(screen)@.scroll == (if grid_text(after.grid).erased {
                (0u16, 0u16)
            } else {
                after.scroll
            })
            &&& text_view(text@) == text_finish(grid_text(after.grid))
        },
{
    let ghost before = screen@;
    let parser = AnsiParser { content: code.as_str().as_bytes_vec(), pos: 0 };
    let parsed = match parser.try_parse() {
        Some(p) => p,
        None => return None,
    };
    if !screen.try_comput_cursore_moves(parsed) {
        return None;
    }
    proof {
        lemma_moved_all_keeps_shape(before, tokens_from(encode_utf8(code@), 0).unwrap());
        assert(screen.vstdout@.len() == grid_view(screen.vstdout@).len());
    }
    if screen.vstdout.len() > 0x7fff_ffff {
        return None;
    }
    Some(screen.new_construct_text())
}

/// The output `code` (as UTF-8 bytes) drawn on the screen: parsed into
/// cells, played on the grid, and the grid read back as text.
pub fn test(screen: &mut Screen, code: String) -> (t: Vec<Vec<Span>>)
    requires
        tokens_from(encode_utf8(code@), 0) is Some,
        moved_all(old(screen)@, tokens_from(encode_utf8(code@), 0).unwrap()) is Some,
        old(screen).vstdout@.len() <= 0x7fff_ffff,
    ensures
        ({
            let after = moved_all(old(screen)@, tokens_from(encode_utf8(code@), 0).unwrap()).unwrap();
            &&& final(screen)@.vc == after.vc
            &&& final(screen)@.grid == after.grid
            &&& final(screen)@.scroll == (if grid_text(after.grid).erased {
                (0u16, 0u16)
            } else {
                after.scroll
            })
            &&& text_view(t@) == text_finish(grid_text(after.grid))
        }),
{
    let parser = AnsiParser { content: code.as_str().as_bytes_vec(), pos: 0 };
    let parsed = parser.parse();
    let ghost before = screen@;
    screen.comput_cursore_moves(parsed);
    proof {
        lemma_moved_all_keeps_shape(before, tokens_from(encode_utf8(code@), 0).unwrap());
        assert(screen.vstdout@.len() == grid_view(screen.vstdout@).len());
    }
    screen.new_construct_text()
}

} // verus!
