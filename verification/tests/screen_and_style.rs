use gish::ansi::{Ansi, AnsiParser, Char, Color, RgbColor, Sgr};
use gish::app::vec_empty_pos;
use gish::screen::{Screen, Span};
use gish::style::{get_color_idx, parse_sgr, Style, TermColor, BOLD, RAPID_BLINK, SLOW_BLINK, UNDERLINED};

fn span(s: &str, style: Style) -> Span {
    Span { content: String::from(s), style }
}

fn red() -> Style {
    Style { fg: Some(TermColor::Red), ..Style::default() }
}

#[test]
fn style_operations() {
    let d = Style::default();
    assert_eq!(d, Style { fg: None, bg: None, add_modifier: 0, sub_modifier: 0 });
    let b = d.add_modifier(BOLD | UNDERLINED);
    assert_eq!(b.add_modifier, BOLD | UNDERLINED);
    let nb = b.remove_modifier(BOLD);
    assert_eq!(nb.add_modifier, UNDERLINED);
    assert_eq!(nb.sub_modifier, BOLD);
    let c = d.fg(TermColor::Red).bg(TermColor::Blue);
    assert_eq!(c.fg, Some(TermColor::Red));
    assert_eq!(c.bg, Some(TermColor::Blue));
    let p = c.patch(Style::default().fg(TermColor::Green).remove_modifier(UNDERLINED));
    assert_eq!(p.fg, Some(TermColor::Green));
    assert_eq!(p.bg, Some(TermColor::Blue));
    assert_eq!(p.sub_modifier, UNDERLINED);
}

#[test]
fn colour_indices() {
    assert_eq!(get_color_idx(0), TermColor::Reset);
    assert_eq!(get_color_idx(1), TermColor::Red);
    assert_eq!(get_color_idx(2), TermColor::Green);
    assert_eq!(get_color_idx(3), TermColor::Yellow);
    assert_eq!(get_color_idx(4), TermColor::Blue);
    assert_eq!(get_color_idx(5), TermColor::Magenta);
    assert_eq!(get_color_idx(6), TermColor::Cyan);
    assert_eq!(get_color_idx(7), TermColor::White);
    assert_eq!(get_color_idx(8), TermColor::Reset);
}

#[test]
fn sgr_attributes_change_the_style() {
    let mut s = Style::default();
    let r = parse_sgr(&vec![Sgr::Bold, Sgr::SetForeground7(1), Sgr::SetBackground(Color::Rgb(RgbColor { r: 1, g: 2, b: 3 }))], &mut s);
    assert_eq!(r, Style::default());
    assert_eq!(s.add_modifier, BOLD);
    assert_eq!(s.fg, Some(TermColor::Red));
    assert_eq!(s.bg, Some(TermColor::Rgb(1, 2, 3)));
    parse_sgr(&vec![Sgr::SetForeground(Color::N(5)), Sgr::NotBlinking], &mut s);
    assert_eq!(s.fg, Some(TermColor::Red));
    assert_eq!(s.sub_modifier, RAPID_BLINK | SLOW_BLINK);
    parse_sgr(&vec![Sgr::DefaultForeground, Sgr::SetBrightBackground7(4)], &mut s);
    assert_eq!(s.fg, Some(TermColor::Reset));
    assert_eq!(s.bg, Some(TermColor::Blue));
}

#[test]
fn reset_restores_the_default_style() {
    let mut s = Style::default();
    parse_sgr(&vec![Sgr::Bold, Sgr::Italic, Sgr::SetForeground7(3), Sgr::Reset], &mut s);
    assert_eq!(s, Style::default());
}

#[test]
fn styles_carry_over_between_sequences() {
    let mut a = Style::default();
    parse_sgr(&vec![Sgr::Bold, Sgr::SetForeground7(2)], &mut a);
    parse_sgr(&vec![Sgr::Underline, Sgr::NotUnderlined], &mut a);
    let mut b = Style::default();
    parse_sgr(&vec![Sgr::Bold, Sgr::SetForeground7(2), Sgr::Underline, Sgr::NotUnderlined], &mut b);
    assert_eq!(a, b);
    assert_eq!(a.add_modifier & BOLD, BOLD);
}

#[test]
fn attributes_persist_until_switched_off() {
    let mut s = Style::default();
    parse_sgr(&vec![Sgr::Underline, Sgr::Bold, Sgr::Italic, Sgr::SetForeground7(2), Sgr::NotStrike], &mut s);
    assert_eq!(s.add_modifier & UNDERLINED, UNDERLINED);
}

#[test]
fn writing_moves_the_cursor() {
    let mut screen = Screen::new(vec_empty_pos(3, 2));
    screen.write_char(Char::Char('x'));
    assert_eq!(screen.vc, (1, 0));
    assert_eq!(screen.vstdout[0][0], Char::Char('x'));
}

#[test]
fn cursor_moves_and_edges() {
    let mut screen = Screen::new(vec_empty_pos(5, 3));
    screen.comput_cursore_moves(vec![
        Char::Char('a'),
        Char::Char('b'),
        Char::Char('c'),
        Char::Ansi(Ansi::CursorBack(String::from("2"))),
        Char::Char('x'),
    ]);
    assert_eq!(screen.vc, (2, 0));
    assert_eq!(screen.vstdout[0], vec![Char::Char('a'), Char::Char('x'), Char::Char('c'), Char::Empty, Char::Empty]);
    screen.comput_cursore_moves(vec![Char::Ansi(Ansi::CursorUp(String::from("4"))), Char::Ansi(Ansi::CursorBack(String::from("9")))]);
    assert_eq!(screen.vc, (0, 0));
    screen.comput_cursore_moves(vec![Char::Char('\n'), Char::Char('\n'), Char::Char('\n')]);
    // The last row keeps the cursor where it is.
    assert_eq!(screen.vc, (0, 2));
    screen.comput_cursore_moves(vec![Char::Ansi(Ansi::CursorUp(String::from("+1"))), Char::Ansi(Ansi::EraseInLine(String::new())), Char::Empty]);
    assert_eq!(screen.vc, (0, 1));
}

#[test]
fn printed_text_reads_back() {
    let mut screen = Screen::new(vec_empty_pos(5, 3));
    let text = gish::screen::test(&mut screen, String::from("hi"));
    assert_eq!(text, vec![vec![span("hi", Style::default())], vec![span("\n\n\n", Style::default())]]);
    assert_eq!(screen.vc, (2, 0));
}

#[test]
fn coloured_text_reads_back_in_its_style() {
    let mut screen = Screen::new(vec_empty_pos(5, 3));
    let text = gish::screen::test(&mut screen, String::from("\x1b[31mhi"));
    assert_eq!(text, vec![vec![span("hi", red())], vec![span("\n\n\n", red())]]);
    assert_eq!(screen.vc, (3, 0));
}

#[test]
fn lines_after_the_first_begin_with_the_newline() {
    let mut screen = Screen::new(vec_empty_pos(5, 3));
    let text = gish::screen::test(&mut screen, String::from("a\nb"));
    assert_eq!(
        text,
        vec![vec![span("a", Style::default())], vec![span("\nb", Style::default())], vec![span("\n\n", Style::default())]]
    );
    assert_eq!(screen.vc, (1, 1));
}

#[test]
fn style_change_splits_spans() {
    let mut screen = Screen::new(vec_empty_pos(6, 1));
    let text = gish::screen::test(&mut screen, String::from("ab\x1b[31mc"));
    assert_eq!(text, vec![vec![span("ab", Style::default()), span("c", red())], vec![span("\n", red())]]);
}

#[test]
fn empty_screen_reads_as_newlines() {
    let mut screen = Screen::new(vec_empty_pos(2, 2));
    let text = screen.new_construct_text();
    assert_eq!(text, vec![vec![span("", Style::default())], vec![span("\n\n", Style::default())]]);
}

#[test]
fn clearing_the_screen_resets_the_scroll() {
    let mut screen = Screen::new(vec_empty_pos(2, 2));
    screen.scroll = (4, 1);
    let text = screen.construct_text(vec![Char::Char('a'), Char::Ansi(Ansi::EraseInDisplay(String::from("2"))), Char::Char('\n'), Char::Char('b')]);
    assert_eq!(screen.scroll, (0, 0));
    assert_eq!(text, vec![vec![span("a", Style::default())], vec![span("\nb", Style::default())]]);
    let mut other = Screen::new(vec_empty_pos(2, 2));
    other.scroll = (4, 1);
    other.construct_text(vec![Char::Ansi(Ansi::EraseInDisplay(String::from("0")))]);
    assert_eq!(other.scroll, (4, 1));
}

#[test]
fn empty_grid_shape() {
    let g = vec_empty_pos(3, 2);
    assert_eq!(g.len(), 2);
    assert!(g.iter().all(|r| r.len() == 3 && r.iter().all(|c| *c == Char::Empty)));
    assert!(vec_empty_pos(4, 0).is_empty());
}

#[test]
fn drawing_fails_where_output_cannot_be_played() {
    let mut screen = Screen::new(vec_empty_pos(2, 1));
    assert_eq!(gish::screen::try_test(&mut screen, String::from("abc")), None);
    let mut screen = Screen::new(vec_empty_pos(2, 1));
    assert_eq!(gish::screen::try_test(&mut screen, String::from("\x1b[99999A")), None);
    let mut screen = Screen::new(vec_empty_pos(2, 1));
    assert_eq!(gish::screen::try_test(&mut screen, String::from("\x1b[38;9m")), None);
    let mut screen = Screen::new(vec_empty_pos(2, 1));
    assert_eq!(gish::screen::try_test(&mut screen, String::from("x\x1b")), None);
    let mut screen = Screen::new(vec_empty_pos(3, 1));
    assert_eq!(
        gish::screen::try_test(&mut screen, String::from("ab")),
        Some(vec![vec![span("ab", Style::default())], vec![span("\n", Style::default())]])
    );
}

#[test]
fn read_back_text_holds_every_character() {
    let mut screen = Screen::new(vec_empty_pos(3, 2));
    let text = gish::screen::test(&mut screen, String::from("a\x1b[1mb\nc"));
    let joined: String = text.iter().flat_map(|l| l.iter().map(|s| s.content.clone())).collect();
    assert_eq!(joined, "ab\nc\n");
    let mut other = Screen::new(vec_empty_pos(2, 2));
    let cells = vec![Char::Char('p'), Char::Ansi(Ansi::Sgr(vec![Sgr::Bold])), Char::Char('\n'), Char::Empty, Char::Char('q')];
    let text = other.construct_text(cells);
    let joined: String = text.iter().flat_map(|l| l.iter().map(|s| s.content.clone())).collect();
    assert_eq!(joined, "p\nq");
}

#[test]
fn omitted_count_moves_one() {
    let mut screen = Screen::new(vec_empty_pos(5, 3));
    screen.vc = (3, 2);
    screen.comput_cursore_moves(vec![Char::Ansi(Ansi::CursorUp(String::new()))]);
    assert_eq!(screen.vc, (3, 1));
    screen.comput_cursore_moves(vec![Char::Ansi(Ansi::CursorBack(String::new()))]);
    assert_eq!(screen.vc, (2, 1));
    let mut other = Screen::new(vec_empty_pos(5, 3));
    let text = gish::screen::test(&mut other, String::from("ab\x1b[Dx"));
    assert_eq!(text[0], vec![span("ax", Style::default())]);
    assert_eq!(other.vc, (2, 0));
}

#[test]
fn cell_checks() {
    let screen = Screen::new(vec_empty_pos(1, 1));
    assert!(screen.can_move(&Char::Char('a')));
    assert!(screen.can_move(&Char::Char('\n')));
    assert!(!screen.can_move(&Char::Ansi(Ansi::CursorUp(String::from("x")))));
    let none = Screen::new(Vec::new());
    assert!(!none.can_move(&Char::Char('\n')));
    assert!(!none.can_move(&Char::Char('a')));
    assert!(none.can_move(&Char::Empty));
    let mut full = Screen::new(vec_empty_pos(1, 1));
    assert!(!full.try_comput_cursore_moves(vec![Char::Char('a'), Char::Char('b')]));
    assert_eq!(full.vc, (1, 0));
}

#[test]
fn parsing_that_fails() {
    assert_eq!(AnsiParser { content: b"a\x1b[".to_vec(), pos: 0 }.try_parse(), None);
    assert_eq!(AnsiParser { content: b"\x1b[58m".to_vec(), pos: 0 }.try_parse(), None);
    assert_eq!(
        AnsiParser { content: b"a\x1b[1m".to_vec(), pos: 0 }.try_parse(),
        Some(vec![Char::Char('a'), Char::Ansi(Ansi::Sgr(vec![Sgr::Bold]))])
    );
}

#[test]
fn bold_green_text_reads_back_bold_green() {
    let mut screen = Screen::new(vec_empty_pos(6, 1));
    let text = gish::screen::test(&mut screen, String::from("\x1b[01;32mhi\x1b[0m"));
    let bold_green = Style { fg: Some(TermColor::Green), add_modifier: BOLD, ..Style::default() };
    assert_eq!(text, vec![vec![span("hi", bold_green), span("", Style::default())], vec![span("\n", Style::default())]]);
}

#[test]
fn colours_persist_until_reset() {
    let mut s = Style::default();
    parse_sgr(&vec![Sgr::SetForeground7(4), Sgr::SetBackground7(1), Sgr::Bold, Sgr::SetForeground(Color::N(9)), Sgr::NotHidden], &mut s);
    assert_eq!(s.fg, Some(TermColor::Blue));
    assert_eq!(s.bg, Some(TermColor::Red));
}
