use gish::ansi::{Ansi, AnsiParser, Char, Color, InvalidVector, RgbColor, Sgr};
use gish::ansi::{parse_one_arg, parse_two_arg, read_sgr};
use gish::sgr::SgrError;
use gish::text::vec_to_string;

fn parse(s: &str) -> Vec<Char> {
    AnsiParser { content: s.as_bytes().to_vec(), pos: 0 }.parse()
}

fn sgr(args: &str) -> Result<Vec<Sgr>, SgrError> {
    read_sgr(args.as_bytes().to_vec())
}

#[test]
fn plain_text_is_one_char_per_byte() {
    assert_eq!(parse("ab\n"), vec![Char::Char('a'), Char::Char('b'), Char::Char('\n')]);
}

#[test]
fn bytes_above_ascii_read_as_latin1() {
    // "é" is two bytes in UTF-8; each becomes its own character.
    assert_eq!(parse("é"), vec![Char::Char('\u{c3}'), Char::Char('\u{a9}')]);
}

#[test]
fn bold_green_from_leading_zero_codes() {
    assert_eq!(
        parse("\x1b[01;32mhi\x1b[0m"),
        vec![
            Char::Ansi(Ansi::Sgr(vec![Sgr::Bold, Sgr::SetForeground7(2)])),
            Char::Char('h'),
            Char::Char('i'),
            Char::Ansi(Ansi::Sgr(vec![Sgr::Reset])),
        ]
    );
}

#[test]
fn sgr_without_codes_resets() {
    assert_eq!(parse("\x1b[m"), vec![Char::Ansi(Ansi::Sgr(vec![Sgr::Reset]))]);
    assert_eq!(sgr(""), Ok(vec![Sgr::Reset]));
    assert_eq!(sgr("0"), Ok(vec![Sgr::Reset]));
    assert_eq!(sgr(";1"), Ok(vec![Sgr::Reset, Sgr::Bold]));
}

#[test]
fn cursor_sequences_keep_their_parameters() {
    assert_eq!(parse("\x1b[3A"), vec![Char::Ansi(Ansi::CursorUp(String::from("3")))]);
    assert_eq!(parse("\x1b[B"), vec![Char::Ansi(Ansi::CursonDown(String::new()))]);
    assert_eq!(parse("\x1b[4;7C"), vec![Char::Ansi(Ansi::CursorForward(String::from("4")))]);
    assert_eq!(parse("\x1b[12D"), vec![Char::Ansi(Ansi::CursorBack(String::from("12")))]);
    assert_eq!(parse("\x1b[1E"), vec![Char::Ansi(Ansi::CursorNextLine(String::from("1")))]);
    assert_eq!(parse("\x1b[1F"), vec![Char::Ansi(Ansi::CursorPreviousLine(String::from("1")))]);
    assert_eq!(parse("\x1b[9G"), vec![Char::Ansi(Ansi::CursorHorizontalAbsolute(String::from("9")))]);
    assert_eq!(
        parse("\x1b[12;5H"),
        vec![Char::Ansi(Ansi::CursorPosition((String::from("12"), String::from("5"))))]
    );
    assert_eq!(
        parse("\x1b[;5f"),
        vec![Char::Ansi(Ansi::HorizontalVerticalPosition((String::new(), String::from("5"))))]
    );
}

#[test]
fn erase_and_scroll_sequences() {
    assert_eq!(parse("\x1b[2J"), vec![Char::Ansi(Ansi::EraseInDisplay(String::from("2")))]);
    assert_eq!(parse("\x1b[K"), vec![Char::Ansi(Ansi::EraseInLine(String::new()))]);
    assert_eq!(parse("\x1b[3S"), vec![Char::Ansi(Ansi::ScrollUp(String::from("3")))]);
    assert_eq!(parse("\x1b[3T"), vec![Char::Ansi(Ansi::ScrollDown(String::from("3")))]);
}

#[test]
fn escape_without_bracket_keeps_next_byte() {
    assert_eq!(parse("\x1bXy"), vec![Char::Char('X'), Char::Char('y')]);
}

#[test]
fn unknown_final_byte_is_a_character() {
    assert_eq!(
        parse("\x1b[?25h"),
        vec![Char::Char('?'), Char::Char('2'), Char::Char('5'), Char::Char('h')]
    );
    assert_eq!(parse("\x1b[5z"), vec![Char::Char('z')]);
}

#[test]
fn parser_steps() {
    let mut p = AnsiParser { content: b"\x1b[12;3mX".to_vec(), pos: 2 };
    assert!(!p.eof());
    assert_eq!(p.next(), b'1');
    assert_eq!(p.parse_csi_parameter_bytes(), b"12;3".to_vec());
    assert_eq!(p.pos, 6);
    assert_eq!(p.consume_next(), b'm');
    assert_eq!(p.parse_next(), Char::Char('X'));
    assert!(p.eof());
    let mut q = AnsiParser { content: b"[1Aq".to_vec(), pos: 0 };
    assert_eq!(q.parse_escap_sequences(), Char::Ansi(Ansi::CursorUp(String::from("1"))));
    let mut r = AnsiParser { content: b"7mq".to_vec(), pos: 0 };
    assert_eq!(r.parse_csi_sequences(), Char::Ansi(Ansi::Sgr(vec![Sgr::Invert])));
    assert_eq!(r.pos, 2);
}

#[test]
fn sgr_plain_codes() {
    assert_eq!(
        sgr("1;2;3;4;5;6;7;8;9;10;11;19;20"),
        Ok(vec![
            Sgr::Bold,
            Sgr::Dim,
            Sgr::Italic,
            Sgr::Underline,
            Sgr::SlowBlink,
            Sgr::RapidBlink,
            Sgr::Invert,
            Sgr::Hide,
            Sgr::Strike,
            Sgr::PrimaryFont,
            Sgr::AltFont(1),
            Sgr::AltFont(9),
            Sgr::Gothic,
        ])
    );
    assert_eq!(
        sgr("21;22;23;24;25;26;27;28;29"),
        Ok(vec![
            Sgr::DoublyUnderlined,
            Sgr::NormalIntensity,
            Sgr::NotItalicOrBlackletter,
            Sgr::NotUnderlined,
            Sgr::NotBlinking,
            Sgr::ProportionalSpacing,
            Sgr::NotInvert,
            Sgr::NotHidden,
            Sgr::NotStrike,
        ])
    );
    assert_eq!(
        sgr("30;37;39;40;47;49"),
        Ok(vec![
            Sgr::SetForeground7(0),
            Sgr::SetForeground7(7),
            Sgr::DefaultForeground,
            Sgr::SetBackground7(0),
            Sgr::SetBackground7(7),
            Sgr::DefaultBackground,
        ])
    );
    assert_eq!(
        sgr("50;51;52;53;54;55;56;57;90;97;100;107"),
        Ok(vec![
            Sgr::DisableProportionalSpacing,
            Sgr::Framed,
            Sgr::Encircled,
            Sgr::Overlined,
            Sgr::NotFramedOrEncircled,
            Sgr::NotOverlined,
            Sgr::SetUnderline(Color::N(0)),
            Sgr::DefaultUnderline,
            Sgr::SetBrightForground7(0),
            Sgr::SetBrightForground7(7),
            Sgr::SetBrightBackground7(0),
            Sgr::SetBrightBackground7(7),
        ])
    );
}

#[test]
fn sgr_table_colours() {
    assert_eq!(sgr("38;5;208"), Ok(vec![Sgr::SetForeground(Color::N(208))]));
    assert_eq!(sgr("48;5;0;1"), Ok(vec![Sgr::SetBackground(Color::N(0)), Sgr::Bold]));
}

#[test]
fn sgr_component_colours() {
    assert_eq!(
        sgr("38;2;10;20;30"),
        Ok(vec![Sgr::SetForeground(Color::Rgb(RgbColor { r: 10, g: 20, b: 30 }))])
    );
    // Each colour gathers its own components.
    assert_eq!(
        sgr("38;2;1;2;3;38;2;10;20;30"),
        Ok(vec![
            Sgr::SetForeground(Color::Rgb(RgbColor { r: 1, g: 2, b: 3 })),
            Sgr::SetForeground(Color::Rgb(RgbColor { r: 10, g: 20, b: 30 })),
        ])
    );
    assert_eq!(
        sgr("38;2;10;20;30;48;2;1;4;5;1"),
        Ok(vec![
            Sgr::SetForeground(Color::Rgb(RgbColor { r: 10, g: 20, b: 30 })),
            Sgr::SetBackground(Color::Rgb(RgbColor { r: 1, g: 4, b: 5 })),
            Sgr::Bold,
        ])
    );
    // A component written 70 is a component like any other.
    assert_eq!(
        sgr("38;2;70;0;0"),
        Ok(vec![Sgr::SetForeground(Color::Rgb(RgbColor { r: 70, g: 0, b: 0 }))])
    );
    assert_eq!(
        sgr("48;2;070;1;1"),
        Ok(vec![Sgr::SetBackground(Color::Rgb(RgbColor { r: 70, g: 1, b: 1 }))])
    );
    // An unfinished colour adds nothing.
    assert_eq!(sgr("1;38;2;10"), Ok(vec![Sgr::Bold]));
}

#[test]
fn sgr_errors() {
    assert_eq!(sgr("38;7"), Err(SgrError::InvalidColorType));
    assert_eq!(sgr("38;5;300"), Err(SgrError::ValueOutOfRange));
    assert_eq!(sgr("48;2;1;2;256"), Err(SgrError::ValueOutOfRange));
    assert_eq!(sgr("58"), Err(SgrError::UnsupportedCode));
    assert_eq!(sgr("99999999999999999999"), Err(SgrError::UnsupportedCode));
}

#[test]
fn sgr_fields_are_read_as_text() {
    // White space around a field and leading zeros are dropped; an empty
    // field reads as 0.
    assert_eq!(sgr(" 1 ;0031"), Ok(vec![Sgr::Bold, Sgr::SetForeground7(1)]));
    assert_eq!(sgr("0000"), Ok(vec![Sgr::Reset]));
    assert_eq!(sgr(";"), Ok(vec![Sgr::Reset, Sgr::Reset]));
    assert_eq!(sgr("38; 05 ;9"), Ok(vec![Sgr::SetForeground(Color::N(9))]));
    let mut p = AnsiParser { content: Vec::new(), pos: 0 };
    assert_eq!(p.parse_sgr(vec![0xa0, b'1']), Ok(vec![Sgr::Bold]));
    // A colour value may carry a plus sign; a code may not.
    assert_eq!(sgr("38;5;+7"), Ok(vec![Sgr::SetForeground(Color::N(7))]));
    assert_eq!(sgr("+1"), Err(SgrError::UnsupportedCode));
    assert_eq!(sgr("x"), Err(SgrError::UnsupportedCode));
    assert_eq!(sgr("38;5;x"), Err(SgrError::ValueOutOfRange));
    assert_eq!(
        sgr("38;2;+70;1;1"),
        Ok(vec![Sgr::SetForeground(Color::Rgb(RgbColor { r: 70, g: 1, b: 1 }))])
    );
    assert_eq!(sgr("38;+5;1"), Err(SgrError::InvalidColorType));
}

#[test]
fn plain_text_parses_ahead_of_the_rest() {
    let mut expected = vec![Char::Char('o'), Char::Char('k')];
    expected.extend(parse("\x1b[1mz"));
    assert_eq!(parse("ok\x1b[1mz"), expected);
}

#[test]
fn joined_sgr_sequences_read_each_part() {
    let x = "1;38;2;9;8;7";
    let y = "48;5;3;4";
    let mut joined = sgr(x).unwrap();
    joined.extend(sgr(y).unwrap());
    assert_eq!(sgr(&format!("{};{}", x, y)), Ok(joined));
}

#[test]
fn one_and_two_arguments() {
    assert_eq!(parse_one_arg(b"12;34".to_vec()), "12");
    assert_eq!(parse_one_arg(b"".to_vec()), "");
    assert_eq!(parse_two_arg(b"12;34".to_vec()), (String::from("12"), String::from("34")));
    assert_eq!(parse_two_arg(b"12".to_vec()), (String::from("12"), String::new()));
    assert_eq!(parse_two_arg(b";;".to_vec()), (String::new(), String::from(";")));
    assert_eq!(parse_two_arg(b"17;".to_vec()), (String::from("17"), String::new()));
    assert_eq!(parse_two_arg(b"17;".to_vec()), parse_two_arg(b"17".to_vec()));
    assert_eq!(parse_two_arg(b"1;5".to_vec()), (String::from("1"), String::from("5")));
    assert_eq!(parse_two_arg(b";5".to_vec()), (String::new(), String::from("5")));
    assert_eq!(vec_to_string(vec![104, 105, 233]), "hi\u{e9}");
}

#[test]
fn rgb_from_components() {
    assert_eq!(RgbColor::try_from(vec![1, 2, 3, 4]), Ok(RgbColor { r: 1, g: 2, b: 3 }));
    assert_eq!(RgbColor::try_from(vec![1, 2]), Err(InvalidVector));
}

#[test]
fn char_from_byte() {
    assert_eq!(Char::from(65u8), Char::Char('A'));
}
