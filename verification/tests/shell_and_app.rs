use gish::app::auto_comp::{commands_with_prefix, completion_of, descend_into, get_internal_cmds as internal_with_prefix, pick_suggestion, relative_name, shown_suggestion, step_for_entry, EntryStep, past_prefix, suggest_action, SuggestAction};
use gish::app::config::Config;
use gish::app::pane::{entry_at, panes_along, Along, PaneLocation, PaneMode, PaneType};
use gish::app::{bottom_scroll, key_action, scroll_down, scroll_up, track_max_scroll, without_last_char, AppMode, CommandLine, Key, KeyAction, Window};
use gish::shell::{builtin_for, get_internal_cmds, plan_command, AliasTable, Builtin, CommandBuilder, CommandPlan, PtySize};
use gish::text::{parse_u16, split_string, starts_with, trim, trim_start_matches};

fn s(x: &str) -> String {
    String::from(x)
}

fn strings(v: &[&str]) -> Vec<String> {
    v.iter().map(|x| s(x)).collect()
}

#[test]
fn internal_commands() {
    assert_eq!(get_internal_cmds(), strings(&["exit", "refresh", "alais"]));
}

#[test]
fn internal_commands_by_prefix() {
    assert_eq!(internal_with_prefix(&s("e")), strings(&["exit"]));
    assert_eq!(internal_with_prefix(&s("")), strings(&["exit", "refresh", "alais"]));
    assert_eq!(internal_with_prefix(&s("x")), Vec::<String>::new());
}

#[test]
fn builtins() {
    assert_eq!(builtin_for(&s("exit now")), Some(Builtin::Exit));
    assert_eq!(builtin_for(&s("refresh")), Some(Builtin::Refresh));
    assert_eq!(builtin_for(&s("alais ll ls")), Some(Builtin::Alias(s("ll"), s("ls"))));
    assert_eq!(builtin_for(&s("alais ll")), None);
    assert_eq!(builtin_for(&s("cd /tmp")), Some(Builtin::Cd));
    assert_eq!(builtin_for(&s("ls -l")), None);
    assert_eq!(builtin_for(&s(" exit")), None);
}

#[test]
fn alias_table_reads_back() {
    let mut t = AliasTable::new();
    assert_eq!(t.get(&s("ll")), None);
    t.insert(s("ll"), s("ls -l"));
    t.insert(s("la"), s("ls -a"));
    assert_eq!(t.get(&s("ll")), Some(s("ls -l")));
    t.insert(s("ll"), s("ls -lh"));
    assert_eq!(t.get(&s("ll")), Some(s("ls -lh")));
    assert_eq!(t.get(&s("la")), Some(s("ls -a")));
    assert_eq!(t.entries.len(), 2);
}

fn spawned(p: CommandPlan) -> (String, Vec<String>) {
    match p {
        CommandPlan::Spawn(c) => (c.path, c.args),
        _ => panic!("expected a program to start"),
    }
}

#[test]
fn empty_line_does_nothing() {
    assert!(matches!(plan_command(s(""), &AliasTable::new()), CommandPlan::Nothing));
}

#[test]
fn plain_command_runs_its_words() {
    let t = AliasTable::new();
    assert_eq!(spawned(plan_command(s("ls -l /tmp"), &t)), (s("ls"), strings(&["-l", "/tmp"])));
    assert_eq!(spawned(plan_command(s("ls  a"), &t)), (s("ls"), strings(&["", "a"])));
    assert_eq!(spawned(plan_command(s("ls"), &t)), (s("ls"), Vec::new()));
}

#[test]
fn alias_expands_arguments_but_not_the_program() {
    let mut t = AliasTable::new();
    t.insert(s("ll"), s("ls -l"));
    assert_eq!(spawned(plan_command(s("ll /tmp"), &t)), (s("ll"), strings(&["-l", "/tmp"])));
}

#[test]
fn alias_to_a_builtin_runs_the_builtin() {
    let mut t = AliasTable::new();
    t.insert(s("q"), s("exit"));
    assert!(matches!(plan_command(s("q"), &t), CommandPlan::Builtin(Builtin::Exit)));
    assert!(matches!(plan_command(s("alais x y"), &t), CommandPlan::Builtin(Builtin::Alias(_, _))));
}

#[test]
fn command_builder() {
    let mut c = CommandBuilder::new(s("ls"));
    c.arg(s("-a"));
    c.arg(s("/"));
    assert_eq!(c.path, "ls");
    assert_eq!(c.args, strings(&["-a", "/"]));
    let p = PtySize { row: 50, col: 80, px_width: 0, px_height: 0 };
    assert_eq!(p.row * p.col, 4000);
}

#[test]
fn text_helpers() {
    assert_eq!(split_string("a  b", ' '), strings(&["a", "", "b"]));
    assert_eq!(split_string("", ' '), strings(&[""]));
    assert_eq!(trim("  x y \t\n"), "x y");
    assert_eq!(trim(" \u{3000} "), "");
    assert_eq!(trim_start_matches("llll x", "ll"), " x");
    assert_eq!(trim_start_matches("abc", ""), "abc");
    assert!(starts_with("lsof", "ls"));
    assert!(!starts_with("ls", "lsof"));
    assert_eq!(parse_u16(&s("42")), Some(42));
    assert_eq!(parse_u16(&s("+7")), Some(7));
    assert_eq!(parse_u16(&s("0065535")), Some(65535));
    assert_eq!(parse_u16(&s("65536")), None);
    assert_eq!(parse_u16(&s("")), None);
    assert_eq!(parse_u16(&s("+")), None);
    assert_eq!(parse_u16(&s("1a")), None);
    assert_eq!(without_last_char(&s("abc")), "ab");
}

#[test]
fn keys_in_each_mode() {
    assert_eq!(key_action(AppMode::Normal, Key::Char('a')), KeyAction::TypeChar('a'));
    assert_eq!(key_action(AppMode::Normal, Key::Backspace), KeyAction::DeleteChar);
    assert_eq!(key_action(AppMode::Normal, Key::Tab), KeyAction::Complete);
    assert_eq!(key_action(AppMode::Normal, Key::Enter), KeyAction::Submit);
    assert_eq!(key_action(AppMode::Normal, Key::End), KeyAction::SetMode(AppMode::Command));
    assert_eq!(key_action(AppMode::Normal, Key::Up), KeyAction::HistoryUp);
    assert_eq!(key_action(AppMode::Normal, Key::Down), KeyAction::HistoryDown);
    assert_eq!(key_action(AppMode::Normal, Key::Home), KeyAction::Ignore);
    assert_eq!(key_action(AppMode::Searching, Key::Char('z')), KeyAction::SearchPush('z'));
    assert_eq!(key_action(AppMode::Searching, Key::Esc), KeyAction::SetMode(AppMode::Normal));
    assert_eq!(key_action(AppMode::Searching, Key::Backspace), KeyAction::SearchPop);
    assert_eq!(key_action(AppMode::Command, Key::Char('q')), KeyAction::Quit);
    assert_eq!(key_action(AppMode::Command, Key::Char('w')), KeyAction::Ignore);
    assert_eq!(key_action(AppMode::Command, Key::Esc), KeyAction::SetMode(AppMode::Normal));
}

#[test]
fn history_recall() {
    let mut c = CommandLine::new();
    for ch in "ls".chars() {
        c.type_char(ch);
    }
    assert_eq!(c.submit(), "ls");
    assert_eq!(c.cmd_history, strings(&["ls"]));
    assert_eq!(c.submit(), "ls");
    assert_eq!(c.cmd_history, strings(&["ls"]));
    c.cmd_input = s("pwd");
    assert_eq!(c.submit(), "pwd");
    assert_eq!(c.cmd_history, strings(&["ls", "pwd"]));
    c.history_up();
    assert_eq!((c.cmd_input.as_str(), c.cmd_history_idx), ("pwd", 1));
    c.history_up();
    assert_eq!((c.cmd_input.as_str(), c.cmd_history_idx), ("ls", 2));
    c.history_up();
    assert_eq!((c.cmd_input.as_str(), c.cmd_history_idx), ("ls", 2));
    c.history_down();
    assert_eq!((c.cmd_input.as_str(), c.cmd_history_idx), ("pwd", 1));
    c.history_down();
    assert_eq!((c.cmd_input.as_str(), c.cmd_history_idx), ("", 0));
    c.history_down();
    assert_eq!(c.cmd_history_idx, 0);
    assert!(!c.backspace());
    c.type_char('x');
    assert!(c.backspace());
    assert_eq!(c.cmd_input, "");
}

#[test]
fn submitting_a_recalled_command() {
    let mut c = CommandLine { cmd_input: s("typed"), cmd_history: strings(&["a", "b"]), cmd_history_idx: 2 };
    assert_eq!(c.submit(), "a");
    assert_eq!(c.cmd_history, strings(&["a", "b", "a"]));
}

#[test]
fn scrolling() {
    let mut app = (7, 0);
    let mut pane = (3, 0);
    scroll_up(&mut app, &mut pane, 5);
    assert_eq!((app, pane), ((0, 0), (3, 0)));
    scroll_up(&mut app, &mut pane, 2);
    assert_eq!(pane, (1, 0));
    let mut p = (3, 9);
    scroll_down(&mut p, (10, 0), 5);
    assert_eq!(p, (8, 9));
    scroll_down(&mut p, (10, 0), 5);
    assert_eq!(p, (10, 9));
    scroll_down(&mut p, (10, 0), 5);
    assert_eq!(p, (10, 9));
    let mut m = (4, 4);
    track_max_scroll((6, 1), &mut m);
    assert_eq!(m, (6, 1));
    track_max_scroll((2, 2), &mut m);
    assert_eq!(m, (6, 1));
    assert_eq!(bottom_scroll(40, 30), 10);
    assert_eq!(bottom_scroll(65536 + 5, 2), 3);
}

#[test]
fn completion() {
    assert_eq!(commands_with_prefix(&strings(&["ls", "lsof", "cat"]), &s("ls")), strings(&["ls", "lsof"]));
    assert_eq!(pick_suggestion(vec![], &s("re")), "refresh");
    assert_eq!(pick_suggestion(strings(&["reboot"]), &s("re")), "reboot");
    assert_eq!(pick_suggestion(vec![], &s("zz")), "");
    assert_eq!(completion_of(s("refresh"), &s("re")), "fresh");
    assert_eq!(completion_of(s(""), &s("xyz")), "");
    let line = s("re");
    let done = format!("{}{}", line, completion_of(s("refresh"), &line));
    assert_eq!(done, "refresh");
    assert_eq!(shown_suggestion(s("lsof"), &s("ls")), "of");
    assert_eq!(shown_suggestion(s("ls"), &s("lsof")), "ls");
    assert_eq!(shown_suggestion(s(""), &s("x")), "");
}

#[test]
fn pane_locations() {
    let d = PaneLocation::default();
    assert_eq!(d, PaneLocation::new(1, 0, 0));
    assert_eq!(d.clone().x(1), PaneLocation::new(1, 1, 0));
    assert_eq!(d.clone().y(2).window(3), PaneLocation::new(3, 0, 2));
    assert_eq!(d.clone().plus_x(2).plus_y(3).plus_window(1), PaneLocation::new(2, 2, 3));
    let other = PaneLocation::new(1, 0, 5);
    assert!(other.in_window_of(&d));
    assert!(other.x_in_window_of(&d));
    assert!(!other.y_in_window_of(&d));
    assert_ne!(PaneType::Normal, PaneType::Debug);
    assert_eq!(PaneMode::Normal, PaneMode::Normal);
}

#[test]
fn panes_are_selected_by_place() {
    let a = PaneLocation::new(1, 0, 0);
    let b = PaneLocation::new(1, 1, 0);
    let c = PaneLocation::new(1, 0, 2);
    let d = PaneLocation::new(2, 0, 0);
    let entries = vec![(&a, 'a'), (&b, 'b'), (&c, 'c'), (&d, 'd')];
    let names = |v: Vec<(&PaneLocation, char)>| v.into_iter().map(|e| e.1).collect::<String>();
    assert_eq!(names(panes_along(&entries, &a, Along::Window)), "abc");
    assert_eq!(names(panes_along(&entries, &a, Along::Column)), "ac");
    assert_eq!(names(panes_along(&entries, &a, Along::Row)), "ab");
    assert_eq!(names(panes_along(&entries, &PaneLocation::new(3, 0, 0), Along::Window)), "");
}

#[test]
fn cursor_entries() {
    let v = vec![3u8, 4];
    assert_eq!(entry_at(&v, 0), Some(3));
    assert_eq!(entry_at(&v, 1), Some(4));
    assert_eq!(entry_at(&v, 3), None);
}

#[test]
fn path_completion_steps() {
    assert_eq!(step_for_entry("/home/me/do", "/home"), EntryStep::Descend);
    assert_eq!(step_for_entry("/ho", "/home"), EntryStep::Take);
    assert_eq!(step_for_entry("/ho", "/usr"), EntryStep::Skip);
    assert_eq!(step_for_entry("/us", "/ho"), EntryStep::Skip);
    assert_eq!(step_for_entry("/home", "/home"), EntryStep::Descend);
    assert!(descend_into("/home/me", "/home/me/docs"));
    assert!(descend_into("/home/me", "/home/me"));
    assert!(!descend_into("/home/me", "/home/you"));
    assert!(!descend_into("/home/me", "/home"));
    assert_eq!(relative_name("/home/me/file", "/home/me/"), "e/file");
}

#[test]
fn suggestion_decisions() {
    assert_eq!(suggest_action(false, &s("ls"), 0, 0, false), SuggestAction::Keep);
    assert_eq!(suggest_action(true, &s("ls"), 3, 3, true), SuggestAction::Show);
    assert_eq!(suggest_action(true, &s("ls -l"), 3, 3, false), SuggestAction::Clear);
    assert_eq!(suggest_action(true, &s("ls"), 2, 3, false), SuggestAction::Clear);
    assert_eq!(suggest_action(true, &s("ls -l"), 3, 3, true), SuggestAction::Keep);
    assert!(past_prefix("/ho", "/home"));
    assert!(!past_prefix("/home", "/home"));
}

#[test]
fn default_config() {
    let c = Config::default();
    assert!(c.auto_comp);
    assert!(!c.only_sagest_when_typing);
    assert_eq!(c.scroll_amount, 5);
    assert!(c.mouse_scroll);
    let _w = Window {};
}
