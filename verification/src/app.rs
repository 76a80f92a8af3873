//! The decisions of the shell's main loop: the input modes and what each
//! key does in them, the command line with its history, and scrolling.

pub mod auto_comp;
pub mod config;
pub mod pane;

use vstd::prelude::*;
use crate::ansi::Char;
use crate::screen::{empty_grid, empty_row, grid_view};
use crate::text::strings_view;

verus! {

/// A grid of `hight` rows of `width` empty cells.
pub fn vec_empty_pos(width: u16, hight: u16) -> (out: Vec<Vec<Char>>)
    ensures
        grid_view(out@) == empty_grid(width as nat, hight as nat),
{
    let ghost row_spec = empty_row(width as nat);
    let mut out: Vec<Vec<Char>> = Vec::new();
    let mut r: u16 = 0;
    while r < hight
        invariant
            r <= hight,
            out@.len() == r,
            row_spec == empty_row(width as nat),
            forall|i: int| 0 <= i < r ==> crate::ansi::chars_view((#[trigger] out@[i])@) == row_spec,
        decreases hight - r,
    {
        let mut row: Vec<Char> = Vec::new();
        let mut c: u16 = 0;
        while c < width
            invariant
                c <= width,
                row@.len() == c,
                forall|j: int| 0 <= j < c ==> (#[trigger] row@[j]) == Char::Empty,
            decreases width - c,
        {
            row.push(Char::Empty);
            c += 1;
        }
        assert forall|j: int| 0 <= j < row@.len() implies crate::ansi::chars_view(row@)[j] == row_spec[j] by {
            assert(row@[j] == Char::Empty);
        }
        assert(crate::ansi::chars_view(row@) =~= row_spec);
        out.push(row);
        r += 1;
    }
    assert(grid_view(out@) =~= empty_grid(width as nat, hight as nat));
    out
}

/// A window of panes.
#[derive(Debug)]
pub struct Window {}

/// The input modes.
#[derive(Debug, Clone, Copy, PartialEq, Eq, Structural)]
pub enum AppMode {
    Normal,
    Searching,
    Command,
}

/// A key press, as far as the shell tells keys apart.
#[derive(Debug, Clone, Copy, PartialEq, Eq, Structural)]
pub enum Key {
    Char(char),
    Backspace,
    Enter,
    Tab,
    Home,
    End,
    Up,
    Down,
    Esc,
    Other,
}

/// What a key press asks of the shell.
#[derive(Debug, Clone, Copy, PartialEq, Eq, Structural)]
pub enum KeyAction {
    /// Nothing.
    Ignore,
    /// Add a character to the command line.
    TypeChar(char),
    /// Take the last character off the command line.
    DeleteChar,
    /// Complete the command line.
    Complete,
    /// Run the command line.
    Submit,
    /// Recall an older command.
    HistoryUp,
    /// Recall a newer command.
    HistoryDown,
    /// Add a character to the search.
    SearchPush(char),
    /// Take the last character off the search.
    SearchPop,
    /// Change to another mode.
    SetMode(AppMode),
    /// Leave the shell.
    Quit,
}

/// What the key `key` asks for in mode `mode`.
pub open spec fn action_of(mode: AppMode, key: Key) -> KeyAction {
    match mode {
        AppMode::Normal => match key {
            Key::Char(c) => KeyAction::TypeChar(c),
            Key::Backspace => KeyAction::DeleteChar,
            Key::Tab => KeyAction::Complete,
            Key::Enter => KeyAction::Submit,
            Key::End => KeyAction::SetMode(AppMode::Command),
            Key::Up => KeyAction::HistoryUp,
            Key::Down => KeyAction::HistoryDown,
            _ => KeyAction::Ignore,
        },
        AppMode::Searching => match key {
            Key::Char(c) => KeyAction::SearchPush(c),
            Key::Esc => KeyAction::SetMode(AppMode::Normal),
            Key::Backspace => KeyAction::SearchPop,
            _ => KeyAction::Ignore,
        },
        AppMode::Command => match key {
            Key::Esc => KeyAction::SetMode(AppMode::Normal),
            Key::Char(c) => if c == 'q' {
                KeyAction::Quit
            } else {
                KeyAction::Ignore
            },
            _ => KeyAction::Ignore,
        },
    }
}

/// What the key `key` asks for in mode `mode` (see `action_of`).
pub fn key_action(mode: AppMode, key: Key) -> (a: KeyAction)
    ensures
        a == action_of(mode, key),
{
    match mode {
        AppMode::Normal => match key {
            Key::Char(c) => KeyAction::TypeChar(c),
            Key::Backspace => KeyAction::DeleteChar,
            Key::Tab => KeyAction::Complete,
            Key::Enter => KeyAction::Submit,
            Key::End => KeyAction::SetMode(AppMode::Command),
            Key::Up => KeyAction::HistoryUp,
            Key::Down => KeyAction::HistoryDown,
            _ => KeyAction::Ignore,
        },
        AppMode::Searching => match key {
            Key::Char(c) => KeyAction::SearchPush(c),
            Key::Esc => KeyAction::SetMode(AppMode::Normal),
            Key::Backspace => KeyAction::SearchPop,
            _ => KeyAction::Ignore,
        },
        AppMode::Command => match key {
            Key::Esc => KeyAction::SetMode(AppMode::Normal),
            Key::Char(c) => {
                if c == 'q' {
                    KeyAction::Quit
                } else {
                    KeyAction::Ignore
                }
            },
            _ => KeyAction::Ignore,
        },
    }
}

// ---------------------------------------------------------------------------
// The command line.
// ---------------------------------------------------------------------------

/// `s` without its last character.
pub fn without_last_char(s: &String) -> (r: String)
    requires
        s@.len() > 0,
    ensures
        r@ == s@.drop_last(),
{
    let n = s.as_str().unicode_len();
    s.as_str().substring_char(0, n - 1).to_owned()
}

/// The command line being typed, the commands run before (oldest first),
/// and how far back in them the line was recalled from (0: not recalled).
pub struct CommandLine {
    pub cmd_input: String,
    pub cmd_history: Vec<String>,
    pub cmd_history_idx: usize,
}

/// What a `CommandLine` holds.
pub struct LineState {
    pub input: Seq<char>,
    pub history: Seq<Seq<char>>,
    pub idx: nat,
}

impl View for CommandLine {
    type V = LineState;

    open spec fn view(&self) -> LineState {
        LineState {
            input: self.cmd_input@,
            history: strings_view(self.cmd_history@),
            idx: self.cmd_history_idx as nat,
        }
    }
}

/// The command `idx` steps back from the newest of `history` (1: the
/// newest).
pub open spec fn recalled(history: Seq<Seq<char>>, idx: int) -> Seq<char> {
    history[history.len() - idx]
}

/// The line after typing `c`: `c` added, and no longer a recalled line.
pub open spec fn typed(s: LineState, c: char) -> LineState {
    LineState { input: s.input.push(c), idx: 0, ..s }
}

/// The line after a backspace: its last character gone, if it had one.
pub open spec fn backspaced(s: LineState) -> LineState {
    if s.input.len() > 0 {
        LineState { input: s.input.drop_last(), ..s }
    } else {
        s
    }
}

/// The line after recalling an older command: one step further back, where
/// the history reaches that far.
pub open spec fn stepped_back(s: LineState) -> LineState {
    if s.idx < s.history.len() {
        LineState { idx: s.idx + 1, input: recalled(s.history, s.idx + 1 as int), ..s }
    } else {
        s
    }
}

/// The line after recalling a newer command: one step forward, the line
/// cleared when that leaves the history.
pub open spec fn stepped_forward(s: LineState) -> LineState {
    if s.idx == 0 {
        s
    } else if s.idx == 1 {
        LineState { idx: 0, input: Seq::empty(), ..s }
    } else {
        LineState { idx: (s.idx - 1) as nat, input: recalled(s.history, s.idx - 1), ..s }
    }
}

/// The command run on Enter: the recalled one where the line is recalled,
/// else the line as typed.
pub open spec fn submitted_command(s: LineState) -> Seq<char> {
    if s.idx > 0 {
        recalled(s.history, s.idx as int)
    } else {
        s.input
    }
}

/// The line after Enter: the command joins the history unless it repeats
/// the newest entry, and stays on the line.
pub open spec fn submitted(s: LineState) -> LineState {
    let cmd = submitted_command(s);
    LineState {
        input: cmd,
        history: if s.history.len() > 0 && s.history.last() == cmd {
            s.history
        } else {
            s.history.push(cmd)
        },
        idx: s.idx,
    }
}

impl CommandLine {
    /// An empty command line with no history.
    pub fn new() -> (c: CommandLine)
        ensures
            c@ == (LineState { input: Seq::empty(), history: Seq::empty(), idx: 0 }),
    {
        let c = CommandLine { cmd_input: String::new(), cmd_history: Vec::new(), cmd_history_idx: 0 };
        assert(strings_view(c.cmd_history@) =~= Seq::<Seq<char>>::empty());
        c
    }

    /// Adds `c` to the line (see `typed`).
    pub fn type_char(&mut self, c: char)
        ensures
            final(self)@ == typed(old(self)@, c),
    {
        self.cmd_history_idx = 0;
        crate::text::push_char(&mut self.cmd_input, c);
    }

    /// Takes the last character off the line (see `backspaced`); whether
    /// there was one.
    pub fn backspace(&mut self) -> (removed: bool)
        ensures
            removed == (old(self)@.input.len() > 0),
            final(self)@ == backspaced(old(self)@),
    {
        if crate::text::string_is_empty(&self.cmd_input) {
            return false;
        }
        self.cmd_input = without_last_char(&self.cmd_input);
        true
    }

    /// Recalls the next older command (see `stepped_back`).
    pub fn history_up(&mut self)
        ensures
            final(self)@ == stepped_back(old(self)@),
    {
        if self.cmd_history_idx < self.cmd_history.len() {
            self.cmd_history_idx += 1;
            let len = self.cmd_history.len();
            self.cmd_input = self.cmd_history[len - self.cmd_history_idx].clone();
        }
    }

    /// Recalls the next newer command (see `stepped_forward`).
    pub fn history_down(&mut self)
        requires
            old(self)@.idx <= old(self)@.history.len() + 1,
        ensures
            final(self)@ == stepped_forward(old(self)@),
    {
        if self.cmd_history_idx > 0 {
            self.cmd_history_idx -= 1;
            if self.cmd_history_idx == 0 {
                self.cmd_input = String::new();
            } else {
                let len = self.cmd_history.len();
                self.cmd_input = self.cmd_history[len - self.cmd_history_idx].clone();
            }
        }
    }

    /// Takes the line to run (see `submitted`); returns the command.
    pub fn submit(&mut self) -> (cmd: String)
        requires
            old(self)@.idx <= old(self)@.history.len(),
        ensures
            cmd@ == submitted_command(old(self)@),
            final(self)@ == submitted(old(self)@),
    {
        if self.cmd_history_idx > 0 {
            let len = self.cmd_history.len();
            self.cmd_input = self.cmd_history[len - self.cmd_history_idx].clone();
        }
        let ghost before = self.cmd_history@;
        let cmd_input = self.cmd_input.clone();
        let n = self.cmd_history.len();
        if n > 0 {
            if !(self.cmd_history[n - 1] == self.cmd_input) {
                self.cmd_history.push(cmd_input);
                assert(strings_view(self.cmd_history@) =~= strings_view(before).push(self.cmd_input@));
            }
        } else {
            self.cmd_history.push(cmd_input);
            assert(strings_view(self.cmd_history@) =~= strings_view(before).push(self.cmd_input@));
        }
        self.cmd_input.clone()
    }
}

/// Recalling an older command and then a newer one comes back to where
/// the line was in the history, and to the command recalled there.
pub proof fn lemma_history_back_and_forth(s: LineState)
    requires
        s.idx < s.history.len(),
    ensures
        stepped_forward(stepped_back(s)).idx == s.idx,
        s.idx > 0 ==> stepped_forward(stepped_back(s)).input == recalled(s.history, s.idx as int),
        s.idx == 0 ==> stepped_forward(stepped_back(s)).input.len() == 0,
        stepped_forward(stepped_back(s)).history == s.history,
{
}

/// After Enter the command run is the newest entry of the history, which
/// grew by at most that one entry.
pub proof fn lemma_submit_records_command(s: LineState)
    ensures
        submitted(s).history.len() > 0,
        submitted(s).history.last() == submitted_command(s),
        submitted(s).history == s.history || submitted(s).history == s.history.push(
            submitted_command(s),
        ),
{
}

// ---------------------------------------------------------------------------
// Scrolling.
// ---------------------------------------------------------------------------

/// The furthest scroll so far: raised to the scroll where that is further.
pub fn track_max_scroll(scroll: (u16, u16), max_scroll: &mut (u16, u16))
    ensures
        *final(max_scroll) == (if scroll.0 > old(max_scroll).0 {
            scroll
        } else {
            *old(max_scroll)
        }),
{
    if scroll.0 > max_scroll.0 {
        *max_scroll = scroll;
    }
}

/// Scrolling up by `amount` rows: the pane scrolls up where it is at
/// least `amount` rows down; otherwise it stays and the shell's own scroll
/// goes back to the top.
pub fn scroll_up(app_scroll: &mut (u16, u16), pane_scroll: &mut (u16, u16), amount: u16)
    ensures
        amount > old(pane_scroll).0 ==> {
            &&& *final(app_scroll) == (0u16, old(app_scroll).1)
            &&& *final(pane_scroll) == *old(pane_scroll)
        },
        amount <= old(pane_scroll).0 ==> {
            &&& *final(app_scroll) == *old(app_scroll)
            &&& *final(pane_scroll) == ((old(pane_scroll).0 - amount) as u16, old(pane_scroll).1)
        },
{
    if amount > pane_scroll.0 {
        app_scroll.0 = 0;
    } else {
        pane_scroll.0 -= amount;
    }
}

/// The row scrolled to from `pos` down by `amount`: `amount` rows on where
/// that stays short of `max`, else `max` where `pos` is short of it, else
/// `pos`.
pub open spec fn scrolled_down(pos: u16, max: u16, amount: u16) -> u16 {
    if pos + amount < max {
        (pos + amount) as u16
    } else if pos < max {
        max
    } else {
        pos
    }
}

/// Scrolling down never scrolls up, and never passes the furthest scroll
/// from short of it.
pub proof fn lemma_scroll_down_bounded(pos: u16, max: u16, amount: u16)
    requires
        pos + amount <= u16::MAX,
    ensures
        scrolled_down(pos, max, amount) >= pos,
        pos <= max ==> scrolled_down(pos, max, amount) <= max,
{
}

/// Scrolling down by `amount` rows, but not past `max_scroll` (see
/// `scrolled_down`).
pub fn scroll_down(pane_scroll: &mut (u16, u16), max_scroll: (u16, u16), amount: u16)
    requires
        old(pane_scroll).0 + amount <= u16::MAX,
    ensures
        final(pane_scroll).1 == old(pane_scroll).1,
        final(pane_scroll).0 == scrolled_down(old(pane_scroll).0, max_scroll.0, amount),
{
    if pane_scroll.0 + amount < max_scroll.0 {
        pane_scroll.0 += amount;
    } else if pane_scroll.0 < max_scroll.0 {
        pane_scroll.0 = max_scroll.0;
    }
}

/// The scroll that shows the last `rows` of `height` lines: both counts
/// taken as `u16`.
pub fn bottom_scroll(height: usize, rows: usize) -> (s: u16)
    requires
        (height as u16) >= (rows as u16),
    ensures
        s == (height as u16) - (rows as u16),
{
    let h = #[verifier::truncate] (height as u16);
    let r = #[verifier::truncate] (rows as u16);
    h - r
}


/// Only `q` in command mode leaves the shell: no other key, and no key in
/// another mode, asks to quit.
pub proof fn lemma_quit_only_by_q(mode: AppMode, key: Key)
    ensures
        action_of(mode, key) == KeyAction::Quit <==> (mode == AppMode::Command && key == Key::Char('q')),
{
}

/// In normal mode a character key types that character, and the keys
/// that neither edit, complete, run, recall nor change mode (Esc, Home
/// and the rest) do nothing.
pub proof fn lemma_normal_mode_keys(key: Key)
    ensures
        key matches Key::Char(c) ==> action_of(AppMode::Normal, key) == KeyAction::TypeChar(c),
        (key == Key::Esc || key == Key::Home || key == Key::Other) ==> action_of(AppMode::Normal, key)
            == KeyAction::Ignore,
{
}

/// Typing ends a recall: after a character is typed, Enter runs the line
/// as typed, that is the line before followed by the character, whatever
/// was recalled.
pub proof fn lemma_typing_ends_recall(s: LineState, c: char)
    ensures
        submitted_command(typed(s, c)) == s.input.push(c),
        submitted(typed(s, c)).input == s.input.push(c),
{
}

} // verus!
