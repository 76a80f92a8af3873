//! What the shell does with a command line: alias expansion, the builtin
//! commands, and the program and arguments it runs otherwise.

use vstd::prelude::*;
use crate::text::{
    copy_string, same_text, split_from, split_on, split_string, strings_view, strip_prefixes, trim,
    trim_start_matches, trimmed,
};

verus! {

// ---------------------------------------------------------------------------
// Aliases.
// ---------------------------------------------------------------------------

/// The aliases a list of (name, value) entries defines; a later entry for a
/// name overrides an earlier one.
pub open spec fn alias_map(e: Seq<(String, String)>) -> Map<Seq<char>, Seq<char>>
    decreases e.len(),
{
    if e.len() == 0 {
        Map::empty()
    } else {
        alias_map(e.drop_last()).insert(e.last().0@, e.last().1@)
    }
}

/// Entries past `i` that do not name `k` leave what the entries define
/// for `k` as the first `i` entries define it.
proof fn lemma_alias_map_suffix(e: Seq<(String, String)>, i: int, k: Seq<char>)
    requires
        0 <= i <= e.len(),
        forall|j: int| i <= j < e.len() ==> (#[trigger] e[j]).0@ != k,
    ensures
        alias_map(e).contains_key(k) == alias_map(e.take(i)).contains_key(k),
        alias_map(e).contains_key(k) ==> alias_map(e)[k] == alias_map(e.take(i))[k],
    decreases e.len() - i,
{
    if i < e.len() {
        assert(e.drop_last().take(i) =~= e.take(i));
        lemma_alias_map_suffix(e.drop_last(), i, k);
        assert(e.last() == e[e.len() - 1]);
    } else {
        assert(e.take(i) =~= e);
    }
}

/// Setting the value of the last entry for `k` is defining `k` anew.
proof fn lemma_alias_map_update(e: Seq<(String, String)>, i: int, k: String, v: String)
    requires
        0 <= i < e.len(),
        e[i].0@ == k@,
        forall|j: int| i < j < e.len() ==> (#[trigger] e[j]).0@ != k@,
    ensures
        alias_map(e.update(i, (k, v))) =~= alias_map(e).insert(k@, v@),
    decreases e.len(),
{
    let u = e.update(i, (k, v));
    if i == e.len() - 1 {
        assert(u.drop_last() =~= e.drop_last());
    } else {
        assert(u.drop_last() =~= e.drop_last().update(i, (k, v)));
        lemma_alias_map_update(e.drop_last(), i, k, v);
        assert(e.last() == e[e.len() - 1]);
        assert(e.last().0@ != k@);
    }
}

/// A table of command aliases.
pub struct AliasTable {
    pub entries: Vec<(String, String)>,
}

impl View for AliasTable {
    type V = Map<Seq<char>, Seq<char>>;

    open spec fn view(&self) -> Map<Seq<char>, Seq<char>> {
        alias_map(self.entries@)
    }
}

impl AliasTable {
    /// The table with no aliases.
    pub fn new() -> (t: AliasTable)
        ensures
            t@ == Map::<Seq<char>, Seq<char>>::empty(),
    {
        AliasTable { entries: Vec::new() }
    }

    /// The index of the last entry for `key`.
    fn find(&self, key: &String) -> (r: Option<usize>)
        ensures
            r matches Some(i) ==> {
                &&& i < self.entries@.len()
                &&& self.entries@[i as int].0@ == key@
                &&& forall|j: int| i < j < self.entries@.len() ==> (#[trigger] self.entries@[j]).0@ != key@
            },
            r is None ==> forall|j: int|
                0 <= j < self.entries@.len() ==> (#[trigger] self.entries@[j]).0@ != key@,
    {
        let mut i = self.entries.len();
        while i > 0
            invariant
                i <= self.entries@.len(),
                forall|j: int| i <= j < self.entries@.len() ==> (#[trigger] self.entries@[j]).0@ != key@,
            decreases i,
        {
            if self.entries[i - 1].0 == *key {
                return Some(i - 1);
            }
            i -= 1;
        }
        None
    }

    /// The value of the alias `key`, if there is one.
    pub fn get(&self, key: &String) -> (r: Option<String>)
        ensures
            match r {
                Some(v) => self@.contains_key(key@) && self@[key@] == v@,
                None => !self@.contains_key(key@),
            },
    {
        match self.find(key) {
            Some(i) => {
                proof {
                    lemma_alias_map_suffix(self.entries@, i + 1, key@);
                    assert(self.entries@.take(i + 1).drop_last() =~= self.entries@.take(i as int));
                }
                Some(self.entries[i].1.clone())
            },
            None => {
                proof {
                    lemma_alias_map_suffix(self.entries@, 0, key@);
                    assert(self.entries@.take(0) =~= Seq::<(String, String)>::empty());
                }
                None
            },
        }
    }

    /// Defines (or redefines) the alias `key` as `value`.
    pub fn insert(&mut self, key: String, value: String)
        ensures
            final(self)@ == old(self)@.insert(key@, value@),
    {
        match self.find(&key) {
            Some(i) => {
                proof {
                    lemma_alias_map_update(self.entries@, i as int, key, value);
                }
                self.entries.set(i, (key, value));
            },
            None => {
                let ghost before = self.entries@;
                self.entries.push((key, value));
                assert(self.entries@.drop_last() =~= before);
            },
        }
    }
}

/// An alias reads back as it was last defined, and defining one alias
/// leaves the others as they were.
pub proof fn lemma_alias_read_after_write(
    m: Map<Seq<char>, Seq<char>>,
    k: Seq<char>,
    v: Seq<char>,
    other: Seq<char>,
)
    ensures
        m.insert(k, v).contains_key(k),
        m.insert(k, v)[k] == v,
        other != k ==> m.insert(k, v).contains_key(other) == m.contains_key(other),
        other != k && m.contains_key(other) ==> m.insert(k, v)[other] == m[other],
{
}

// ---------------------------------------------------------------------------
// Commands.
// ---------------------------------------------------------------------------

/// The names of the builtin commands.
pub fn get_internal_cmds() -> (v: Vec<String>)
    ensures
        strings_view(v@) == seq!["exit"@, "refresh"@, "alais"@],
{
    let v = vec![String::from_str("exit"), String::from_str("refresh"), String::from_str("alais")];
    assert(strings_view(v@) =~= seq!["exit"@, "refresh"@, "alais"@]);
    v
}

/// A program to run and its arguments.
pub struct CommandBuilder {
    pub args: Vec<String>,
    pub path: String,
}

impl CommandBuilder {
    /// The program `prog`, with no arguments yet.
    pub fn new(prog: String) -> (c: CommandBuilder)
        ensures
            c.path@ == prog@,
            c.args@.len() == 0,
    {
        CommandBuilder { args: Vec::new(), path: prog }
    }

    /// Adds the argument `arg`.
    pub fn arg(&mut self, arg: String)
        ensures
            final(self).path == old(self).path,
            final(self).args@ == old(self).args@.push(arg),
    {
        self.args.push(arg);
    }
}

/// The size of a pseudo-terminal.
pub struct PtySize {
    pub row: u16,
    pub col: u16,
    pub px_width: u16,
    pub px_height: u16,
}

/// A builtin command and what it needs.
#[derive(Debug, PartialEq)]
pub enum Builtin {
    /// Leave the shell.
    Exit,
    /// Reload the configuration.
    Refresh,
    /// Define the alias `.0` as `.1`.
    Alias(String, String),
    /// Change directory.
    Cd,
}

/// What a `Builtin` holds.
pub enum SpecBuiltin {
    Exit,
    Refresh,
    Alias(Seq<char>, Seq<char>),
    Cd,
}

impl View for Builtin {
    type V = SpecBuiltin;

    open spec fn view(&self) -> SpecBuiltin {
        match self {
            Builtin::Exit => SpecBuiltin::Exit,
            Builtin::Refresh => SpecBuiltin::Refresh,
            Builtin::Alias(n, v) => SpecBuiltin::Alias(n@, v@),
            Builtin::Cd => SpecBuiltin::Cd,
        }
    }
}

/// The builtin that `cmd` calls for, if any: its first space-separated word
/// names it; `alais` needs two more words (the name and the value) and is
/// no builtin without them.
pub open spec fn builtin_of(cmd: Seq<char>) -> Option<SpecBuiltin> {
    let words = split_on(cmd, ' ');
    let path = words[0];
    if path == "exit"@ {
        Some(SpecBuiltin::Exit)
    } else if path == "refresh"@ {
        Some(SpecBuiltin::Refresh)
    } else if path == "alais"@ {
        if words.len() >= 3 {
            Some(SpecBuiltin::Alias(words[1], words[2]))
        } else {
            None
        }
    } else if path == "cd"@ {
        Some(SpecBuiltin::Cd)
    } else {
        None
    }
}

proof fn lemma_split_from_nonempty(s: Seq<char>, sep: char, i: int, cur: Seq<char>)
    ensures
        split_from(s, sep, i, cur).len() >= 1,
    decreases s.len() - i,
{
    if i < s.len() {
        if s[i] == sep {
            lemma_split_from_nonempty(s, sep, i + 1, Seq::empty());
        } else {
            lemma_split_from_nonempty(s, sep, i + 1, cur.push(s[i]));
        }
    }
}

/// A string splits into at least one piece.
pub proof fn lemma_split_nonempty(s: Seq<char>, sep: char)
    ensures
        split_on(s, sep).len() >= 1,
{
    lemma_split_from_nonempty(s, sep, 0, Seq::empty());
}

/// The builtin that `cmd` calls for, if any (see `builtin_of`).
pub fn builtin_for(cmd: &String) -> (r: Option<Builtin>)
    ensures
        match r {
            Some(b) => builtin_of(cmd@) == Some(b@),
            None => builtin_of(cmd@) is None,
        },
{
    let words = split_string(cmd.as_str(), ' ');
    proof {
        lemma_split_nonempty(cmd@, ' ');
    }
    let path = &words[0];
    assert(path@ == split_on(cmd@, ' ')[0]);
    if same_text(path, "exit") {
        Some(Builtin::Exit)
    } else if same_text(path, "refresh") {
        Some(Builtin::Refresh)
    } else if same_text(path, "alais") {
        if words.len() >= 3 {
            assert(words@[1]@ == split_on(cmd@, ' ')[1]);
            assert(words@[2]@ == split_on(cmd@, ' ')[2]);
            Some(Builtin::Alias(words[1].clone(), words[2].clone()))
        } else {
            None
        }
    } else if same_text(path, "cd") {
        Some(Builtin::Cd)
    } else {
        None
    }
}

/// `cmd` with its first word replaced by the alias of that word, if it has
/// one: the alias value followed by what is left of `cmd` once every
/// leading copy of the word is taken off, with white space trimmed from
/// both ends.
pub open spec fn expanded(cmd: Seq<char>, aliases: Map<Seq<char>, Seq<char>>) -> Seq<char> {
    let path = split_on(cmd, ' ')[0];
    if aliases.contains_key(path) {
        trimmed(aliases[path] + strip_prefixes(cmd, path))
    } else {
        cmd
    }
}

/// What the shell does with a command line.
pub enum CommandPlan {
    /// Nothing: the line is empty.
    Nothing,
    /// Run a builtin.
    Builtin(Builtin),
    /// Start a program.
    Spawn(CommandBuilder),
}

/// What the shell does with the command line `cmd` (see `plan_command`):
/// nothing for an empty line; the builtin the line, its alias expanded,
/// calls for; otherwise the program named by the first word of the line as
/// typed, with the words after the first of the expanded line as its
/// arguments.
pub open spec fn plan_of(cmd: Seq<char>, aliases: Map<Seq<char>, Seq<char>>) -> Option<
    Result<SpecBuiltin, (Seq<char>, Seq<Seq<char>>)>,
> {
    if cmd.len() == 0 {
        None
    } else {
        let line = expanded(cmd, aliases);
        match builtin_of(line) {
            Some(b) => Some(Ok(b)),
            None => Some(Err((split_on(cmd, ' ')[0], split_on(line, ' ').skip(1)))),
        }
    }
}

/// What a `CommandPlan` holds (see `plan_of`).
pub open spec fn plan_view(p: CommandPlan) -> Option<Result<SpecBuiltin, (Seq<char>, Seq<Seq<char>>)>> {
    match p {
        CommandPlan::Nothing => None,
        CommandPlan::Builtin(b) => Some(Ok(b@)),
        CommandPlan::Spawn(c) => Some(Err((c.path@, strings_view(c.args@)))),
    }
}

/// The line `cmd` with the alias of its first word expanded (see
/// `expanded`).
pub fn expand_alias(cmd: &String, aliases: &AliasTable) -> (r: String)
    ensures
        r@ == expanded(cmd@, aliases@),
{
    let words = split_string(cmd.as_str(), ' ');
    proof {
        lemma_split_nonempty(cmd@, ' ');
    }
    let path = &words[0];
    match aliases.get(path) {
        Some(alais) => {
            let trimed_cmd = trim_start_matches(cmd.as_str(), path.as_str());
            let mut alais = alais;
            alais.append(trimed_cmd.as_str());
            trim(alais.as_str())
        },
        None => cmd.clone(),
    }
}

/// What the shell does with the command line `cmd`, given the aliases
/// `aliases` (see `plan_of`).
pub fn plan_command(cmd: String, aliases: &AliasTable) -> (p: CommandPlan)
    ensures
        plan_view(p) == plan_of(cmd@, aliases@),
{
    let words = split_string(cmd.as_str(), ' ');
    proof {
        lemma_split_nonempty(cmd@, ' ');
    }
    let path = words[0].clone();
    if cmd.as_str().is_empty() {
        return CommandPlan::Nothing;
    }
    let line = expand_alias(&cmd, aliases);
    if let Some(b) = builtin_for(&line) {
        return CommandPlan::Builtin(b);
    }
    let mut c = CommandBuilder::new(path);
    let pieces = split_string(line.as_str(), ' ');
    proof {
        lemma_split_nonempty(line@, ' ');
    }
    let mut i: usize = 1;
    while i < pieces.len()
        invariant
            1 <= i <= pieces@.len(),
            c.path@ == split_on(cmd@, ' ')[0],
            strings_view(c.args@) == strings_view(pieces@).subrange(1, i as int),
        decreases pieces.len() - i,
    {
        let ghost before = c.args@;
        c.arg(pieces[i].clone());
        assert(strings_view(before.push(pieces@[i as int])) =~= strings_view(before).push(pieces@[i as int]@));
        assert(strings_view(pieces@).subrange(1, i + 1) =~= strings_view(pieces@).subrange(1, i as int).push(
            pieces@[i as int]@,
        ));
        i += 1;
    }
    assert(strings_view(pieces@).subrange(1, pieces@.len() as int) =~= split_on(line@, ' ').skip(1));
    CommandPlan::Spawn(c)
}

/// A line whose first word has no alias and names no builtin starts the
/// program its first word names, with its other words as arguments.
pub proof fn lemma_plain_command_runs_its_words(cmd: Seq<char>, aliases: Map<Seq<char>, Seq<char>>)
    requires
        cmd.len() > 0,
        !aliases.contains_key(split_on(cmd, ' ')[0]),
        builtin_of(cmd) is None,
    ensures
        plan_of(cmd, aliases) == Some(
            Err::<SpecBuiltin, (Seq<char>, Seq<Seq<char>>)>(
                (split_on(cmd, ' ')[0], split_on(cmd, ' ').skip(1)),
            ),
        ),
        seq![split_on(cmd, ' ')[0]] + split_on(cmd, ' ').skip(1) == split_on(cmd, ' '),
{
    lemma_split_nonempty(cmd, ' ');
    assert(seq![split_on(cmd, ' ')[0]] + split_on(cmd, ' ').skip(1) =~= split_on(cmd, ' '));
}

} // verus!
