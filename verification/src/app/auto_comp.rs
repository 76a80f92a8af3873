//! Completion of the command line.

use vstd::prelude::*;
use vstd::utf8::{encode_utf8, is_char_boundary, encode_utf8_decode_utf8};
use crate::text::{has_prefix, starts_with, strings_view};

verus! {

/// The strings of `v` that begin with `prefix`, in order.
pub open spec fn with_prefix(v: Seq<Seq<char>>, prefix: Seq<char>) -> Seq<Seq<char>> {
    v.filter(|x: Seq<char>| has_prefix(x, prefix))
}

/// The strings of `v` that begin with `prefix`, in order.
pub fn commands_with_prefix(v: &Vec<String>, prefix: &String) -> (r: Vec<String>)
    ensures
        strings_view(r@) == with_prefix(strings_view(v@), prefix@),
{
    let ghost sv = strings_view(v@);
    let mut out: Vec<String> = Vec::new();
    let mut i: usize = 0;
    assert(sv.take(0) =~= Seq::<Seq<char>>::empty());
    assert(strings_view(out@) =~= Seq::<Seq<char>>::empty());
    while i < v.len()
        invariant
            i <= v@.len(),
            sv == strings_view(v@),
            strings_view(out@) == with_prefix(sv.take(i as int), prefix@),
        decreases v.len() - i,
    {
        let ghost before = out@;
        proof {
            reveal_with_fuel(Seq::filter, 1);
            assert(sv.take(i + 1).drop_last() =~= sv.take(i as int));
        }
        if starts_with(v[i].as_str(), prefix.as_str()) {
            out.push(v[i].clone());
            assert(strings_view(out@) =~= strings_view(before).push(v@[i as int]@));
        }
        i += 1;
    }
    assert(sv.take(v.len() as int) =~= sv);
    out
}

/// The builtin command names that begin with `prefix`.
pub fn get_internal_cmds(prefix: &String) -> (r: Vec<String>)
    ensures
        strings_view(r@) == with_prefix(seq!["exit"@, "refresh"@, "alais"@], prefix@),
{
    let all = crate::shell::get_internal_cmds();
    commands_with_prefix(&all, prefix)
}

/// The suggestion for the line `input`: the first of `cmds`, then of the
/// builtin names that begin with `input`; empty when there is none.
pub open spec fn suggestion_of(cmds: Seq<Seq<char>>, input: Seq<char>) -> Seq<char> {
    let all = cmds + with_prefix(seq!["exit"@, "refresh"@, "alais"@], input);
    if all.len() > 0 {
        all[0]
    } else {
        Seq::empty()
    }
}

/// The suggestion for the line `input` from the candidates `cmds` (see
/// `suggestion_of`).
pub fn pick_suggestion(cmds: Vec<String>, input: &String) -> (s: String)
    ensures
        s@ == suggestion_of(strings_view(cmds@), input@),
{
    let mut cmds = cmds;
    let ghost first = strings_view(cmds@);
    let internal = get_internal_cmds(input);
    let mut i: usize = 0;
    while i < internal.len()
        invariant
            i <= internal@.len(),
            strings_view(cmds@) == first + strings_view(internal@).take(i as int),
        decreases internal.len() - i,
    {
        let ghost before = cmds@;
        cmds.push(internal[i].clone());
        assert(strings_view(cmds@) =~= strings_view(before).push(internal@[i as int]@));
        assert(strings_view(internal@).take(i + 1) =~= strings_view(internal@).take(i as int).push(
            internal@[i as int]@,
        ));
        i += 1;
    }
    assert(strings_view(internal@).take(internal@.len() as int) =~= strings_view(internal@));
    if cmds.len() > 0 {
        cmds[0].clone()
    } else {
        String::new()
    }
}

/// The part of `sugg` after as many bytes as `input` holds, where that is
/// a character boundary of `sugg`.
pub open spec fn rest_after(sugg: Seq<char>, input: Seq<char>) -> Seq<u8> {
    encode_utf8(sugg).subrange(encode_utf8(input).len() as int, encode_utf8(sugg).len() as int)
}

/// `sugg` from the byte length of `input` on.
fn byte_tail(sugg: &str, input: &str) -> (r: String)
    requires
        is_char_boundary(encode_utf8(sugg@), encode_utf8(input@).len() as int),
    ensures
        encode_utf8(r@) == rest_after(sugg@, input@),
{
    let mid = input.as_bytes().len();
    let (_, tail) = sugg.split_at(mid);
    tail.to_owned()
}

/// What completing the line `input` with the suggestion `sugg` adds to it:
/// nothing for an empty suggestion, else the suggestion from the byte
/// length of the line on.
pub fn completion_of(sugg: String, input: &String) -> (r: String)
    requires
        sugg@.len() > 0 ==> is_char_boundary(encode_utf8(sugg@), encode_utf8(input@).len() as int),
    ensures
        sugg@.len() == 0 ==> r@.len() == 0,
        sugg@.len() > 0 ==> encode_utf8(r@) == rest_after(sugg@, input@),
{
    if sugg.as_str().is_empty() {
        return sugg;
    }
    byte_tail(sugg.as_str(), input.as_str())
}

/// The text shown after the line `input` as a suggestion: `sugg` from the
/// byte length of the line on, where the suggestion is not empty and at
/// least that long; else the suggestion itself.
pub fn shown_suggestion(sugg: String, input: &String) -> (r: String)
    requires
        sugg@.len() > 0 && encode_utf8(input@).len() <= encode_utf8(sugg@).len() ==> is_char_boundary(
            encode_utf8(sugg@),
            encode_utf8(input@).len() as int,
        ),
    ensures
        sugg@.len() > 0 && encode_utf8(input@).len() <= encode_utf8(sugg@).len() ==> encode_utf8(r@)
            == rest_after(sugg@, input@),
        !(sugg@.len() > 0 && encode_utf8(input@).len() <= encode_utf8(sugg@).len()) ==> r@ == sugg@,
{
    if !sugg.as_str().is_empty() && input.as_str().as_bytes().len() <= sugg.as_str().as_bytes().len() {
        byte_tail(sugg.as_str(), input.as_str())
    } else {
        sugg
    }
}

// ---------------------------------------------------------------------------
// Completing paths.
// ---------------------------------------------------------------------------

/// What completing a path does with a directory entry.
#[derive(Debug, Clone, Copy, PartialEq, Eq, Structural)]
pub enum EntryStep {
    /// Search under the entry: the path being completed goes on past it.
    Descend,
    /// Offer the entry: it goes on past the path being completed.
    Take,
    /// Leave the entry.
    Skip,
}

/// What completing the path `p` does with the entry path `name`, both as
/// bytes: descend where `p` begins with `name`, take where `name` is longer
/// and begins with `p`, skip it otherwise.
pub open spec fn entry_step(p: Seq<u8>, name: Seq<u8>) -> EntryStep {
    if p.len() >= name.len() {
        if p.take(name.len() as int) == name {
            EntryStep::Descend
        } else {
            EntryStep::Skip
        }
    } else if name.take(p.len() as int) == p {
        EntryStep::Take
    } else {
        EntryStep::Skip
    }
}

/// Whether the bytes `s` begin with the bytes `p`.
fn bytes_start_with(s: &[u8], p: &[u8]) -> (b: bool)
    ensures
        b == (p@.len() <= s@.len() && s@.take(p@.len() as int) == p@),
{
    if p.len() > s.len() {
        return false;
    }
    let mut i: usize = 0;
    while i < p.len()
        invariant
            p@.len() <= s@.len(),
            i <= p@.len(),
            forall|k: int| 0 <= k < i ==> s@[k] == p@[k],
        decreases p.len() - i,
    {
        if s[i] != p[i] {
            assert(s@.take(p@.len() as int)[i as int] != p@[i as int]);
            return false;
        }
        i += 1;
    }
    assert(s@.take(p@.len() as int) =~= p@);
    true
}

/// What completing the path `p` does with the entry path `name` (see
/// `entry_step`). Where `p` is at least as long as `name`, the length of
/// `name` falls on a character boundary of `p`.
pub fn step_for_entry(p: &str, name: &str) -> (r: EntryStep)
    requires
        encode_utf8(p@).len() >= encode_utf8(name@).len() ==> is_char_boundary(
            encode_utf8(p@),
            encode_utf8(name@).len() as int,
        ),
    ensures
        r == entry_step(encode_utf8(p@), encode_utf8(name@)),
{
    let pb = p.as_bytes();
    let nb = name.as_bytes();
    if pb.len() >= nb.len() {
        if bytes_start_with(pb, nb) {
            EntryStep::Descend
        } else {
            EntryStep::Skip
        }
    } else if bytes_start_with(nb, pb) {
        EntryStep::Take
    } else {
        EntryStep::Skip
    }
}

/// Whether a search for paths beginning with `prefix` has reached a path
/// longer than the prefix, in bytes: there it ends and offers `parent`.
pub fn past_prefix(prefix: &str, parent: &str) -> (b: bool)
    ensures
        b == (encode_utf8(prefix@).len() < encode_utf8(parent@).len()),
{
    prefix.as_bytes().len() < parent.as_bytes().len()
}

/// Whether a search for paths beginning with `prefix` goes on under the
/// entry path `name`, both as bytes: where `name` is at least as long and
/// begins with `prefix`.
pub open spec fn descends(prefix: Seq<u8>, name: Seq<u8>) -> bool {
    name.len() >= prefix.len() && name.take(prefix.len() as int) == prefix
}

/// Whether a search for paths beginning with `prefix` goes on under the
/// entry path `name` (see `descends`). Where `name` is at least as long as
/// `prefix`, the length of `prefix` falls on a character boundary of
/// `name`.
pub fn descend_into(prefix: &str, name: &str) -> (b: bool)
    requires
        encode_utf8(name@).len() >= encode_utf8(prefix@).len() ==> is_char_boundary(
            encode_utf8(name@),
            encode_utf8(prefix@).len() as int,
        ),
    ensures
        b == descends(encode_utf8(prefix@), encode_utf8(name@)),
{
    bytes_start_with(name.as_bytes(), prefix.as_bytes())
}

/// The path `x` relative to the working directory `pwd`, as the completion
/// shows it: `x` without as many bytes as `pwd` holds, less two.
pub fn relative_name(x: &str, pwd: &str) -> (r: String)
    requires
        encode_utf8(pwd@).len() >= 2,
        is_char_boundary(encode_utf8(x@), encode_utf8(pwd@).len() - 2),
    ensures
        encode_utf8(r@) == encode_utf8(x@).subrange(
            encode_utf8(pwd@).len() - 2,
            encode_utf8(x@).len() as int,
        ),
{
    let mid = pwd.as_bytes().len() - 2;
    let (_, tail) = x.split_at(mid);
    tail.to_owned()
}

// ---------------------------------------------------------------------------
// Showing the suggestion.
// ---------------------------------------------------------------------------

/// What is done with the suggestion shown after the command line.
#[derive(Debug, Clone, Copy, PartialEq, Eq, Structural)]
pub enum SuggestAction {
    /// Leave it as it is.
    Keep,
    /// Show the suggestion for the line.
    Show,
    /// Show nothing.
    Clear,
}

/// What an active pane (`active`) does with its suggestion: shown while
/// the line `input` is one word and the pane is scrolled to its furthest;
/// otherwise cleared, unless a command is running.
pub open spec fn suggest_action_of(
    active: bool,
    input: Seq<char>,
    scroll: u16,
    max_scroll: u16,
    running: bool,
) -> SuggestAction {
    if !active {
        SuggestAction::Keep
    } else if !input.contains(' ') && scroll == max_scroll {
        SuggestAction::Show
    } else if !running {
        SuggestAction::Clear
    } else {
        SuggestAction::Keep
    }
}

/// Whether `s` holds the character `c`.
fn has_char(s: &String, c: char) -> (b: bool)
    ensures
        b == s@.contains(c),
{
    let t = s.as_str();
    let n = t.unicode_len();
    let mut i: usize = 0;
    while i < n
        invariant
            n == s@.len(),
            t@ == s@,
            i <= n,
            forall|k: int| 0 <= k < i ==> s@[k] != c,
        decreases n - i,
    {
        if t.get_char(i) == c {
            assert(s@[i as int] == c);
            return true;
        }
        i += 1;
    }
    false
}

/// What the pane does with its suggestion (see `suggest_action_of`).
pub fn suggest_action(active: bool, input: &String, scroll: u16, max_scroll: u16, running: bool) -> (a:
    SuggestAction)
    ensures
        a == suggest_action_of(active, input@, scroll, max_scroll, running),
{
    if !active {
        SuggestAction::Keep
    } else if !has_char(input, ' ') && scroll == max_scroll {
        SuggestAction::Show
    } else if !running {
        SuggestAction::Clear
    } else {
        SuggestAction::Keep
    }
}

/// Encoding a concatenation encodes its parts one after the other.
pub proof fn lemma_encode_utf8_concat(a: Seq<char>, b: Seq<char>)
    ensures
        encode_utf8(a + b) == encode_utf8(a) + encode_utf8(b),
    decreases a.len(),
{
    if a.len() == 0 {
        assert(a + b =~= b);
        assert(encode_utf8(a) + encode_utf8(b) =~= encode_utf8(b));
    } else {
        assert((a + b).drop_first() =~= a.drop_first() + b);
        assert((a + b)[0] == a[0]);
        lemma_encode_utf8_concat(a.drop_first(), b);
        assert(encode_utf8(a + b) =~= encode_utf8(a) + encode_utf8(b));
    }
}

/// Completing a line with a suggestion that begins with it, byte for byte,
/// gives the suggestion: the line followed by the completion is the
/// suggestion.
pub proof fn lemma_completion_gives_suggestion(sugg: Seq<char>, input: Seq<char>, completion: Seq<char>)
    requires
        encode_utf8(input).len() <= encode_utf8(sugg).len(),
        encode_utf8(sugg).take(encode_utf8(input).len() as int) == encode_utf8(input),
        encode_utf8(completion) == rest_after(sugg, input),
    ensures
        input + completion == sugg,
{
    lemma_encode_utf8_concat(input, completion);
    let bs = encode_utf8(sugg);
    let k = encode_utf8(input).len() as int;
    assert(bs.take(k) + bs.subrange(k, bs.len() as int) =~= bs);
    encode_utf8_decode_utf8(input + completion);
    encode_utf8_decode_utf8(sugg);
}

} // verus!
