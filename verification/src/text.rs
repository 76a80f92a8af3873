//! Small string operations the rest of the library builds on.

use vstd::prelude::*;

verus! {

/// Appends `c` to `s`.
///
/// Trusted: calls `String::push`, which std documents as appending the
/// given char to the end of the string; the contract says exactly that.
#[verifier::external_body]
pub fn push_char(s: &mut String, c: char)
    ensures
        final(s)@ == old(s)@.push(c),
{
    s.push(c);
}

/// The characters of a byte sequence, each byte read as the character
/// with that code point.
pub open spec fn bytes_to_chars(b: Seq<u8>) -> Seq<char> {
    b.map_values(|x: u8| x as char)
}

/// A new string holding the characters `bytes_to_chars(v)`.
pub fn vec_to_string(v: Vec<u8>) -> (s: String)
    ensures
        s@ == bytes_to_chars(v@),
{
    let mut s = String::new();
    let mut i: usize = 0;
    proof {
        assert(v@.take(0) =~= Seq::<u8>::empty());
        assert(bytes_to_chars(Seq::<u8>::empty()) =~= Seq::<char>::empty());
    }
    while i < v.len()
        invariant
            i <= v.len(),
            s@ == bytes_to_chars(v@.take(i as int)),
        decreases v.len() - i,
    {
        push_char(&mut s, v[i] as char);
        assert(v@.take(i + 1) =~= v@.take(i as int).push(v@[i as int]));
        i += 1;
    }
    assert(v@.take(v.len() as int) =~= v@);
    s
}

/// Whether `s` holds no characters.
pub fn string_is_empty(s: &String) -> (b: bool)
    ensures
        b == (s@.len() == 0),
{
    s.as_str().is_empty()
}

/// Whether `c` is an ASCII decimal digit.
pub open spec fn is_digit(c: char) -> bool {
    '0' <= c && c <= '9'
}

/// Whether every character of `s` is a decimal digit.
pub open spec fn all_digits(s: Seq<char>) -> bool {
    forall|i: int| 0 <= i < s.len() ==> is_digit(#[trigger] s[i])
}

/// The value of the decimal digits `s`.
pub open spec fn digits_value(s: Seq<char>) -> nat
    decreases s.len(),
{
    if s.len() == 0 {
        0
    } else {
        digits_value(s.drop_last()) * 10 + ((s.last() as nat) - 48) as nat
    }
}

/// The number a string reads as in the way Rust reads a `u16`: an optional
/// `+`, then one or more decimal digits of a value below 65536; `None` for
/// anything else.
pub open spec fn decimal_u16(s: Seq<char>) -> Option<u16> {
    let t = if s.len() > 0 && s[0] == '+' { s.skip(1) } else { s };
    if t.len() > 0 && all_digits(t) && digits_value(t) <= 65535 {
        Some(digits_value(t) as u16)
    } else {
        None
    }
}

/// A digit string is worth at least each of its prefixes.
pub proof fn lemma_digits_value_prefix(s: Seq<char>, i: int)
    requires
        0 <= i <= s.len(),
        all_digits(s),
    ensures
        digits_value(s.take(i)) <= digits_value(s),
    decreases s.len() - i,
{
    if i < s.len() {
        lemma_digits_value_prefix(s, i + 1);
        assert(s.take(i + 1).drop_last() =~= s.take(i));
        assert(is_digit(s[i]));
    } else {
        assert(s.take(i) =~= s);
    }
}

/// The number `s` reads as (see `decimal_u16`).
pub fn parse_u16(s: &String) -> (r: Option<u16>)
    ensures
        r == decimal_u16(s@),
{
    let t = s.as_str();
    let n = t.unicode_len();
    let mut start: usize = 0;
    if n > 0 && t.get_char(0) == '+' {
        start = 1;
    }
    let ghost u = if s@.len() > 0 && s@[0] == '+' { s@.skip(1) } else { s@ };
    assert(s@.skip(0) =~= s@);
    if start == n {
        return None;
    }
    let mut acc: u32 = 0;
    let mut i: usize = start;
    while i < n
        invariant
            start <= i <= n,
            n == s@.len(),
            t@ == s@,
            start == (if s@.len() > 0 && s@[0] == '+' { 1int } else { 0int }),
            u == s@.skip(start as int),
            u == (if s@.len() > 0 && s@[0] == '+' { s@.skip(1) } else { s@ }),
            all_digits(u.take(i - start)),
            acc == digits_value(u.take(i - start)),
            acc <= 65535,
        decreases n - i,
    {
        let c = t.get_char(i);
        if !('0' <= c && c <= '9') {
            assert(u[i - start] == c);
            assert(!is_digit(u[i - start]));
            return None;
        }
        let d = (c as u32) - 48;
        assert(u.take(i - start + 1).drop_last() =~= u.take(i - start));
        assert(u[i - start] == c);
        acc = acc * 10 + d;
        if acc > 65535 {
            proof {
                assert(all_digits(u.take(i - start + 1)));
                if all_digits(u) {
                    lemma_digits_value_prefix(u, i - start + 1);
                }
            }
            return None;
        }
        i += 1;
    }
    assert(u.take(n - start) =~= u);
    Some(acc as u16)
}

/// A count as control sequences give one: a number read as `decimal_u16`
/// reads it, or 1 where the count is left out.
pub open spec fn count_of(s: Seq<char>) -> Option<u16> {
    if s.len() == 0 {
        Some(1)
    } else {
        decimal_u16(s)
    }
}

/// The count `s` gives (see `count_of`).
pub fn parse_count(s: &String) -> (r: Option<u16>)
    ensures
        r == count_of(s@),
{
    if s.as_str().unicode_len() == 0 {
        Some(1)
    } else {
        parse_u16(s)
    }
}

/// The digit `1` reads as 1.
pub proof fn lemma_one_is_one()
    ensures
        decimal_u16(seq!['1']) == Some(1u16),
        count_of(seq!['1']) == Some(1u16),
{
    let one = seq!['1'];
    assert(one.drop_last() =~= Seq::<char>::empty());
    assert(digits_value(one.drop_last()) == 0);
    assert(('1' as nat) == 49);
    assert(is_digit(one[0]));
    assert(all_digits(one));
}

/// The strings of a sequence of `String`s.
pub open spec fn strings_view(v: Seq<String>) -> Seq<Seq<char>> {
    v.map_values(|x: String| x@)
}

/// The pieces of `s` from position `i` on between occurrences of `sep`,
/// where the piece under way holds `cur` so far.
pub open spec fn split_from(s: Seq<char>, sep: char, i: int, cur: Seq<char>) -> Seq<Seq<char>>
    decreases s.len() - i,
{
    if i >= s.len() {
        seq![cur]
    } else if s[i] == sep {
        seq![cur] + split_from(s, sep, i + 1, Seq::empty())
    } else {
        split_from(s, sep, i + 1, cur.push(s[i]))
    }
}

/// The pieces of `s` between occurrences of `sep`, empty ones included, as
/// `str::split` yields them: `"a  b"` split on `' '` is `"a"`, `""`, `"b"`.
pub open spec fn split_on(s: Seq<char>, sep: char) -> Seq<Seq<char>> {
    split_from(s, sep, 0, Seq::empty())
}

/// The pieces of a string from a position on do not depend on what comes
/// before the string.
proof fn lemma_split_from_shift(p: Seq<char>, t: Seq<char>, sep: char, j: int, cur: Seq<char>)
    requires
        0 <= j <= t.len(),
    ensures
        split_from(p + t, sep, p.len() + j, cur) == split_from(t, sep, j, cur),
    decreases t.len() - j,
{
    if j < t.len() {
        assert((p + t)[p.len() + j] == t[j]);
        lemma_split_from_shift(p, t, sep, j + 1, Seq::empty());
        lemma_split_from_shift(p, t, sep, j + 1, cur.push(t[j]));
    }
}

proof fn lemma_split_from_join(s: Seq<char>, t: Seq<char>, sep: char, i: int, cur: Seq<char>)
    requires
        0 <= i <= s.len(),
    ensures
        split_from(s + seq![sep] + t, sep, i, cur) == split_from(s, sep, i, cur) + split_from(
            t,
            sep,
            0,
            Seq::empty(),
        ),
    decreases s.len() - i,
{
    let w = s + seq![sep] + t;
    let rest = split_from(t, sep, 0, Seq::empty());
    if i == s.len() {
        assert(w[i] == sep);
        assert(w == (s + seq![sep]) + t);
        lemma_split_from_shift(s + seq![sep], t, sep, 0, Seq::empty());
    } else {
        assert(w[i] == s[i]);
        if s[i] == sep {
            lemma_split_from_join(s, t, sep, i + 1, Seq::empty());
            assert(seq![cur] + (split_from(s, sep, i + 1, Seq::empty()) + rest) =~= (seq![cur]
                + split_from(s, sep, i + 1, Seq::empty())) + rest);
        } else {
            lemma_split_from_join(s, t, sep, i + 1, cur.push(s[i]));
        }
    }
}

/// Splitting a string joined at a separator gives the pieces of each part,
/// one after the other.
pub proof fn lemma_split_on_join(s: Seq<char>, t: Seq<char>, sep: char)
    ensures
        split_on(s + seq![sep] + t, sep) == split_on(s, sep) + split_on(t, sep),
{
    lemma_split_from_join(s, t, sep, 0, Seq::empty());
}

/// The character sequence of a copy of `s`.
pub fn copy_string(s: &str) -> (r: String)
    ensures
        r@ == s@,
{
    s.to_owned()
}

/// Whether `a` holds the same characters as `b`.
pub fn same_text(a: &String, b: &str) -> (r: bool)
    ensures
        r == (a@ == b@),
{
    let t = copy_string(b);
    *a == t
}

/// The pieces of `s` between occurrences of `sep` (see `split_on`).
pub fn split_string(s: &str, sep: char) -> (r: Vec<String>)
    ensures
        strings_view(r@) == split_on(s@, sep),
{
    let n = s.unicode_len();
    let mut out: Vec<String> = Vec::new();
    let mut cur = String::new();
    let mut i: usize = 0;
    proof {
        assert(strings_view(out@) =~= Seq::<Seq<char>>::empty());
        assert(Seq::<Seq<char>>::empty() + split_from(s@, sep, 0, cur@) =~= split_from(s@, sep, 0, cur@));
    }
    while i < n
        invariant
            n == s@.len(),
            i <= n,
            split_on(s@, sep) == strings_view(out@) + split_from(s@, sep, i as int, cur@),
        decreases n - i,
    {
        let c = s.get_char(i);
        if c == sep {
            let ghost before = out@;
            let piece = cur;
            out.push(piece);
            cur = String::new();
            proof {
                assert(strings_view(before.push(piece)) =~= strings_view(before).push(piece@));
                assert(strings_view(before) + (seq![piece@] + split_from(s@, sep, i + 1, cur@))
                    =~= strings_view(before).push(piece@) + split_from(s@, sep, i + 1, cur@));
            }
        } else {
            push_char(&mut cur, c);
        }
        i += 1;
    }
    let ghost before = out@;
    out.push(cur);
    proof {
        assert(strings_view(before.push(cur)) =~= strings_view(before).push(cur@));
        assert(strings_view(before) + seq![cur@] =~= strings_view(before).push(cur@));
    }
    out
}

/// Whether `s` begins with `p`.
pub open spec fn has_prefix(s: Seq<char>, p: Seq<char>) -> bool {
    p.len() <= s.len() && s.take(p.len() as int) == p
}

/// Whether `s` begins with `p`.
pub fn starts_with(s: &str, p: &str) -> (b: bool)
    ensures
        b == has_prefix(s@, p@),
{
    let n = s.unicode_len();
    let m = p.unicode_len();
    if m > n {
        return false;
    }
    let mut i: usize = 0;
    while i < m
        invariant
            m <= n,
            n == s@.len(),
            m == p@.len(),
            i <= m,
            forall|k: int| 0 <= k < i ==> s@[k] == p@[k],
        decreases m - i,
    {
        if s.get_char(i) != p.get_char(i) {
            assert(s@.take(m as int)[i as int] != p@[i as int]);
            return false;
        }
        i += 1;
    }
    assert(s@.take(m as int) =~= p@);
    true
}

/// `s` with every leading copy of the non-empty `p` taken off, as
/// `str::trim_start_matches` does; unchanged when `p` is empty.
pub open spec fn strip_prefixes(s: Seq<char>, p: Seq<char>) -> Seq<char>
    decreases s.len(),
{
    if p.len() > 0 && has_prefix(s, p) {
        strip_prefixes(s.skip(p.len() as int), p)
    } else {
        s
    }
}

/// `s` with every leading copy of `p` taken off (see `strip_prefixes`).
pub fn trim_start_matches(s: &str, p: &str) -> (r: String)
    ensures
        r@ == strip_prefixes(s@, p@),
{
    let n = s.unicode_len();
    let m = p.unicode_len();
    if m == 0 {
        return s.to_owned();
    }
    let mut off: usize = 0;
    assert(s@.skip(0) =~= s@);
    loop
        invariant
            n == s@.len(),
            m == p@.len(),
            m > 0,
            off <= n,
            strip_prefixes(s@, p@) == strip_prefixes(s@.skip(off as int), p@),
        decreases n - off,
    {
        let rest = s.substring_char(off, n);
        assert(rest@ =~= s@.skip(off as int));
        if starts_with(rest, p) {
            assert(s@.skip(off as int).skip(m as int) =~= s@.skip(off + m));
            off = off + m;
        } else {
            return rest.to_owned();
        }
    }
}

/// Whether `c` is white space in the Unicode sense, as `char::is_whitespace`
/// reads it.
pub open spec fn white_space(c: char) -> bool {
    ||| ('\u{9}' <= c && c <= '\u{d}')
    ||| c == ' '
    ||| c == '\u{85}'
    ||| c == '\u{a0}'
    ||| c == '\u{1680}'
    ||| ('\u{2000}' <= c && c <= '\u{200a}')
    ||| c == '\u{2028}'
    ||| c == '\u{2029}'
    ||| c == '\u{202f}'
    ||| c == '\u{205f}'
    ||| c == '\u{3000}'
}

/// Whether `c` is white space (see `white_space`).
pub fn is_white_space(c: char) -> (b: bool)
    ensures
        b == white_space(c),
{
    ('\u{9}' <= c && c <= '\u{d}') || c == ' ' || c == '\u{85}' || c == '\u{a0}' || c
        == '\u{1680}' || ('\u{2000}' <= c && c <= '\u{200a}') || c == '\u{2028}' || c
        == '\u{2029}' || c == '\u{202f}' || c == '\u{205f}' || c == '\u{3000}'
}

/// The index of the first character at or after `i` that is not white
/// space, or the length of `s`.
pub open spec fn content_start(s: Seq<char>, i: int) -> int
    decreases s.len() - i,
{
    if i >= s.len() {
        s.len() as int
    } else if white_space(s[i]) {
        content_start(s, i + 1)
    } else {
        i
    }
}

/// The end of `s.take(j)` with its trailing white space taken off.
pub open spec fn content_end(s: Seq<char>, j: int) -> int
    decreases j,
{
    if j <= 0 {
        0
    } else if white_space(s[j - 1]) {
        content_end(s, j - 1)
    } else {
        j
    }
}

/// `s` without leading and trailing white space, as `str::trim` gives it.
pub open spec fn trimmed(s: Seq<char>) -> Seq<char> {
    let a = content_start(s, 0);
    if a >= s.len() {
        Seq::empty()
    } else {
        s.subrange(a, content_end(s, s.len() as int))
    }
}

proof fn lemma_content_bounds(s: Seq<char>, i: int, j: int)
    requires
        0 <= i <= s.len(),
        0 <= j <= s.len(),
    ensures
        i <= content_start(s, i) <= s.len(),
        0 <= content_end(s, j) <= j,
        content_start(s, i) < s.len() ==> !white_space(s[content_start(s, i)]),
        content_end(s, j) > 0 ==> !white_space(s[content_end(s, j) - 1]),
    decreases s.len() - i + j,
{
    if i < s.len() && white_space(s[i]) {
        lemma_content_bounds(s, i + 1, j);
    }
    if j > 0 && white_space(s[j - 1]) {
        lemma_content_bounds(s, i, j - 1);
    }
}

/// Where `s` holds something other than white space, that content ends
/// after it starts.
proof fn lemma_content_order(s: Seq<char>, j: int)
    requires
        0 <= j <= s.len(),
        content_start(s, 0) < j,
    ensures
        content_start(s, 0) < content_end(s, j),
    decreases j,
{
    lemma_content_bounds(s, 0, j);
    if j > 0 && white_space(s[j - 1]) {
        lemma_content_bounds(s, 0, 0);
        if content_start(s, 0) == j - 1 {
        } else {
            lemma_content_order(s, j - 1);
        }
    }
}

/// `s` without leading and trailing white space.
pub fn trim(s: &str) -> (r: String)
    ensures
        r@ == trimmed(s@),
{
    let n = s.unicode_len();
    let mut a: usize = 0;
    while a < n && is_white_space(s.get_char(a))
        invariant
            n == s@.len(),
            a <= n,
            content_start(s@, 0) == content_start(s@, a as int),
        decreases n - a,
    {
        a += 1;
    }
    if a >= n {
        return String::new();
    }
    let mut b: usize = n;
    while b > a && is_white_space(s.get_char(b - 1))
        invariant
            n == s@.len(),
            a < n,
            a <= b <= n,
            a == content_start(s@, 0),
            content_end(s@, n as int) == content_end(s@, b as int),
        decreases b,
    {
        b -= 1;
    }
    proof {
        lemma_content_bounds(s@, a as int, b as int);
        if b == a {
            lemma_content_order(s@, n as int);
            lemma_content_bounds(s@, 0, n as int);
            assert(false);
        }
    }
    s.substring_char(a, b).to_owned()
}

} // verus!
