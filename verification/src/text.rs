//! Text as sequences of characters: conversion between strings and character
//! vectors, whitespace, prefixes, trimming and splitting into lines.

use vstd::prelude::*;
use vstd::std_specs::iter::IteratorSpec;

verus! {

/// Appends one character to a string (`String::push`): the new contents are
/// the old ones followed by `c`.
#[verifier::external_body]
fn push_char(s: &mut String, c: char)
    ensures
        final(s)@ == old(s)@.push(c),
{
    s.push(c)
}

/// The characters of `s`, in order.
pub fn to_chars(s: &str) -> (chars: Vec<char>)
    ensures
        chars@ == s@,
{
    let mut chars: Vec<char> = Vec::new();
    let mut it = s.chars();
    let ghost mut seen: Seq<char> = Seq::empty();
    loop
        invariant
            it.obeys_prophetic_iter_laws(),
            it.decrease() is Some,
            chars@ == seen,
            seen + it.remaining() == s@,
        ensures
            chars@ == s@,
        decreases it.decrease()->0,
    {
        broadcast use vstd::string::group_string_axioms;
        match it.next() {
            Some(c) => {
                proof {
                    seen = seen.push(c);
                }
                chars.push(c);
            },
            None => {
                break;
            },
        }
    }
    chars
}

/// The string made of the characters of `chars`, in order.
pub fn from_chars(chars: &Vec<char>) -> (s: String)
    ensures
        s@ == chars@,
{
    let mut s = String::new();
    let mut i: usize = 0;
    while i < chars.len()
        invariant
            i <= chars.len(),
            s@ == chars@.take(i as int),
        decreases chars.len() - i,
    {
        push_char(&mut s, chars[i]);
        i += 1;
    }
    s
}

/// Whether `c` is white space: the characters that carry the Unicode property
/// `White_Space`.
pub open spec fn is_space(c: char) -> bool {
    let n = c as u32;
    ||| 0x09 <= n <= 0x0d
    ||| n == 0x20
    ||| n == 0x85
    ||| n == 0xa0
    ||| n == 0x1680
    ||| 0x2000 <= n <= 0x200a
    ||| n == 0x2028
    ||| n == 0x2029
    ||| n == 0x202f
    ||| n == 0x205f
    ||| n == 0x3000
}

/// `s` without the white space it begins with.
pub open spec fn trim_start(s: Seq<char>) -> Seq<char>
    decreases s.len(),
{
    if s.len() > 0 && is_space(s[0]) {
        trim_start(s.drop_first())
    } else {
        s
    }
}

/// `s` without the white space it ends with.
pub open spec fn trim_end(s: Seq<char>) -> Seq<char>
    decreases s.len(),
{
    if s.len() > 0 && is_space(s.last()) {
        trim_end(s.drop_last())
    } else {
        s
    }
}

/// `s` without the white space at either end.
pub open spec fn trim(s: Seq<char>) -> Seq<char> {
    trim_end(trim_start(s))
}

/// Tests a character for white space.
pub fn is_whitespace(c: char) -> (b: bool)
    ensures
        b == is_space(c),
{
    let n: u32 = c as u32;
    (0x09 <= n && n <= 0x0d) || n == 0x20 || n == 0x85 || n == 0xa0 || n == 0x1680 || (0x2000 <= n
        && n <= 0x200a) || n == 0x2028 || n == 0x2029 || n == 0x202f || n == 0x205f || n == 0x3000
}

/// The part of `text` between `from` and `to`, without the white space at
/// either end.
pub fn trimmed(text: &Vec<char>, from: usize, to: usize) -> (out: Vec<char>)
    requires
        from <= to <= text.len(),
    ensures
        out@ == trim(text@.subrange(from as int, to as int)),
{
    let mut a: usize = from;
    while a < to && is_whitespace(text[a])
        invariant
            from <= a <= to <= text.len(),
            trim_start(text@.subrange(from as int, to as int)) == trim_start(
                text@.subrange(a as int, to as int),
            ),
        decreases to - a,
    {
        proof {
            let cur = text@.subrange(a as int, to as int);
            assert(cur[0] == text@[a as int]);
            assert(cur.drop_first() =~= text@.subrange(a + 1, to as int));
        }
        a += 1;
    }
    proof {
        let cur = text@.subrange(a as int, to as int);
        if a < to {
            assert(cur[0] == text@[a as int]);
        }
        assert(trim_start(cur) == cur);
    }
    let mut b: usize = to;
    while a < b && is_whitespace(text[b - 1])
        invariant
            a <= b <= to <= text.len(),
            trim_end(text@.subrange(a as int, to as int)) == trim_end(
                text@.subrange(a as int, b as int),
            ),
        decreases b - a,
    {
        proof {
            let cur = text@.subrange(a as int, b as int);
            assert(cur.last() == text@[b - 1]);
            assert(cur.drop_last() =~= text@.subrange(a as int, b - 1));
        }
        b -= 1;
    }
    proof {
        let cur = text@.subrange(a as int, b as int);
        if a < b {
            assert(cur.last() == text@[b - 1]);
        }
        assert(trim_end(cur) == cur);
    }
    let mut out: Vec<char> = Vec::new();
    let mut i: usize = a;
    while i < b
        invariant
            a <= i <= b <= text.len(),
            out@ == text@.subrange(a as int, i as int),
        decreases b - i,
    {
        out.push(text[i]);
        i += 1;
    }
    out
}

/// Tests whether `line` begins with `prefix` followed by `tail`.
pub fn starts_with(line: &Vec<char>, prefix: &Vec<char>, tail: &Vec<char>) -> (b: bool)
    ensures
        b == (prefix@ + tail@).is_prefix_of(line@),
{
    let n = prefix.len();
    let m = tail.len();
    if line.len() < n || line.len() - n < m {
        return false;
    }
    let mut i: usize = 0;
    while i < n
        invariant
            i <= n,
            n == prefix.len(),
            n + m <= line.len(),
            line@.take(i as int) == prefix@.take(i as int),
        decreases n - i,
    {
        if line[i] != prefix[i] {
            assert(line@[i as int] != (prefix@ + tail@)[i as int]);
            return false;
        }
        assert(line@.take(i + 1) =~= line@.take(i as int).push(line@[i as int]));
        assert(prefix@.take(i + 1) =~= prefix@.take(i as int).push(prefix@[i as int]));
        i += 1;
    }
    let mut j: usize = 0;
    while j < m
        invariant
            j <= m,
            n == prefix.len(),
            m == tail.len(),
            n + m <= line.len(),
            line@.take(n as int) == prefix@,
            line@.subrange(n as int, n + j) == tail@.take(j as int),
        decreases m - j,
    {
        if line[n + j] != tail[j] {
            assert(line@[n + j] != (prefix@ + tail@)[n + j]);
            return false;
        }
        assert(line@.subrange(n as int, n + j + 1) =~= line@.subrange(n as int, n + j).push(
            line@[n + j],
        ));
        assert(tail@.take(j + 1) =~= tail@.take(j as int).push(tail@[j as int]));
        j += 1;
    }
    assert(line@.subrange(0, n + m) =~= line@.take(n as int) + line@.subrange(n as int, n + m));
    true
}

/// The lines of `s`: the pieces between its line feeds. A text with `n` line
/// feeds has `n + 1` lines; the last one is empty where the text ends with a
/// line feed.
pub open spec fn lines_of(s: Seq<char>) -> Seq<Seq<char>>
    decreases s.len(),
{
    if s.len() == 0 {
        seq![Seq::empty()]
    } else {
        let before = lines_of(s.drop_last());
        if s.last() == '\n' {
            before.push(Seq::empty())
        } else {
            before.update(before.len() - 1, before.last().push(s.last()))
        }
    }
}

/// The text of each string of `v`.
pub open spec fn strings(v: Seq<String>) -> Seq<Seq<char>> {
    v.map_values(|s: String| s@)
}

/// The contents of each vector of `v`.
pub open spec fn texts(v: Seq<Vec<char>>) -> Seq<Seq<char>> {
    v.map_values(|x: Vec<char>| x@)
}

/// Splits `text` at its line feeds.
pub fn split_lines(text: &Vec<char>) -> (lines: Vec<Vec<char>>)
    ensures
        texts(lines@) == lines_of(text@),
{
    let mut lines: Vec<Vec<char>> = Vec::new();
    let mut cur: Vec<char> = Vec::new();
    let mut i: usize = 0;
    while i < text.len()
        invariant
            i <= text.len(),
            texts(lines@).push(cur@) == lines_of(text@.take(i as int)),
        decreases text.len() - i,
    {
        let c = text[i];
        proof {
            let next = text@.take(i + 1);
            assert(next.drop_last() =~= text@.take(i as int));
            assert(next.last() == c);
        }
        if c == '\n' {
            lines.push(cur);
            cur = Vec::new();
            assert(texts(lines@).push(cur@) =~= lines_of(text@.take(i + 1)));
        } else {
            cur.push(c);
            assert(texts(lines@).push(cur@) =~= lines_of(text@.take(i + 1)));
        }
        i += 1;
    }
    assert(text@.take(i as int) =~= text@);
    lines.push(cur);
    assert(texts(lines@) =~= lines_of(text@));
    lines
}

/// The pieces one after another, with `delimiter` between each two of them.
pub open spec fn joined(pieces: Seq<Seq<char>>, delimiter: Seq<char>) -> Seq<char>
    decreases pieces.len(),
{
    if pieces.len() == 0 {
        Seq::empty()
    } else if pieces.len() == 1 {
        pieces[0]
    } else {
        joined(pieces.drop_last(), delimiter) + delimiter + pieces.last()
    }
}

/// Splitting loses nothing: a text has at least one line, no line holds a
/// line feed, and the lines joined by line feeds are the text again.
pub proof fn lemma_lines_join(s: Seq<char>)
    ensures
        lines_of(s).len() >= 1,
        forall|i: int, j: int|
            0 <= i < lines_of(s).len() && 0 <= j < lines_of(s)[i].len() ==> lines_of(s)[i][j]
                != '\n',
        joined(lines_of(s), seq!['\n']) == s,
    decreases s.len(),
{
    let feed = seq!['\n'];
    if s.len() == 0 {
        assert(joined(lines_of(s), feed) =~= s);
    } else {
        let shorter = s.drop_last();
        let before = lines_of(shorter);
        lemma_lines_join(shorter);
        let lines = lines_of(s);
        assert(s =~= shorter.push(s.last()));
        if s.last() == '\n' {
            assert(lines.drop_last() =~= before);
            assert(joined(lines, feed) =~= shorter + feed + Seq::<char>::empty());
        } else {
            let grown = before.last().push(s.last());
            assert(lines.last() == grown);
            if before.len() == 1 {
                assert(joined(lines, feed) =~= joined(before, feed).push(s.last()));
            } else {
                assert(lines.drop_last() =~= before.drop_last());
                assert(joined(lines, feed) =~= (joined(before.drop_last(), feed) + feed
                    + before.last()).push(s.last()));
            }
        }
    }
}

/// What trimming leaves: a part of the text that neither begins nor ends
/// with white space, with nothing but white space before and after it.
pub proof fn lemma_trim_bounds(s: Seq<char>) -> (cut: (int, int))
    ensures
        0 <= cut.0 <= cut.1 <= s.len(),
        trim(s) == s.subrange(cut.0, cut.1),
        forall|i: int| 0 <= i < cut.0 ==> is_space(#[trigger] s[i]),
        forall|i: int| cut.1 <= i < s.len() ==> is_space(#[trigger] s[i]),
        cut.0 < cut.1 ==> !is_space(s[cut.0]) && !is_space(s[cut.1 - 1]),
{
    let from = lemma_trim_start_bound(s);
    let rest = s.subrange(from, s.len() as int);
    let to = lemma_trim_end_bound(rest);
    assert(rest.subrange(0, to) =~= s.subrange(from, from + to));
    assert forall|i: int| from + to <= i < s.len() implies is_space(#[trigger] s[i]) by {
        assert(rest[i - from] == s[i]);
    }
    if 0 < to {
        assert(rest[0] == s[from]);
        assert(rest[to - 1] == s[from + to - 1]);
    }
    (from, from + to)
}

/// Trimming at the start cuts off a run of white space and stops at the
/// first character that is none.
proof fn lemma_trim_start_bound(s: Seq<char>) -> (from: int)
    ensures
        0 <= from <= s.len(),
        trim_start(s) == s.subrange(from, s.len() as int),
        forall|i: int| 0 <= i < from ==> is_space(#[trigger] s[i]),
        from < s.len() ==> !is_space(s[from]),
    decreases s.len(),
{
    if s.len() > 0 && is_space(s[0]) {
        let rest = s.drop_first();
        let inner = lemma_trim_start_bound(rest);
        assert(rest.subrange(inner, rest.len() as int) =~= s.subrange(inner + 1, s.len() as int));
        assert forall|i: int| 0 <= i < inner + 1 implies is_space(#[trigger] s[i]) by {
            if i > 0 {
                assert(rest[i - 1] == s[i]);
            }
        }
        if inner + 1 < s.len() {
            assert(rest[inner] == s[inner + 1]);
        }
        inner + 1
    } else {
        assert(s.subrange(0, s.len() as int) =~= s);
        0
    }
}

/// Trimming at the end cuts off a run of white space and stops at the last
/// character that is none.
proof fn lemma_trim_end_bound(s: Seq<char>) -> (to: int)
    ensures
        0 <= to <= s.len(),
        trim_end(s) == s.subrange(0, to),
        forall|i: int| to <= i < s.len() ==> is_space(#[trigger] s[i]),
        0 < to ==> !is_space(s[to - 1]),
    decreases s.len(),
{
    if s.len() > 0 && is_space(s.last()) {
        let rest = s.drop_last();
        let inner = lemma_trim_end_bound(rest);
        assert(rest.subrange(0, inner) =~= s.subrange(0, inner));
        assert forall|i: int| inner <= i < s.len() implies is_space(#[trigger] s[i]) by {
            if i < s.len() - 1 {
                assert(rest[i] == s[i]);
            }
        }
        if 0 < inner {
            assert(rest[inner - 1] == s[inner - 1]);
        }
        inner
    } else {
        assert(s.subrange(0, s.len() as int) =~= s);
        s.len() as int
    }
}

} // verus!
