//! Character classes, counting over lines and small output helpers.
use vstd::prelude::*;

use crate::error::{Error, Line, Pos};
use crate::model::{
    advanced, flip, is_escapable, is_name_char, is_toggle, is_ws, lines_of, list_level, repeat,
    run_len, to_marker, unclosed, Marks,
};

verus! {

/// The lines of a document as values.
pub open spec fn doc(lines: &Vec<Vec<char>>) -> Seq<Seq<char>> {
    lines@.map_values(|l: Vec<char>| l@)
}

/// Whether `c` is whitespace: newline, tab, carriage return or space.
pub fn is_whitespace(c: char) -> (r: bool)
    ensures
        r == is_ws(c),
{
    c == '\n' || c == '\t' || c == '\r' || c == ' '
}

/// Whether `c` may stand in a block's name.
pub fn is_valid_ch(c: char) -> (r: bool)
    ensures
        r == is_name_char(c),
{
    ('A' <= c && c <= 'Z') || ('a' <= c && c <= 'z') || c == '_'
}

/// Whether a `\` may escape `c`.
pub fn is_escapable_ch(c: char) -> (r: bool)
    ensures
        r == is_escapable(c),
{
    c == '*' || c == '/' || c == '_' || c == '~' || c == '\\' || c == '[' || c == ']'
}

/// Splits the source at each newline.
pub fn split_lines(s: &str) -> (r: Vec<Vec<char>>)
    ensures
        doc(&r) == lines_of(s@),
{
    let mut lines: Vec<Vec<char>> = Vec::new();
    let mut cur: Vec<char> = Vec::new();
    for c in it: s.chars()
        invariant
            it.seq() == s@,
            doc(&lines).push(cur@) == lines_of(s@.take(it.index() as int)),
    {
        let ghost seen = s@.take(it.index() as int);
        let ghost now = s@.take(it.index() + 1);
        proof {
            assert(now.drop_last() =~= seen);
            assert(now.last() == c);
        }
        if c == '\n' {
            let full = cur;
            lines.push(full);
            cur = Vec::new();
            assert(doc(&lines).push(cur@) =~= lines_of(now));
        } else {
            cur.push(c);
            assert(doc(&lines).push(cur@) =~= lines_of(now));
        }
    }
    assert(s@.take(s@.len() as int) =~= s@);
    lines.push(cur);
    lines
}

/// The number of characters other than `m` in `s` from `i` on, up to the
/// first `m`.
pub fn count_to_marker(s: &Vec<char>, i: usize, m: char) -> (r: usize)
    ensures
        r == to_marker(s@, i as int, m),
        i < s@.len() ==> i + r <= s@.len(),
{
    let mut j = i;
    while j < s.len() && s[j] != m
        invariant
            i <= j,
            i < s@.len() ==> j <= s@.len(),
            to_marker(s@, i as int, m) == (j - i) + to_marker(s@, j as int, m),
        decreases s@.len() - j,
    {
        j += 1;
    }
    j - i
}

/// The number of characters `m` in `s` from `i` on.
pub fn count_run(s: &Vec<char>, i: usize, m: char) -> (r: usize)
    ensures
        r == run_len(s@, i as int, m),
        r > 0 ==> i + r <= s@.len(),
{
    let mut j = i;
    while j < s.len() && s[j] == m
        invariant
            i <= j,
            j > i ==> j <= s@.len(),
            run_len(s@, i as int, m) == (j - i) + run_len(s@, j as int, m),
        decreases s@.len() - j,
    {
        j += 1;
    }
    j - i
}

/// The list depth of `s` from `i` on.
pub fn parse_list_determine_depth(s: &Vec<char>, i: usize, m: char) -> (r: usize)
    ensures
        r == list_level(s@, i as int, m),
{
    if i >= s.len() {
        return 0;
    }
    let w = count_to_marker(s, i, m);
    count_run(s, i + w, m)
}

/// Appends `k` copies of `t` to `out`.
pub fn push_repeat(out: &mut String, t: &str, k: usize)
    ensures
        final(out)@ == old(out)@ + repeat(t@, k as nat),
{
    let mut i: usize = 0;
    while i < k
        invariant
            i <= k,
            out@ == old(out)@ + repeat(t@, i as nat),
        decreases k - i,
    {
        out.append(t);
        proof {
            assert(repeat(t@, (i + 1) as nat) == repeat(t@, i as nat) + t@);
            assert(old(out)@ + repeat(t@, i as nat) + t@ =~= old(out)@ + repeat(t@, (i + 1) as nat));
        }
        i += 1;
    }
}

/// Whether `(nl, np)` lies strictly after `(l, p)` in `lines`.
pub fn is_advanced(lines: &Vec<Vec<char>>, l: Line, p: Pos, nl: Line, np: Pos) -> (r: bool)
    ensures
        r == advanced(doc(lines), l as int, p as int, nl as int, np as int),
{
    let n = lines.len();
    let ll: usize = if l < n { n - l } else { 0 };
    let nll: usize = if nl < n { n - nl } else { 0 };
    let cl: usize = if l < n && p < lines[l].len() { lines[l].len() - p } else { 0 };
    let ncl: usize = if nl < n && np < lines[nl].len() { lines[nl].len() - np } else { 0 };
    nll < ll || (nll == ll && ncl < cl)
}

/// The first toggle still open, as an error.
pub fn check_closed(m: &Marks) -> (r: Result<(), Error>)
    ensures
        match unclosed(*m) {
            Some(e) => r == Err::<(), Error>(e),
            None => r is Ok,
        },
{
    match (m.bold, m.italic, m.underline, m.strike) {
        (Some((l, p)), _, _, _) => Err(Error::UnclosedBold(l, p)),
        (None, Some((l, p)), _, _) => Err(Error::UnclosedItalic(l, p)),
        (None, None, Some((l, p)), _) => Err(Error::UnclosedUnderline(l, p)),
        (None, None, None, Some((l, p))) => Err(Error::UnclosedStrikethrough(l, p)),
        (None, None, None, None) => Ok(()),
    }
}

/// Flips the toggle of `c`, opened or closed at `(l, p)`, and writes its tag.
pub fn flip_mark(m: Marks, c: char, l: Line, p: Pos, out: &mut String) -> (r: Marks)
    requires
        is_toggle(c),
    ensures
        r == flip(m, c, l, p).0,
        final(out)@ == old(out)@ + flip(m, c, l, p).1,
{
    let mut r = m;
    if c == '*' {
        if m.bold.is_some() {
            r.bold = None;
            out.append("</b>");
        } else {
            r.bold = Some((l, p));
            out.append("<b>");
        }
    } else if c == '/' {
        if m.italic.is_some() {
            r.italic = None;
            out.append("</i>");
        } else {
            r.italic = Some((l, p));
            out.append("<i>");
        }
    } else if c == '_' {
        if m.underline.is_some() {
            r.underline = None;
            out.append("</u>");
        } else {
            r.underline = Some((l, p));
            out.append("<u>");
        }
    } else {
        if m.strike.is_some() {
            r.strike = None;
            out.append("</s>");
        } else {
            r.strike = Some((l, p));
            out.append("<s>");
        }
    }
    r
}

} // verus!
