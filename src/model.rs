//! The markup's meaning: what compiling a document yields, stated as
//! recursive functions over its lines.
use vstd::prelude::*;

use crate::context::{plugin_names, Context, Plugin};
use crate::error::{Error, Line, Pos};

verus! {

/// The message of the error raised when a block handler hands back a cursor
/// that does not lie after the one it was given.
pub const STALLED: &'static str = "A block handler did not move past the text it was given.";

/// How a step of compilation ends.
pub enum Outcome<T> {
    /// The step succeeded with this result.
    Done(T),
    /// The step failed with this error.
    Failed(Error),
    /// A plugin that states nothing of its result took over; what follows is
    /// up to it.
    Deferred,
}

/// Which formatting toggles are open, each with where it was opened.
#[derive(Clone, Copy, Debug)]
pub struct Marks {
    pub bold: Option<(Line, Pos)>,
    pub italic: Option<(Line, Pos)>,
    pub underline: Option<(Line, Pos)>,
    pub strike: Option<(Line, Pos)>,
}

/// The state of a scan through one line of text.
#[derive(Clone, Copy)]
pub struct Scan {
    /// The open formatting toggles.
    pub marks: Marks,
    /// No character but whitespace has been seen yet on this call.
    pub first: bool,
    /// The last character seen on this call outside nested blocks.
    pub last: char,
    /// The last character seen was an unescaped `\`.
    pub escaped: bool,
}

/// No toggle open.
pub open spec fn no_marks() -> Marks {
    Marks { bold: None, italic: None, underline: None, strike: None }
}

impl Marks {
    /// No toggle open: the state at the start of a block's text.
    pub fn none() -> (r: Marks)
        ensures
            r == no_marks(),
    {
        Marks { bold: None, italic: None, underline: None, strike: None }
    }
}

/// The state in which each call of `text_line` starts its scan, with the
/// toggles left open by the lines before.
pub open spec fn scan_start(marks: Marks) -> Scan {
    Scan { marks, first: true, last: ' ', escaped: false }
}

/// Newline, tab, carriage return and space.
pub open spec fn is_ws(c: char) -> bool {
    c == '\n' || c == '\t' || c == '\r' || c == ' '
}

/// The characters a block's name may hold: ASCII letters and `_`.
pub open spec fn is_name_char(c: char) -> bool {
    ('A' <= c && c <= 'Z') || ('a' <= c && c <= 'z') || c == '_'
}

/// The characters that a `\` may escape.
pub open spec fn is_escapable(c: char) -> bool {
    c == '*' || c == '/' || c == '_' || c == '~' || c == '\\' || c == '[' || c == ']'
}

/// The characters that toggle bold, italic, underline and strikethrough.
pub open spec fn is_toggle(c: char) -> bool {
    c == '*' || c == '/' || c == '_' || c == '~'
}

/// The character that marks a list line: `=` for ordered lists, `+` for
/// unordered ones.
pub open spec fn marker(ordered: bool) -> char {
    if ordered { '=' } else { '+' }
}

/// The tag that opens one list level.
pub open spec fn open_tag(ordered: bool) -> Seq<char> {
    if ordered { "<ol>"@ } else { "<ul>"@ }
}

/// The tag that closes one list level.
pub open spec fn close_tag(ordered: bool) -> Seq<char> {
    if ordered { "</ol>"@ } else { "</ul>"@ }
}

/// `t` written `k` times.
pub open spec fn repeat(t: Seq<char>, k: nat) -> Seq<char>
    decreases k,
{
    if k == 0 { Seq::empty() } else { repeat(t, (k - 1) as nat) + t }
}

/// The number of name characters from `i` on.
pub open spec fn name_len(s: Seq<char>, i: int) -> nat
    decreases s.len() - i,
{
    if 0 <= i < s.len() && is_name_char(s[i]) { 1 + name_len(s, i + 1) } else { 0 }
}

/// The number of characters `m` from `i` on.
pub open spec fn run_len(s: Seq<char>, i: int, m: char) -> nat
    decreases s.len() - i,
{
    if 0 <= i < s.len() && s[i] == m { 1 + run_len(s, i + 1, m) } else { 0 }
}

/// The number of characters other than `m` from `i` on, up to the first `m`.
pub open spec fn to_marker(s: Seq<char>, i: int, m: char) -> nat
    decreases s.len() - i,
{
    if 0 <= i < s.len() && s[i] != m { 1 + to_marker(s, i + 1, m) } else { 0 }
}

/// The list depth of the text of `s` from `i` on: the length of the run of
/// `m` that starts at the first `m`, or 0 where no `m` stands there.
pub open spec fn list_level(s: Seq<char>, i: int, m: char) -> nat {
    run_len(s, i + to_marker(s, i, m), m)
}

/// The source split at each newline; the newlines themselves are dropped.
pub open spec fn lines_of(s: Seq<char>) -> Seq<Seq<char>>
    decreases s.len(),
{
    if s.len() == 0 {
        seq![Seq::empty()]
    } else {
        let prev = lines_of(s.drop_last());
        if s.last() == '\n' {
            prev.push(Seq::empty())
        } else {
            prev.update(prev.len() - 1, prev.last().push(s.last()))
        }
    }
}

/// How many lines are left from `line` on.
pub open spec fn lines_left(d: Seq<Seq<char>>, line: int) -> nat {
    if 0 <= line < d.len() { (d.len() - line) as nat } else { 0 }
}

/// How many characters are left on `line` from `pos` on.
pub open spec fn chars_left(d: Seq<Seq<char>>, line: int, pos: int) -> nat {
    if 0 <= line < d.len() && pos < d[line].len() { (d[line].len() - pos) as nat } else { 0 }
}

/// The cursor `(nl, np)` lies strictly after `(l, p)`, measured by what is left
/// of the document.
pub open spec fn advanced(d: Seq<Seq<char>>, l: int, p: int, nl: int, np: int) -> bool {
    ||| lines_left(d, nl) < lines_left(d, l)
    ||| (lines_left(d, nl) == lines_left(d, l) && chars_left(d, nl, np) < chars_left(d, l, p))
}

/// The error for a block handler that did not move past `(l, p)`.
pub open spec fn stalled(l: int, p: int) -> Error {
    Error::OtherError(l as Line, p as Pos, STALLED)
}

/// The first formatting toggle still open, in the order bold, italic,
/// underline, strikethrough, as an error.
pub open spec fn unclosed(m: Marks) -> Option<Error> {
    match (m.bold, m.italic, m.underline, m.strike) {
        (Some((l, p)), _, _, _) => Some(Error::UnclosedBold(l, p)),
        (None, Some((l, p)), _, _) => Some(Error::UnclosedItalic(l, p)),
        (None, None, Some((l, p)), _) => Some(Error::UnclosedUnderline(l, p)),
        (None, None, None, Some((l, p))) => Some(Error::UnclosedStrikethrough(l, p)),
        (None, None, None, None) => None,
    }
}

/// Flipping the toggle of `c` at `(l, p)`: the new marks and the tag written.
pub open spec fn flip(m: Marks, c: char, l: Line, p: Pos) -> (Marks, Seq<char>) {
    if c == '*' {
        if m.bold is Some { (Marks { bold: None, ..m }, "</b>"@) } else { (Marks { bold: Some((l, p)), ..m }, "<b>"@) }
    } else if c == '/' {
        if m.italic is Some { (Marks { italic: None, ..m }, "</i>"@) } else { (Marks { italic: Some((l, p)), ..m }, "<i>"@) }
    } else if c == '_' {
        if m.underline is Some { (Marks { underline: None, ..m }, "</u>"@) } else { (Marks { underline: Some((l, p)), ..m }, "<u>"@) }
    } else {
        if m.strike is Some { (Marks { strike: None, ..m }, "</s>"@) } else { (Marks { strike: Some((l, p)), ..m }, "<s>"@) }
    }
}

/// What closing the lists left open by the line before `line` appends to
/// `out`: where the text from `(line, pos)` on is no list line of the same
/// kind, one closing tag for each level of the line before.
pub open spec fn close_list(d: Seq<Seq<char>>, line: int, pos: int, out: Seq<char>, ordered: bool) -> Seq<char> {
    let m = marker(ordered);
    if 1 <= line && line - 1 < d.len()
        && (line >= d.len() || list_level(d[line], pos, m) == 0) {
        out + repeat(close_tag(ordered), list_level(d[line - 1], 0, m))
    } else {
        out
    }
}

/// The end of a line's scan: an empty line becomes a paragraph break, and a
/// line that does not end in whitespace is joined to the next by one space.
/// The open toggles go on to the next line.
pub open spec fn end_of_line(d: Seq<Seq<char>>, line: int, out: Seq<char>, st: Scan)
    -> Outcome<(bool, int, int, Seq<char>, Option<bool>, Marks)>
{
    let o = if d[line].len() == 0 {
        out + "<br><br>"@
    } else if !is_ws(st.last) {
        out.push(' ')
    } else {
        out
    };
    Outcome::Done((false, line + 1, 0, o, None, st.marks))
}

/// The first index from `k` on at which `name` stands in `names`.
pub open spec fn first_index(names: Seq<Seq<char>>, name: Seq<char>, k: int) -> Option<int>
    decreases names.len() - k,
{
    if k < 0 || k >= names.len() {
        None
    } else if names[k] == name {
        Some(k)
    } else {
        first_index(names, name, k + 1)
    }
}

/// A block, read from just after its `[`: its name, then either what the
/// first plugin registered under that name makes of the block from just after
/// the name, or a `<div>` holding its text.
pub open spec fn block<P: Plugin>(d: Seq<Seq<char>>, ctx: &Context<P>, line: int, pos: int, out: Seq<char>)
    -> Outcome<(int, int, Seq<char>)>
    decreases lines_left(d, line), chars_left(d, line, pos), 4nat,
{
    if !(0 <= line < d.len()) {
        Outcome::Failed(Error::BlockNameNoEnd(line as Line, pos as Pos))
    } else {
        let s = d[line];
        let q = pos + name_len(s, pos);
        if q >= s.len() && q == pos {
            Outcome::Failed(Error::BlockNameNoEnd(line as Line, pos as Pos))
        } else if q < s.len() && !is_ws(s[q]) && s[q] != ']' {
            Outcome::Failed(Error::BadBlockName(line as Line, q as Pos))
        } else {
            let name = s.subrange(pos, q);
            let start = if q < s.len() && is_ws(s[q]) { q + 1 } else { q };
            match first_index(plugin_names(ctx), name, 0) {
                Some(i) => ctx.plugins@[i].1.expansion(d, line, start, out, ctx),
                None => {
                    let o = out + "<div class='"@ + name + "'>"@;
                    match block_body(d, ctx, line, start, o, line, None, no_marks()) {
                        Outcome::Done((l, p, o2)) => Outcome::Done((l, p, o2 + "</div>"@)),
                        Outcome::Failed(e) => Outcome::Failed(e),
                        Outcome::Deferred => Outcome::Deferred,
                    }
                },
            }
        }
    }
}

/// The text of a block, one call of `text_line` after the other, until one
/// meets the block's `]`. The toggles open at the end of one line stay open
/// on the next.
pub open spec fn block_body<P: Plugin>(
    d: Seq<Seq<char>>,
    ctx: &Context<P>,
    line: int,
    pos: int,
    out: Seq<char>,
    start: int,
    last_list: Option<bool>,
    marks: Marks,
) -> Outcome<(int, int, Seq<char>)>
    decreases lines_left(d, line), chars_left(d, line, pos), 3nat,
{
    match text_line(d, ctx, line, pos, out, true, start, last_list, marks) {
        Outcome::Done((closed, nl, np, o, nlast, nmarks)) => {
            if closed {
                Outcome::Done((nl, np, o))
            } else if advanced(d, line, pos, nl, np) {
                block_body(d, ctx, nl, np, o, start, nlast, nmarks)
            } else {
                Outcome::Failed(stalled(line, pos))
            }
        },
        Outcome::Failed(e) => Outcome::Failed(e),
        Outcome::Deferred => Outcome::Deferred,
    }
}

/// One line of text from `(line, pos)`, after closing the lists that the line
/// before left open, with the toggles `marks` still open. The result tells
/// whether the block's `]` was met, where to go on, the output, the kind of
/// list left open and the toggles still open.
pub open spec fn text_line<P: Plugin>(
    d: Seq<Seq<char>>,
    ctx: &Context<P>,
    line: int,
    pos: int,
    out: Seq<char>,
    allow_lists: bool,
    start: int,
    last_list: Option<bool>,
    marks: Marks,
) -> Outcome<(bool, int, int, Seq<char>, Option<bool>, Marks)>
    decreases lines_left(d, line), chars_left(d, line, pos), 2nat,
{
    let o = match last_list {
        Some(ordered) => close_list(d, line, pos, out, ordered),
        None => out,
    };
    if !(0 <= line < d.len()) {
        Outcome::Failed(Error::BlockNoEnd(start as Line, 0))
    } else {
        scan(d, ctx, line, pos, o, allow_lists, start, scan_start(marks))
    }
}

/// The scan of a line, character by character, from `(line, pos)` in state
/// `st`.
pub open spec fn scan<P: Plugin>(
    d: Seq<Seq<char>>,
    ctx: &Context<P>,
    line: int,
    pos: int,
    out: Seq<char>,
    allow_lists: bool,
    start: int,
    st: Scan,
) -> Outcome<(bool, int, int, Seq<char>, Option<bool>, Marks)>
    decreases lines_left(d, line), chars_left(d, line, pos), 1nat,
{
    if !(0 <= line < d.len()) {
        Outcome::Failed(Error::BlockNoEnd(start as Line, 0))
    } else if pos >= d[line].len() {
        end_of_line(d, line, out, st)
    } else {
        let c = d[line][pos];
        let next = pos + 1;
        if st.escaped {
            if is_escapable(c) {
                scan(d, ctx, line, next, out.push(c), allow_lists, start,
                    Scan { first: false, last: c, escaped: false, ..st })
            } else {
                Outcome::Failed(Error::StrayBackslash(line as Line, pos as Pos))
            }
        } else if c == '[' {
            match block(d, ctx, line, next, out) {
                Outcome::Done((nl, np, o)) => {
                    if advanced(d, line, pos, nl, np) {
                        scan(d, ctx, nl, np, o, allow_lists, start, Scan { first: false, ..st })
                    } else {
                        Outcome::Failed(stalled(line, pos))
                    }
                },
                Outcome::Failed(e) => Outcome::Failed(e),
                Outcome::Deferred => Outcome::Deferred,
            }
        } else if c == ']' {
            match unclosed(st.marks) {
                Some(e) => Outcome::Failed(e),
                None => Outcome::Done((true, line, next, out, None, st.marks)),
            }
        } else if (c == '+' || c == '=') && st.first {
            if !allow_lists {
                Outcome::Failed(Error::RecursiveList(line as Line, pos as Pos))
            } else {
                open_list(d, ctx, line, pos, out, c == '=', start, st.marks)
            }
        } else if is_toggle(c) {
            let (m, tag) = flip(st.marks, c, line as Line, pos as Pos);
            scan(d, ctx, line, next, out + tag, allow_lists, start,
                Scan { marks: m, first: false, last: c, escaped: false })
        } else if c == '\\' {
            scan(d, ctx, line, next, out, allow_lists, start,
                Scan { first: false, last: c, escaped: true, ..st })
        } else if c == ' ' {
            let o = if is_ws(st.last) { out } else { out.push(' ') };
            scan(d, ctx, line, next, o, allow_lists, start, Scan { last: c, ..st })
        } else {
            scan(d, ctx, line, next, out.push(c), allow_lists, start,
                Scan { first: st.first && is_ws(c), last: c, ..st })
        }
    }
}

/// The tags that move from the list depth of the line before, `prev`, to the
/// depth `cur`: with no list before, `cur` lists open; one level deeper, one
/// opens; otherwise `prev - cur` close.
pub open spec fn depth_tags(prev: nat, cur: nat, ordered: bool) -> Seq<char> {
    if prev == 0 {
        repeat(open_tag(ordered), cur)
    } else if cur == prev + 1 {
        open_tag(ordered)
    } else {
        repeat(close_tag(ordered), (prev - cur) as nat)
    }
}

/// A list line whose marker run starts at the first marker at or after `pos`:
/// the list tags, then the rest of the line as one `<li>` item in which no
/// list may start. The toggles `marks` stay open into the item.
pub open spec fn open_list<P: Plugin>(
    d: Seq<Seq<char>>,
    ctx: &Context<P>,
    line: int,
    pos: int,
    out: Seq<char>,
    ordered: bool,
    start: int,
    marks: Marks,
) -> Outcome<(bool, int, int, Seq<char>, Option<bool>, Marks)>
    decreases lines_left(d, line), chars_left(d, line, pos), 0nat,
{
    if !(0 <= line < d.len()) {
        Outcome::Failed(Error::BlockNoEnd(start as Line, 0))
    } else {
        let s = d[line];
        let m = marker(ordered);
        let j = pos + to_marker(s, pos, m);
        let cur = run_len(s, j, m);
        let prev = if line == 0 { 0 } else { list_level(d[line - 1], 0, m) };
        if cur == 0 {
            Outcome::Failed(Error::RecursiveList(line as Line, pos as Pos))
        } else if prev > 0 && cur > prev + 1 {
            Outcome::Failed(Error::InvalidListDepth(line as Line, j as Pos))
        } else {
            let o = out + depth_tags(prev, cur, ordered) + "<li>"@;
            match text_line(d, ctx, line, j + cur, o, false, start, None, marks) {
                Outcome::Done((closed, nl, np, o2, _, m2)) => {
                    if closed {
                        Outcome::Done((true, nl, np, o2 + "</li>"@ + repeat(close_tag(ordered), cur), None, m2))
                    } else {
                        Outcome::Done((false, nl, np, o2 + "</li>"@, Some(ordered), m2))
                    }
                },
                Outcome::Failed(e) => Outcome::Failed(e),
                Outcome::Deferred => Outcome::Deferred,
            }
        }
    }
}

/// The top level of a document from `(line, pos)`: whitespace is skipped, and
/// each `[` starts a block; anything else is an error.
pub open spec fn top<P: Plugin>(d: Seq<Seq<char>>, ctx: &Context<P>, line: int, pos: int, out: Seq<char>)
    -> Outcome<Seq<char>>
    decreases lines_left(d, line), chars_left(d, line, pos),
{
    if !(0 <= line < d.len()) {
        Outcome::Done(out)
    } else if pos >= d[line].len() {
        top(d, ctx, line + 1, 0, out)
    } else {
        let c = d[line][pos];
        if is_ws(c) {
            top(d, ctx, line, pos + 1, out)
        } else if c != '[' {
            Outcome::Failed(Error::ExpectedBlockStart(line as Line, pos as Pos))
        } else {
            match block(d, ctx, line, pos + 1, out) {
                Outcome::Done((nl, np, o)) => {
                    if advanced(d, line, pos, nl, np) {
                        top(d, ctx, nl, np, o)
                    } else {
                        Outcome::Failed(stalled(line, pos))
                    }
                },
                Outcome::Failed(e) => Outcome::Failed(e),
                Outcome::Deferred => Outcome::Deferred,
            }
        }
    }
}

/// The page that opens every compiled document.
pub open spec fn page_head(head: Seq<char>, body: Seq<char>) -> Seq<char> {
    "<html><head>"@ + head + "</head><body>"@ + body
}

/// A whole document compiled to HTML.
pub open spec fn compile<P: Plugin>(s: Seq<char>, ctx: &Context<P>, head: Seq<char>, body: Seq<char>)
    -> Outcome<Seq<char>>
{
    match top(lines_of(s), ctx, 0, 0, page_head(head, body)) {
        Outcome::Done(o) => Outcome::Done(o + "</body></html>"@),
        Outcome::Failed(e) => Outcome::Failed(e),
        Outcome::Deferred => Outcome::Deferred,
    }
}

} // verus!
