//! Properties of compilation, proved over the model.
use vstd::prelude::*;

use crate::context::{plugin_names, Context, Plugin};
use crate::error::Error;
use crate::model::{
    no_marks, scan_start, unclosed, Marks,
    block, block_body, close_list, depth_tags, list_level, open_list, run_len, text_line, to_marker,
    chars_left, compile, flip, is_escapable, is_toggle, is_ws, lines_left, lines_of, page_head, scan, top, Outcome, Scan,
};
use crate::parser::page_result;

verus! {

/// Compiling is a function of its input: two results that `parse` may give
/// for the same source and context are the same page, or the same error. This
/// holds of every document in which no plugin that states nothing of its
/// result takes over.
pub proof fn law_parse_deterministic<P: Plugin>(
    s: Seq<char>,
    ctx: &Context<P>,
    head: Seq<char>,
    body: Seq<char>,
    r1: Result<String, Error>,
    r2: Result<String, Error>,
)
    requires
        !(compile(s, ctx, head, body) is Deferred),
        page_result(r1, compile(s, ctx, head, body)),
        page_result(r2, compile(s, ctx, head, body)),
    ensures
        r1 is Ok <==> r2 is Ok,
        r1 is Ok ==> r1->Ok_0@ == r2->Ok_0@,
        r1 is Err ==> r1 == r2,
{
}

/// A `\` before one of `*`, `/`, `_`, `~`, `\`, `[` or `]` writes that
/// character as it is and leaves the formatting toggles as they were; the
/// escape ends with it, so the character after is read as usual.
pub proof fn law_escape<P: Plugin>(
    d: Seq<Seq<char>>,
    ctx: &Context<P>,
    line: int,
    pos: int,
    out: Seq<char>,
    allow_lists: bool,
    start: int,
    st: Scan,
)
    requires
        0 <= line < d.len(),
        0 <= pos,
        pos + 1 < d[line].len(),
        d[line][pos] == '\\',
        is_escapable(d[line][pos + 1]),
        !st.escaped,
    ensures
        scan(d, ctx, line, pos, out, allow_lists, start, st) == scan(
            d,
            ctx,
            line,
            pos + 2,
            out.push(d[line][pos + 1]),
            allow_lists,
            start,
            Scan { marks: st.marks, first: false, last: d[line][pos + 1], escaped: false },
        ),
{
    let st1 = Scan { first: false, last: '\\', escaped: true, ..st };
    assert(scan(d, ctx, line, pos, out, allow_lists, start, st) == scan(d, ctx, line, pos + 1, out, allow_lists, start, st1));
}

/// An unescaped toggle character writes its opening tag where its toggle is
/// closed and its closing tag where it is open, and flips it.
pub proof fn law_toggle<P: Plugin>(
    d: Seq<Seq<char>>,
    ctx: &Context<P>,
    line: int,
    pos: int,
    out: Seq<char>,
    allow_lists: bool,
    start: int,
    st: Scan,
)
    requires
        0 <= line < d.len(),
        0 <= pos < d[line].len(),
        is_toggle(d[line][pos]),
        !st.escaped,
    ensures
        scan(d, ctx, line, pos, out, allow_lists, start, st) == scan(
            d,
            ctx,
            line,
            pos + 1,
            out + flip(st.marks, d[line][pos], line as usize, pos as usize).1,
            allow_lists,
            start,
            Scan {
                marks: flip(st.marks, d[line][pos], line as usize, pos as usize).0,
                first: false,
                last: d[line][pos],
                escaped: false,
            },
        ),
{
}

/// Every character of every line of `d` satisfies `f`.
pub open spec fn all_chars(d: Seq<Seq<char>>, f: spec_fn(char) -> bool) -> bool {
    forall|l: int, p: int| 0 <= l < d.len() && 0 <= p < d[l].len() ==> #[trigger] f(d[l][p])
}

/// Only whitespace stands in `d` from `(line, pos)` on.
pub open spec fn blank_from(d: Seq<Seq<char>>, line: int, pos: int) -> bool {
    forall|l: int, p: int|
        line <= l < d.len() && 0 <= p < d[l].len() && (l > line || p >= pos) ==> is_ws(#[trigger] d[l][p])
}

/// The lines of `s` hold its characters but the newlines: a property of every
/// character of `s` holds of every character of its lines, and the converse
/// where the property holds of the newline.
pub proof fn lemma_lines_chars(s: Seq<char>, f: spec_fn(char) -> bool)
    ensures
        lines_of(s).len() >= 1,
        (forall|i: int| 0 <= i < s.len() ==> #[trigger] f(s[i])) ==> all_chars(lines_of(s), f),
        f('\n') && all_chars(lines_of(s), f) ==> (forall|i: int| 0 <= i < s.len() ==> #[trigger] f(s[i])),
    decreases s.len(),
{
    if s.len() > 0 {
        let t = s.drop_last();
        let c = s.last();
        lemma_lines_chars(t, f);
        let prev = lines_of(t);
        let cur = lines_of(s);
        let k = prev.len() - 1;
        if (forall|i: int| 0 <= i < s.len() ==> #[trigger] f(s[i])) {
            assert forall|i: int| 0 <= i < t.len() implies #[trigger] f(t[i]) by {
                assert(t[i] == s[i]);
            }
            assert(f(c)) by {
                assert(c == s[s.len() - 1]);
            }
            assert forall|l: int, p: int| 0 <= l < cur.len() && 0 <= p < cur[l].len() implies #[trigger] f(cur[l][p]) by {
                if c != '\n' && l == k {
                    if p < prev[k].len() {
                        assert(cur[l][p] == prev[k][p]);
                    } else {
                        assert(cur[l][p] == c);
                    }
                } else if l < prev.len() {
                    assert(cur[l] == prev[l]);
                }
            }
        }
        if f('\n') && all_chars(cur, f) {
            assert forall|l: int, p: int| 0 <= l < prev.len() && 0 <= p < prev[l].len() implies #[trigger] f(prev[l][p]) by {
                if c != '\n' && l == k {
                    assert(cur[l][p] == prev[l][p]);
                } else {
                    assert(cur[l] == prev[l]);
                }
            }
            assert(f(c)) by {
                if c != '\n' {
                    assert(cur[k][prev[k].len() as int] == c);
                }
            }
            assert forall|i: int| 0 <= i < s.len() implies #[trigger] f(s[i]) by {
                if i < t.len() {
                    assert(s[i] == t[i]);
                }
            }
        }
    }
}

/// The position of the first character other than whitespace from
/// `(line, pos)` on; past the last line where there is none.
pub open spec fn first_text(d: Seq<Seq<char>>, line: int, pos: int) -> (int, int)
    decreases lines_left(d, line), chars_left(d, line, pos),
{
    if !(0 <= line < d.len()) {
        (line, pos)
    } else if pos >= d[line].len() {
        first_text(d, line + 1, 0)
    } else if is_ws(d[line][pos]) {
        first_text(d, line, pos + 1)
    } else {
        (line, pos)
    }
}

/// The error at the first character other than whitespace from `(line, pos)`.
pub open spec fn stray_text(d: Seq<Seq<char>>, line: int, pos: int) -> Error {
    let (l, p) = first_text(d, line, pos);
    Error::ExpectedBlockStart(l as usize, p as usize)
}

/// Where no `[` stands in `d`, the top level from `(line, pos)` ends the page
/// if only whitespace follows, and fails on the first other character if not.
pub proof fn lemma_top_without_blocks<P: Plugin>(
    d: Seq<Seq<char>>,
    ctx: &Context<P>,
    line: int,
    pos: int,
    out: Seq<char>,
)
    requires
        all_chars(d, |c: char| c != '['),
        0 <= line,
        0 <= pos,
    ensures
        blank_from(d, line, pos) ==> top(d, ctx, line, pos, out) == Outcome::<Seq<char>>::Done(out),
        !blank_from(d, line, pos) ==> top(d, ctx, line, pos, out)
            == Outcome::<Seq<char>>::Failed(stray_text(d, line, pos)),
    decreases lines_left(d, line), chars_left(d, line, pos),
{
    if line < d.len() {
        if pos >= d[line].len() {
            lemma_top_without_blocks(d, ctx, line + 1, 0, out);
            assert(blank_from(d, line, pos) == blank_from(d, line + 1, 0));
        } else {
            let c = d[line][pos];
            assert((|c: char| c != '[')(c));
            if is_ws(c) {
                lemma_top_without_blocks(d, ctx, line, pos + 1, out);
                assert(blank_from(d, line, pos) == blank_from(d, line, pos + 1));
            } else {
                assert(!blank_from(d, line, pos));
            }
        }
    }
}

/// A source without `[` compiles to the empty page where it holds only
/// whitespace, and else fails with `ExpectedBlockStart` at its first character
/// other than whitespace.
pub proof fn law_text_outside_blocks<P: Plugin>(s: Seq<char>, ctx: &Context<P>, head: Seq<char>, body: Seq<char>)
    requires
        forall|i: int| 0 <= i < s.len() ==> s[i] != '[',
    ensures
        (forall|i: int| 0 <= i < s.len() ==> is_ws(s[i])) ==> compile(s, ctx, head, body)
            == Outcome::<Seq<char>>::Done(page_head(head, body) + "</body></html>"@),
        (exists|i: int| 0 <= i < s.len() && !is_ws(s[i])) ==> compile(s, ctx, head, body)
            == Outcome::<Seq<char>>::Failed(stray_text(lines_of(s), 0, 0)),
{
    let d = lines_of(s);
    let no_open = |c: char| c != '[';
    let blank = |c: char| is_ws(c);
    lemma_lines_chars(s, no_open);
    lemma_lines_chars(s, blank);
    assert forall|i: int| 0 <= i < s.len() implies #[trigger] no_open(s[i]) by {}
    assert(all_chars(d, no_open));
    lemma_top_without_blocks(d, ctx, 0, 0, page_head(head, body));
    if all_chars(d, blank) {
        assert forall|l: int, p: int|
            0 <= l < d.len() && 0 <= p < d[l].len() && (l > 0 || p >= 0) implies is_ws(#[trigger] d[l][p]) by {
            assert(blank(d[l][p]));
        }
    }
    if blank_from(d, 0, 0) {
        assert forall|l: int, p: int| 0 <= l < d.len() && 0 <= p < d[l].len() implies #[trigger] blank(d[l][p]) by {
            assert(is_ws(d[l][p]));
        }
    }
    assert(blank_from(d, 0, 0) == all_chars(d, blank));
    if forall|i: int| 0 <= i < s.len() ==> is_ws(s[i]) {
        assert forall|i: int| 0 <= i < s.len() implies #[trigger] blank(s[i]) by {}
    }
    if exists|i: int| 0 <= i < s.len() && !is_ws(s[i]) {
        let i = choose|i: int| 0 <= i < s.len() && !is_ws(s[i]);
        assert(!blank(s[i]));
        assert(blank('\n'));
    }
}

/// The outcome is a success that goes on at `(line, pos)`.
pub open spec fn ends_at(o: Outcome<(int, int, Seq<char>)>, line: int, pos: int) -> bool {
    match o {
        Outcome::Done((l, p, _)) => l == line && p == pos,
        _ => false,
    }
}

/// A list line of depth `k`: `k` markers `+`, then the item ` x`.
pub open spec fn list_line(k: nat) -> Seq<char> {
    Seq::new(k, |i: int| '+') + seq![' ', 'x']
}

/// A block named `l` on its own line, then one list line for each depth in
/// `ds`, then the closing `]` on a line of its own.
pub open spec fn list_doc(ds: Seq<nat>) -> Seq<Seq<char>> {
    seq![seq!['[', 'l']] + ds.map_values(|k: nat| list_line(k)) + seq![seq![']']]
}

/// The first index from `j` on whose depth is more than one deeper than the
/// one before.
pub open spec fn first_bad(ds: Seq<nat>, j: int) -> Option<int>
    decreases ds.len() - j,
{
    if j < 0 || j >= ds.len() {
        None
    } else if j >= 1 && ds[j] > ds[j - 1] + 1 {
        Some(j)
    } else {
        first_bad(ds, j + 1)
    }
}

/// From index `j` on, each depth is at most one more than the one before.
pub open spec fn depths_ok_from(ds: Seq<nat>, j: int) -> bool {
    forall|k: int| j <= k < ds.len() && k >= 1 ==> #[trigger] ds[k] <= ds[k - 1] + 1
}

proof fn lemma_run_of_list_line(k: nat, j: int)
    requires
        0 <= j <= k,
    ensures
        run_len(list_line(k), j, '+') == k - j,
    decreases k - j,
{
    if j < k {
        lemma_run_of_list_line(k, j + 1);
    } else {
        assert(list_line(k)[j] == ' ');
    }
}

proof fn lemma_level_of_list_line(k: nat)
    requires
        k >= 1,
    ensures
        to_marker(list_line(k), 0, '+') == 0,
        run_len(list_line(k), 0, '+') == k,
        list_level(list_line(k), 0, '+') == k,
{
    assert(list_line(k)[0] == '+');
    lemma_run_of_list_line(k, 0);
}

proof fn lemma_list_doc_lines(ds: Seq<nat>)
    ensures
        list_doc(ds).len() == ds.len() + 2,
        list_doc(ds)[0] == seq!['[', 'l'],
        list_doc(ds)[ds.len() as int + 1] == seq![']'],
        forall|i: int| 1 <= i <= ds.len() ==> #[trigger] list_doc(ds)[i] == list_line(ds[i - 1]),
{
    let d = list_doc(ds);
    assert forall|i: int| 1 <= i <= ds.len() implies #[trigger] d[i] == list_line(ds[i - 1]) by {}
}

/// The text of an item, ` x`, is written as `x` and a joining space.
proof fn lemma_item_text<P: Plugin>(d: Seq<Seq<char>>, ctx: &Context<P>, i: int, k: nat, o: Seq<char>)
    requires
        1 <= i < d.len(),
        d[i] == list_line(k),
    ensures
        text_line(d, ctx, i, k as int, o, false, 0, None, no_marks())
            == Outcome::Done((false, i + 1, 0int, o.push('x').push(' '), None::<bool>, no_marks())),
{
    let s = d[i];
    assert(s[k as int] == ' ');
    assert(s[k as int + 1] == 'x');
    let st0 = crate::model::scan_start(no_marks());
    let st1 = Scan { last: ' ', ..st0 };
    let st2 = Scan { first: false, last: 'x', ..st0 };
    assert(scan(d, ctx, i, k as int, o, false, 0, st0) == scan(d, ctx, i, k as int + 1, o, false, 0, st1));
    assert(scan(d, ctx, i, k as int + 1, o, false, 0, st1) == scan(d, ctx, i, k as int + 2, o.push('x'), false, 0, st2));
}

/// One list line of depth `k` after a line of depth `prev`: it fails with
/// `InvalidListDepth` where `k` is more than one deeper, and else becomes one
/// item and goes on with the next line.
proof fn lemma_list_line_step<P: Plugin>(
    d: Seq<Seq<char>>,
    ctx: &Context<P>,
    i: int,
    k: nat,
    prev: nat,
    out: Seq<char>,
    last: Option<bool>,
)
    requires
        1 <= i < d.len(),
        k >= 1,
        d[i] == list_line(k),
        list_level(d[i - 1], 0, '+') == prev,
        last is Some ==> last == Some(false),
    ensures
        prev > 0 && k > prev + 1 ==> text_line(d, ctx, i, 0, out, true, 0, last, no_marks())
            == Outcome::<(bool, int, int, Seq<char>, Option<bool>, Marks)>::Failed(
            Error::InvalidListDepth(i as usize, 0),
        ),
        !(prev > 0 && k > prev + 1) ==> text_line(d, ctx, i, 0, out, true, 0, last, no_marks()) == Outcome::Done(
            (
                false,
                i + 1,
                0int,
                (out + depth_tags(prev, k, false) + "<li>"@).push('x').push(' ') + "</li>"@,
                Some(false),
                no_marks(),
            ),
        ),
{
    lemma_level_of_list_line(k);
    assert(close_list(d, i, 0, out, false) == out);
    assert(d[i][0] == '+');
    let st0 = crate::model::scan_start(no_marks());
    assert(scan(d, ctx, i, 0, out, true, 0, st0) == open_list(d, ctx, i, 0, out, false, 0, no_marks()));
    let o = out + depth_tags(prev, k, false) + "<li>"@;
    lemma_item_text(d, ctx, i, k, o);
}

/// The lines of a list block from line `i` on succeed exactly where the
/// depths from `ds[i - 1]` on step up by at most one.
proof fn lemma_list_body<P: Plugin>(ds: Seq<nat>, ctx: &Context<P>, i: int, out: Seq<char>)
    requires
        1 <= i <= ds.len() + 1,
        forall|k: int| 0 <= k < ds.len() ==> ds[k] >= 1,
    ensures
        depths_ok_from(ds, i - 1) ==> block_body(list_doc(ds), ctx, i, 0, out, 0, if i == 1 { None } else { Some(false) }, no_marks()) is Done,
        depths_ok_from(ds, i - 1) ==> ends_at(block_body(list_doc(ds), ctx, i, 0, out, 0, if i == 1 { None } else { Some(false) }, no_marks()), ds.len() as int + 1, 1),
        !depths_ok_from(ds, i - 1) ==> first_bad(ds, i - 1) is Some
            && block_body(list_doc(ds), ctx, i, 0, out, 0, if i == 1 { None } else { Some(false) }, no_marks())
            == Outcome::<(int, int, Seq<char>)>::Failed(Error::InvalidListDepth((first_bad(ds, i - 1)->0 + 1) as usize, 0)),
    decreases ds.len() + 1 - i,
{
    let d = list_doc(ds);
    let last: Option<bool> = if i == 1 { None } else { Some(false) };
    lemma_list_doc_lines(ds);
    if i == ds.len() + 1 {
        let o = match last {
            Some(ordered) => close_list(d, i, 0, out, ordered),
            None => out,
        };
        assert(d[i][0] == ']');
        assert(scan(d, ctx, i, 0, o, true, 0, crate::model::scan_start(no_marks())) is Done);
    } else {
        let k = ds[i - 1];
        let prev: nat = if i == 1 { 0 } else { ds[i - 2] };
        if i == 1 {
            assert(d[0][0] == '[');
            assert(d[0][1] != '+');
            assert(list_level(d[0], 0, '+') == 0);
        } else {
            lemma_level_of_list_line(ds[i - 2]);
        }
        lemma_list_line_step(d, ctx, i, k, prev, out, last);
        if prev > 0 && k > prev + 1 {
            assert(!depths_ok_from(ds, i - 1));
            assert(first_bad(ds, i - 1) == Some(i - 1));
        } else {
            assert(first_bad(ds, i - 1) == first_bad(ds, i));
            let o = (out + depth_tags(prev, k, false) + "<li>"@).push('x').push(' ') + "</li>"@;
            lemma_list_body(ds, ctx, i + 1, o);
            assert(depths_ok_from(ds, i - 1) == depths_ok_from(ds, i));
        }
    }
}

/// A block of list lines with depths `ds`, and the document made of it,
/// compile exactly where each depth is at most one more than the one before;
/// where one is deeper, they fail with `InvalidListDepth`.
pub proof fn law_list_depths<P: Plugin>(ds: Seq<nat>, ctx: &Context<P>, out: Seq<char>)
    requires
        forall|k: int| 0 <= k < ds.len() ==> ds[k] >= 1,
        !plugin_names(ctx).contains(seq!['l']),
    ensures
        depths_ok_from(ds, 0) ==> ends_at(block(list_doc(ds), ctx, 0, 1, out), ds.len() as int + 1, 1),
        !depths_ok_from(ds, 0) ==> first_bad(ds, 0) is Some
            && block(list_doc(ds), ctx, 0, 1, out) == Outcome::<(int, int, Seq<char>)>::Failed(
            Error::InvalidListDepth((first_bad(ds, 0)->0 + 1) as usize, 0),
        ),
        depths_ok_from(ds, 0) ==> top(list_doc(ds), ctx, 0, 0, out) is Done,
        !depths_ok_from(ds, 0) ==> top(list_doc(ds), ctx, 0, 0, out) == Outcome::<Seq<char>>::Failed(
            Error::InvalidListDepth((first_bad(ds, 0)->0 + 1) as usize, 0),
        ),
{
    let d = list_doc(ds);
    lemma_list_doc_lines(ds);
    crate::parser::lemma_first_index(plugin_names(ctx), seq!['l'], 0);
    assert(crate::model::first_index(plugin_names(ctx), seq!['l'], 0) is None);
    let s = d[0];
    assert(crate::model::name_len(s, 1) == 1) by {
        assert(crate::model::name_len(s, 2) == 0);
    }
    assert(s.subrange(1, 2) =~= seq!['l']);
    let o = out + "<div class='"@ + seq!['l'] + "'>"@;
    assert(text_line(d, ctx, 0, 2, o, true, 0, None, no_marks()) == Outcome::Done((false, 1int, 0int, o, None::<bool>, no_marks())));
    lemma_list_body(ds, ctx, 1, o);
    assert(depths_ok_from(ds, 0) == depths_ok_from(ds, 1 - 1));
    assert(first_bad(ds, 0) == first_bad(ds, 1 - 1));
    assert(d[0][0] == '[');
    let n = ds.len() as int;
    if depths_ok_from(ds, 0) {
        let b = block(d, ctx, 0, 1, out);
        let o2 = match b {
            Outcome::Done((_, _, o2)) => o2,
            _ => out,
        };
        assert(b == Outcome::Done((n + 1, 1int, o2)));
        assert(top(d, ctx, n + 1, 1, o2) == top(d, ctx, n + 2, 0, o2));
    }
}

/// `s[k]` is text with no structure: no bracket, backslash or list marker.
pub open spec fn is_plain(c: char) -> bool {
    c != '[' && c != ']' && c != '\\' && c != '+' && c != '='
}

/// How many times `c` stands in `s` from `i` up to `j`.
pub open spec fn count(s: Seq<char>, i: int, j: int, c: char) -> nat
    decreases j - i,
{
    if i >= j { 0 } else { (if s[i] == c { 1nat } else { 0nat }) + count(s, i + 1, j, c) }
}

/// The toggles after reading the characters of line `line` from `i` up to
/// `j`, starting from `m`.
pub open spec fn marks_after(m: Marks, s: Seq<char>, i: int, j: int, line: int) -> Marks
    decreases j - i,
{
    if i >= j {
        m
    } else {
        let m1 = if is_toggle(s[i]) { flip(m, s[i], line as usize, i as usize).0 } else { m };
        marks_after(m1, s, i + 1, j, line)
    }
}

/// The scan state after a character with no structure.
pub open spec fn plain_state(st: Scan, c: char, line: int, pos: int) -> Scan {
    if is_toggle(c) {
        Scan { marks: flip(st.marks, c, line as usize, pos as usize).0, first: false, last: c, escaped: false }
    } else if c == ' ' {
        Scan { last: c, ..st }
    } else {
        Scan { first: st.first && is_ws(c), last: c, ..st }
    }
}

/// The output after a character with no structure.
pub open spec fn plain_output(out: Seq<char>, st: Scan, c: char, line: int, pos: int) -> Seq<char> {
    if is_toggle(c) {
        out + flip(st.marks, c, line as usize, pos as usize).1
    } else if c == ' ' {
        if is_ws(st.last) { out } else { out.push(' ') }
    } else {
        out.push(c)
    }
}

proof fn lemma_plain_step<P: Plugin>(
    d: Seq<Seq<char>>,
    ctx: &Context<P>,
    line: int,
    pos: int,
    out: Seq<char>,
    allow_lists: bool,
    start: int,
    st: Scan,
)
    requires
        0 <= line < d.len(),
        0 <= pos < d[line].len(),
        is_plain(d[line][pos]),
        !st.escaped,
    ensures
        scan(d, ctx, line, pos, out, allow_lists, start, st) == scan(
            d,
            ctx,
            line,
            pos + 1,
            plain_output(out, st, d[line][pos], line, pos),
            allow_lists,
            start,
            plain_state(st, d[line][pos], line, pos),
        ),
{
}

/// Reading plain text from `k` up to a `]` at `e` ends the block exactly where
/// the toggles are all closed by then, and else fails on the first still open.
proof fn lemma_plain_segment<P: Plugin>(
    d: Seq<Seq<char>>,
    ctx: &Context<P>,
    line: int,
    k: int,
    e: int,
    out: Seq<char>,
    allow_lists: bool,
    start: int,
    st: Scan,
)
    requires
        0 <= line < d.len(),
        0 <= k <= e < d[line].len(),
        d[line][e] == ']',
        forall|i: int| k <= i < e ==> is_plain(#[trigger] d[line][i]),
        !st.escaped,
    ensures
        unclosed(marks_after(st.marks, d[line], k, e, line)) is None
            ==> scan(d, ctx, line, k, out, allow_lists, start, st) is Done,
        unclosed(marks_after(st.marks, d[line], k, e, line)) is None
            ==> closes(scan(d, ctx, line, k, out, allow_lists, start, st)),
        unclosed(marks_after(st.marks, d[line], k, e, line)) is Some ==> scan(d, ctx, line, k, out, allow_lists, start, st)
            == Outcome::<(bool, int, int, Seq<char>, Option<bool>, Marks)>::Failed(
            unclosed(marks_after(st.marks, d[line], k, e, line))->0,
        ),
    decreases e - k,
{
    if k < e {
        lemma_plain_step(d, ctx, line, k, out, allow_lists, start, st);
        let c = d[line][k];
        lemma_plain_segment(
            d,
            ctx,
            line,
            k + 1,
            e,
            plain_output(out, st, c, line, k),
            allow_lists,
            start,
            plain_state(st, c, line, k),
        );
    }
}

/// A toggle is open after a stretch of text exactly where it was open before
/// and its character stands there an even number of times, or it was closed
/// and the number is odd.
proof fn lemma_marks_parity(m: Marks, s: Seq<char>, i: int, j: int, line: int)
    ensures
        (marks_after(m, s, i, j, line).bold is Some) == ((m.bold is Some) != (count(s, i, j, '*') % 2 == 1)),
        (marks_after(m, s, i, j, line).italic is Some) == ((m.italic is Some) != (count(s, i, j, '/') % 2 == 1)),
        (marks_after(m, s, i, j, line).underline is Some) == ((m.underline is Some) != (count(s, i, j, '_') % 2 == 1)),
        (marks_after(m, s, i, j, line).strike is Some) == ((m.strike is Some) != (count(s, i, j, '~') % 2 == 1)),
    decreases j - i,
{
    if i < j {
        let m1 = if is_toggle(s[i]) { flip(m, s[i], line as usize, i as usize).0 } else { m };
        lemma_marks_parity(m1, s, i + 1, j, line);
    }
}

/// Over the text of a block up to its `]`, with no brackets, backslashes or
/// list markers in it: the block ends there exactly where each of `*`, `/`,
/// `_` and `~` stands an even number of times. Where one stands an odd number
/// of times, the matching `Unclosed` error comes, checked in the order bold,
/// italic, underline, strikethrough.
pub proof fn law_toggles_balanced<P: Plugin>(
    d: Seq<Seq<char>>,
    ctx: &Context<P>,
    line: int,
    pos: int,
    e: int,
    out: Seq<char>,
    allow_lists: bool,
    start: int,
)
    requires
        0 <= line < d.len(),
        0 <= pos <= e < d[line].len(),
        d[line][e] == ']',
        forall|i: int| pos <= i < e ==> is_plain(#[trigger] d[line][i]),
    ensures
        ({
            let r = scan(d, ctx, line, pos, out, allow_lists, start, scan_start(no_marks()));
            let s = d[line];
            &&& (r is Done <==> count(s, pos, e, '*') % 2 == 0 && count(s, pos, e, '/') % 2 == 0
                && count(s, pos, e, '_') % 2 == 0 && count(s, pos, e, '~') % 2 == 0)
            &&& (count(s, pos, e, '*') % 2 == 1 ==> r is Failed && r->Failed_0 is UnclosedBold)
            &&& (count(s, pos, e, '*') % 2 == 0 && count(s, pos, e, '/') % 2 == 1 ==> r is Failed
                && r->Failed_0 is UnclosedItalic)
            &&& (count(s, pos, e, '*') % 2 == 0 && count(s, pos, e, '/') % 2 == 0 && count(s, pos, e, '_') % 2 == 1
                ==> r is Failed && r->Failed_0 is UnclosedUnderline)
            &&& (count(s, pos, e, '*') % 2 == 0 && count(s, pos, e, '/') % 2 == 0 && count(s, pos, e, '_') % 2 == 0
                && count(s, pos, e, '~') % 2 == 1 ==> r is Failed && r->Failed_0 is UnclosedStrikethrough)
        }),
{
    let st = scan_start(no_marks());
    lemma_plain_segment(d, ctx, line, pos, e, out, allow_lists, start, st);
    lemma_marks_parity(no_marks(), d[line], pos, e, line);
}

/// The outcome is a success that met the block's `]`.
pub open spec fn closes(o: Outcome<(bool, int, int, Seq<char>, Option<bool>, Marks)>) -> bool {
    match o {
        Outcome::Done((c, _, _, _, _, _)) => c,
        _ => false,
    }
}

/// The outcome is a success that reached the end of `line` without a `]`,
/// goes on at the start of the next line with no list open, and leaves the
/// toggles `m` open.
pub open spec fn ends_line(o: Outcome<(bool, int, int, Seq<char>, Option<bool>, Marks)>, line: int, m: Marks) -> bool {
    match o {
        Outcome::Done((c, l, p, _, k, mm)) => !c && l == line + 1 && p == 0 && k is None && mm == m,
        _ => false,
    }
}

/// Scanning plain text from `k` to the end of the line goes on at the next
/// line with the toggles flipped by that text.
proof fn lemma_plain_to_end<P: Plugin>(
    d: Seq<Seq<char>>,
    ctx: &Context<P>,
    line: int,
    k: int,
    out: Seq<char>,
    allow_lists: bool,
    start: int,
    st: Scan,
)
    requires
        0 <= line < d.len(),
        0 <= k <= d[line].len(),
        forall|i: int| k <= i < d[line].len() ==> is_plain(#[trigger] d[line][i]),
        !st.escaped,
    ensures
        ends_line(
            scan(d, ctx, line, k, out, allow_lists, start, st),
            line,
            marks_after(st.marks, d[line], k, d[line].len() as int, line),
        ),
    decreases d[line].len() - k,
{
    if k < d[line].len() {
        lemma_plain_step(d, ctx, line, k, out, allow_lists, start, st);
        let c = d[line][k];
        lemma_plain_to_end(d, ctx, line, k + 1, plain_output(out, st, c, line, k), allow_lists, start,
            plain_state(st, c, line, k));
    }
}

/// The toggles after the text from `(line, pos)` up to the `]` at `(b, e)`:
/// the rest of each line in turn, then line `b` up to `e`.
pub open spec fn marks_through(m: Marks, d: Seq<Seq<char>>, line: int, pos: int, b: int, e: int) -> Marks
    decreases b - line,
{
    if line >= b {
        marks_after(m, d[b], pos, e, b)
    } else {
        marks_through(marks_after(m, d[line], pos, d[line].len() as int, line), d, line + 1, 0, b, e)
    }
}

/// How many times `c` stands in the text from `(line, pos)` up to `(b, e)`.
pub open spec fn count_through(d: Seq<Seq<char>>, line: int, pos: int, b: int, e: int, c: char) -> nat
    decreases b - line,
{
    if line >= b {
        count(d[b], pos, e, c)
    } else {
        count(d[line], pos, d[line].len() as int, c) + count_through(d, line + 1, 0, b, e, c)
    }
}

/// The text from `(line, pos)` up to the `]` at `(b, e)` holds no bracket,
/// backslash or list marker.
pub open spec fn plain_through(d: Seq<Seq<char>>, line: int, pos: int, b: int, e: int) -> bool {
    &&& forall|l: int, i: int|
        line <= l < b && (l > line || i >= pos) && 0 <= i < d[l].len() ==> is_plain(#[trigger] d[l][i])
    &&& forall|i: int| (if b > line { 0 } else { pos }) <= i < e ==> is_plain(#[trigger] d[b][i])
}

proof fn lemma_body_plain<P: Plugin>(
    d: Seq<Seq<char>>,
    ctx: &Context<P>,
    line: int,
    pos: int,
    b: int,
    e: int,
    out: Seq<char>,
    start: int,
    m: Marks,
)
    requires
        0 <= line <= b < d.len(),
        0 <= pos,
        line < b ==> pos <= d[line].len(),
        line == b ==> pos <= e,
        0 <= e < d[b].len(),
        d[b][e] == ']',
        plain_through(d, line, pos, b, e),
    ensures
        unclosed(marks_through(m, d, line, pos, b, e)) is None ==> block_body(d, ctx, line, pos, out, start, None, m) is Done,
        unclosed(marks_through(m, d, line, pos, b, e)) is Some ==> block_body(d, ctx, line, pos, out, start, None, m)
            == Outcome::<(int, int, Seq<char>)>::Failed(unclosed(marks_through(m, d, line, pos, b, e))->0),
    decreases b - line,
{
    let st = scan_start(m);
    assert(text_line(d, ctx, line, pos, out, true, start, None, m) == scan(d, ctx, line, pos, out, true, start, st));
    if line == b {
        lemma_plain_segment(d, ctx, line, pos, e, out, true, start, st);
    } else {
        lemma_plain_to_end(d, ctx, line, pos, out, true, start, st);
        let m1 = marks_after(m, d[line], pos, d[line].len() as int, line);
        let r = scan(d, ctx, line, pos, out, true, start, st);
        let o1 = match r {
            Outcome::Done((_, _, _, o1, _, _)) => o1,
            _ => out,
        };
        assert(r == Outcome::Done((false, line + 1, 0int, o1, None::<bool>, m1)));
        lemma_body_plain(d, ctx, line + 1, 0, b, e, o1, start, m1);
    }
}

proof fn lemma_marks_through_parity(m: Marks, d: Seq<Seq<char>>, line: int, pos: int, b: int, e: int)
    ensures
        (marks_through(m, d, line, pos, b, e).bold is Some) == ((m.bold is Some) != (count_through(d, line, pos, b, e, '*') % 2 == 1)),
        (marks_through(m, d, line, pos, b, e).italic is Some) == ((m.italic is Some) != (count_through(d, line, pos, b, e, '/') % 2 == 1)),
        (marks_through(m, d, line, pos, b, e).underline is Some) == ((m.underline is Some) != (count_through(d, line, pos, b, e, '_') % 2 == 1)),
        (marks_through(m, d, line, pos, b, e).strike is Some) == ((m.strike is Some) != (count_through(d, line, pos, b, e, '~') % 2 == 1)),
    decreases b - line,
{
    if line >= b {
        lemma_marks_parity(m, d[b], pos, e, b);
    } else {
        let m1 = marks_after(m, d[line], pos, d[line].len() as int, line);
        lemma_marks_parity(m, d[line], pos, d[line].len() as int, line);
        lemma_marks_through_parity(m1, d, line + 1, 0, b, e);
    }
}

/// Over the text of a block from `(line, pos)`, on one line or several, up to
/// its `]` at `(b, e)`, with no brackets, backslashes or list markers in it:
/// the block ends there exactly where each of `*`, `/`, `_` and `~` stands an
/// even number of times in all. Where one stands an odd number of times, the
/// matching `Unclosed` error comes, checked in the order bold, italic,
/// underline, strikethrough.
pub proof fn law_block_toggles_balanced<P: Plugin>(
    d: Seq<Seq<char>>,
    ctx: &Context<P>,
    line: int,
    pos: int,
    b: int,
    e: int,
    out: Seq<char>,
)
    requires
        0 <= line <= b < d.len(),
        0 <= pos,
        line < b ==> pos <= d[line].len(),
        line == b ==> pos <= e,
        0 <= e < d[b].len(),
        d[b][e] == ']',
        plain_through(d, line, pos, b, e),
    ensures
        ({
            let r = block_body(d, ctx, line, pos, out, line, None, no_marks());
            let n = |c: char| count_through(d, line, pos, b, e, c) % 2;
            &&& (r is Done <==> n('*') == 0 && n('/') == 0 && n('_') == 0 && n('~') == 0)
            &&& (n('*') == 1 ==> r is Failed && r->Failed_0 is UnclosedBold)
            &&& (n('*') == 0 && n('/') == 1 ==> r is Failed && r->Failed_0 is UnclosedItalic)
            &&& (n('*') == 0 && n('/') == 0 && n('_') == 1 ==> r is Failed && r->Failed_0 is UnclosedUnderline)
            &&& (n('*') == 0 && n('/') == 0 && n('_') == 0 && n('~') == 1 ==> r is Failed
                && r->Failed_0 is UnclosedStrikethrough)
        }),
{
    lemma_body_plain(d, ctx, line, pos, b, e, out, line, no_marks());
    lemma_marks_through_parity(no_marks(), d, line, pos, b, e);
}

/// A source whose lines are a list block of depths `ds` compiles exactly where
/// each depth is at most one more than the one before; else it fails with
/// `InvalidListDepth` on the line of the first depth that is deeper.
pub proof fn law_list_depths_in_source<P: Plugin>(
    s: Seq<char>,
    ds: Seq<nat>,
    ctx: &Context<P>,
    head: Seq<char>,
    body: Seq<char>,
)
    requires
        lines_of(s) == list_doc(ds),
        forall|k: int| 0 <= k < ds.len() ==> ds[k] >= 1,
        !plugin_names(ctx).contains(seq!['l']),
    ensures
        depths_ok_from(ds, 0) ==> compile(s, ctx, head, body) is Done,
        !depths_ok_from(ds, 0) ==> first_bad(ds, 0) is Some && compile(s, ctx, head, body)
            == Outcome::<Seq<char>>::Failed(Error::InvalidListDepth((first_bad(ds, 0)->0 + 1) as usize, 0)),
{
    law_list_depths(ds, ctx, page_head(head, body));
}

} // verus!
