//! The compiler: each function follows the function of the model that bears
//! its role, and says so in its contract.
use vstd::prelude::*;

use crate::context::{plugin_names, Context, Plugin};
use crate::error::{Error, Line, Pos};
use crate::model::{
    block, block_body, chars_left, close_list, compile, is_toggle, is_ws, lines_left, lines_of,
    first_index, list_level, marker, name_len, no_marks, open_list, page_head, run_len, scan, scan_start, text_line, top,
    to_marker, Marks, Outcome, Scan, STALLED,
};
use crate::text::{
    check_closed, count_run, count_to_marker, doc, flip_mark, is_advanced, is_escapable_ch, is_valid_ch,
    is_whitespace, parse_list_determine_depth, push_repeat, split_lines,
};

verus! {

/// `r` is what the block outcome `o` describes; after a plugin took over,
/// anything is.
pub open spec fn block_result(r: Result<(Line, Pos, String), Error>, o: Outcome<(int, int, Seq<char>)>) -> bool {
    match o {
        Outcome::Done((l, p, s)) => match r {
            Ok((rl, rp, rs)) => rl == l && rp == p && rs@ == s,
            Err(_) => false,
        },
        Outcome::Failed(e) => r == Err::<(Line, Pos, String), Error>(e),
        Outcome::Deferred => true,
    }
}

/// `r` is what the line outcome `o` describes; after a plugin took over,
/// anything is.
pub open spec fn line_result(
    r: Result<(bool, Line, Pos, String, Option<bool>, Marks), Error>,
    o: Outcome<(bool, int, int, Seq<char>, Option<bool>, Marks)>,
) -> bool {
    match o {
        Outcome::Done((c, l, p, s, k, m)) => match r {
            Ok((rc, rl, rp, rs, rk, rm)) => rc == c && rl == l && rp == p && rs@ == s && rk == k && rm == m,
            Err(_) => false,
        },
        Outcome::Failed(e) => r == Err::<(bool, Line, Pos, String, Option<bool>, Marks), Error>(e),
        Outcome::Deferred => true,
    }
}

/// `r` is what the document outcome `o` describes; after a plugin took over,
/// anything is.
pub open spec fn page_result(r: Result<String, Error>, o: Outcome<Seq<char>>) -> bool {
    match o {
        Outcome::Done(s) => match r {
            Ok(rs) => rs@ == s,
            Err(_) => false,
        },
        Outcome::Failed(e) => r == Err::<String, Error>(e),
        Outcome::Deferred => true,
    }
}

/// Closes the lists that the line before `line` left open, where the text from
/// `(line, pos)` on does not go on with a list of the same kind.
pub fn parse_close_list(
    lines: &Vec<Vec<char>>,
    line: Line,
    pos: Pos,
    output: String,
    is_ordered: bool,
) -> (r: String)
    ensures
        r@ == close_list(doc(lines), line as int, pos as int, output@, is_ordered),
{
    let mut out = output;
    let m = if is_ordered { '=' } else { '+' };
    if line >= 1 && line - 1 < lines.len() {
        let here = if line >= lines.len() { 0 } else { parse_list_determine_depth(&lines[line], pos, m) };
        if here == 0 {
            let prev = parse_list_determine_depth(&lines[line - 1], 0, m);
            let t = if is_ordered { "</ol>" } else { "</ul>" };
            push_repeat(&mut out, t, prev);
        }
    }
    out
}

/// A list line: the tags that lead from the depth of the line before to the
/// depth of this one, then the rest of the line as one list item, in which no
/// list may start. `pos` is at or before the line's marker run.
pub fn parse_open_list<P: Plugin>(
    lines: &Vec<Vec<char>>,
    line: Line,
    pos: Pos,
    output: String,
    ctx: &Context<P>,
    is_ordered: bool,
    start_line: Line,
    marks: Marks,
) -> (r: Result<(bool, Line, Pos, String, Option<bool>, Marks), Error>)
    requires
        line < lines@.len(),
        list_level(doc(lines)[line as int], pos as int, marker(is_ordered)) > 0,
    ensures
        line_result(
            r,
            open_list(doc(lines), ctx, line as int, pos as int, output@, is_ordered, start_line as int,
                marks),
        ),
    decreases lines_left(doc(lines), line as int), chars_left(doc(lines), line as int, pos as int), 1nat,
{
    let ghost d = doc(lines);
    let s = &lines[line];
    assert(s@ == d[line as int]);
    let m = if is_ordered { '=' } else { '+' };
    let slen = s.len();
    let w = count_to_marker(s, pos, m);
    proof {
        let i = pos + to_marker(s@, pos as int, m);
        assert(run_len(s@, i, m) > 0);
        assert(pos < slen);
    }
    let j = pos + w;
    let cur = count_run(s, j, m);
    let prev = if line == 0 { 0 } else { parse_list_determine_depth(&lines[line - 1], 0, m) };
    assert(line > 0 ==> lines@[line - 1]@ == d[line - 1]);
    if prev > 0 && cur - 1 > prev {
        return Err(Error::InvalidListDepth(line, j));
    }
    let mut out = output;
    let open = if is_ordered { "<ol>" } else { "<ul>" };
    let close = if is_ordered { "</ol>" } else { "</ul>" };
    if prev == 0 {
        push_repeat(&mut out, open, cur);
    } else if cur - 1 == prev {
        out.append(open);
    } else {
        push_repeat(&mut out, close, prev - cur);
    }
    out.append("<li>");
    let res = parse_text_line(lines, line, j + cur, out, ctx, false, start_line, None, marks);
    match res {
        Err(e) => Err(e),
        Ok((closed, nl, np, o, _, m2)) => {
            let mut o = o;
            o.append("</li>");
            if closed {
                push_repeat(&mut o, close, cur);
                Ok((true, nl, np, o, None, m2))
            } else {
                Ok((false, nl, np, o, Some(is_ordered), m2))
            }
        },
    }
}

/// One line of a block's text from `(line, pos)`, after closing the lists the
/// line before left open. Returns whether the block's `]` was met, where to go
/// on, the output, and the kind of list left open. `start_line` is the line of
/// the block's `[`, to which a missing `]` is attributed.
pub fn parse_text_line<P: Plugin>(
    lines: &Vec<Vec<char>>,
    line: Line,
    pos: Pos,
    output: String,
    ctx: &Context<P>,
    allow_lists: bool,
    start_line: Line,
    last_list_was_ordered: Option<bool>,
    marks: Marks,
) -> (r: Result<(bool, Line, Pos, String, Option<bool>, Marks), Error>)
    ensures
        line_result(
            r,
            text_line(doc(lines), ctx, line as int, pos as int, output@, allow_lists,
                start_line as int, last_list_was_ordered, marks),
        ),
    decreases lines_left(doc(lines), line as int), chars_left(doc(lines), line as int, pos as int), 2nat,
{
    let ghost d = doc(lines);
    let ghost names = plugin_names(ctx);
    let ghost goal = text_line(d, ctx, line as int, pos as int, output@, allow_lists, start_line as int,
        last_list_was_ordered, marks);
    let mut out = output;
    if let Some(ordered) = last_list_was_ordered {
        out = parse_close_list(lines, line, pos, out, ordered);
    }
    if line >= lines.len() {
        return Err(Error::BlockNoEnd(start_line, 0));
    }
    let mut l = line;
    let mut p = pos;
    let mut st = Scan { marks, first: true, last: ' ', escaped: false };
    assert(st == scan_start(marks));
    loop
        invariant
            goal == text_line(d, ctx, line as int, pos as int, output@, allow_lists, start_line as int,
                last_list_was_ordered, marks),
            goal is Deferred || goal == scan(d, ctx, l as int, p as int, out@, allow_lists, start_line as int, st),
            lines_left(d, l as int) < lines_left(d, line as int)
                || (lines_left(d, l as int) == lines_left(d, line as int)
                    && chars_left(d, l as int, p as int) <= chars_left(d, line as int, pos as int)),
            d == doc(lines),
            names == plugin_names(ctx),
        decreases lines_left(d, l as int), chars_left(d, l as int, p as int),
    {
        if l >= lines.len() {
            return Err(Error::BlockNoEnd(start_line, 0));
        }
        let s = &lines[l];
        assert(s@ == d[l as int]);
        if p >= s.len() {
            if s.len() == 0 {
                out.append("<br><br>");
            } else if !is_whitespace(st.last) {
                out.push(' ');
            }
            return Ok((false, l + 1, 0, out, None, st.marks));
        }
        let c = s[p];
        if st.escaped {
            if is_escapable_ch(c) {
                out.push(c);
                st = Scan { marks: st.marks, first: false, last: c, escaped: false };
                p = p + 1;
            } else {
                return Err(Error::StrayBackslash(l, p));
            }
        } else if c == '[' {
            let res = parse_block(lines, l, p + 1, out, ctx);
            match res {
                Err(e) => {
                    return Err(e);
                },
                Ok((nl, np, o)) => {
                    if !is_advanced(lines, l, p, nl, np) {
                        return Err(Error::OtherError(l, p, STALLED));
                    }
                    l = nl;
                    p = np;
                    out = o;
                    st = Scan { marks: st.marks, first: false, last: st.last, escaped: st.escaped };
                },
            }
        } else if c == ']' {
            match check_closed(&st.marks) {
                Err(e) => {
                    return Err(e);
                },
                Ok(()) => {},
            }
            return Ok((true, l, p + 1, out, None, st.marks));
        } else if (c == '+' || c == '=') && st.first {
            if !allow_lists {
                return Err(Error::RecursiveList(l, p));
            }
            return parse_open_list(lines, l, p, out, ctx, c == '=', start_line, st.marks);
        } else if c == '*' || c == '/' || c == '_' || c == '~' {
            let m = flip_mark(st.marks, c, l, p, &mut out);
            st = Scan { marks: m, first: false, last: c, escaped: false };
            p = p + 1;
        } else if c == '\\' {
            st = Scan { marks: st.marks, first: false, last: c, escaped: true };
            p = p + 1;
        } else if c == ' ' {
            if !is_whitespace(st.last) {
                out.push(' ');
            }
            st = Scan { marks: st.marks, first: st.first, last: c, escaped: st.escaped };
            p = p + 1;
        } else {
            proof {
                lemma_scan_plain(d, ctx, l as int, p as int, out@, allow_lists, start_line as int, st, c);
            }
            out.push(c);
            st = Scan { marks: st.marks, first: st.first && is_whitespace(c), last: c, escaped: st.escaped };

            p = p + 1;
        }
    }
}

/// A block, read from just after its `[`: its name, then the plugin registered
/// under that name, or else a `<div>` of the block's class holding its text.
/// Returns where to go on after the block's `]` and the output. A cursor past
/// the last line, or at the end of its line, has no name to read and gives
/// `BlockNameNoEnd` at that cursor.
pub fn parse_block<P: Plugin>(
    lines: &Vec<Vec<char>>,
    line: Line,
    pos: Pos,
    output: String,
    ctx: &Context<P>,
) -> (r: Result<(Line, Pos, String), Error>)
    ensures
        block_result(r, block(doc(lines), ctx, line as int, pos as int, output@)),
    decreases lines_left(doc(lines), line as int), chars_left(doc(lines), line as int, pos as int), 3nat,
{
    let ghost d = doc(lines);
    let ghost names = plugin_names(ctx);
    if line >= lines.len() {
        return Err(Error::BlockNameNoEnd(line, pos));
    }
    let s = &lines[line];
    assert(s@ == d[line as int]);
    if pos >= s.len() {
        return Err(Error::BlockNameNoEnd(line, pos));
    }
    let mut name = String::new();
    let mut q = pos;
    while q < s.len() && is_valid_ch(s[q])
        invariant
            pos <= q <= s@.len(),
            name@ == s@.subrange(pos as int, q as int),
            name_len_split(s@, pos as int, q as int),
        decreases s@.len() - q,
    {
        name.push(s[q]);
        q = q + 1;
        assert(name@ =~= s@.subrange(pos as int, q as int));
    }
    assert(q == pos + name_len(s@, pos as int));
    let start;
    if q < s.len() {
        let c = s[q];
        if is_whitespace(c) {
            start = q + 1;
        } else if c == ']' {
            start = q;
        } else {
            return Err(Error::BadBlockName(line, q));
        }
    } else {
        start = q;
    }
    let mut i: usize = 0;
    while i < ctx.plugins.len()
        invariant
            i <= ctx.plugins@.len(),
            names == plugin_names(ctx),
            first_index(names, name@, 0) == first_index(names, name@, i as int),
            d == doc(lines),
            line < d.len(),
            pos < d[line as int].len(),
            q == pos + name_len(d[line as int], pos as int),
            q < d[line as int].len() ==> (is_ws(d[line as int][q as int]) || d[line as int][q as int] == ']'),
            start == if q < d[line as int].len() && is_ws(d[line as int][q as int]) { q + 1 } else { q as int },
            name@ == d[line as int].subrange(pos as int, q as int),
        decreases ctx.plugins@.len() - i,
    {
        if ctx.plugins[i].0 == name {
            assert(names[i as int] == name@);
            proof {
                lemma_block_plugin(d, ctx, line as int, pos as int, output@, q as int, start as int, i as int);
            }
            return ctx.plugins[i].1.expand(lines, line, start, output, ctx);
        }
        i = i + 1;
    }
    let mut out = output;
    out.append("<div class='");
    out.append(name.as_str());
    out.append("'>");
    let ghost goal = block_body(d, ctx, line as int, start as int, out@, line as int, None, no_marks());
    let ghost whole = block(d, ctx, line as int, pos as int, output@);
    proof {
        lemma_block_div(d, ctx, line as int, pos as int, output@, q as int, start as int);
    }
    assert(whole == match goal {
        Outcome::Done((l, p, o2)) => Outcome::Done((l, p, o2 + "</div>"@)),
        Outcome::Failed(e) => Outcome::Failed(e),
        Outcome::Deferred => Outcome::Deferred,
    });
    let mut l = line;
    let mut p = start;
    let mut last: Option<bool> = None;
    let mut marks = Marks::none();
    loop
        invariant
            whole == block(d, ctx, line as int, pos as int, output@),
            whole == match goal {
                Outcome::Done((l, p, o2)) => Outcome::Done((l, p, o2 + "</div>"@)),
                Outcome::Failed(e) => Outcome::Failed(e),
                Outcome::Deferred => Outcome::Deferred,
            },
            goal is Deferred || goal == block_body(d, ctx, l as int, p as int, out@, line as int, last, marks),
            lines_left(d, l as int) < lines_left(d, line as int)
                || (lines_left(d, l as int) == lines_left(d, line as int)
                    && chars_left(d, l as int, p as int) <= chars_left(d, line as int, pos as int)),
            d == doc(lines),
            names == plugin_names(ctx),
        decreases lines_left(d, l as int), chars_left(d, l as int, p as int),
    {
        let res = parse_text_line(lines, l, p, out, ctx, true, line, last, marks);
        match res {
            Err(e) => {
                return Err(e);
            },
            Ok((closed, nl, np, o, nlast, nmarks)) => {
                if closed {
                    let mut o = o;
                    o.append("</div>");
                    return Ok((nl, np, o));
                }
                if !is_advanced(lines, l, p, nl, np) {
                    return Err(Error::OtherError(l, p, STALLED));
                }
                l = nl;
                p = np;
                out = o;
                last = nlast;
                marks = nmarks;
            },
        }
    }
}

/// Compiles a whole document to an HTML page: each top-level block in turn,
/// between the page's opening and closing tags. Only whitespace may stand
/// between blocks.
pub fn parse<P: Plugin>(s: String, ctx: Context<P>) -> (r: Result<String, Error>)
    ensures
        page_result(r, compile(s@, &ctx, ctx.head_insert@, ctx.body_insert@)),
{
    let lines = split_lines(s.as_str());
    let ghost d = doc(&lines);
    let ghost names = plugin_names(&ctx);
    let mut output = String::new();
    output.append("<html><head>");
    output.append(ctx.head_insert.as_str());
    output.append("</head><body>");
    output.append(ctx.body_insert.as_str());
    assert(output@ =~= page_head(ctx.head_insert@, ctx.body_insert@));
    let ghost goal = top(d, &ctx, 0, 0, output@);
    let mut l: usize = 0;
    let mut p: usize = 0;
    while l < lines.len()
        invariant
            d == doc(&lines),
            names == plugin_names(&ctx),
            d == lines_of(s@),
            goal == top(d, &ctx, 0, 0, page_head(ctx.head_insert@, ctx.body_insert@)),
            goal is Deferred || goal == top(d, &ctx, l as int, p as int, output@),
        decreases lines_left(d, l as int), chars_left(d, l as int, p as int),
    {
        let line = &lines[l];
        assert(line@ == d[l as int]);
        if p >= line.len() {
            l = l + 1;
            p = 0;
        } else {
            let c = line[p];
            if is_whitespace(c) {
                p = p + 1;
            } else if c != '[' {
                return Err(Error::ExpectedBlockStart(l, p));
            } else {
                let res = parse_block(&lines, l, p + 1, output, &ctx);
                match res {
                    Err(e) => {
                        return Err(e);
                    },
                    Ok((nl, np, o)) => {
                        if !is_advanced(&lines, l, p, nl, np) {
                            return Err(Error::OtherError(l, p, STALLED));
                        }
                        l = nl;
                        p = np;
                        output = o;
                    },
                }
            }
        }
    }
    assert(l >= d.len());
    assert(top(d, &ctx, l as int, p as int, output@) == Outcome::<Seq<char>>::Done(output@));
    output.append("</body></html>");
    Ok(output)
}

/// `name_len` from `i` splits at `q`: the name characters from `i` are those
/// up to `q` and then those from `q`.
pub open spec fn name_len_split(s: Seq<char>, i: int, q: int) -> bool {
    &&& name_len(s, i) == (q - i) + name_len(s, q)
    &&& forall|k: int| i <= k < q ==> crate::model::is_name_char(#[trigger] s[k])
}

} // verus!
verus! {

/// One step of the scan over a character that is only written out.
proof fn lemma_scan_plain<P: Plugin>(
    d: Seq<Seq<char>>,
    ctx: &Context<P>,
    line: int,
    pos: int,
    out: Seq<char>,
    allow: bool,
    start: int,
    st: Scan,
    c: char,
)
    requires
        0 <= line < d.len(),
        0 <= pos < d[line].len(),
        !st.escaped,
        d[line][pos] == c,
        c != '[' && c != ']' && c != '\\' && c != ' ',
        !is_toggle(c),
        !((c == '+' || c == '=') && st.first),
    ensures
        scan(d, ctx, line, pos, out, allow, start, st)
            == scan(d, ctx, line, pos + 1, out.push(c), allow, start, Scan { first: st.first && is_ws(c), last: c, ..st }),
{
}

/// A block whose name is registered is what the first plugin registered
/// under it makes of the text after the name.
proof fn lemma_block_plugin<P: Plugin>(
    d: Seq<Seq<char>>,
    ctx: &Context<P>,
    line: int,
    pos: int,
    out: Seq<char>,
    q: int,
    start: int,
    i: int,
)
    requires
        0 <= line < d.len(),
        0 <= pos < d[line].len(),
        q == pos + name_len(d[line], pos),
        q < d[line].len() ==> (is_ws(d[line][q]) || d[line][q] == ']'),
        start == if q < d[line].len() && is_ws(d[line][q]) { q + 1 } else { q },
        first_index(plugin_names(ctx), d[line].subrange(pos, q), 0) == Some(i),
    ensures
        0 <= i < ctx.plugins@.len(),
        block(d, ctx, line, pos, out) == ctx.plugins@[i].1.expansion(d, line, start, out, ctx),
{
    lemma_first_index(plugin_names(ctx), d[line].subrange(pos, q), 0);
}

/// `first_index` finds an index at or after `k` that holds `name`, and finds
/// none only where none from `k` on does.
pub proof fn lemma_first_index(names: Seq<Seq<char>>, name: Seq<char>, k: int)
    requires
        0 <= k,
    ensures
        first_index(names, name, k) is Some ==> k <= first_index(names, name, k)->0 < names.len()
            && names[first_index(names, name, k)->0] == name,
        first_index(names, name, k) is None <==> (forall|j: int| k <= j < names.len() ==> names[j] != name),
    decreases names.len() - k,
{
    if k < names.len() {
        lemma_first_index(names, name, k + 1);
    }
}

/// A block whose name is not registered becomes a `<div>` around its text.
proof fn lemma_block_div<P: Plugin>(
    d: Seq<Seq<char>>,
    ctx: &Context<P>,
    line: int,
    pos: int,
    out: Seq<char>,
    q: int,
    start: int,
)
    requires
        0 <= line < d.len(),
        0 <= pos < d[line].len(),
        q == pos + name_len(d[line], pos),
        q < d[line].len() ==> (is_ws(d[line][q]) || d[line][q] == ']'),
        start == if q < d[line].len() && is_ws(d[line][q]) { q + 1 } else { q },
        first_index(plugin_names(ctx), d[line].subrange(pos, q), 0) is None,
    ensures
        block(d, ctx, line, pos, out) == match block_body(
            d,
            ctx,
            line,
            start,
            out + "<div class='"@ + d[line].subrange(pos, q) + "'>"@,
            line,
            None,
            no_marks(),
        ) {
            Outcome::Done((l, p, o2)) => Outcome::Done((l, p, o2 + "</div>"@)),
            Outcome::Failed(e) => Outcome::Failed(e),
            Outcome::Deferred => Outcome::Deferred,
        },
{
}

} // verus!
