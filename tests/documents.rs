use libosml::{parse, Context, Error, Line, NoPlugin, Plugin, Pos};

fn plain() -> Context<NoPlugin> {
    Context::create(String::new(), String::new())
}

fn page(inner: &str) -> String {
    format!("<html><head></head><body>{}</body></html>", inner)
}

fn compile(src: &str) -> Result<String, Error> {
    parse(src.to_string(), plain())
}

#[test]
fn single_block() {
    let out = compile("[abc Hello World]").unwrap();
    assert!(out.contains("<div class='abc'>Hello World</div>"));
    assert_eq!(out, page("<div class='abc'>Hello World</div>"));
}

#[test]
fn nested_blocks_close_in_order() {
    let out = compile("[outer [inner X] Y]").unwrap();
    assert_eq!(out, page("<div class='outer'><div class='inner'>X</div>Y</div>"));
}

#[test]
fn nested_blocks_on_several_lines() {
    let out = compile("[outer\n[inner\nX\n]\n]").unwrap();
    assert_eq!(out, page("<div class='outer'><div class='inner'>X </div></div>"));
}

#[test]
fn list_with_nested_level() {
    let out = compile("[l\n+ First\n+ Second\n++Nested\n]").unwrap();
    assert_eq!(
        out,
        page("<div class='l'><ul><li>First </li><li>Second </li><ul><li>Nested </li></ul></ul></div>")
    );
}

#[test]
fn ordered_list() {
    let out = compile("[l\n= a\n= b\n]").unwrap();
    assert_eq!(out, page("<div class='l'><ol><li>a </li><li>b </li></ol></div>"));
}

#[test]
fn list_pops_several_levels() {
    let out = compile("[l\n+++ a\n+ b\n]").unwrap();
    assert_eq!(
        out,
        page("<div class='l'><ul><ul><ul><li>a </li></ul></ul><li>b </li></ul></div>")
    );
}

#[test]
fn list_closed_by_the_block_end() {
    let out = compile("[l\n++ a]").unwrap();
    assert_eq!(out, page("<div class='l'><ul><ul><li>a</li></ul></ul></div>"));
}

#[test]
fn list_depth_jump_is_rejected() {
    assert_eq!(compile("[l\n+ a\n+++ b\n]"), Err(Error::InvalidListDepth(2, 0)));
}

#[test]
fn list_depth_steps_of_one_are_accepted() {
    assert!(compile("[l\n+ a\n++ b\n+++ c\n+ d\n]").is_ok());
}

#[test]
fn list_marker_in_item_is_recursive() {
    assert_eq!(compile("[l\n+ + x\n]"), Err(Error::RecursiveList(1, 2)));
}

#[test]
fn empty_line_is_paragraph_break() {
    let out = compile("[a\n\n]").unwrap();
    assert_eq!(out, page("<div class='a'><br><br></div>"));
}

#[test]
fn spaces_collapse() {
    let out = compile("[a x   y  ]").unwrap();
    assert_eq!(out, page("<div class='a'>x y </div>"));
}

#[test]
fn escapes_write_the_character() {
    let out = compile(r"[a \*x\* \/ \_ \~ \\]").unwrap();
    assert_eq!(out, page(r"<div class='a'>*x* / _ ~ \</div>"));
}

#[test]
fn escaped_backslash_leaves_toggle() {
    let out = compile(r"[a \\*x*]").unwrap();
    assert_eq!(out, page(r"<div class='a'>\<b>x</b></div>"));
}

#[test]
fn escaped_brackets() {
    let out = compile(r"[a \[x\]]").unwrap();
    assert_eq!(out, page("<div class='a'>[x]</div>"));
}

#[test]
fn stray_backslash() {
    assert_eq!(compile(r"[a \q]"), Err(Error::StrayBackslash(0, 4)));
}

#[test]
fn toggles_render_tags() {
    let out = compile("[a *b* /i/ _u_ ~s~]").unwrap();
    assert_eq!(out, page("<div class='a'><b>b</b> <i>i</i> <u>u</u> <s>s</s></div>"));
}

#[test]
fn odd_bold_is_unclosed() {
    assert_eq!(compile("[a *x]"), Err(Error::UnclosedBold(0, 3)));
}

#[test]
fn odd_italic_is_unclosed() {
    assert_eq!(compile("[a /x/ /y]"), Err(Error::UnclosedItalic(0, 7)));
}

#[test]
fn odd_underline_is_unclosed() {
    assert_eq!(compile("[a _x]"), Err(Error::UnclosedUnderline(0, 3)));
}

#[test]
fn odd_strikethrough_is_unclosed() {
    assert_eq!(compile("[a ~x]"), Err(Error::UnclosedStrikethrough(0, 3)));
}

#[test]
fn bold_is_reported_before_italic() {
    assert_eq!(compile("[a /x *y]"), Err(Error::UnclosedBold(0, 6)));
}

#[test]
fn toggle_spans_lines_of_a_block() {
    assert_eq!(compile("[a *x\ny*]"), Ok(page("<div class='a'><b>x y</b></div>")));
}

#[test]
fn odd_italic_over_two_lines() {
    assert_eq!(compile("[a *x /y\nz*]"), Err(Error::UnclosedItalic(0, 6)));
}

#[test]
fn toggle_open_until_block_end() {
    assert_eq!(compile("[a *x\ny\n]"), Err(Error::UnclosedBold(0, 3)));
}

#[test]
fn list_depth_after_text_with_marker() {
    assert_eq!(compile("[l\nx + y\n+++ z\n]"), Err(Error::InvalidListDepth(2, 0)));
}

#[test]
fn text_with_marker_continues_list() {
    assert_eq!(
        compile("[l\n+ a\nb + c\n]"),
        Ok(page("<div class='l'><ul><li>a </li>b + c </div>"))
    );
}

#[test]
fn text_outside_blocks() {
    assert_eq!(compile("hello"), Err(Error::ExpectedBlockStart(0, 0)));
    assert_eq!(compile("  \n x [a]"), Err(Error::ExpectedBlockStart(1, 1)));
    assert_eq!(compile("[a b] c"), Err(Error::ExpectedBlockStart(0, 6)));
}

#[test]
fn whitespace_only_document() {
    assert_eq!(compile(" \n\t\n"), Ok(page("")));
    assert_eq!(compile(""), Ok(page("")));
}

#[test]
fn block_name_at_end_of_line() {
    assert_eq!(compile("["), Err(Error::BlockNameNoEnd(0, 1)));
}

#[test]
fn bad_block_name() {
    assert_eq!(compile("[a1 x]"), Err(Error::BadBlockName(0, 2)));
}

#[test]
fn block_without_end() {
    assert_eq!(compile("\n[a x\ny"), Err(Error::BlockNoEnd(1, 0)));
}

#[test]
fn block_closed_after_its_name() {
    assert_eq!(compile("[a]"), Ok(page("<div class='a'></div>")));
}

#[test]
fn head_and_body_are_injected() {
    let ctx: Context<NoPlugin> = Context::create("<title>t</title>".to_string(), "<p>".to_string());
    let out = parse("[a x]".to_string(), ctx).unwrap();
    assert_eq!(out, "<html><head><title>t</title></head><body><p><div class='a'>x</div></body></html>");
}

#[test]
fn parse_twice_is_identical() {
    let src = "[a *x* [b y]\n+ z\n]";
    let first = compile(src);
    let second = compile(src);
    assert_eq!(first, second);
    assert!(first.is_ok());
}

struct Stuck;

impl Plugin for Stuck {
    fn expand(
        &self,
        _lines: &Vec<Vec<char>>,
        _line: Line,
        _pos: Pos,
        output: String,
        _ctx: &Context<Self>,
    ) -> Result<(Line, Pos, String), Error> {
        Ok((0, 0, output))
    }
}

struct Refuses;

impl Plugin for Refuses {
    fn expand(
        &self,
        _lines: &Vec<Vec<char>>,
        line: Line,
        pos: Pos,
        _output: String,
        _ctx: &Context<Self>,
    ) -> Result<(Line, Pos, String), Error> {
        Err(Error::OtherError(line, pos, "refused"))
    }
}

#[test]
fn plugin_that_does_not_advance() {
    let mut ctx = Context::create(String::new(), String::new());
    ctx.register("s".to_string(), Stuck);
    match parse("[s x]".to_string(), ctx) {
        Err(Error::OtherError(0, 0, _)) => {}
        other => panic!("unexpected {:?}", other),
    }
}

#[test]
fn plugin_error_is_passed_on() {
    let mut ctx = Context::create(String::new(), String::new());
    ctx.register("r".to_string(), Refuses);
    let e = parse("[a [r x]]".to_string(), ctx).unwrap_err();
    assert_eq!(e, Error::OtherError(0, 6, "refused"));
    assert_eq!(e.message(), "refused");
    assert_eq!(e.line(), 0);
}

#[test]
fn unregistered_names_are_divs() {
    let mut ctx = Context::create(String::new(), String::new());
    ctx.register("r".to_string(), Refuses);
    assert_eq!(parse("[rr x]".to_string(), ctx), Ok(page("<div class='rr'>x</div>")));
}

#[test]
fn messages() {
    assert_eq!(
        Error::BlockNoEnd(3, 0).message(),
        "Block's openning `[` is not matched with a corresponding `]`."
    );
    assert!(Error::InvalidListDepth(0, 0).message().contains("depth"));
    assert_eq!(Error::StrayBackslash(7, 1).line(), 7);
}

#[test]
fn registered_no_plugin_fails_after_the_name() {
    let mut ctx: Context<NoPlugin> = Context::create(String::new(), String::new());
    ctx.register("n".to_string(), NoPlugin);
    match parse("[a [n x]]".to_string(), ctx) {
        Err(Error::OtherError(0, 6, m)) => assert_eq!(m, libosml::context::NO_PLUGIN),
        other => panic!("unexpected {:?}", other),
    }
}
