use libosml::text::{count_run, count_to_marker, parse_list_determine_depth, push_repeat};
use libosml::{
    is_valid_ch, is_whitespace, parse_block, parse_close_list, parse_open_list, split_lines, Context, Error,
    Marks, NoPlugin,
};

fn lines(src: &str) -> Vec<Vec<char>> {
    split_lines(src)
}

fn ctx() -> Context<NoPlugin> {
    Context::create(String::new(), String::new())
}

#[test]
fn splits_at_newlines() {
    assert_eq!(split_lines("ab\n\nc"), vec![vec!['a', 'b'], vec![], vec!['c']]);
    assert_eq!(split_lines(""), vec![Vec::<char>::new()]);
    assert_eq!(split_lines("x\n"), vec![vec!['x'], vec![]]);
}

#[test]
fn character_classes() {
    assert!(is_whitespace(' ') && is_whitespace('\t') && is_whitespace('\r') && is_whitespace('\n'));
    assert!(!is_whitespace('a'));
    assert!(is_valid_ch('a') && is_valid_ch('Z') && is_valid_ch('_'));
    assert!(!is_valid_ch('1') && !is_valid_ch('-') && !is_valid_ch('é'));
}

#[test]
fn counting() {
    let s: Vec<char> = "  ++x".chars().collect();
    assert_eq!(count_to_marker(&s, 0, '+'), 2);
    assert_eq!(count_run(&s, 2, '+'), 2);
    assert_eq!(parse_list_determine_depth(&s, 0, '+'), 2);
    assert_eq!(parse_list_determine_depth(&s, 0, '='), 0);
    let t: Vec<char> = "x+".chars().collect();
    assert_eq!(parse_list_determine_depth(&t, 0, '+'), 1);
    let mut out = String::from("<");
    push_repeat(&mut out, "ab", 3);
    assert_eq!(out, "<ababab");
}

#[test]
fn block_from_after_bracket() {
    let l = lines("[note hi] rest");
    let (line, pos, out) = parse_block(&l, 0, 1, String::from(">"), &ctx()).unwrap();
    assert_eq!((line, pos), (0, 9));
    assert_eq!(out, "><div class='note'>hi</div>");
}

#[test]
fn block_with_bad_name() {
    let l = lines("[no-te hi]");
    assert_eq!(parse_block(&l, 0, 1, String::new(), &ctx()), Err(Error::BadBlockName(0, 3)));
}

#[test]
fn close_list_after_list_line() {
    let l = lines("++ a\ntext");
    assert_eq!(parse_close_list(&l, 1, 0, String::from("x"), false), "x</ul></ul>");
    let l = lines("== a\n= b");
    assert_eq!(parse_close_list(&l, 1, 0, String::from("x"), true), "x");
    let l = lines("+ a\nb + c");
    assert_eq!(parse_close_list(&l, 1, 0, String::from("X"), false), "X");
}

#[test]
fn open_list_line() {
    let l = lines("+ a\n++ b");
    let (closed, line, pos, out, kind, marks) =
        parse_open_list(&l, 1, 0, String::new(), &ctx(), false, 0, Marks::none()).unwrap();
    assert!(marks.bold.is_none() && marks.italic.is_none());
    assert!(!closed);
    assert_eq!((line, pos), (2, 0));
    assert_eq!(out, "<ul><li>b </li>");
    assert_eq!(kind, Some(false));
}
