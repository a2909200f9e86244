use cargo_tarpaulin::analysis::{LineAnalysis, Lines};
use cargo_tarpaulin::attributes::{AttrSyntax, CfgContext, MetaItem};
use cargo_tarpaulin::fn_lines::{fn_attr_scan, fn_finish, fn_start, mod_start};
use cargo_tarpaulin::macro_lines::TokenSpan;

fn attr(path: &[&str], line: usize) -> AttrSyntax {
    AttrSyntax { meta: MetaItem::Path(path.iter().map(|s| s.to_string()).collect()), start_line: line, end_line: line }
}

fn list_attr(name: &str, items: Vec<MetaItem>, line: usize) -> AttrSyntax {
    AttrSyntax { meta: MetaItem::List(vec![name.to_string()], Some(items)), start_line: line, end_line: line }
}

fn tok(a: usize, b: usize) -> TokenSpan {
    TokenSpan { start_line: a, end_line: b, literal_or_punct: false }
}

#[test]
fn function_attributes_are_read_in_order() {
    let s = fn_attr_scan(&vec![attr(&["tokio", "test"], 1), attr(&["inline"], 2), attr(&["ignore"], 3)]);
    assert!(s.test && s.inline && s.ignored && !s.skip);
    let s = fn_attr_scan(&vec![
        attr(&["inline"], 1),
        list_attr("coverage", vec![MetaItem::Path(vec!["off".to_string()])], 2),
        attr(&["ignore"], 3),
    ]);
    assert!(s.inline && s.skip && !s.ignored);
}

#[test]
fn left_out_functions_lose_all_lines() {
    let mut a = LineAnalysis::new();
    let attrs = vec![attr(&["derive"], 1), attr(&["test"], 2)];
    let tokens = vec![tok(2, 2), tok(3, 6)];
    assert!(fn_start(&mut a, &attrs, &tokens, false, false));
    for l in 1..=6 {
        assert!(a.should_ignore(l));
    }
    assert!(!a.should_ignore(7));
    let mut b = LineAnalysis::new();
    assert!(!fn_start(&mut b, &attrs, &tokens, true, false));
    assert!(b.should_ignore(1));
    assert!(!b.should_ignore(3));
}

#[test]
fn ignored_tests_run_only_when_asked() {
    let attrs = vec![attr(&["ignore"], 4)];
    let mut a = LineAnalysis::new();
    assert!(fn_start(&mut a, &attrs, &vec![tok(5, 8)], true, false));
    let mut b = LineAnalysis::new();
    assert!(!fn_start(&mut b, &attrs, &vec![tok(5, 8)], true, true));
}

#[test]
fn declaration_lines_are_left_out_but_the_fn_line() {
    // 10: #[inline]
    // 11: pub fn f<T>(
    // 12:     x: T,
    // 13: ) -> T
    // 14: where T: Copy
    // 15: {
    let mut a = LineAnalysis::new();
    a.ignore_span(11, 11);
    fn_finish(&mut a, &vec![attr(&["inline"], 10)], &vec![tok(14, 14)], 11, 15);
    assert!(a.should_ignore(10));
    assert!(!a.should_ignore(11));
    for l in 12..=15 {
        assert!(a.should_ignore(l));
    }
    assert!(!a.should_ignore(16));
    let mut all = LineAnalysis::new();
    all.ignore_all();
    fn_finish(&mut all, &vec![], &vec![], 3, 4);
    assert_eq!(all.ignore, vec![Lines::All]);
}

#[test]
fn test_modules_are_left_out_with_their_files() {
    let ctx = CfgContext { include_tests: false, avoid_cfg_tarpaulin: false, features: vec![] };
    let cfg_test = list_attr("cfg", vec![MetaItem::Path(vec!["test".to_string()])], 20);
    let mut a = LineAnalysis::new();
    let res = mod_start(&mut a, &vec![cfg_test], &ctx, 21, Some((21, 30)), "/no/such/src/lib.rs", "tests");
    assert_eq!(res, Some("/no/such/src/tests.rs".to_string()));
    for l in 20..=30 {
        assert!(a.should_ignore(l));
    }
    let mut b = LineAnalysis::new();
    assert_eq!(mod_start(&mut b, &vec![], &ctx, 5, None, "/no/such/src/lib.rs", "net"), None);
    assert!(b.should_ignore(5));
    assert!(!b.should_ignore(6));
}
