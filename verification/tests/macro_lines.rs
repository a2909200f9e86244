use cargo_tarpaulin::analysis::SubResult::{Definite, Reachable, Unreachable};
use cargo_tarpaulin::analysis::{LineAnalysis, Lines};
use cargo_tarpaulin::macro_lines::{
    get_line_range, macro_name_outcome, statements_result, visit_macro_call, TokenSpan,
};

fn tok(start_line: usize, end_line: usize, literal_or_punct: bool) -> TokenSpan {
    TokenSpan { start_line, end_line, literal_or_punct }
}

#[test]
fn statements_take_the_strongest_result() {
    assert_eq!(statements_result(&vec![]), Reachable);
    assert_eq!(statements_result(&vec![Reachable, Reachable]), Reachable);
    assert_eq!(statements_result(&vec![Reachable, Unreachable]), Unreachable);
    assert_eq!(statements_result(&vec![Unreachable, Definite, Reachable]), Definite);
}

#[test]
fn line_range_spans_all_tokens() {
    assert_eq!(get_line_range(&vec![]), (0, 0));
    assert_eq!(get_line_range(&vec![tok(4, 4, false)]), (4, 5));
    assert_eq!(get_line_range(&vec![tok(5, 7, false), tok(3, 4, true), tok(6, 9, false)]), (3, 10));
}

#[test]
fn macro_names_decide_coverage() {
    assert_eq!(macro_name_outcome("unreachable", false), (Unreachable, true));
    assert_eq!(macro_name_outcome("todo", false), (Reachable, true));
    assert_eq!(macro_name_outcome("unimplemented", false), (Reachable, true));
    assert_eq!(macro_name_outcome("include", false), (Reachable, true));
    assert_eq!(macro_name_outcome("cfg", false), (Reachable, true));
    assert_eq!(macro_name_outcome("panic", false), (Reachable, false));
    assert_eq!(macro_name_outcome("panic", true), (Reachable, true));
    assert_eq!(macro_name_outcome("println", true), (Reachable, false));
}

#[test]
fn unreachable_macro_is_ignored_and_unreachable() {
    let mut a = LineAnalysis::new();
    let tokens = vec![tok(10, 10, false), tok(10, 12, false)];
    let res = visit_macro_call(&mut a, Some("unreachable"), false, 10, &tokens, &vec![]);
    assert_eq!(res, Unreachable);
    for l in 10..=12 {
        assert!(a.should_ignore(l));
    }
    assert!(!a.should_ignore(13));
    assert!(!a.should_ignore(9));
}

#[test]
fn macro_argument_lines_with_code_stay_covered() {
    // println!(
    //     "{}",      line 21: a literal
    //     value,     line 22: code
    // );             line 23
    let mut a = LineAnalysis::new();
    let args = vec![tok(21, 21, true), tok(21, 21, true), tok(22, 22, false), tok(22, 22, true)];
    let tokens = vec![tok(20, 20, false), tok(20, 20, true), tok(20, 23, false)];
    let res = visit_macro_call(&mut a, Some("println"), false, 20, &tokens, &args);
    assert_eq!(res, Reachable);
    assert!(!a.should_ignore(20));
    assert!(a.should_ignore(21));
    assert!(!a.should_ignore(22));
    assert!(a.should_ignore(23));
    assert!(!a.should_ignore(24));
    assert_eq!(a.ignore.len(), 2);
}

#[test]
fn panics_ignored_only_when_asked() {
    let tokens = vec![tok(5, 7, false)];
    let mut kept = LineAnalysis::new();
    visit_macro_call(&mut kept, Some("panic"), false, 5, &tokens, &vec![tok(6, 6, false)]);
    assert!(!kept.should_ignore(5));
    assert!(!kept.should_ignore(6));
    assert!(kept.should_ignore(7));
    let mut ignored = LineAnalysis::new();
    visit_macro_call(&mut ignored, Some("panic"), true, 5, &tokens, &vec![tok(6, 6, false)]);
    assert!(ignored.should_ignore(5) && ignored.should_ignore(6) && ignored.should_ignore(7));
}

#[test]
fn macro_on_all_ignored_file_changes_nothing() {
    let mut a = LineAnalysis::new();
    a.ignore_all();
    visit_macro_call(&mut a, None, false, 1, &vec![tok(1, 3, false)], &vec![]);
    assert_eq!(a.ignore, vec![Lines::All]);
}
