use cargo_tarpaulin::analysis::SubResult::{Definite, Reachable, Unreachable};
use cargo_tarpaulin::analysis::{LineAnalysis, Lines};
use cargo_tarpaulin::args::RunTypesArgs;
use cargo_tarpaulin::config::types::RunType;

#[test]
fn ignored_spans_are_ignored() {
    let mut a = LineAnalysis::new();
    a.cover.insert(4);
    a.cover.insert(9);
    a.ignore_span(3, 5);
    assert!(a.should_ignore(3) && a.should_ignore(4) && a.should_ignore(5));
    assert!(!a.should_ignore(6));
    assert!(!a.cover.contains(&4));
    assert!(a.cover.contains(&9));
    a.ignore_span(4, 4);
    assert_eq!(a.ignore.len(), 3);
}

#[test]
fn ignoring_all_lines() {
    let mut a = LineAnalysis::with_max_line(10);
    a.cover.insert(2);
    a.ignore_all();
    assert_eq!(a.ignore, vec![Lines::All]);
    assert!(a.cover.is_empty());
    assert!(a.should_ignore(1));
    a.add_to_ignore(&vec![1, 2]);
    assert_eq!(a.ignore, vec![Lines::All]);
}

#[test]
fn lines_past_the_end_are_ignored() {
    let a = LineAnalysis::with_max_line(10);
    assert!(!a.should_ignore(10));
    assert!(a.should_ignore(11));
    let b = LineAnalysis::new();
    assert!(!b.should_ignore(1000));
}

#[test]
fn add_to_ignore_takes_lines_out_of_cover() {
    let mut a = LineAnalysis::new();
    a.cover.insert(7);
    a.add_to_ignore(&vec![7, 8, 7]);
    assert!(a.should_ignore(7) && a.should_ignore(8));
    assert!(!a.cover.contains(&7));
    assert_eq!(a.ignore.len(), 2);
}

#[test]
fn reachability_combines() {
    assert_eq!(Reachable.add(Unreachable), Unreachable);
    assert_eq!(Unreachable.add(Definite), Definite);
    assert_eq!(Definite.add(Reachable), Definite);
    assert_eq!(Reachable.add(Reachable), Reachable);
    assert_eq!(Unreachable.add(Reachable), Reachable.add(Unreachable));
    let mut r = Reachable;
    r.add_assign(Unreachable);
    assert!(r.is_unreachable());
    assert!(Definite.is_reachable());
}

#[test]
fn run_types_are_collected() {
    let args = RunTypesArgs {
        run_types: vec![RunType::Lib],
        benches: false,
        doc: true,
        all_targets: false,
        lib: true,
        bins: false,
        examples: false,
        tests: true,
    };
    assert_eq!(args.collect(), vec![RunType::Lib, RunType::Doctests, RunType::Tests]);
    let none = RunTypesArgs {
        run_types: vec![],
        benches: true,
        doc: false,
        all_targets: true,
        lib: false,
        bins: true,
        examples: true,
        tests: false,
    };
    assert_eq!(none.collect(), vec![RunType::AllTargets, RunType::Benchmarks, RunType::Bins, RunType::Examples]);
}

#[test]
fn covered_spans_skip_comments() {
    let contents = "fn a() {\n    // note\n    let x = 1;\n    /* start\n    still\n    end */\n    x\n}\n";
    let mut a = LineAnalysis::new();
    a.add_to_ignore(&vec![3]);
    a.cover_span(1, 8, Some(contents));
    let mut covered: Vec<usize> = a.cover.iter().cloned().collect();
    covered.sort();
    assert_eq!(covered, vec![1, 7]);
    let mut b = LineAnalysis::new();
    b.cover_span(1, 8, None);
    assert!(b.cover.is_empty());
}

#[test]
fn lines_normalise_to_their_logical_line() {
    let mut analysis = LineAnalysis::new();
    analysis.logical_lines.insert(5, 3);
    assert_eq!(analysis.normalise(5), 3);
    assert_eq!(analysis.normalise(4), 4);
}

#[test]
fn tests_line_analysis_works() {
    let mut la = LineAnalysis::new();
    assert!(!la.should_ignore(0));
    assert!(!la.should_ignore(10));

    la.add_to_ignore(&vec![3, 4, 10]);
    assert!(la.should_ignore(3));
    assert!(la.should_ignore(4));
    assert!(la.should_ignore(10));
    assert!(!la.should_ignore(1));
}

#[test]
fn ignore_comment() {
    let file_contents = "/// I am a doc comment
        fn foo() -> u32 {
            let x = 5;
            // I should be ignored
            // and me as well
            x * 2
        }
        
        fn blah() 
        {

        }";
    let mut lines = LineAnalysis::new();
    lines.find_ignorable_lines(file_contents);
    assert_eq!(lines.ignore.len(), 8);
    assert!(lines.ignore.contains(&Lines::Line(1)));
    assert!(lines.ignore.contains(&Lines::Line(4)));
    assert!(lines.ignore.contains(&Lines::Line(5)));
    assert!(lines.ignore.contains(&Lines::Line(7)));
    assert!(lines.ignore.contains(&Lines::Line(8)));
    assert!(lines.ignore.contains(&Lines::Line(10)));
    assert!(lines.ignore.contains(&Lines::Line(11)));
    assert!(lines.ignore.contains(&Lines::Line(12)));
}

#[test]
fn else_lines_are_ignored() {
    let mut lines = LineAnalysis::new();
    lines.find_ignorable_lines("if a {\n    b();\n} else {\n    c();\n}\n");
    assert!(lines.ignore.contains(&Lines::Line(3)));
    assert!(lines.ignore.contains(&Lines::Line(5)));
    assert!(!lines.ignore.contains(&Lines::Line(1)));
    assert!(!lines.ignore.contains(&Lines::Line(2)));
}
