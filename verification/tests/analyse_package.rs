use cargo_tarpaulin::attributes::{LitSyntax, MetaItem, MetaValue};
use cargo_tarpaulin::file_syntax::TokenKind;
use cargo_tarpaulin::analysis::Lines;
use cargo_tarpaulin::attributes::CfgContext;
use cargo_tarpaulin::config::types::RunType;
use cargo_tarpaulin::file_syntax::{ExprKind, ItemSyntax, StmtSyntax};
use cargo_tarpaulin::source_files::{parse_file_syntax, PackageStep, SourceAnalysis};

fn ctx(include_tests: bool) -> CfgContext {
    CfgContext { include_tests, avoid_cfg_tarpaulin: false, features: vec![] }
}

fn analyse(path: &str, contents: Option<&str>, include_tests: bool) -> (SourceAnalysis, PackageStep, Vec<String>) {
    let mut sa = SourceAnalysis::new();
    let mut filtered = vec![];
    let step = sa.analyse_package(path, "/proj", contents, &ctx(include_tests), &vec![RunType::Tests], false, false, &mut filtered);
    (sa, step, filtered)
}

#[test]
fn parse_reads_lines_of_items() {
    let f = parse_file_syntax("use std::fmt;\n\nfn main() {\n    let x = 1;\n}\n").expect("parses");
    assert_eq!(f.items.len(), 2);
    match &f.items[0] {
        ItemSyntax::Use(a, b) => assert_eq!((*a, *b), (1, 1)),
        _ => panic!("a use item is inert"),
    }
    match &f.items[1] {
        ItemSyntax::Fn(func) => {
            assert_eq!(func.fn_line, 3);
            assert_eq!((func.body.start_line, func.body.end_line), (3, 5));
            assert_eq!(func.body.stmts.len(), 1);
            assert!(matches!(func.body.stmts[0], StmtSyntax::Local(_)));
        },
        _ => panic!("a function item"),
    }
}

#[test]
fn parse_tells_expression_kinds() {
    let f = parse_file_syntax("fn f() {\n    unreachable!();\n    g(1);\n}\n").expect("parses");
    match &f.items[0] {
        ItemSyntax::Fn(func) => {
            assert!(matches!(&func.body.stmts[0], StmtSyntax::Macro(_, m) if m.name.as_deref() == Some("unreachable")));
            match &func.body.stmts[1] {
                StmtSyntax::Expr(e) => assert!(matches!(e.kind, ExprKind::Call(..))),
                _ => panic!("a call statement"),
            }
        },
        _ => panic!("a function item"),
    }
}

#[test]
fn parse_refuses_bad_text() {
    assert!(parse_file_syntax("fn (").is_none());
}

#[test]
fn analyse_package_walks_items() {
    let text = "use std::fmt;\nfn main() {\n    let x = 1;\n}\n";
    let (sa, step, filtered) = analyse("/proj/src/main.rs", Some(text), false);
    assert_eq!(step, PackageStep::Analysed);
    assert!(filtered.is_empty());
    assert!(sa.should_ignore("/proj/src/main.rs", 1));
    assert!(!sa.should_ignore("/proj/src/main.rs", 3));
    assert!(sa.should_ignore("/proj/src/main.rs", 4));
}

#[test]
fn analyse_package_keeps_pub_first_line() {
    let text = "pub fn a() {\n    let x = 1;\n}\n";
    let (sa, step, _) = analyse("/proj/src/lib.rs", Some(text), false);
    assert_eq!(step, PackageStep::Analysed);
    assert!(!sa.should_ignore("/proj/src/lib.rs", 1));
    let text = "// a comment\nfn a() {\n    let x = 1;\n}\n";
    let (sa, _, _) = analyse("/proj/src/lib.rs", Some(text), false);
    assert!(sa.should_ignore("/proj/src/lib.rs", 1));
}

#[test]
fn analyse_package_unreachable_function() {
    let text = "fn a() {\n    unreachable!();\n}\nfn b() {\n    let y = 2;\n}\n";
    let (sa, _, _) = analyse("/proj/src/lib.rs", Some(text), false);
    assert!(sa.should_ignore("/proj/src/lib.rs", 2));
    assert!(sa.should_ignore("/proj/src/lib.rs", 1));
    assert!(!sa.should_ignore("/proj/src/lib.rs", 5));
}

#[test]
fn analyse_package_tests_module_left_out() {
    let text = "fn a() {\n    let x = 1;\n}\n#[cfg(test)]\nmod tests;\n";
    let (_, step, filtered) = analyse("/proj/src/lib.rs", Some(text), false);
    assert_eq!(step, PackageStep::Analysed);
    assert_eq!(filtered, vec!["/proj/src/tests.rs".to_string()]);
    let (_, _, filtered) = analyse("/proj/src/lib.rs", Some(text), true);
    assert!(filtered.is_empty());
}

#[test]
fn analyse_package_rejected_file() {
    let text = "#![cfg(not(tarpaulin_include))]\nfn a() {\n    let x = 1;\n}\n";
    let (sa, step, _) = analyse("/proj/src/other.rs", Some(text), false);
    assert_eq!(step, PackageStep::Rejected);
    assert!(sa.should_ignore("/proj/src/other.rs", 3));
}

#[test]
fn analyse_package_skips_tests_folder() {
    let (sa, step, _) = analyse("/proj/tests/a.rs", Some("fn a() {}\n"), false);
    assert_eq!(step, PackageStep::Skipped);
    assert!(sa.lines[0].analysis.ignore.contains(&Lines::All));
    let (_, step, _) = analyse("/proj/tests/a.rs", Some("fn a() {}\n"), true);
    assert_eq!(step, PackageStep::Analysed);
}

#[test]
fn analyse_package_unread_and_unparsed() {
    let (sa, step, _) = analyse("/proj/src/a.rs", None, false);
    assert_eq!(step, PackageStep::Unread);
    assert!(sa.lines.is_empty());
    let (sa, step, _) = analyse("/proj/src/a.rs", Some("fn ("), false);
    assert_eq!(step, PackageStep::Unparsed);
    assert!(sa.lines.is_empty());
}

#[test]
fn parse_keeps_token_and_literal_kinds() {
    let f = parse_file_syntax("#![doc = \"x\"]\nfn f() {\n    println!(\"{}\", y);\n}\n").expect("parses");
    assert!(matches!(&f.attrs[0].meta, MetaItem::NameValue(_, MetaValue::Lit(LitSyntax::Str(s))) if s == "x"));
    match &f.items[0] {
        ItemSyntax::Fn(func) => match &func.body.stmts[0] {
            StmtSyntax::Macro(_, m) => {
                assert!(matches!(m.args[0].kind, TokenKind::Literal));
                assert!(matches!(m.args[1].kind, TokenKind::Punct));
                assert!(matches!(m.args[2].kind, TokenKind::Ident));
            },
            _ => panic!("a macro statement"),
        },
        _ => panic!("a function item"),
    }
}
