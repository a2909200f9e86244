use cargo_tarpaulin::doctests::{attribute_candidates, SourceFile};

fn source(path: &str, contents: Option<&str>) -> SourceFile {
    SourceFile { path: path.to_string(), contents: contents.map(|c| c.to_string()) }
}

#[test]
fn attribute_lines_by_prefix() {
    let tests = vec![
        String::from("/proj/target/doctests/src_lib_rs_10_0/rust_out"),
        String::from("/proj/target/doctests/src_lib_rs_20_1/rust_out"),
        String::from("/proj/target/doctests/src_foo_rs_3_0/rust_out"),
        String::from("/proj/target/doctests/not-a-doctest/rust_out"),
    ];
    let sources = vec![
        source("/proj/src/lib.rs", Some("//! ```should_panic\n//! panic!()\n//! ```\nfn a() {}\n/// ```should_panic\n")),
        source("/proj/src/foo.rs", Some("nothing here\n")),
        source("/proj/src/bar.rs", None),
    ];
    let found = attribute_candidates(&tests, "/proj", &sources, "should_panic");
    assert_eq!(
        found,
        vec![(String::from("src_lib_rs"), vec![1, 5]), (String::from("src_foo_rs"), vec![])]
    );
}

#[test]
fn unreadable_and_unrelated_files_add_nothing() {
    let tests = vec![String::from("/proj/target/doctests/src_bar_rs_1_0/rust_out")];
    let sources = vec![source("/proj/src/bar.rs", None), source("/elsewhere/src/bar.rs", Some("no_run\n"))];
    let found = attribute_candidates(&tests, "/proj", &sources, "no_run");
    assert_eq!(found, vec![(String::from("src_bar_rs"), vec![])]);
    assert!(attribute_candidates(&Vec::new(), "/proj", &sources, "no_run").is_empty());
}
