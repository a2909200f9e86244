use cargo_tarpaulin::analysis::{LineAnalysis, Lines};
use cargo_tarpaulin::attributes::{
    active_features, add_feature, check_attr_list, check_cfg_attr_exec, eval_cfg_attr_exec, eval_cfg_exec,
    is_test_attribute, package_for_file, AttrSyntax, CfgContext, LitSyntax, MetaItem, MetaValue, PackageFeatures,
};

fn path(segs: &[&str]) -> Vec<String> {
    segs.iter().map(|s| s.to_string()).collect()
}

fn word(s: &str) -> MetaItem {
    MetaItem::Path(path(&[s]))
}

fn list(name: &str, items: Vec<MetaItem>) -> MetaItem {
    MetaItem::List(path(&[name]), Some(items))
}

fn feature(f: &str) -> MetaItem {
    MetaItem::NameValue(path(&["feature"]), MetaValue::Lit(LitSyntax::Str(f.to_string())))
}

fn ctx(include_tests: bool, features: &[&str]) -> CfgContext {
    CfgContext { include_tests, avoid_cfg_tarpaulin: false, features: features.iter().map(|s| s.to_string()).collect() }
}

#[test]
fn skipping_attributes() {
    assert!(check_cfg_attr_exec(&MetaItem::Path(path(&["tarpaulin", "skip"]))));
    assert!(!check_cfg_attr_exec(&MetaItem::Path(path(&["tarpaulin"]))));
    assert!(check_cfg_attr_exec(&word("no_coverage")));
    assert!(check_cfg_attr_exec(&list("coverage", vec![word("off")])));
    assert!(!check_cfg_attr_exec(&list("coverage", vec![word("on")])));
    assert!(check_cfg_attr_exec(&list("cfg", vec![list("not", vec![word("tarpaulin_include")])])));
    assert!(check_cfg_attr_exec(&list("cfg", vec![list("not", vec![word("tarpaulin")])])));
    assert!(!check_cfg_attr_exec(&list("cfg", vec![word("tarpaulin")])));
    assert!(check_cfg_attr_exec(&list("cfg_attr", vec![word("tarpaulin"), word("no_coverage")])));
    assert!(check_cfg_attr_exec(&list("cfg_attr", vec![word("tarpaulin"), list("coverage", vec![word("off")])])));
    assert!(!check_cfg_attr_exec(&list("cfg_attr", vec![word("test"), word("no_coverage")])));
    assert!(check_cfg_attr_exec(&word("test")));
    assert!(check_cfg_attr_exec(&MetaItem::Path(path(&["tokio", "test"]))));
    assert!(!check_cfg_attr_exec(&word("inline")));
}

#[test]
fn test_attributes_end_with_test() {
    assert!(is_test_attribute(&path(&["test"])));
    assert!(is_test_attribute(&path(&["tokio", "test"])));
    assert!(is_test_attribute(&path(&["quickcheck_test"])));
    assert!(!is_test_attribute(&path(&["tests", "bench"])));
    assert!(!is_test_attribute(&path(&["tes"])));
}

#[test]
fn cfg_predicates() {
    let c = ctx(false, &["a"]);
    assert_eq!(eval_cfg_exec(&feature("a"), &c), Some(true));
    assert_eq!(eval_cfg_exec(&feature("b"), &c), Some(false));
    assert_eq!(eval_cfg_exec(&word("test"), &c), Some(false));
    assert_eq!(eval_cfg_exec(&word("tarpaulin"), &c), Some(true));
    assert_eq!(eval_cfg_exec(&word("unix"), &c), None);
    assert_eq!(eval_cfg_exec(&list("not", vec![feature("b")]), &c), Some(true));
    assert_eq!(eval_cfg_exec(&list("not", vec![feature("a"), feature("b")]), &c), None);
    assert_eq!(eval_cfg_exec(&list("all", vec![feature("a"), word("unix")]), &c), None);
    assert_eq!(eval_cfg_exec(&list("all", vec![word("unix"), feature("b")]), &c), Some(false));
    assert_eq!(eval_cfg_exec(&list("any", vec![word("unix"), feature("a")]), &c), Some(true));
    assert_eq!(eval_cfg_exec(&list("any", vec![word("unix"), feature("b")]), &c), None);
    assert_eq!(eval_cfg_exec(&list("any", vec![]), &c), Some(false));
    assert_eq!(eval_cfg_attr_exec(&list("cfg", vec![feature("a")]), &c), Some(true));
    assert_eq!(eval_cfg_attr_exec(&list("cfg", vec![feature("a"), feature("b")]), &c), Some(false));
    assert_eq!(eval_cfg_attr_exec(&list("cfg", vec![]), &c), None);
    assert_eq!(eval_cfg_attr_exec(&MetaItem::List(path(&["cfg"]), None), &c), None);
}

fn attr(meta: MetaItem, line: usize) -> AttrSyntax {
    AttrSyntax { meta, start_line: line, end_line: line }
}

#[test]
fn attribute_lists() {
    let c = ctx(false, &[]);
    let mut la = LineAnalysis::new();
    let attrs = vec![attr(word("inline"), 1), attr(list("cfg", vec![word("test")]), 2), attr(word("doc"), 3)];
    assert!(!check_attr_list(&mut la, &attrs, &c));
    assert!(la.ignore.contains(&Lines::Line(1)));
    assert!(la.ignore.contains(&Lines::Line(2)));
    assert!(!la.ignore.contains(&Lines::Line(3)));

    let mut la = LineAnalysis::new();
    let attrs = vec![attr(word("inline"), 5), attr(list("cfg", vec![feature("x")]), 6)];
    assert!(!check_attr_list(&mut la, &attrs, &ctx(true, &[])));
    let mut la = LineAnalysis::new();
    assert!(check_attr_list(&mut la, &attrs, &ctx(true, &["x"])));
    assert!(la.ignore.contains(&Lines::Line(5)) && la.ignore.contains(&Lines::Line(6)));
    // A cfg naming tests keeps the code where tests count.
    let mut la = LineAnalysis::new();
    let tests = vec![attr(list("cfg", vec![word("test")]), 9)];
    assert!(check_attr_list(&mut la, &tests, &ctx(true, &[])));
}

fn features(entries: &[(&str, &[&str])]) -> Vec<(String, Vec<String>)> {
    entries.iter().map(|(k, v)| (k.to_string(), v.iter().map(|d| d.to_string()).collect())).collect()
}

#[test]
fn features_enable_each_other() {
    let fs = features(&[
        ("default", &["a"]),
        ("a", &["dep:serde", "b"]),
        ("b", &["other?/c"]),
        ("c", &[]),
        ("d", &["a"]),
    ]);
    let mut active = vec![];
    add_feature(&String::from("default"), &fs, &mut active);
    let mut sorted = active.clone();
    sorted.sort();
    assert_eq!(sorted, vec!["a", "b", "c", "default"]);
    add_feature(&String::from("missing"), &fs, &mut active);
    assert_eq!(active.len(), 4);
}

#[test]
fn active_features_of_a_file() {
    let pkgs = vec![
        PackageFeatures { manifest_path: String::from("/w/Cargo.toml"), features: features(&[("default", &[])]) },
        PackageFeatures {
            manifest_path: String::from("/w/crates/x/Cargo.toml"),
            features: features(&[("default", &["fast"]), ("fast", &[]), ("slow", &[]), ("extra", &["slow"])]),
        },
    ];
    assert_eq!(package_for_file("/w/crates/x/src/lib.rs", &pkgs), Some(1));
    assert_eq!(package_for_file("/w/src/main.rs", &pkgs), Some(0));
    assert_eq!(package_for_file("/elsewhere/a.rs", &pkgs), None);

    let mut on = active_features("/w/crates/x/src/lib.rs", &pkgs, false, false, &Some(String::from("x/extra")));
    on.sort();
    assert_eq!(on, vec!["default", "extra", "fast", "slow"]);
    let on = active_features("/w/crates/x/src/lib.rs", &pkgs, false, true, &None);
    assert!(on.is_empty());
    let on = active_features("/w/crates/x/src/lib.rs", &pkgs, true, true, &None);
    assert_eq!(on, vec!["default", "fast", "slow", "extra"]);
    assert!(active_features("/elsewhere/a.rs", &pkgs, true, false, &None).is_empty());
}
