use cargo_tarpaulin::config::types::{Ci, TraceEngine};
use cargo_tarpaulin::config::{path_relative_from, Config, Timeout};

fn config() -> Config {
    Config::with_defaults(String::from("Cargo.toml"), TraceEngine::Ptrace)
}

fn strings(v: &[&str]) -> Vec<String> {
    v.iter().map(|s| s.to_string()).collect()
}

fn relative_path_checks() {
    let path_a = "/this/should/form/a/rel/path/";
    let path_b = "/this/should/form/b/rel/path/";

    let rel_path = path_relative_from(path_b, path_a);
    assert!(rel_path.is_some());
    assert_eq!(
        rel_path.unwrap().as_str(),
        "../../../b/rel/path",
        "Wrong relative path"
    );

    let path_a = "/this/should/not/form/a/rel/path/";
    let path_b = "./this/should/not/form/a/rel/path/";

    let rel_path = path_relative_from(path_b, path_a);
    assert_eq!(rel_path, None, "Did not expect relative path");

    let path_a = "./this/should/form/a/rel/path/";
    let path_b = "./this/should/form/b/rel/path/";

    let rel_path = path_relative_from(path_b, path_a);
    assert!(rel_path.is_some());
    assert_eq!(
        rel_path.unwrap().as_str(),
        "../../../b/rel/path",
        "Wrong relative path"
    );
}

#[test]
fn config_relative_path_test() {
    relative_path_checks();
}

#[test]
fn mod_relative_path_test() {
    relative_path_checks();
}

#[test]
fn relative_path_to_itself_is_empty() {
    assert_eq!(path_relative_from("/a/b", "/a/b"), Some(String::new()));
    assert_eq!(path_relative_from("/a/b/c", "/a/b"), Some(String::from("c")));
    assert_eq!(path_relative_from("/a", "b"), Some(String::from("/a")));
    assert_eq!(path_relative_from("a", "/b"), None);
    assert_eq!(path_relative_from("a/b", "a/../c"), None);
}

#[test]
fn excluded_merge() {
    let mut config = config();
    config.name = String::from("a");
    config.excluded_files_raw = strings(&["target/*"]);
    let mut other = self::config();
    other.name = String::from("b");
    other.excluded_files_raw = strings(&["foo.rs"]);

    config.merge(&other);
    assert!(config.excluded_files_raw.contains(&"target/*".to_string()));
    assert!(config.excluded_files_raw.contains(&"foo.rs".to_string()));

    assert_eq!(config.excluded_files_raw.len(), 2);
    assert_eq!(other.excluded_files_raw.len(), 1);
}

#[test]
fn target_merge() {
    let mut a = config();
    let mut b = config();
    b.target = Some(String::from("wasm32-unknown-unknown"));
    let mut c = config();
    c.target = Some(String::from("x86_64-linux-gnu"));

    assert_eq!(a.target, None);
    assert_eq!(b.target, Some(String::from("wasm32-unknown-unknown")));
    assert_eq!(c.target, Some(String::from("x86_64-linux-gnu")));

    b.merge(&c);
    assert_eq!(b.target, Some(String::from("x86_64-linux-gnu")));

    a.merge(&b);
    assert_eq!(a.target, Some(String::from("x86_64-linux-gnu")));
}

#[test]
fn workspace_merge() {
    let mut a = config();
    a.all = false;
    let mut b = config();
    b.all = true;

    assert_eq!(a.all, false);
    assert_eq!(b.all, true);

    a.merge(&b);
    assert_eq!(a.all, true);
}

#[test]
fn packages_merge() {
    let mut a = config();
    let mut b = config();
    b.packages = strings(&["a"]);
    let mut c = config();
    c.packages = strings(&["b", "a"]);

    assert_eq!(a.packages, Vec::<String>::new());
    assert_eq!(b.packages, vec![String::from("a")]);
    assert_eq!(c.packages, vec![String::from("b"), String::from("a")]);

    a.merge(&c);
    assert_eq!(a.packages, vec![String::from("b"), String::from("a")]);

    b.merge(&c);
    assert_eq!(b.packages, vec![String::from("a"), String::from("b")]);
}

#[test]
fn exclude_packages_merge() {
    let mut a = config();
    a.exclude = strings(&["a"]);
    let mut b = config();
    b.packages = strings(&["a"]);
    b.exclude = strings(&["b"]);
    let mut c = config();
    c.packages = strings(&["b", "a"]);
    c.exclude = strings(&["c"]);

    assert_eq!(a.exclude, vec![String::from("a")]);
    assert_eq!(b.exclude, vec![String::from("b")]);
    assert_eq!(c.exclude, vec![String::from("c")]);

    a.merge(&c);
    assert_eq!(a.packages, vec![String::from("b")]);
    assert_eq!(a.exclude, vec![String::from("a"), String::from("c")]);

    b.merge(&c);
    assert_eq!(b.packages, vec![String::from("a")]);
    assert_eq!(b.exclude, vec![String::from("b"), String::from("c")]);
}

#[test]
fn coveralls_merge() {
    let mut a_config = config();
    a_config.name = String::from("a");
    a_config.coveralls = Some(String::from("abcd"));
    a_config.report_uri = Some(String::from("https://example.com/report"));
    let mut b_config = config();
    b_config.name = String::from("b");
    b_config.coveralls = Some(String::from("xyz"));
    b_config.ci_tool = Some(Ci::from_name("coveralls-ruby"));

    a_config.merge(&b_config);
    assert_eq!(a_config.coveralls, Some("xyz".to_string()));
    assert_eq!(
        a_config.ci_tool,
        Some(Ci::Other("coveralls-ruby".to_string()))
    );
    assert_eq!(
        a_config.report_uri,
        Some("https://example.com/report".to_string())
    );
}

#[test]
fn output_dir_merge() {
    let mut has_dir = config();
    has_dir.name = String::from("has_dir");
    has_dir.output_directory = Some(String::from("foo"));
    let mut no_dir = config();
    no_dir.name = String::from("no_dir");
    no_dir.coveralls = Some(String::from("xyz"));
    let mut other_dir = config();
    other_dir.name = String::from("other_dir");
    other_dir.output_directory = Some(String::from("bar"));
    let cwd = "/work";

    let mut merged_into_has_dir = has_dir.clone();
    merged_into_has_dir.merge(&no_dir);
    assert_eq!(merged_into_has_dir.output_dir(cwd), String::from("foo"));

    let mut merged_into_no_dir = no_dir.clone();
    merged_into_no_dir.merge(&has_dir);
    assert_eq!(merged_into_no_dir.output_dir(cwd), String::from("foo"));

    let mut neither_merged_dir = no_dir.clone();
    neither_merged_dir.merge(&no_dir);
    assert_eq!(neither_merged_dir.output_dir(cwd), String::from(cwd));

    let mut both_merged_dir = has_dir;
    both_merged_dir.merge(&other_dir);
    assert_eq!(both_merged_dir.output_dir(cwd), String::from("bar"));
}

#[test]
fn merge_overrides_and_combines() {
    let mut a = config();
    a.features = Some(String::from("x"));
    a.test_names = strings(&["t1"]);
    a.verbose = true;
    let mut b = config();
    b.features = Some(String::from("y z"));
    b.test_names = strings(&["t2", "t1"]);
    b.test_timeout = Timeout { secs: 5, nanos: 0 };
    b.release = true;
    a.merge(&b);
    assert_eq!(a.features, Some(String::from("x y z")));
    assert_eq!(a.test_names, strings(&["t1", "t2"]));
    assert_eq!(a.test_timeout, Timeout { secs: 5, nanos: 0 });
    assert!(a.release);
    // `b` is neither debugging nor verbose, so the verbosity of `a` stays.
    assert!(a.verbose);
    assert!(a.has_named_tests());
}

#[test]
fn pick_optional_config_prefers_the_override() {
    let base = Some(String::from("base"));
    let over = Some(String::from("over"));
    assert_eq!(Config::pick_optional_config(&base, &over), over);
    assert_eq!(Config::pick_optional_config(&base, &None), base);
    assert_eq!(Config::pick_optional_config(&None, &None), None);
}

#[test]
fn directories_of_a_run() {
    let mut c = Config::with_defaults(String::from("/p/Cargo.toml"), TraceEngine::Llvm);
    assert_eq!(c.target_dir(None), "/p/target");
    assert_eq!(c.target_dir(Some("/m/target")), "/m/target");
    assert_eq!(c.doctest_dir(None), "/p/target/doctests");
    assert_eq!(c.root(None), "/p");
    assert_eq!(c.root(Some("/ws")), "/ws");
    c.target_dir = Some(String::from("/t"));
    assert_eq!(c.target_dir(Some("/m/target")), "/t");
    assert!(c.is_default_output_dir());
    assert!(!c.is_coveralls());
}

#[test]
fn config_vec_merges_the_arguments_into_each_file_config() {
    let mut args = config();
    args.release = true;
    let mut a = config();
    a.name = String::from("a");
    let mut b = config();
    b.name = String::from("b");
    let confs = Config::get_config_vec(Some(vec![a, b]), args);
    assert_eq!(confs.len(), 2);
    assert_eq!(confs[0].name, "a");
    assert_eq!(confs[1].name, "b");
    assert!(confs[0].release && confs[1].release);

    let mut args = config();
    args.name = String::from("args");
    let confs = Config::get_config_vec(None, args);
    assert_eq!(confs.len(), 1);
    assert_eq!(confs[0].name, "args");

    let confs = Config::get_config_vec(Some(vec![]), config());
    assert_eq!(confs.len(), 1);
}

#[test]
fn default_timeout_is_a_minute() {
    assert_eq!(config().test_timeout, Timeout { secs: 60, nanos: 0 });
}

fn excluding(patterns: &[&str]) -> Config {
    let mut c = config();
    c.excluded_files_raw = strings(patterns);
    c
}

const BASE: &str = "/work/project";

fn exclude_paths_checks() {
    let conf = vec![excluding(&["*module*"])];
    assert_eq!(conf.len(), 1);
    assert!(conf[0].exclude_path("src/module/file.rs", BASE));
    assert!(!conf[0].exclude_path("src/mod.rs", BASE));
    assert!(!conf[0].exclude_path("unrelated.rs", BASE));
    assert!(conf[0].exclude_path("module.rs", BASE));
}

fn no_exclusions_checks() {
    let conf = vec![excluding(&[])];
    assert_eq!(conf.len(), 1);
    assert!(!conf[0].exclude_path("src/module/file.rs", BASE));
    assert!(!conf[0].exclude_path("src/mod.rs", BASE));
    assert!(!conf[0].exclude_path("unrelated.rs", BASE));
    assert!(!conf[0].exclude_path("module.rs", BASE));
}

fn exclude_exact_file_checks() {
    let conf = vec![excluding(&["*/lib.rs"])];
    assert_eq!(conf.len(), 1);
    assert!(conf[0].exclude_path("src/lib.rs", BASE));
    assert!(!conf[0].exclude_path("src/mod.rs", BASE));
    assert!(!conf[0].exclude_path("src/notlib.rs", BASE));
    assert!(!conf[0].exclude_path("lib.rs", BASE));
}

#[test]
fn config_exclude_paths() {
    exclude_paths_checks();
}

#[test]
fn mod_exclude_paths() {
    exclude_paths_checks();
}

#[test]
fn config_no_exclusions() {
    no_exclusions_checks();
}

#[test]
fn mod_no_exclusions() {
    no_exclusions_checks();
}

#[test]
fn config_exclude_exact_file() {
    exclude_exact_file_checks();
}

#[test]
fn mod_exclude_exact_file() {
    exclude_exact_file_checks();
}

#[test]
fn excluded_absolute_paths_are_matched_relative_to_the_base() {
    let c = excluding(&["src/gen/*"]);
    assert!(c.exclude_path("/work/project/src/gen/a.rs", BASE));
    assert!(!c.exclude_path("/work/project/src/a.rs", BASE));
    let bad = excluding(&["[", "*.rs"]);
    assert!(bad.exclude_path("a.rs", BASE));
}
