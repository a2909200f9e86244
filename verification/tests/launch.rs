use cargo_tarpaulin::cargo::TestBinary;
use cargo_tarpaulin::config::types::{Color, RunType, TraceEngine};
use cargo_tarpaulin::config::Config;
use cargo_tarpaulin::launch::{test_args, test_env_vars};

fn pair(k: &str, v: &str) -> (String, String) {
    (k.to_string(), v.to_string())
}

fn default_config() -> Config {
    Config::with_defaults(String::from("/project/Cargo.toml"), TraceEngine::Ptrace)
}

fn find<'a>(vars: &'a [(String, String)], key: &str) -> Option<&'a String> {
    vars.iter().find(|(k, _)| k == key).map(|(_, v)| v)
}

#[test]
fn check_ld_library_path_correct() {
    let mut binary = TestBinary::new(String::from("dummy"), None);
    let default_config = default_config();
    let outer = vec![pair("LD_LIBRARY_PATH", "/usr/lib/sys"), pair("HOME", "/root")];

    let vars = test_env_vars(&outer, &binary, &default_config, "", None);

    if let Some(ld) = find(&vars, "LD_LIBRARY_PATH") {
        assert_eq!(ld, "/usr/lib/sys");
    }

    binary.linker_paths.push(String::from("/usr/local/lib/foo"));

    let vars = test_env_vars(&outer, &binary, &default_config, "", None);
    let res = find(&vars, "LD_LIBRARY_PATH");

    assert!(res.is_some());
    let res = res.unwrap();
    assert!(res.contains("/usr/local/lib/foo"));
    assert_eq!(res, "/usr/local/lib/foo:/usr/lib/sys");
    assert_eq!(vars.iter().filter(|(k, _)| k == "LD_LIBRARY_PATH").count(), 1);
}

#[test]
fn test_env_lists_package_and_flags() {
    let mut binary = TestBinary::new(String::from("/project/target/debug/deps/foo-123"), Some(RunType::Tests));
    binary.pkg_name = Some(String::from("foo"));
    binary.pkg_version = Some(String::from("0.1.0"));
    binary.pkg_authors = Some(vec![String::from("a"), String::from("b")]);
    binary.cargo_dir = Some(String::from("/project"));
    let mut config = default_config();
    config.verbose = true;
    let outer = vec![pair("RUSTFLAGS", "-O"), pair("PATH", "/bin")];
    let vars = test_env_vars(&outer, &binary, &config, "-C link-dead-code", Some("2"));
    assert_eq!(
        vars,
        vec![
            pair("PATH", "/bin"),
            pair("RUST_BACKTRACE", "1"),
            pair("CARGO_PKG_NAME", "foo"),
            pair("CARGO_PKG_VERSION", "0.1.0"),
            pair("CARGO_PKG_AUTHORS", "a:b"),
            pair("CARGO_MANIFEST_DIR", "/project"),
            pair("RUSTFLAGS", "-C link-dead-code"),
            pair("RUST_TEST_THREADS", "2"),
        ]
    );
}

#[test]
fn test_args_for_a_harness() {
    let binary = TestBinary::new(String::from("t"), Some(RunType::Tests));
    let mut config = default_config();
    config.varargs = vec![String::from("--nocapture")];
    config.color = Color::Never;
    assert_eq!(
        test_args(&binary, &config, true, false, false, Some(4)),
        vec!["--ignored", "--nocapture", "--color", "never", "--test-threads", "4"]
    );
    // The environment, the arguments or the harness itself may choose the threads.
    assert_eq!(test_args(&binary, &config, false, true, false, Some(4)), vec!["--nocapture", "--color", "never"]);
    assert_eq!(test_args(&binary, &config, false, false, true, Some(4)), vec!["--nocapture", "--color", "never"]);
    config.varargs = vec![String::from("--test-threads=1")];
    config.color = Color::Auto;
    assert_eq!(test_args(&binary, &config, false, false, false, Some(4)), vec!["--test-threads=1"]);
}

#[test]
fn test_args_for_other_binaries() {
    let binary = TestBinary::new(String::from("b"), Some(RunType::Bins));
    let mut config = default_config();
    config.color = Color::Always;
    assert_eq!(test_args(&binary, &config, false, false, false, Some(8)), vec!["--color", "always"]);
    let doctest = TestBinary::new(String::from("d"), None);
    config.color = Color::Auto;
    assert_eq!(test_args(&doctest, &config, false, false, false, Some(8)), vec!["--test-threads", "8"]);
    assert!(test_args(&doctest, &config, false, false, false, None).is_empty());
}
