use cargo_tarpaulin::cargo::{
    cargo_env, cargo_runs, convert_to_prefix, create_command_args, deduplicate_flags, init_args,
    is_doctest_candidate, is_nightly, is_prefix_match, llvm_coverage_rustflag, parse_cargo_version,
    rust_flags, rustdoc_flags, supports_llvm_coverage, toolchain_args,
    CargoVersionInfo, Channel, DocTestBinaryMeta, TestBinary,
};
use cargo_tarpaulin::config::types::{Mode, RunType, TraceEngine};
use cargo_tarpaulin::config::Config;

fn config() -> Config {
    Config::with_defaults(String::from("Cargo.toml"), TraceEngine::Ptrace)
}

#[test]
fn check_dead_code_flags() {
    let mut config = config();
    config.engine = TraceEngine::Ptrace;
    assert!(rustdoc_flags(&config, TraceEngine::Ptrace, &None, "target/doctests", None, "").contains("link-dead-code"));
    assert!(rust_flags(&config, TraceEngine::Ptrace, &None, None, "").contains("link-dead-code"));

    config.no_dead_code = true;
    assert!(!rustdoc_flags(&config, TraceEngine::Ptrace, &None, "target/doctests", None, "").contains("link-dead-code"));
    assert!(!rust_flags(&config, TraceEngine::Ptrace, &None, None, "").contains("link-dead-code"));
}

#[test]
fn llvm_cov_compatible_version() {
    let version = CargoVersionInfo {
        major: 1,
        minor: 50,
        channel: Channel::Nightly,
    };
    assert!(version.supports_llvm_cov());
    let version = CargoVersionInfo {
        major: 1,
        minor: 60,
        channel: Channel::Stable,
    };
    assert!(version.supports_llvm_cov());
}

#[test]
fn llvm_cov_incompatible_version() {
    let mut version = CargoVersionInfo {
        major: 1,
        minor: 48,
        channel: Channel::Stable,
    };
    assert!(!version.supports_llvm_cov());
    version.channel = Channel::Beta;
    assert!(!version.supports_llvm_cov());
    version.minor = 50;
    assert!(!version.supports_llvm_cov());
    version.minor = 58;
    version.channel = Channel::Stable;
    assert!(!version.supports_llvm_cov());
}

#[test]
fn no_duplicate_flags() {
    assert_eq!(
        deduplicate_flags("--cfg=tarpaulin --cfg tarpaulin"),
        "--cfg=tarpaulin"
    );
    assert_eq!(
        deduplicate_flags("-Clink-dead-code -Zinstrument-coverage -C link-dead-code"),
        "-Clink-dead-code -Zinstrument-coverage"
    );
    assert_eq!(
        deduplicate_flags("-Clink-dead-code -Zinstrument-coverage -Zinstrument-coverage"),
        "-Clink-dead-code -Zinstrument-coverage"
    );
    assert_eq!(
        deduplicate_flags("-Clink-dead-code -Zinstrument-coverage -Cinstrument-coverage"),
        "-Clink-dead-code -Zinstrument-coverage -Cinstrument-coverage"
    );

    assert_eq!(
        deduplicate_flags("--cfg=tarpaulin --cfg tarpauline --cfg=tarp"),
        "--cfg=tarpaulin --cfg=tarpauline --cfg=tarp"
    );
}

#[test]
fn deduplicating_twice_changes_nothing_more() {
    let once = deduplicate_flags("-C opt-level=3 -Copt-level=1 --cfg a --cfg=a -Dwarnings");
    assert_eq!(once, "-Copt-level=3 --cfg=a -Dwarnings");
    assert_eq!(deduplicate_flags(&once), once);
}

#[test]
fn version_channels() {
    let nightly = Some(CargoVersionInfo { major: 1, minor: 59, channel: Channel::Nightly });
    assert!(is_nightly(&nightly));
    assert!(supports_llvm_coverage(&nightly));
    assert_eq!(llvm_coverage_rustflag(&nightly), " -Zinstrument-coverage ");
    let stable = Some(CargoVersionInfo { major: 1, minor: 70, channel: Channel::Stable });
    assert!(!is_nightly(&stable));
    assert_eq!(llvm_coverage_rustflag(&stable), " -Cinstrument-coverage ");
    assert!(!supports_llvm_coverage(&None));
    assert!(!is_nightly(&None));
}

#[test]
fn cargo_version_output_is_read() {
    assert_eq!(
        parse_cargo_version("cargo 1.50.0-nightly (a0f433460 2020-02-01)"),
        Some(CargoVersionInfo { major: 1, minor: 50, channel: Channel::Nightly })
    );
    assert_eq!(
        parse_cargo_version("cargo 1.76.0 (c84b36747 2024-01-18)"),
        Some(CargoVersionInfo { major: 1, minor: 76, channel: Channel::Stable })
    );
    assert_eq!(
        parse_cargo_version("cargo 1.77.0-beta.3 (abc 2024-02-01)"),
        Some(CargoVersionInfo { major: 1, minor: 77, channel: Channel::Beta })
    );
    assert_eq!(parse_cargo_version("rustc 1.76.0"), None);
}

#[test]
fn doctest_prefixes() {
    assert_eq!(convert_to_prefix("src/some/folder-a/foo.rs"), Some(String::from("src_some_folder_a_foo_rs")));
    assert_eq!(convert_to_prefix("/"), None);
    assert_eq!(convert_to_prefix("./lib.rs"), Some(String::from("lib_rs")));
    assert!(is_prefix_match("src_lib_rs", "src/lib.rs"));
    assert!(!is_prefix_match("src_lib_rs", "src/main.rs"));
}

#[test]
fn doctest_binary_names() {
    let meta = DocTestBinaryMeta::new("target/doctests/src_lib_rs_10_0/rust_out").unwrap();
    assert_eq!(meta.prefix, "src_lib_rs");
    assert_eq!(meta.line, 10);
    assert!(DocTestBinaryMeta::new("target/doctests/src_lib_rs_x_0/rust_out").is_none());
    assert!(DocTestBinaryMeta::new("rust_out").is_none());
    assert!(DocTestBinaryMeta::new("target/doctests/nothing_here/rust_out").is_none());
}

#[test]
fn test_binary_accessors() {
    let mut tb = TestBinary::new(String::from("/t/debug/deps/foo-123"), Some(RunType::Tests));
    assert_eq!(tb.file_name(), "foo-123");
    assert!(tb.is_test_type());
    assert!(!tb.has_linker_paths());
    assert!(!tb.should_panic());
    assert_eq!(tb.run_type(), Some(RunType::Tests));
    assert_eq!(tb.ld_library_path(None), "");
    tb.linker_paths = vec![String::from("/a"), String::from("/b")];
    assert!(tb.has_linker_paths());
    assert_eq!(tb.ld_library_path(None), "/a:/b");
    assert_eq!(tb.ld_library_path(Some("/usr/lib")), "/a:/b:/usr/lib");
    let doc = TestBinary::new(String::from("x"), Some(RunType::Doctests));
    assert!(!doc.is_test_type());
    assert!(TestBinary::new(String::from("x"), None).is_test_type());
}

#[test]
fn cargo_arguments() {
    let mut c = config();
    c.verbose = true;
    c.packages = vec![String::from("p1")];
    c.jobs = Some(12);
    c.unstable_features = vec![String::from("build-std")];
    c.varargs = vec![String::from("--nocapture")];
    let args = init_args(&c, "/t");
    assert_eq!(
        args,
        vec!["-v", "--jobs", "12", "--package", "p1", "--color", "auto", "--target-dir", "/t", "-Zbuild-std", "--", "--nocapture"]
    );
    let cmd = create_command_args("/p/Cargo.toml", &c, Some(RunType::Doctests), "/t");
    assert_eq!(&cmd[..5], &["test", "--message-format", "json", "--manifest-path", "/p/Cargo.toml"]);
    assert_eq!(cmd[5], "--doc");
    let mut c2 = config();
    c2.test_names = vec![String::from("it")];
    let cmd = create_command_args("Cargo.toml", &c2, None, "target");
    assert_eq!(
        cmd,
        vec!["test", "--no-run", "--message-format", "json", "--manifest-path", "Cargo.toml", "--test", "it", "--color", "auto", "--target-dir", "target"]
    );
}

#[test]
fn flags_for_llvm() {
    let c = config();
    let version = Some(CargoVersionInfo { major: 1, minor: 70, channel: Channel::Stable });
    let flags = rust_flags(&c, TraceEngine::Llvm, &version, Some("-C debuginfo=1 -Copt-level=2"), "");
    assert_eq!(flags, "-Cdebuginfo=2 -Cstrip=none --cfg=tarpaulin -Cinstrument-coverage -Copt-level=2");
    let doc = rustdoc_flags(&c, TraceEngine::Llvm, &version, "/t/doctests", Some("--persist-doctests x"), "");
    assert_eq!(doc, "-Cdebuginfo=2 --cfg=tarpaulin -Cstrip=none --persist-doctests /t/doctests -Zunstable-options -Cinstrument-coverage");
}

#[test]
fn lines_holding_a_text() {
    use_find();
}

fn use_find() {
    let found = cargo_tarpaulin::text::find_str_in_lines("a\n#[should_panic]\nb\r\n should_panic \n", "should_panic");
    assert_eq!(found, vec![2, 4]);
    assert!(cargo_tarpaulin::text::find_str_in_lines("", "x").is_empty());
}

#[test]
fn toolchain_for_doctests_prefers_named_nightly() {
    let v = toolchain_args(Some(RunType::Doctests), Some("nightly-2024-01-01"), false, false);
    assert_eq!(v, vec![String::from("+nightly-2024-01-01")]);
    let v = toolchain_args(Some(RunType::Doctests), Some("stable"), false, false);
    assert_eq!(v, vec![String::from("+nightly")]);
    let v = toolchain_args(Some(RunType::Doctests), Some("stable"), true, false);
    assert_eq!(v, vec![String::from("+stable")]);
    let v = toolchain_args(Some(RunType::Doctests), None, false, true);
    assert!(v.is_empty());
    let v = toolchain_args(Some(RunType::Doctests), None, true, false);
    assert!(v.is_empty());
}

#[test]
fn toolchain_for_other_builds_is_the_named_one() {
    assert_eq!(toolchain_args(Some(RunType::Tests), Some("stable"), false, false), vec![String::from("+stable")]);
    assert_eq!(toolchain_args(None, Some("1.70.0"), false, true), vec![String::from("+1.70.0")]);
    assert!(toolchain_args(Some(RunType::Lib), None, false, false).is_empty());
}

#[test]
fn cargo_runs_default_to_tests() {
    let mut c = config();
    assert_eq!(cargo_runs(&c), vec![Some(RunType::Tests)]);
    c.run_types.clear();
    assert_eq!(cargo_runs(&c), vec![Some(RunType::Tests)]);
    c.command = Mode::Build;
    assert_eq!(cargo_runs(&c), vec![None]);
}

#[test]
fn cargo_runs_follow_kinds_then_named_targets() {
    let mut c = config();
    c.run_types = vec![RunType::Lib, RunType::Doctests];
    assert_eq!(cargo_runs(&c), vec![Some(RunType::Lib), Some(RunType::Doctests)]);
    c.test_names = vec![String::from("it")];
    assert_eq!(cargo_runs(&c), vec![Some(RunType::Lib), Some(RunType::Doctests), None]);
    let mut c = config();
    c.run_types.clear();
    c.bin_names = vec![String::from("main")];
    assert_eq!(cargo_runs(&c), vec![None]);
}

#[test]
fn cargo_env_sets_profile_and_flags() {
    let env = cargo_env("/proj", "-C opt", "-C doc", None);
    assert_eq!(
        env,
        vec![
            (String::from("LLVM_PROFILE_FILE"), String::from("/proj/build_rs_cov.profraw")),
            (String::from("TARPAULIN"), String::from("1")),
            (String::from("RUSTFLAGS"), String::from("-C opt")),
            (String::from("RUSTDOCFLAGS"), String::from("-C doc")),
        ]
    );
    let env = cargo_env("/proj", "", "", Some("1"));
    assert_eq!(env.len(), 5);
    assert_eq!(env[4], (String::from("RUSTC_BOOTSTRAP"), String::from("1")));
}

#[test]
fn doctest_candidates_skip_sources_and_debug_files() {
    assert!(is_doctest_candidate("target/doctests/src_lib_rs_10_0/rust_out"));
    assert!(!is_doctest_candidate("target/doctests/src_lib_rs_10_0/rust_out.pdb"));
    assert!(!is_doctest_candidate("target/doctests/lib.rs"));
    assert!(!is_doctest_candidate("target/doctests/libfoo.rlib"));
    assert!(!is_doctest_candidate("target/doctests/rust_out.dSYM/Contents/Info"));
    assert!(is_doctest_candidate("target/doctests/.hidden"));
}
