use cargo_tarpaulin::build_output::{
    add_doctest_binaries, apply_packages, read_build_messages, CargoMessage, DoctestEntry, LinkedPath, PackageInfo,
};
use cargo_tarpaulin::cargo::{CargoOutput, TestBinary};
use cargo_tarpaulin::config::types::{Mode, RunType};
use cargo_tarpaulin::errors::RunError;

fn artifact(exe: Option<&str>, test: bool, package: &str) -> CargoMessage {
    CargoMessage::Artifact {
        executable: exe.map(|e| e.to_string()),
        test_profile: test,
        package: package.to_string(),
    }
}

fn linked(path: &str, exists: bool) -> LinkedPath {
    LinkedPath { path: path.to_string(), exists }
}

fn empty_output() -> CargoOutput {
    CargoOutput { test_binaries: Vec::new(), binaries: Vec::new() }
}

#[test]
fn messages_give_test_binaries_and_linker_paths() {
    let mut out = empty_output();
    out.test_binaries.push(TestBinary::new(String::from("old"), None));
    let msgs = vec![
        artifact(Some("/t/debug/deps/a-1"), true, "a 0.1.0"),
        artifact(Some("/t/debug/helper"), false, "a 0.1.0"),
        artifact(None, true, "a 0.1.0"),
        CargoMessage::BuildScript {
            linked_paths: vec![linked("native=/opt/lib", false), linked("/usr/lib", true), linked("nothing", false)],
        },
        CargoMessage::BuildScript { linked_paths: vec![linked("/opt//lib/", true)] },
        CargoMessage::Other,
        artifact(Some("/t/debug/deps/b-2"), true, "b 0.2.0"),
    ];
    let (ids, error) = read_build_messages(&mut out, &msgs, Mode::Test, Some(RunType::Tests), Some(String::from("/rustlib")), false);
    assert!(error.is_none());
    assert_eq!(out.binaries, vec![String::from("/t/debug/helper")]);
    assert_eq!(out.test_binaries.len(), 3);
    assert_eq!(out.test_binaries[0].path, "old");
    assert!(out.test_binaries[0].linker_paths.is_empty());
    assert_eq!(out.test_binaries[1].path, "/t/debug/deps/a-1");
    assert_eq!(out.test_binaries[2].path, "/t/debug/deps/b-2");
    let paths = vec![String::from("/rustlib"), String::from("/opt/lib"), String::from("/usr/lib")];
    assert_eq!(out.test_binaries[1].linker_paths, paths);
    assert_eq!(out.test_binaries[2].linker_paths, paths);
    assert_eq!(out.test_binaries[2].ty, Some(RunType::Tests));
    assert_eq!(ids, vec![None, Some(String::from("a 0.1.0")), Some(String::from("b 0.2.0"))]);
}

#[test]
fn plain_builds_keep_every_executable() {
    let mut out = empty_output();
    let msgs = vec![artifact(Some("/t/debug/app"), false, "p")];
    let (ids, error) = read_build_messages(&mut out, &msgs, Mode::Build, None, None, false);
    assert!(error.is_none());
    assert!(out.binaries.is_empty());
    assert_eq!(out.test_binaries.len(), 1);
    assert_eq!(ids, vec![Some(String::from("p"))]);
}

#[test]
fn the_first_compiler_error_ends_the_reading() {
    let mut out = empty_output();
    let msgs = vec![
        CargoMessage::Diagnostic {
            error: false,
            rendered: Some(String::from("warning")),
            target: String::from("a"),
            message: String::from("w"),
        },
        CargoMessage::Diagnostic { error: true, rendered: None, target: String::from("a"), message: String::from("boom") },
        CargoMessage::Diagnostic {
            error: true,
            rendered: Some(String::from("second")),
            target: String::from("a"),
            message: String::from("x"),
        },
        artifact(Some("/t/debug/deps/a-1"), true, "a"),
    ];
    let (ids, error) = read_build_messages(&mut out, &msgs, Mode::Test, None, None, false);
    match error {
        Some(RunError::TestCompile(m)) => assert_eq!(m, "a: boom"),
        _ => panic!("the compiler's error is reported"),
    }
    assert!(out.test_binaries.is_empty());
    assert!(ids.is_empty());
}

#[test]
fn packages_fill_in_binaries() {
    let mut bins = vec![TestBinary::new(String::from("old"), None), TestBinary::new(String::from("new"), None)];
    let ids = vec![None, Some(String::from("p 1.0"))];
    let packages = vec![
        PackageInfo {
            id: String::from("q 2.0"),
            manifest_path: String::from("/w/q/Cargo.toml"),
            name: String::from("q"),
            version: String::from("2.0"),
            authors: vec![],
        },
        PackageInfo {
            id: String::from("p 1.0"),
            manifest_path: String::from("/w/p/Cargo.toml"),
            name: String::from("p"),
            version: String::from("1.0"),
            authors: vec![String::from("me")],
        },
    ];
    apply_packages(&mut bins, &ids, &packages, false);
    assert!(bins[0].pkg_name.is_none());
    assert_eq!(bins[1].pkg_name, Some(String::from("p")));
    assert_eq!(bins[1].pkg_version, Some(String::from("1.0")));
    assert_eq!(bins[1].pkg_authors, Some(vec![String::from("me")]));
    assert_eq!(bins[1].cargo_dir, Some(String::from("/w/p")));
    assert_eq!(bins[1].path, "new");
}

#[test]
fn doctests_marked_no_run_are_skipped() {
    let mut out = empty_output();
    let entries = vec![
        DoctestEntry { path: String::from("/p/target/doctests/src_lib_rs_3_0/rust_out"), cargo_dir: Some(String::from("/p")) },
        DoctestEntry { path: String::from("/p/target/doctests/src_lib_rs_9_1/rust_out"), cargo_dir: Some(String::from("/p")) },
        DoctestEntry { path: String::from("/p/target/doctests/src_lib_rs_12_2/rust_out"), cargo_dir: None },
        DoctestEntry { path: String::from("/p/target/doctests/odd/rust_out"), cargo_dir: None },
    ];
    let should_panics = vec![(String::from("src_lib_rs"), vec![3])];
    let no_runs = vec![(String::from("src_lib_rs"), vec![9])];
    add_doctest_binaries(&mut out, &entries, Some(RunType::Doctests), &should_panics, &no_runs, false);
    assert_eq!(out.test_binaries.len(), 3);
    assert!(out.test_binaries[0].should_panic);
    assert_eq!(out.test_binaries[0].cargo_dir, Some(String::from("/p")));
    assert_eq!(out.test_binaries[1].path, "/p/target/doctests/src_lib_rs_12_2/rust_out");
    assert!(!out.test_binaries[1].should_panic);
    assert!(out.test_binaries[1].cargo_dir.is_none());
    assert_eq!(out.test_binaries[2].path, "/p/target/doctests/odd/rust_out");
    assert_eq!(out.test_binaries[2].ty, Some(RunType::Doctests));
}
