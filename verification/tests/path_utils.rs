use cargo_tarpaulin::path_utils::{profraw_file_answer, source_file_answer};
use cargo_tarpaulin::path_utils::tests_folder_answer;
use cargo_tarpaulin::path_utils::{
    fix_unc_path, is_cargo_home, is_coverable_file_path, is_hidden, is_target_folder,
    tests_package_dir,
};

#[test]
fn path_utils_system_headers_not_coverable() {
    assert!(!is_coverable_file_path(
        "/usr/include/c++/9/iostream",
        "/home/ferris/rust/project",
        "/home/ferris/rust/project/target",
        None,
    ));
}

#[test]
fn basic_coverable_checks() {
    assert!(is_coverable_file_path(
        "/foo/src/lib.rs",
        "/foo",
        "/foo/target",
        None,
    ));
    assert!(!is_coverable_file_path(
        "/foo/target/lib.rs",
        "/foo",
        "/foo/target",
        None,
    ));
}

#[test]
fn is_hidden_check() {
    // From issue#682
    let hidden_root = "/home/.jenkins/project/";
    let visible_root = "/home/jenkins/project/";

    let hidden_file = ".cargo/src/hello.rs";
    let visible_file = "src/hello.rs";

    let join = |a: &str, b: &str| format!("{}{}", a, b);

    assert!(is_hidden(&join(hidden_root, hidden_file), hidden_root));
    assert!(is_hidden(&join(visible_root, hidden_file), visible_root));

    assert!(!is_hidden(&join(hidden_root, visible_file), hidden_root));
    assert!(!is_hidden(&join(visible_root, visible_file), visible_root));
}

#[test]
fn cargo_home_is_not_coverable() {
    assert!(is_cargo_home("/home/u/.cargo/registry/x.rs", "/p", Some("/home/u/.cargo")));
    assert!(is_cargo_home("/p/vendor/x.rs", "/p", Some("vendor")));
    assert!(!is_cargo_home("/p/src/x.rs", "/p", Some("vendor")));
    assert!(!is_cargo_home("/p/src/x.rs", "/p", None));
    assert!(!is_coverable_file_path("/p/vendor/x.rs", "/p", "/p/target", Some("vendor")));
}

#[test]
fn target_folder_and_unc_paths() {
    assert!(is_target_folder("/p/target/debug/x", "/p/target"));
    assert!(!is_target_folder("/p/targets/x", "/p/target"));
    assert_eq!(fix_unc_path("/a/b", false), "/a/b");
    assert_eq!(fix_unc_path(r"\\?\C:\a", false), r"\\?\C:\a");
    assert_eq!(fix_unc_path(r"\\?\C:\a", true), r"C:\a");
    assert_eq!(fix_unc_path(r"\\?\C:\b\\?\c", true), r"C:\bc");
    assert_eq!(fix_unc_path(r"C:\a\\?\b", true), r"C:\a\\?\b");
}

#[test]
fn relative_paths_are_part_of_the_project_when_both_are_relative() {
    assert!(is_coverable_file_path("src/lib.rs", "proj", "proj/target", None));
}

#[test]
fn tests_folder_packages() {
    assert_eq!(tests_package_dir("/base", "/base/some/path/lib.rs"), None);
    assert_eq!(tests_package_dir("/base", "/base/some/testsX/file.rs"), None);
    assert_eq!(tests_package_dir("/base", "/base/pkg/tests/a.rs"), Some(String::from("/base/pkg")));
    assert_eq!(tests_package_dir("/base", "/other/pkg/tests/a.rs"), None);
    assert_eq!(tests_package_dir("/base/tests", "/base/tests/a.rs"), None);
}

#[test]
fn extensions_follow_the_last_dot() {
    use_ext_checks();
}

fn use_ext_checks() {
    assert_eq!(cargo_tarpaulin::path_utils::path_extension("src/lib.rs"), Some("rs".to_string()));
    assert_eq!(cargo_tarpaulin::path_utils::path_extension("a/b.c.profraw"), Some("profraw".to_string()));
    assert_eq!(cargo_tarpaulin::path_utils::path_extension("a/.hidden"), None);
    assert_eq!(cargo_tarpaulin::path_utils::path_extension("a/noext"), None);
    assert_eq!(cargo_tarpaulin::path_utils::path_extension("a/trail."), Some(String::new()));
    assert!(!cargo_tarpaulin::path_utils::is_source_file("/no/such/file.rs"));
    assert!(!cargo_tarpaulin::path_utils::is_source_file("/etc/passwd"));
    assert!(!cargo_tarpaulin::path_utils::is_profraw_file("/no/such/x.profraw"));
}

#[test]
fn file_answers_need_extension_and_file() {
    assert!(source_file_answer("/a/b.rs", true));
    assert!(!source_file_answer("/a/b.rs", false));
    assert!(!source_file_answer("/a/b.txt", true));
    assert!(profraw_file_answer("/a/x.profraw", true));
    assert!(!profraw_file_answer("/a/x.rs", true));
    assert!(!profraw_file_answer("/a/x.profraw", false));
}

#[test]
fn tests_folder_answer_needs_manifest_and_src() {
    assert!(tests_folder_answer("/p", "/p/sub/tests/a.rs", true, true));
    assert!(!tests_folder_answer("/p", "/p/sub/tests/a.rs", false, true));
    assert!(!tests_folder_answer("/p", "/p/sub/tests/a.rs", true, false));
    assert!(!tests_folder_answer("/p", "/p/sub/src/a.rs", true, true));
}
