use cargo_tarpaulin::cargo_config::{host_from_version_output, resolve_value, EnvConfigValue};

fn value(v: &str, force: bool, relative: bool) -> EnvConfigValue {
    EnvConfigValue { value: v.to_string(), force, relative }
}

#[test]
fn env_values_resolve() {
    assert_eq!(resolve_value("/proj", &value("abc", false, false), false), Some(String::from("abc")));
    assert_eq!(resolve_value("/proj", &value("data", false, true), false), Some(String::from("/proj/data")));
    assert_eq!(resolve_value("/proj", &value("/abs", false, true), false), Some(String::from("/abs")));
    assert_eq!(resolve_value("/proj", &value("abc", false, false), true), None);
    assert_eq!(resolve_value("/proj", &value("abc", true, false), true), Some(String::from("abc")));
    assert_eq!(resolve_value("/proj/", &value("x", true, true), true), Some(String::from("/proj/x")));
}

#[test]
fn host_is_read_from_rustc_report() {
    let report = "rustc 1.80.0 (051478957 2024-07-21)\nbinary: rustc\ncommit-hash: 0514789\nhost: x86_64-unknown-linux-gnu\nrelease: 1.80.0\n";
    assert_eq!(host_from_version_output(report), Some(String::from("x86_64-unknown-linux-gnu")));
    assert_eq!(host_from_version_output("host: a\r\nhost: b\n"), Some(String::from("a")));
    assert_eq!(host_from_version_output("binary: rustc\n"), None);
    assert_eq!(host_from_version_output("hosts: x\n"), None);
    assert_eq!(host_from_version_output(""), None);
}
