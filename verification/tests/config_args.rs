use cargo_tarpaulin::config::pick_config;
use cargo_tarpaulin::config::choose_source;
use cargo_tarpaulin::args::{ConfigArgs, LoggingArgs, RunTypesArgs};
use cargo_tarpaulin::config::types::TraceEngine;
use cargo_tarpaulin::config::{check_path_for_configs, config_source, Config, ConfigSource};

fn args(features: &[&str], ignore_config: bool) -> ConfigArgs {
    ConfigArgs {
        logging: LoggingArgs { color: None, debug: false, verbose: false, dump_traces: false },
        run_types: RunTypesArgs {
            run_types: vec![],
            benches: false,
            doc: false,
            all_targets: false,
            lib: false,
            bins: false,
            examples: false,
            tests: false,
        },
        config: None,
        ignore_config,
        bin: vec![],
        example: vec![],
        test: vec![],
        bench: vec![],
        no_fail_fast: false,
        profile: None,
        ignore_tests: false,
        no_dead_code: false,
        ignore_panics: false,
        count: false,
        ignored: false,
        line: false,
        branch: false,
        force_clean: false,
        forward: false,
        coveralls: None,
        report_uri: None,
        no_default_features: false,
        features: features.iter().map(|s| s.to_string()).collect(),
        all_features: false,
        all: false,
        workspace: false,
        packages: vec![],
        exclude: vec![],
        exclude_files: vec![],
        timeout: None,
        release: false,
        no_run: false,
        locked: false,
        frozen: false,
        target: None,
        target_dir: None,
        offline: false,
        avoid_cfg_tarpaulin: false,
        jobs: None,
        rustflags: None,
        unstable_features: vec![],
        out: vec![],
        engine: None,
        output_dir: None,
        command: None,
        root: None,
        manifest_path: None,
        ciserver: None,
        args: vec![],
    }
}

#[test]
fn features_args() {
    let conf = vec![Config::from_args(args(&["a", "b"], true), "/work", None, TraceEngine::Ptrace)];
    assert_eq!(conf.len(), 1);
    assert_eq!(conf[0].features, Some("a b".to_string()));

    let conf = vec![Config::from_args(args(&["a b"], true), "/work", None, TraceEngine::Ptrace)];
    assert_eq!(conf.len(), 1);
    assert_eq!(conf[0].features, Some("a b".to_string()))
}

#[test]
fn config_source_follows_the_command_line() {
    assert!(matches!(config_source(true, Some("/x/t.toml"), "/work", None, "/p/Cargo.toml"), ConfigSource::ArgsOnly));
    assert!(matches!(config_source(false, Some("/x/t.toml"), "/work", None, "/p/Cargo.toml"),
        ConfigSource::File(f) if f == "/x/t.toml"));
    assert!(matches!(config_source(false, Some("t.toml"), "/work", None, "/p/Cargo.toml"),
        ConfigSource::File(f) if f == "/work/t.toml"));
    assert!(matches!(config_source(false, None, "/work", Some("/no/such/dir"), "/p/Cargo.toml"), ConfigSource::ArgsOnly));
    assert_eq!(check_path_for_configs("/no/such/dir"), None);
}

#[test]
fn pick_config_prefers_the_plain_name() {
    assert_eq!(pick_config("/p", true, true), Some("/p/tarpaulin.toml".to_string()));
    assert_eq!(pick_config("/p", true, false), Some("/p/tarpaulin.toml".to_string()));
    assert_eq!(pick_config("/p", false, true), Some("/p/.tarpaulin.toml".to_string()));
    assert_eq!(pick_config("/p", false, false), None);
}

#[test]
fn choose_source_orders_the_sources() {
    let found = Some("/p/tarpaulin.toml".to_string());
    assert!(matches!(choose_source(true, Some("/x.toml"), "/w", found.clone()), ConfigSource::ArgsOnly));
    assert!(matches!(choose_source(false, Some("x.toml"), "/w", found.clone()), ConfigSource::File(p) if p == "/w/x.toml"));
    assert!(matches!(choose_source(false, None, "/w", found), ConfigSource::File(p) if p == "/p/tarpaulin.toml"));
    assert!(matches!(choose_source(false, None, "/w", None), ConfigSource::ArgsOnly));
}
