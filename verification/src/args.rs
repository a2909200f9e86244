//! The choices made on the command line, as plain values.
use vstd::prelude::*;
use crate::config::contains_run_type;
use crate::config::types::{Color, Mode, OutputFile, RunType, TraceEngine};

verus! {

/// The logging choices.
#[derive(Debug, Clone, Copy)]
pub struct LoggingArgs {
    /// Coloring: auto, always, never
    pub color: Option<Color>,
    /// Show debug output
    pub debug: bool,
    /// Show extra output
    pub verbose: bool,
    /// Log tracing events and save them to a json file.
    pub dump_traces: bool,
}

/// The choices that print the flags a build would use and stop.
#[derive(Debug, Clone, Copy)]
pub struct PrintFlagsArgs {
    /// Print the RUSTFLAGS options and exit
    pub print_rust_flags: bool,
    /// Print the RUSTDOCFLAGS options and exit
    pub print_rustdoc_flags: bool,
}

/// The kinds of targets chosen, by list and by single flags.
pub struct RunTypesArgs {
    /// Type of the coverage run
    pub run_types: Vec<RunType>,
    /// Test all benches
    pub benches: bool,
    /// Test only this library's documentation
    pub doc: bool,
    /// Test all targets (excluding doctests)
    pub all_targets: bool,
    /// Test only this package's library unit tests
    pub lib: bool,
    /// Test all binaries
    pub bins: bool,
    /// Test all examples
    pub examples: bool,
    /// Test all tests
    pub tests: bool,
}

/// The choices that make a configuration.
pub struct ConfigArgs {
    pub logging: LoggingArgs,
    pub run_types: RunTypesArgs,
    /// Path to a toml file specifying a list of options this will override any other options set
    pub config: Option<String>,
    /// Ignore any project config files
    pub ignore_config: bool,
    /// Test only the specified binary
    pub bin: Vec<String>,
    /// Test only the specified example
    pub example: Vec<String>,
    /// Test only the specified test target
    pub test: Vec<String>,
    /// Test only the specified bench target
    pub bench: Vec<String>,
    /// Compile tests but don't run coverage
    pub no_fail_fast: bool,
    /// Build artefacts with the specified profile
    pub profile: Option<String>,
    /// Ignore test functions in coverage statistics
    pub ignore_tests: bool,
    /// Do not build with -Clink-dead-code
    pub no_dead_code: bool,
    /// Ignore panic macros in tests
    pub ignore_panics: bool,
    /// Counts the number of hits during coverage
    pub count: bool,
    /// Run ignored tests as well
    pub ignored: bool,
    /// Line coverage
    pub line: bool,
    /// Branch coverage
    pub branch: bool,
    /// The project is cleaned before the build
    pub force_clean: bool,
    /// Forwards unexpected signals to the test
    pub forward: bool,
    /// Coveralls key, either the repo token, or if you're using travis use $TRAVIS_JOB_ID
    pub coveralls: Option<String>,
    /// URL of the report upload
    pub report_uri: Option<String>,
    /// Do not include default features
    pub no_default_features: bool,
    /// Features to be included in the target project
    pub features: Vec<String>,
    /// Build all available features
    pub all_features: bool,
    /// Alias for --workspace (deprecated)
    pub all: bool,
    /// Test all packages in the workspace
    pub workspace: bool,
    /// Package id specifications for which to run tests
    pub packages: Vec<String>,
    /// Package id specifications to exclude from coverage
    pub exclude: Vec<String>,
    /// Exclude given files from coverage results, with glob patterns
    pub exclude_files: Vec<String>,
    /// Integer for the maximum time in seconds without response from test before timeout
    pub timeout: Option<u64>,
    /// Build in release mode
    pub release: bool,
    /// Compile tests but don't run coverage
    pub no_run: bool,
    /// Do not update Cargo.lock
    pub locked: bool,
    /// Do not update Cargo.lock or any caches
    pub frozen: bool,
    /// Compilation target triple
    pub target: Option<String>,
    /// Directory for all generated artifacts
    pub target_dir: Option<String>,
    /// Run without accessing the network
    pub offline: bool,
    /// Do not pass --cfg=tarpaulin to the build
    pub avoid_cfg_tarpaulin: bool,
    /// Number of parallel jobs
    pub jobs: Option<usize>,
    /// Rustflags to add when building project
    pub rustflags: Option<String>,
    /// Unstable cargo features
    pub unstable_features: Vec<String>,
    /// Output format of coverage report
    pub out: Vec<OutputFile>,
    /// Coverage tracing backend to use
    pub engine: Option<TraceEngine>,
    /// Specify a custom directory to write report files
    pub output_dir: Option<String>,
    /// cargo subcommand to run
    pub command: Option<Mode>,
    /// Calculates relative paths to root directory
    pub root: Option<String>,
    /// Path to Cargo.toml
    pub manifest_path: Option<String>,
    /// CI server being used, if unspecified tarpaulin may automatically infer for coveralls uploads
    pub ciserver: Option<String>,
    /// Arguments to be passed to the test executables
    pub args: Vec<String>,
}

/// `v` with `t` pushed at its end when `chosen` holds and `v` lacks it.
pub open spec fn add_kind(v: Seq<RunType>, chosen: bool, t: RunType) -> Seq<RunType> {
    if chosen && !v.contains(t) {
        v.push(t)
    } else {
        v
    }
}

/// The kinds chosen: the list, then library, all targets, benches, binaries,
/// examples, doctests and tests where their flags are set and the list lacks them.
pub open spec fn collect_spec(a: RunTypesArgs) -> Seq<RunType> {
    let v = add_kind(a.run_types@, a.lib, RunType::Lib);
    let v = add_kind(v, a.all_targets, RunType::AllTargets);
    let v = add_kind(v, a.benches, RunType::Benchmarks);
    let v = add_kind(v, a.bins, RunType::Bins);
    let v = add_kind(v, a.examples, RunType::Examples);
    let v = add_kind(v, a.doc, RunType::Doctests);
    add_kind(v, a.tests, RunType::Tests)
}

proof fn lemma_add_kind(v: Seq<RunType>, chosen: bool, t: RunType)
    requires
        v.no_duplicates(),
    ensures
        add_kind(v, chosen, t).no_duplicates(),
        chosen ==> add_kind(v, chosen, t).contains(t),
        forall|x: RunType| v.contains(x) ==> #[trigger] add_kind(v, chosen, t).contains(x),
{
    let r = add_kind(v, chosen, t);
    if chosen && !v.contains(t) {
        assert(r[v.len() as int] == t);
        assert forall|x: RunType| v.contains(x) implies #[trigger] r.contains(x) by {
            let k = choose|k: int| 0 <= k < v.len() && v[k] == x;
            assert(r[k] == x);
        }
    }
}

/// Collecting the kinds adds each kind whose flag is set, keeps every kind
/// of the list, and repeats none where the list repeats none.
pub proof fn lemma_collect_laws(a: RunTypesArgs)
    requires
        a.run_types@.no_duplicates(),
    ensures
        collect_spec(a).no_duplicates(),
        forall|x: RunType| a.run_types@.contains(x) ==> #[trigger] collect_spec(a).contains(x),
        a.lib ==> collect_spec(a).contains(RunType::Lib),
        a.all_targets ==> collect_spec(a).contains(RunType::AllTargets),
        a.benches ==> collect_spec(a).contains(RunType::Benchmarks),
        a.bins ==> collect_spec(a).contains(RunType::Bins),
        a.examples ==> collect_spec(a).contains(RunType::Examples),
        a.doc ==> collect_spec(a).contains(RunType::Doctests),
        a.tests ==> collect_spec(a).contains(RunType::Tests),
{
    let v0 = a.run_types@;
    let v1 = add_kind(v0, a.lib, RunType::Lib);
    let v2 = add_kind(v1, a.all_targets, RunType::AllTargets);
    let v3 = add_kind(v2, a.benches, RunType::Benchmarks);
    let v4 = add_kind(v3, a.bins, RunType::Bins);
    let v5 = add_kind(v4, a.examples, RunType::Examples);
    let v6 = add_kind(v5, a.doc, RunType::Doctests);
    lemma_add_kind(v0, a.lib, RunType::Lib);
    lemma_add_kind(v1, a.all_targets, RunType::AllTargets);
    lemma_add_kind(v2, a.benches, RunType::Benchmarks);
    lemma_add_kind(v3, a.bins, RunType::Bins);
    lemma_add_kind(v4, a.examples, RunType::Examples);
    lemma_add_kind(v5, a.doc, RunType::Doctests);
    lemma_add_kind(v6, a.tests, RunType::Tests);
}

fn push_kind(v: &mut Vec<RunType>, chosen: bool, t: RunType)
    ensures
        final(v)@ == add_kind(old(v)@, chosen, t),
{
    if chosen && !contains_run_type(v, t) {
        v.push(t);
    }
}

impl RunTypesArgs {
    /// All the kinds chosen, each once more than the list holds it at most.
    pub fn collect(self) -> (res: Vec<RunType>)
        ensures
            res@ == collect_spec(self),
    {
        let ghost a = self;
        let mut run_types = self.run_types;
        push_kind(&mut run_types, self.lib, RunType::Lib);
        push_kind(&mut run_types, self.all_targets, RunType::AllTargets);
        push_kind(&mut run_types, self.benches, RunType::Benchmarks);
        push_kind(&mut run_types, self.bins, RunType::Bins);
        push_kind(&mut run_types, self.examples, RunType::Examples);
        push_kind(&mut run_types, self.doc, RunType::Doctests);
        push_kind(&mut run_types, self.tests, RunType::Tests);
        run_types
    }
}

} // verus!
