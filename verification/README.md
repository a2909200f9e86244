# cargo_tarpaulin

The logic of a code coverage tool for Cargo projects, written in Verus and
proved against its contracts.

## Layout

- `src/traces.rs` — coverage traces grouped by source file: adding, merging,
  collapsing duplicates, hit counting and coverage totals.
  `src/trace_laws.rs` states and proves what holds of them whatever they hold
  (merging into an empty map, merging adds each file's hits, collapsing
  twice, what an added trace or file makes the map hold).
- `src/line_traces.rs` — the traces of a test binary from the rows of its
  line tables: rows gathered by location, tests, excluded files and ignored
  lines dropped, and a trace for each counted line no row names.
- `src/paths.rs`, `src/path_utils.rs` — POSIX paths as sequences of
  components; which files of a project count for coverage.
- `src/config/` — the configuration of a run: defaults, merging the command
  line into configuration files, directories, excluded files.
- `src/args.rs` — the command line's choices as plain values, and the
  configuration they make (`Config::from_args`).
- `src/cargo.rs` — the cargo version, test binaries, doctest names, the
  arguments, toolchain, environment and compiler flags of the build.
- `src/cargo_config.rs` — values of cargo's `[env]` table and the host
  triple from `rustc -vV`.
- `src/build_output.rs`, `src/doctests.rs` — reading cargo's messages into
  test binaries and linker paths, the packages' metadata, and the doctest
  binaries with their `should_panic` and `no_run` markers.
- `src/launch.rs` — the environment and arguments a test binary runs with.
- `src/analysis.rs` — what the source analysis of a file keeps, and the
  lines with nothing to cover (comments, bare punctuation, `} else {`).
- `src/attributes.rs` — the attributes that take code out of coverage
  (`tarpaulin::skip`, `coverage(off)`, `cfg(not(tarpaulin_include))`, test
  attributes), `cfg` predicates, and the features active for a file's
  package.
- `src/source_files.rs` — the analysis of all of a project's files: one
  entry per path, the modules left out with every file under them, and the
  analysis of one file (`analyse_package`): left out before reading, parsed
  with `syn`, its syntax walked, or rejected by its attributes.
- `src/file_syntax.rs`, `src/syn_convert.rs`, `src/syn_types.rs` — a
  file's syntax tree as the analysis reads it (items, statements and
  expressions with the lines they span), and its reading from `syn`.
- `src/syntax_walk.rs` — the walk of that tree: which lines are ignored,
  covered or joined into logical lines, which modules are left out, and
  which code cannot be reached; each step stated as a function from the
  analysis before to the analysis after.
- `src/fn_lines.rs` — what the attributes of a function say, the lines of
  a function left out or of its declaration, and a module left out with the
  file it stands for.
- `src/macro_lines.rs` — the lines of a macro call that count, the macros
  that take their code out of coverage, and whether a run of statements
  can be reached.
- `src/statemachine.rs`, `src/ptrace_decisions.rs`, `src/process_table.rs`,
  `src/breakpoint.rs`, `src/breakpoint_set.rs`, `src/run.rs` — the states
  of a traced test (each step recorded with what the tracing answered and
  the clock reading it was decided on), the decisions taken on each stop, signal, exit and
  ptrace event, the threads and processes followed, software breakpoints
  (the trap word, what disabling restores, the words where placing one
  clashed), and how a run's results add up.
- `src/instrumented.rs` — traces from the hit counts of an llvm report,
  hits given to the traces a map already holds, and how such a run ends.
- `src/report.rs`, `src/lcov.rs`, `src/source_report.rs`, `src/cobertura.rs`
  — the uncovered lines, the summary, the name of the saved report, the
  lcov tracefile, the files of the JSON/HTML and coveralls reports, and the
  counts of the Cobertura report.
- `src/patterns.rs`, `src/text.rs` — calls into the `regex` and `glob`
  crates, std's white-space class, and text helpers.
- `app/main.rs` — the command: reads the command line and the environment,
  runs cargo and `cargo metadata`, walks the file system, and prints what
  the library computes. It does not trace tests: the tracing backends
  (ptrace, llvm profiles, reading line tables) need crates this build does
  not include; nor does it read config files, which takes a TOML parser.
