pub mod analysis;
pub mod attributes;
pub mod breakpoint;
pub mod breakpoint_set;
pub mod build_output;
pub mod args;
pub mod cargo;
pub mod cargo_config;
pub mod cobertura;
pub mod config;
pub mod doctests;
pub mod errors;
pub mod fn_lines;
pub mod file_syntax;
pub mod syn_convert;
pub mod syn_types;
pub mod syntax_walk;
pub mod path_utils;
pub mod instrumented;
pub mod launch;
pub mod line_traces;
pub mod lcov;
pub mod macro_lines;
pub mod paths;
pub mod process_table;
pub mod patterns;
pub mod ptrace_decisions;
pub mod report;
pub mod run;
pub mod source_files;
pub mod source_report;
pub mod statemachine;
pub mod text;
pub mod trace_laws;
pub mod traces;
