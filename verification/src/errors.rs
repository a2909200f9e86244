//! The ways a coverage run can fail.
use vstd::prelude::*;

verus! {

/// Error states that could be returned from tarpaulin. Errors that the
/// system reports (input and output, process control, report writing) are
/// held by their text.
#[derive(Debug)]
pub enum RunError {
    /// Error in cargo manifests
    Manifest(String),
    /// Cargo failed to run
    Cargo(String),
    /// Error trying to resolve package configuration in manifest
    Packages(String),
    /// Tests failed to compile
    TestCompile(String),
    /// Test failed during run
    TestRuntime(String),
    TestFailed,
    /// Failed to parse
    Parse(String),
    /// Failed to get test coverage
    TestCoverage(String),
    Trace(String),
    CovReport(String),
    OutFormat(String),
    IO(String),
    StateMachine(String),
    NixError(String),
    Html(String),
    XML(String),
    Lcov(String),
    Json(String),
    Internal,
}

/// The value of an error.
pub enum RunErrorView {
    Manifest(Seq<char>),
    Cargo(Seq<char>),
    Packages(Seq<char>),
    TestCompile(Seq<char>),
    TestRuntime(Seq<char>),
    TestFailed,
    Parse(Seq<char>),
    TestCoverage(Seq<char>),
    Trace(Seq<char>),
    CovReport(Seq<char>),
    OutFormat(Seq<char>),
    IO(Seq<char>),
    StateMachine(Seq<char>),
    NixError(Seq<char>),
    Html(Seq<char>),
    XML(Seq<char>),
    Lcov(Seq<char>),
    Json(Seq<char>),
    Internal,
}

impl View for RunError {
    type V = RunErrorView;

    open spec fn view(&self) -> RunErrorView {
        match self {
            RunError::Manifest(e) => RunErrorView::Manifest(e@),
            RunError::Cargo(e) => RunErrorView::Cargo(e@),
            RunError::Packages(e) => RunErrorView::Packages(e@),
            RunError::TestCompile(e) => RunErrorView::TestCompile(e@),
            RunError::TestRuntime(e) => RunErrorView::TestRuntime(e@),
            RunError::TestFailed => RunErrorView::TestFailed,
            RunError::Parse(e) => RunErrorView::Parse(e@),
            RunError::TestCoverage(e) => RunErrorView::TestCoverage(e@),
            RunError::Trace(e) => RunErrorView::Trace(e@),
            RunError::CovReport(e) => RunErrorView::CovReport(e@),
            RunError::OutFormat(e) => RunErrorView::OutFormat(e@),
            RunError::IO(e) => RunErrorView::IO(e@),
            RunError::StateMachine(e) => RunErrorView::StateMachine(e@),
            RunError::NixError(e) => RunErrorView::NixError(e@),
            RunError::Html(e) => RunErrorView::Html(e@),
            RunError::XML(e) => RunErrorView::XML(e@),
            RunError::Lcov(e) => RunErrorView::Lcov(e@),
            RunError::Json(e) => RunErrorView::Json(e@),
            RunError::Internal => RunErrorView::Internal,
        }
    }
}

/// The message shown for an error.
pub open spec fn error_message(e: RunErrorView) -> Seq<char> {
    match e {
        RunErrorView::Manifest(e) => "Failed to parse Cargo.toml! Error: "@ + e,
        RunErrorView::Cargo(e) => "Cargo failed to run! Error: "@ + e,
        RunErrorView::Packages(e) => "Failed to resolve package in manifest! Error: "@ + e,
        RunErrorView::TestCompile(e) => "Failed to compile tests! Error: "@ + e,
        RunErrorView::TestRuntime(e) => "Failed to run tests: "@ + e,
        RunErrorView::TestFailed => "Test failed during run"@,
        RunErrorView::Parse(e) => "Error while parsing: "@ + e,
        RunErrorView::TestCoverage(e) => "Failed to get test coverage! Error: "@ + e,
        RunErrorView::Trace(e) => "Failed to trace! Error: "@ + e,
        RunErrorView::CovReport(e) => "Failed to report coverage! Error: "@ + e,
        RunErrorView::OutFormat(e) => e,
        RunErrorView::IO(e) => e,
        RunErrorView::StateMachine(e) => "Error running test: "@ + e,
        RunErrorView::NixError(e) => e,
        RunErrorView::Html(e) => "Failed to generate HTML report! Error: "@ + e,
        RunErrorView::XML(e) => "Failed to generate XML report! Error: "@ + e,
        RunErrorView::Lcov(e) => "Failed to generate Lcov report! Error: "@ + e,
        RunErrorView::Json(e) => "Failed to generate JSON report! Error: "@ + e,
        RunErrorView::Internal => "Tarpaulin experienced an internal error"@,
    }
}

fn prefixed_text(prefix: &str, e: &String) -> (res: String)
    ensures
        res@ == prefix@ + e@,
{
    let mut s = String::from_str(prefix);
    s.append(e.as_str());
    s
}

impl RunError {
    /// The message shown for this error.
    pub fn message(&self) -> (res: String)
        ensures
            res@ == error_message(self@),
    {
        match self {
            RunError::Manifest(e) => prefixed_text("Failed to parse Cargo.toml! Error: ", e),
            RunError::Cargo(e) => prefixed_text("Cargo failed to run! Error: ", e),
            RunError::Packages(e) => prefixed_text("Failed to resolve package in manifest! Error: ", e),
            RunError::TestCompile(e) => prefixed_text("Failed to compile tests! Error: ", e),
            RunError::TestRuntime(e) => prefixed_text("Failed to run tests: ", e),
            RunError::TestFailed => String::from_str("Test failed during run"),
            RunError::Parse(e) => prefixed_text("Error while parsing: ", e),
            RunError::TestCoverage(e) => prefixed_text("Failed to get test coverage! Error: ", e),
            RunError::Trace(e) => prefixed_text("Failed to trace! Error: ", e),
            RunError::CovReport(e) => prefixed_text("Failed to report coverage! Error: ", e),
            RunError::OutFormat(e) => e.clone(),
            RunError::IO(e) => e.clone(),
            RunError::StateMachine(e) => prefixed_text("Error running test: ", e),
            RunError::NixError(e) => e.clone(),
            RunError::Html(e) => prefixed_text("Failed to generate HTML report! Error: ", e),
            RunError::XML(e) => prefixed_text("Failed to generate XML report! Error: ", e),
            RunError::Lcov(e) => prefixed_text("Failed to generate Lcov report! Error: ", e),
            RunError::Json(e) => prefixed_text("Failed to generate JSON report! Error: ", e),
            RunError::Internal => String::from_str("Tarpaulin experienced an internal error"),
        }
    }
}

} // verus!
