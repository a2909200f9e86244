//! The kinds of choices a configuration makes.
use vstd::prelude::*;
use crate::text::str_eq;

verus! {

/// Coloring of the output.
#[derive(Debug, Copy, Clone, PartialEq, Eq, Hash, PartialOrd, Ord, Structural)]
pub enum Color {
    Auto,
    Always,
    Never,
}

impl Color {
    /// The name of the choice, as it is written out.
    pub fn name(&self) -> (res: &'static str)
        ensures
            res@ == color_name(*self),
    {
        match self {
            Color::Auto => "Auto",
            Color::Always => "Always",
            Color::Never => "Never",
        }
    }

    /// The name of the choice in lower case, as cargo takes it.
    pub fn lower_name(&self) -> (res: &'static str)
        ensures
            res@ == color_lower_name(*self),
    {
        match self {
            Color::Auto => "auto",
            Color::Always => "always",
            Color::Never => "never",
        }
    }
}

pub open spec fn color_name(c: Color) -> Seq<char> {
    match c {
        Color::Auto => "Auto"@,
        Color::Always => "Always"@,
        Color::Never => "Never"@,
    }
}

pub open spec fn color_lower_name(c: Color) -> Seq<char> {
    match c {
        Color::Auto => "auto"@,
        Color::Always => "always"@,
        Color::Never => "never"@,
    }
}

/// The backend that collects coverage.
#[derive(Debug, Copy, Clone, PartialEq, Eq, Hash, PartialOrd, Ord, Structural)]
pub enum TraceEngine {
    Auto,
    Ptrace,
    Llvm,
}

impl TraceEngine {
    /// The engines this platform supports: ptrace where it is available, llvm always.
    pub fn supported(ptrace_supported: bool) -> (res: Vec<TraceEngine>)
        ensures
            ptrace_supported ==> res@ == seq![TraceEngine::Ptrace, TraceEngine::Llvm],
            !ptrace_supported ==> res@ == seq![TraceEngine::Llvm],
    {
        let mut v = Vec::new();
        if ptrace_supported {
            v.push(TraceEngine::Ptrace);
        }
        v.push(TraceEngine::Llvm);
        v
    }

    /// The default engine: ptrace where it is available, otherwise llvm.
    pub fn default_for(ptrace_supported: bool) -> (res: TraceEngine)
        ensures
            res == (if ptrace_supported { TraceEngine::Ptrace } else { TraceEngine::Llvm }),
    {
        if ptrace_supported {
            TraceEngine::Ptrace
        } else {
            TraceEngine::Llvm
        }
    }
}

/// The cargo subcommand to run.
#[derive(Debug, Copy, Clone, PartialEq, Eq, Hash, PartialOrd, Ord, Structural)]
pub enum Mode {
    Test,
    Build,
}

/// The kind of test target to collect coverage from.
#[derive(Debug, Copy, Clone, PartialEq, Eq, Hash, PartialOrd, Ord, Structural)]
pub enum RunType {
    Tests,
    Doctests,
    Benchmarks,
    Examples,
    Lib,
    Bins,
    AllTargets,
}

/// A format of coverage report.
#[derive(Debug, Copy, Clone, Eq, PartialEq, Ord, PartialOrd, Hash, Structural)]
pub enum OutputFile {
    Json,
    Stdout,
    Xml,
    Html,
    Lcov,
    Markdown,
}

impl OutputFile {
    /// The default report format.
    pub fn default_format() -> (res: OutputFile)
        ensures
            res == OutputFile::Stdout,
    {
        OutputFile::Stdout
    }
}

/// A continuous integration service, as reports to coveralls name them.
#[derive(Debug, Clone, PartialEq, Eq, PartialOrd, Ord)]
pub enum Ci {
    Circle,
    Codeship,
    Jenkins,
    Semaphore,
    Travis,
    TravisPro,
    Other(String),
}

/// The value of a CI service.
pub enum CiView {
    Circle,
    Codeship,
    Jenkins,
    Semaphore,
    Travis,
    TravisPro,
    Other(Seq<char>),
}

impl View for Ci {
    type V = CiView;

    open spec fn view(&self) -> CiView {
        match self {
            Ci::Circle => CiView::Circle,
            Ci::Codeship => CiView::Codeship,
            Ci::Jenkins => CiView::Jenkins,
            Ci::Semaphore => CiView::Semaphore,
            Ci::Travis => CiView::Travis,
            Ci::TravisPro => CiView::TravisPro,
            Ci::Other(s) => CiView::Other(s@),
        }
    }
}

/// The service a name stands for; any name that is not one of the known
/// services stands for itself.
pub open spec fn ci_from_name(x: Seq<char>) -> CiView {
    if x == "circle-ci"@ {
        CiView::Circle
    } else if x == "codeship"@ {
        CiView::Codeship
    } else if x == "jenkins"@ {
        CiView::Jenkins
    } else if x == "semaphore"@ {
        CiView::Semaphore
    } else if x == "travis-ci"@ {
        CiView::Travis
    } else if x == "travis-pro"@ {
        CiView::TravisPro
    } else {
        CiView::Other(x)
    }
}

impl Ci {
    /// The service a name stands for (this never fails).
    pub fn from_name(x: &str) -> (res: Ci)
        ensures
            res@ == ci_from_name(x@),
    {
        if str_eq(x, "circle-ci") {
            Ci::Circle
        } else if str_eq(x, "codeship") {
            Ci::Codeship
        } else if str_eq(x, "jenkins") {
            Ci::Jenkins
        } else if str_eq(x, "semaphore") {
            Ci::Semaphore
        } else if str_eq(x, "travis-ci") {
            Ci::Travis
        } else if str_eq(x, "travis-pro") {
            Ci::TravisPro
        } else {
            Ci::Other(x.to_string())
        }
    }

    /// A copy of this value.
    pub fn duplicate(&self) -> (res: Ci)
        ensures
            res@ == self@,
    {
        match self {
            Ci::Circle => Ci::Circle,
            Ci::Codeship => Ci::Codeship,
            Ci::Jenkins => Ci::Jenkins,
            Ci::Semaphore => Ci::Semaphore,
            Ci::Travis => Ci::Travis,
            Ci::TravisPro => Ci::TravisPro,
            Ci::Other(s) => Ci::Other(s.clone()),
        }
    }
}

} // verus!
