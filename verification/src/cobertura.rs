//! What the Cobertura report holds: the project's totals, and for each
//! directory of sources its counts and, for each of its source files with
//! anything to cover, its counts and the hits of its lines. The rates the
//! report also shows are the quotients of these counts.
use vstd::prelude::*;
use crate::cargo::{rfind_char, rfind_char_exec, slice_chars};
use crate::paths::{components, file_name_spec, parent_opt, parent_path, path_eq, path_file_name, same_path};
use crate::report::{shown_path, strip_base_dir};
use crate::text::{opt_str, string_of};
use crate::traces::{child_flat, coverable, covered, flat, fview, rview, StatView, TraceMap, TraceView, CoverageStat, Trace};

verus! {

/// A line of a class, with its hits.
pub struct LineReport {
    pub number: usize,
    pub hits: usize,
}

/// A source file with anything to cover.
pub struct ClassReport {
    /// The file's name without its extension
    pub name: String,
    /// Its path as shown
    pub file_name: String,
    pub covered: usize,
    pub coverable: usize,
    pub lines: Vec<LineReport>,
}

/// A directory holding source files.
pub struct PackageReport {
    /// Its path as shown
    pub name: String,
    pub covered: usize,
    pub coverable: usize,
    pub classes: Vec<ClassReport>,
}

/// The report.
pub struct CoberturaReport {
    pub lines_covered: usize,
    pub lines_valid: usize,
    /// The directory paths are shown relative to
    pub sources: Vec<String>,
    pub packages: Vec<PackageReport>,
}

/// The name of a file without its last extension, as `Path::file_stem`
/// gives it; empty where the path names no file.
pub open spec fn stem_of(path: Seq<char>) -> Seq<char> {
    match file_name_spec(components(path)) {
        Some(n) => match rfind_char(n, '.') {
            Some(i) => if i > 0 {
                n.take(i)
            } else {
                n
            },
            None => n,
        },
        None => Seq::<char>::empty(),
    }
}

/// The directories that hold the files of `es`, each once, in the order they
/// first come.
pub open spec fn package_dirs(es: Seq<(Seq<char>, Seq<TraceView>)>) -> Seq<Seq<char>>
    decreases es.len(),
{
    if es.len() == 0 {
        Seq::empty()
    } else {
        let ds = package_dirs(es.drop_last());
        match parent_opt(es.last().0) {
            Some(d) => if exists|j: int| 0 <= j < ds.len() && same_path(#[trigger] ds[j], d) {
                ds
            } else {
                ds.push(d)
            },
            None => ds,
        }
    }
}

/// The lines of traces, each with its hits.
pub open spec fn lines_of_traces(ts: Seq<TraceView>) -> Seq<(usize, usize)> {
    ts.map_values(
        |t: TraceView|
            (
                t.line as usize,
                match t.stats {
                    StatView::Line(h) => h as usize,
                    _ => 0usize,
                },
            ),
    )
}

/// Whether every trace is of line coverage.
pub open spec fn all_lines(ts: Seq<TraceView>) -> bool {
    forall|i: int| 0 <= i < ts.len() ==> (#[trigger] ts[i]).stats is Line
}

/// The view of a class: name, shown path, counts and lines.
pub type ClassView = (Seq<char>, Seq<char>, nat, nat, Seq<(usize, usize)>);

/// The classes of the directory `dir`: the files of `es` directly in it
/// with anything to cover, in order.
pub open spec fn classes_spec(
    es: Seq<(Seq<char>, Seq<TraceView>)>,
    all: Seq<(Seq<char>, Seq<TraceView>)>,
    dir: Seq<char>,
    base: Seq<char>,
) -> Seq<ClassView>
    decreases es.len(),
{
    if es.len() == 0 {
        Seq::empty()
    } else {
        let rest = classes_spec(es.drop_last(), all, dir, base);
        let f = es.last().0;
        let ts = child_flat(all, f);
        if (parent_opt(f) matches Some(p) && same_path(p, dir)) && coverable(ts) > 0 {
            rest.push((stem_of(f), shown_path(f, base), covered(ts), coverable(ts), lines_of_traces(ts)))
        } else {
            rest
        }
    }
}

/// The view of a package: shown path, counts and classes.
pub open spec fn package_spec(all: Seq<(Seq<char>, Seq<TraceView>)>, dir: Seq<char>, base: Seq<char>) -> (
    Seq<char>,
    nat,
    nat,
    Seq<ClassView>,
) {
    (
        shown_path(dir, base),
        covered(child_flat(all, dir)),
        coverable(child_flat(all, dir)),
        classes_spec(all, all, dir, base),
    )
}

/// The counts fit the machine's integers, and every file with anything to
/// cover has only line coverage, the one kind the report can show.
pub open spec fn renderable(es: Seq<(Seq<char>, Seq<TraceView>)>) -> bool {
    &&& covered(flat(es)) <= usize::MAX
    &&& coverable(flat(es)) <= usize::MAX
    &&& forall|i: int| #![trigger es[i]] 0 <= i < es.len() ==> {
        &&& covered(child_flat(es, es[i].0)) <= usize::MAX
        &&& coverable(child_flat(es, es[i].0)) <= usize::MAX
        &&& (coverable(child_flat(es, es[i].0)) > 0 ==> all_lines(child_flat(es, es[i].0)))
    }
    &&& forall|d: Seq<char>| #![trigger package_dirs(es).contains(d)]
        package_dirs(es).contains(d) ==> covered(child_flat(es, d)) <= usize::MAX && coverable(child_flat(es, d))
            <= usize::MAX
}

/// The view of a class report.
pub open spec fn class_view(c: ClassReport) -> ClassView {
    (c.name@, c.file_name@, c.covered as nat, c.coverable as nat, c.lines@.map_values(|l: LineReport| (l.number, l.hits)))
}

/// The view of a package report.
pub open spec fn package_view(p: PackageReport) -> (Seq<char>, nat, nat, Seq<ClassView>) {
    (p.name@, p.covered as nat, p.coverable as nat, p.classes@.map_values(|c: ClassReport| class_view(c)))
}

fn file_stem(path: &str) -> (res: String)
    ensures
        res@ == stem_of(path@),
{
    match path_file_name(path) {
        Some(n) => match rfind_char_exec(&n, '.') {
            Some(i) => if i > 0 {
                string_of(&slice_chars(&n, 0, i))
            } else {
                string_of(&n)
            },
            None => string_of(&n),
        },
        None => String::new(),
    }
}

fn render_lines(ts: &Vec<&Trace>) -> (res: Vec<LineReport>)
    requires
        all_lines(rview(ts@)),
    ensures
        res@.map_values(|l: LineReport| (l.number, l.hits)) == lines_of_traces(rview(ts@)),
{
    let ghost tv = rview(ts@);
    let mut out: Vec<LineReport> = Vec::new();
    let mut i: usize = 0;
    while i < ts.len()
        invariant
            i <= ts.len(),
            tv == rview(ts@),
            all_lines(tv),
            out@.map_values(|l: LineReport| (l.number, l.hits)) == lines_of_traces(tv.take(i as int)),
        decreases ts.len() - i,
    {
        assert(tv[i as int] == ts@[i as int]@);
        assert(tv[i as int].stats is Line);
        let hits = match &ts[i].stats {
            CoverageStat::Line(h) => *h as usize,
            _ => 0,
        };
        let l = LineReport { number: ts[i].line as usize, hits };
        assert((l.number, l.hits) == lines_of_traces(seq![tv[i as int]])[0]);
        let ghost before = out@.map_values(|l: LineReport| (l.number, l.hits));
        out.push(l);
        assert(out@.map_values(|l: LineReport| (l.number, l.hits)) =~= before.push((l.number, l.hits)));
        assert(tv.take(i + 1) =~= tv.take(i as int).push(tv[i as int]));
        assert(out@.map_values(|l: LineReport| (l.number, l.hits)) =~= lines_of_traces(tv.take(i + 1)));
        i = i + 1;
    }
    assert(tv.take(ts.len() as int) =~= tv);
    out
}

/// Whether the file at `path` sits directly in `dir`.
fn in_dir(path: &str, dir: &str) -> (res: bool)
    ensures
        res == (parent_opt(path@) matches Some(p) && same_path(p, dir@)),
{
    match parent_path(path) {
        Some(p) => path_eq(p.as_str(), dir),
        None => false,
    }
}

fn render_classes(traces: &TraceMap, dir: &str, base_dir: &str) -> (res: Vec<ClassReport>)
    requires
        renderable(traces@),
    ensures
        res@.map_values(|c: ClassReport| class_view(c)) == classes_spec(traces@, traces@, dir@, base_dir@),
{
    let files = traces.iter();
    let ghost es = traces@;
    let mut out: Vec<ClassReport> = Vec::new();
    let mut i: usize = 0;
    assert(es.take(0) =~= Seq::<(Seq<char>, Seq<TraceView>)>::empty());
    assert(out@.map_values(|c: ClassReport| class_view(c)) =~= Seq::<ClassView>::empty());
    while i < files.len()
        invariant
            i <= files.len(),
            es == traces@,
            fview(files@) == es,
            renderable(es),
            out@.map_values(|c: ClassReport| class_view(c)) == classes_spec(es.take(i as int), es, dir@, base_dir@),
        decreases files.len() - i,
    {
        assert(es.take(i + 1).drop_last() =~= es.take(i as int));
        assert(es.take(i + 1).last() == es[i as int]);
        assert(es[i as int] == files@[i as int]@);
        let path = files[i].path.as_str();
        if in_dir(path, dir) {
            let coverable = traces.coverable_in_path(path);
            if coverable > 0 {
                let ts = traces.get_child_traces(path);
                let c = ClassReport {
                    name: file_stem(path),
                    file_name: strip_base_dir(path, base_dir),
                    covered: traces.covered_in_path(path),
                    coverable,
                    lines: render_lines(&ts),
                };
                let ghost before = out@.map_values(|c: ClassReport| class_view(c));
                out.push(c);
                assert(out@.map_values(|c: ClassReport| class_view(c)) =~= before.push(class_view(c)));
            }
        }
        i = i + 1;
    }
    assert(es.take(files.len() as int) =~= es);
    out
}

fn package_dirs_exec(traces: &TraceMap) -> (res: Vec<String>)
    ensures
        crate::text::strs(res@) == package_dirs(traces@),
{
    let files = traces.iter();
    let ghost es = traces@;
    let mut out: Vec<String> = Vec::new();
    let mut i: usize = 0;
    assert(es.take(0) =~= Seq::<(Seq<char>, Seq<TraceView>)>::empty());
    while i < files.len()
        invariant
            i <= files.len(),
            es == traces@,
            fview(files@) == es,
            crate::text::strs(out@) == package_dirs(es.take(i as int)),
        decreases files.len() - i,
    {
        assert(es.take(i + 1).drop_last() =~= es.take(i as int));
        assert(es.take(i + 1).last() == es[i as int]);
        assert(es[i as int] == files@[i as int]@);
        match parent_path(files[i].path.as_str()) {
            Some(d) => {
                let ghost ds = crate::text::strs(out@);
                let mut seen = false;
                let mut j: usize = 0;
                while j < out.len()
                    invariant
                        j <= out.len(),
                        ds == crate::text::strs(out@),
                        seen == exists|k: int| 0 <= k < j && same_path(#[trigger] ds[k], d@),
                    decreases out.len() - j,
                {
                    assert(ds[j as int] == out@[j as int]@);
                    if path_eq(out[j].as_str(), d.as_str()) {
                        seen = true;
                    }
                    j = j + 1;
                }
                if !seen {
                    out.push(d);
                    assert(crate::text::strs(out@) =~= ds.push(d@));
                }
            },
            None => {},
        }
        i = i + 1;
    }
    assert(es.take(files.len() as int) =~= es);
    out
}

/// The Cobertura report of `traces`, with paths shown relative to
/// `base_dir`: the totals, `base_dir` as the one source, and a package for
/// each directory holding a file of the traces, in the order they first come.
pub fn render_report(traces: &TraceMap, base_dir: &str) -> (res: CoberturaReport)
    requires
        renderable(traces@),
    ensures
        res.lines_covered == covered(flat(traces@)),
        res.lines_valid == coverable(flat(traces@)),
        crate::text::strs(res.sources@) == seq![base_dir@],
        res.packages@.map_values(|p: PackageReport| package_view(p)) == package_dirs(traces@).map_values(
            |d: Seq<char>| package_spec(traces@, d, base_dir@),
        ),
{
    let dirs = package_dirs_exec(traces);
    let ghost ds = crate::text::strs(dirs@);
    let mut packages: Vec<PackageReport> = Vec::new();
    let mut i: usize = 0;
    while i < dirs.len()
        invariant
            i <= dirs.len(),
            ds == crate::text::strs(dirs@),
            ds == package_dirs(traces@),
            renderable(traces@),
            packages@.map_values(|p: PackageReport| package_view(p)) == ds.take(i as int).map_values(
                |d: Seq<char>| package_spec(traces@, d, base_dir@),
            ),
        decreases dirs.len() - i,
    {
        let dir = dirs[i].as_str();
        assert(ds[i as int] == dir@);
        assert(package_dirs(traces@).contains(dir@));
        let p = PackageReport {
            name: strip_base_dir(dir, base_dir),
            covered: traces.covered_in_path(dir),
            coverable: traces.coverable_in_path(dir),
            classes: render_classes(traces, dir, base_dir),
        };
        let ghost before = packages@.map_values(|p: PackageReport| package_view(p));
        packages.push(p);
        assert(ds.take(i + 1) =~= ds.take(i as int).push(ds[i as int]));
        assert(packages@.map_values(|p: PackageReport| package_view(p)) =~= before.push(package_view(p)));
        i = i + 1;
    }
    assert(ds.take(dirs.len() as int) =~= ds);
    let mut sources: Vec<String> = Vec::new();
    sources.push(base_dir.to_string());
    assert(crate::text::strs(sources@) =~= seq![base_dir@]);
    CoberturaReport {
        lines_covered: traces.total_covered(),
        lines_valid: traces.total_coverable(),
        sources,
        packages,
    }
}

} // verus!
