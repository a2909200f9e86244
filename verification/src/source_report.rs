//! What the JSON, HTML and coveralls reports hold of each source file: its
//! path, text, traces and counts, or its line hits.
use vstd::prelude::*;
use std::collections::HashMap;
use crate::config::types::{Ci, CiView};
use crate::errors::{RunError, RunErrorView};
use crate::paths::{comp_text, components, comps_view, component_text, path_components, Comp};
use crate::report::{shown_path, strip_base_dir};
use crate::text::{string_of, strs};
use crate::traces::{
    child_flat, copy_traces, coverable, covered, fview, tview, rview, StatView, Trace, TraceMap, TraceView,
    CoverageStat,
};

verus! {

broadcast use vstd::std_specs::hash::group_hash_axioms;

/// How reading a source file went.
pub enum SourceText {
    /// Its text
    Read(String),
    /// It does not exist; the system's message
    Missing(String),
    /// It could not be read otherwise; the system's message
    Unreadable(String),
}

/// A source file as the JSON and HTML reports hold it.
pub struct SourceFileReport {
    /// The components of its path
    pub path: Vec<String>,
    /// Its text
    pub content: String,
    /// Its traces
    pub traces: Vec<Trace>,
    /// Its covered lines
    pub covered: usize,
    /// Its coverable lines
    pub coverable: usize,
}

/// The texts of the components of a path, as the path iterator gives them.
pub open spec fn comp_texts(p: Seq<char>) -> Seq<Seq<char>> {
    components(p).map_values(|c: Comp| comp_text(c))
}

/// The view of a file's report.
pub open spec fn file_report_view(r: SourceFileReport) -> (Seq<Seq<char>>, Seq<char>, Seq<TraceView>, nat, nat) {
    (strs(r.path@), r.content@, tview(r.traces@), r.covered as nat, r.coverable as nat)
}

/// The error of a source file that could not be read, for the HTML report
/// or the JSON one.
pub open spec fn unreadable_error(html: bool, msg: Seq<char>) -> RunErrorView {
    let text = "Unable to read source file to string: "@ + msg;
    if html {
        RunErrorView::Html(text)
    } else {
        RunErrorView::Json(text)
    }
}

/// The reports of the files of `es`, in order, where `texts` tells how
/// reading each went: the first file that could not be read fails them,
/// except that a missing file is passed over in the results of an earlier
/// run (`previous`), as it may have been deleted since.
pub open spec fn source_reports_spec(
    es: Seq<(Seq<char>, Seq<TraceView>)>,
    all: Seq<(Seq<char>, Seq<TraceView>)>,
    texts: Seq<SourceText>,
    previous: bool,
    html: bool,
) -> Result<Seq<(Seq<Seq<char>>, Seq<char>, Seq<TraceView>, nat, nat)>, RunErrorView>
    decreases es.len(),
{
    if es.len() == 0 {
        Ok(Seq::empty())
    } else {
        match source_reports_spec(es.drop_last(), all, texts, previous, html) {
            Err(e) => Err(e),
            Ok(rs) => {
                let i = es.len() - 1;
                let (path, ts) = es.last();
                match texts[i] {
                    SourceText::Read(c) => Ok(
                        rs.push(
                            (comp_texts(path), c@, ts, covered(child_flat(all, path)), coverable(child_flat(all, path))),
                        ),
                    ),
                    SourceText::Missing(m) => if previous {
                        Ok(rs)
                    } else {
                        Err(unreadable_error(html, m@))
                    },
                    SourceText::Unreadable(m) => Err(unreadable_error(html, m@)),
                }
            },
        }
    }
}

/// The view of a result of file reports.
pub open spec fn reports_view(r: Result<Vec<SourceFileReport>, RunError>) -> Result<
    Seq<(Seq<Seq<char>>, Seq<char>, Seq<TraceView>, nat, nat)>,
    RunErrorView,
> {
    match r {
        Ok(v) => Ok(v@.map_values(|f: SourceFileReport| file_report_view(f))),
        Err(e) => Err(e@),
    }
}

fn component_texts(p: &str) -> (res: Vec<String>)
    ensures
        strs(res@) == comp_texts(p@),
{
    let cs = path_components(p);
    let ghost cv = comps_view(cs@);
    let mut out: Vec<String> = Vec::new();
    let mut i: usize = 0;
    while i < cs.len()
        invariant
            i <= cs.len(),
            cv == comps_view(cs@),
            cv == components(p@),
            strs(out@) == cv.take(i as int).map_values(|c: Comp| comp_text(c)),
        decreases cs.len() - i,
    {
        let t = string_of(&component_text(&cs[i]));
        let ghost before = strs(out@);
        out.push(t);
        assert(strs(out@) =~= before.push(comp_text(cv[i as int])));
        assert(cv.take(i + 1) =~= cv.take(i as int).push(cv[i as int]));
        assert(strs(out@) =~= cv.take(i + 1).map_values(|c: Comp| comp_text(c)));
        i = i + 1;
    }
    assert(cv.take(cs.len() as int) =~= cv);
    out
}

fn unreadable(html: bool, msg: &String) -> (res: RunError)
    ensures
        res@ == unreadable_error(html, msg@),
{
    let mut text = String::from_str("Unable to read source file to string: ");
    text.append(msg.as_str());
    proof {
        reveal_strlit("Unable to read source file to string: ");
    }
    if html {
        RunError::Html(text)
    } else {
        RunError::Json(text)
    }
}

/// The reports of the files of `coverage`, in order, where `texts` tells how
/// reading each went (one for each file); `previous` tells whether these
/// are the results of an earlier run, `html` which report they are for.
pub fn source_reports(coverage: &TraceMap, texts: &Vec<SourceText>, previous: bool, html: bool) -> (res: Result<
    Vec<SourceFileReport>,
    RunError,
>)
    requires
        texts@.len() == coverage@.len(),
        forall|i: int|
            0 <= i < coverage@.len() ==> #[trigger] covered(child_flat(coverage@, coverage@[i].0)) <= usize::MAX
                && coverable(child_flat(coverage@, coverage@[i].0)) <= usize::MAX,
    ensures
        reports_view(res) == source_reports_spec(coverage@, coverage@, texts@, previous, html),
{
    let files = coverage.iter();
    let ghost es = coverage@;
    let mut out: Vec<SourceFileReport> = Vec::new();
    let mut i: usize = 0;
    assert(es.take(0) =~= Seq::<(Seq<char>, Seq<TraceView>)>::empty());
    assert(out@.map_values(|f: SourceFileReport| file_report_view(f)) =~= Seq::<
        (Seq<Seq<char>>, Seq<char>, Seq<TraceView>, nat, nat),
    >::empty());
    while i < files.len()
        invariant
            i <= files.len(),
            es == coverage@,
            fview(files@) == es,
            texts@.len() == es.len(),
            forall|k: int|
                0 <= k < es.len() ==> #[trigger] covered(child_flat(es, es[k].0)) <= usize::MAX
                    && coverable(child_flat(es, es[k].0)) <= usize::MAX,
            source_reports_spec(es.take(i as int), es, texts@, previous, html) == Ok::<
                Seq<(Seq<Seq<char>>, Seq<char>, Seq<TraceView>, nat, nat)>,
                RunErrorView,
            >(out@.map_values(|f: SourceFileReport| file_report_view(f))),
        decreases files.len() - i,
    {
        assert(es.take(i + 1).drop_last() =~= es.take(i as int));
        assert(es.take(i + 1).last() == es[i as int]);
        assert(es[i as int] == files@[i as int]@);
        let f = &files[i];
        match &texts[i] {
            SourceText::Read(c) => {
                assert(covered(child_flat(es, es[i as int].0)) <= usize::MAX);
                let report = SourceFileReport {
                    path: component_texts(f.path.as_str()),
                    content: c.clone(),
                    traces: copy_traces(&f.traces),
                    covered: coverage.covered_in_path(f.path.as_str()),
                    coverable: coverage.coverable_in_path(f.path.as_str()),
                };
                let ghost before = out@.map_values(|x: SourceFileReport| file_report_view(x));
                out.push(report);
                assert(out@.map_values(|x: SourceFileReport| file_report_view(x)) =~= before.push(
                    file_report_view(report),
                ));
            },
            SourceText::Missing(m) => {
                if !previous {
                    let e = unreadable(html, m);
                    assert(source_reports_spec(es.take(i + 1), es, texts@, previous, html) == Err::<
                        Seq<(Seq<Seq<char>>, Seq<char>, Seq<TraceView>, nat, nat)>,
                        RunErrorView,
                    >(e@));
                    proof {
                        lemma_error_stays(es, texts@, previous, html, (i + 1) as int, e@);
                    }
                    return Err(e);
                }
            },
            SourceText::Unreadable(m) => {
                let e = unreadable(html, m);
                proof {
                    lemma_error_stays(es, texts@, previous, html, (i + 1) as int, e@);
                }
                return Err(e);
            },
        }
        i = i + 1;
    }
    assert(es.take(files.len() as int) =~= es);
    Ok(out)
}

/// Once reading the files has failed, it stays failed with the same error.
proof fn lemma_error_stays(
    es: Seq<(Seq<char>, Seq<TraceView>)>,
    texts: Seq<SourceText>,
    previous: bool,
    html: bool,
    n: int,
    e: RunErrorView,
)
    requires
        0 <= n <= es.len(),
        source_reports_spec(es.take(n), es, texts, previous, html) == Err::<
            Seq<(Seq<Seq<char>>, Seq<char>, Seq<TraceView>, nat, nat)>,
            RunErrorView,
        >(e),
    ensures
        source_reports_spec(es, es, texts, previous, html) == Err::<
            Seq<(Seq<Seq<char>>, Seq<char>, Seq<TraceView>, nat, nat)>,
            RunErrorView,
        >(e),
    decreases es.len() - n,
{
    if n < es.len() {
        assert(es.take(n + 1).drop_last() =~= es.take(n));
        lemma_error_stays(es, texts, previous, html, n + 1, e);
    } else {
        assert(es.take(n) =~= es);
    }
}

/// The hits of each line with line coverage, a later trace of a line
/// overriding an earlier one.
pub open spec fn line_hits(ts: Seq<TraceView>) -> Map<usize, usize>
    decreases ts.len(),
{
    if ts.len() == 0 {
        Map::empty()
    } else {
        let m = line_hits(ts.drop_last());
        match ts.last().stats {
            StatView::Line(h) => m.insert(ts.last().line as usize, h as usize),
            _ => m,
        }
    }
}

/// Whether some trace has line coverage.
pub open spec fn has_line_stat(ts: Seq<TraceView>) -> bool {
    exists|i: int| 0 <= i < ts.len() && (#[trigger] ts[i]).stats is Line
}

/// A source file as the coveralls report holds it.
pub struct CoverallsSource {
    /// Its path as shown, relative to the project
    pub name: String,
    /// Its path
    pub path: String,
    /// The hits of each of its lines
    pub lines: HashMap<usize, usize>,
}

/// The sources of the coveralls report: for each file of `es` in order with
/// any line coverage among its traces (and those of files below it), its
/// shown path, its path and its line hits.
pub open spec fn coveralls_spec(
    es: Seq<(Seq<char>, Seq<TraceView>)>,
    all: Seq<(Seq<char>, Seq<TraceView>)>,
    base: Seq<char>,
) -> Seq<(Seq<char>, Seq<char>, Map<usize, usize>)>
    decreases es.len(),
{
    if es.len() == 0 {
        Seq::empty()
    } else {
        let rest = coveralls_spec(es.drop_last(), all, base);
        let p = es.last().0;
        let ts = child_flat(all, p);
        if has_line_stat(ts) {
            rest.push((shown_path(p, base), p, line_hits(ts)))
        } else {
            rest
        }
    }
}

/// The view of a coveralls source.
pub open spec fn coveralls_view(c: CoverallsSource) -> (Seq<char>, Seq<char>, Map<usize, usize>) {
    (c.name@, c.path@, c.lines@)
}

fn hits_of(ts: &Vec<&Trace>) -> (res: (HashMap<usize, usize>, bool))
    ensures
        res.0@ == line_hits(rview(ts@)),
        res.1 == has_line_stat(rview(ts@)),
{
    let ghost tv = rview(ts@);
    let mut m: HashMap<usize, usize> = HashMap::new();
    let mut any = false;
    let mut i: usize = 0;
    assert(tv.take(0) =~= Seq::<TraceView>::empty());
    assert(m@ =~= Map::<usize, usize>::empty());
    while i < ts.len()
        invariant
            i <= ts.len(),
            tv == rview(ts@),
            m@ == line_hits(tv.take(i as int)),
            any == exists|k: int| 0 <= k < i && (#[trigger] tv[k]).stats is Line,
        decreases ts.len() - i,
    {
        assert(tv.take(i + 1).drop_last() =~= tv.take(i as int));
        assert(tv.take(i + 1).last() == tv[i as int]);
        assert(tv[i as int] == ts@[i as int]@);
        match &ts[i].stats {
            CoverageStat::Line(h) => {
                m.insert(ts[i].line as usize, *h as usize);
                any = true;
            },
            _ => {},
        }
        i = i + 1;
    }
    assert(tv.take(ts.len() as int) =~= tv);
    (m, any)
}

/// The sources of the coveralls report of `coverage`, with paths shown
/// relative to `base_dir`.
pub fn coveralls_sources(coverage: &TraceMap, base_dir: &str) -> (res: Vec<CoverallsSource>)
    ensures
        res@.map_values(|c: CoverallsSource| coveralls_view(c)) == coveralls_spec(coverage@, coverage@, base_dir@),
{
    let files = coverage.iter();
    let ghost es = coverage@;
    let mut out: Vec<CoverallsSource> = Vec::new();
    let mut i: usize = 0;
    assert(es.take(0) =~= Seq::<(Seq<char>, Seq<TraceView>)>::empty());
    assert(out@.map_values(|c: CoverallsSource| coveralls_view(c)) =~= Seq::<
        (Seq<char>, Seq<char>, Map<usize, usize>),
    >::empty());
    while i < files.len()
        invariant
            i <= files.len(),
            es == coverage@,
            fview(files@) == es,
            out@.map_values(|c: CoverallsSource| coveralls_view(c)) == coveralls_spec(es.take(i as int), es, base_dir@),
        decreases files.len() - i,
    {
        assert(es.take(i + 1).drop_last() =~= es.take(i as int));
        assert(es.take(i + 1).last() == es[i as int]);
        assert(es[i as int] == files@[i as int]@);
        let path = files[i].path.as_str();
        let ts = coverage.get_child_traces(path);
        let (lines, any) = hits_of(&ts);
        if any {
            let src = CoverallsSource { name: strip_base_dir(path, base_dir), path: path.to_string(), lines };
            let ghost before = out@.map_values(|c: CoverallsSource| coveralls_view(c));
            out.push(src);
            assert(out@.map_values(|c: CoverallsSource| coveralls_view(c)) =~= before.push(coveralls_view(src)));
        }
        i = i + 1;
    }
    assert(es.take(files.len() as int) =~= es);
    out
}

/// How a report names itself to coveralls, where `ci` is the CI service if
/// one is known and `key` the repository's token: whether it names the
/// service, and the token it gives, none for Travis, which needs none.
pub fn coveralls_token(ci: &Option<Ci>, key: &str) -> (res: (bool, String))
    ensures
        res.0 == (ci is Some),
        res.1@ == (if (ci matches Some(c) && c@ == CiView::Travis) {
            Seq::<char>::empty()
        } else {
            key@
        }),
{
    match ci {
        Some(Ci::Travis) => (true, String::new()),
        Some(_) => (true, key.to_string()),
        None => (false, key.to_string()),
    }
}

} // verus!
