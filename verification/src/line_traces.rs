//! The traces of a test binary, from the rows of its line tables: the rows
//! of each compilation unit are gathered by source location, the locations
//! left out of coverage are dropped, each remaining location becomes one
//! trace with its addresses, and every line the source analysis counts that
//! no row names gets a trace of its own.
//!
//! Reading the line tables out of the binary is left to the caller, who
//! hands in one plain row per line-table entry.
use vstd::prelude::*;
use std::collections::HashSet;
use crate::analysis::{LineAnalysis, Lines};
use crate::config::excluded_spec;
use crate::config::Config;
use crate::paths::{components, join_spec, join_text, path_eq, path_starts_with, same_path};
use crate::source_files::{FileAnalysis, SourceAnalysis};
use crate::text::{chars_of, copy_opt, opt_str, string_of};
use crate::traces::{
    add_trace_spec, contains_location_spec, merge_entries, opt_text, CoverageStat, Entries, StatView, Trace,
    TraceMap, TraceView,
};

verus! {

broadcast use vstd::std_specs::hash::group_hash_axioms;

/// One row of a line table: the source location, the address of its code
/// where the row has one, and the function it lies in where known.
pub struct LineEntry {
    pub path: String,
    pub line: u64,
    pub address: Option<u64>,
    pub fn_name: Option<String>,
}

/// A row, as plain values.
pub type EntryView = (Seq<char>, u64, Option<u64>, Option<Seq<char>>);

impl View for LineEntry {
    type V = EntryView;

    open spec fn view(&self) -> EntryView {
        (self.path@, self.line, self.address, opt_str(self.fn_name))
    }
}

/// The rows of a unit as plain values.
pub open spec fn entries_view(es: Seq<LineEntry>) -> Seq<EntryView> {
    es.map_values(|e: LineEntry| e@)
}

/// The address and function of a row.
pub type Member = (Option<u64>, Option<Seq<char>>);

/// A source location with the rows naming it, in order.
pub type Group = (Seq<char>, u64, Seq<Member>);

/// The place of the group of location `p`, `l` (`-1` where there is none).
pub open spec fn find_group(gs: Seq<Group>, p: Seq<char>, l: u64) -> int
    decreases gs.len(),
{
    if gs.len() == 0 {
        -1
    } else if same_path(gs.last().0, p) && gs.last().1 == l {
        gs.len() - 1
    } else {
        find_group(gs.drop_last(), p, l)
    }
}

/// The rows gathered by location, locations in order of first appearance;
/// a location keeps the path of its first row.
pub open spec fn groups(es: Seq<EntryView>) -> Seq<Group>
    decreases es.len(),
{
    if es.len() == 0 {
        Seq::<Group>::empty()
    } else {
        let gs = groups(es.drop_last());
        let e = es.last();
        let i = find_group(gs, e.0, e.1);
        if i >= 0 {
            gs.update(i, (gs[i].0, gs[i].1, gs[i].2.push((e.2, e.3))))
        } else {
            gs.push((e.0, e.1, seq![(e.2, e.3)]))
        }
    }
}

/// The rows of a location with each row that repeats the address of the
/// row before it left out.
pub open spec fn dedup_members(ms: Seq<Member>) -> Seq<Member>
    decreases ms.len(),
{
    if ms.len() == 0 {
        ms
    } else {
        let r = dedup_members(ms.drop_last());
        if ms.len() >= 2 && ms[ms.len() - 2].0 == ms.last().0 {
            r
        } else {
            r.push(ms.last())
        }
    }
}

/// The addresses the rows hold.
pub open spec fn member_addresses(ms: Seq<Member>) -> Set<u64> {
    Set::new(|a: u64| exists|i: int| 0 <= i < ms.len() && ms[i].0 == Some(a))
}

/// The function of the first row that names one.
pub open spec fn first_name(ms: Seq<Member>) -> Option<Seq<char>>
    decreases ms.len(),
{
    if ms.len() == 0 {
        None
    } else {
        let r = first_name(ms.drop_last());
        if r is Some {
            r
        } else {
            ms.last().1
        }
    }
}

/// The trace of a location: its addresses, its first function, length one.
pub open spec fn group_trace(g: Group) -> TraceView {
    let d = dedup_members(g.2);
    TraceView {
        line: g.1,
        address: member_addresses(d),
        length: 1,
        stats: StatView::Line(0),
        fn_name: first_name(d),
    }
}

/// Whether a location counts: not in the project's `tests` folder where
/// tests are ignored, not in an excluded file, and not on a line the
/// analysis leaves out.
pub open spec fn location_kept(
    g: Group,
    project: Seq<char>,
    root: Seq<char>,
    ignore_tests: bool,
    patterns: Seq<Seq<char>>,
    analysis: SourceAnalysis,
) -> bool {
    &&& !(ignore_tests && components(join_spec(project, "tests"@)).is_prefix_of(components(g.0)))
    &&& !excluded_spec(patterns, g.0, root)
    &&& !analysis.ignores_line(g.0, g.1 as usize)
}

/// The traces of the kept locations among `gs`, added in order.
pub open spec fn groups_map(
    gs: Seq<Group>,
    project: Seq<char>,
    root: Seq<char>,
    ignore_tests: bool,
    patterns: Seq<Seq<char>>,
    analysis: SourceAnalysis,
) -> Entries
    decreases gs.len(),
{
    if gs.len() == 0 {
        Seq::empty()
    } else {
        let r = groups_map(gs.drop_last(), project, root, ignore_tests, patterns, analysis);
        if location_kept(gs.last(), project, root, ignore_tests, patterns, analysis) {
            add_trace_spec(r, gs.last().0, group_trace(gs.last()))
        } else {
            r
        }
    }
}

/// The traces of one compilation unit's rows.
pub open spec fn unit_spec(
    es: Seq<EntryView>,
    project: Seq<char>,
    root: Seq<char>,
    ignore_tests: bool,
    patterns: Seq<Seq<char>>,
    analysis: SourceAnalysis,
) -> Entries {
    groups_map(groups(es), project, root, ignore_tests, patterns, analysis)
}

/// An exec group.
struct GroupRows {
    path: String,
    line: u64,
    members: Vec<(Option<u64>, Option<String>)>,
}

spec fn member_view(m: (Option<u64>, Option<String>)) -> Member {
    (m.0, opt_str(m.1))
}

spec fn members_view(ms: Seq<(Option<u64>, Option<String>)>) -> Seq<Member> {
    ms.map_values(|m: (Option<u64>, Option<String>)| member_view(m))
}

spec fn groups_view(gs: Seq<GroupRows>) -> Seq<Group> {
    gs.map_values(|g: GroupRows| (g.path@, g.line, members_view(g.members@)))
}

/// The place of the group of a location.
fn find_group_exec(gs: &Vec<GroupRows>, p: &str, l: u64) -> (res: Option<usize>)
    ensures
        match res {
            Some(i) => i < gs@.len() && find_group(groups_view(gs@), p@, l) == i,
            None => find_group(groups_view(gs@), p@, l) == -1,
        },
{
    let mut k: usize = gs.len();
    assert(groups_view(gs@).take(k as int) =~= groups_view(gs@));
    while k > 0
        invariant
            k <= gs@.len(),
            find_group(groups_view(gs@), p@, l) == find_group(groups_view(gs@).take(k as int), p@, l),
        decreases k,
    {
        let ghost t = groups_view(gs@).take(k as int);
        assert(t.drop_last() =~= groups_view(gs@).take(k - 1));
        if path_eq(gs[k - 1].path.as_str(), p) && gs[k - 1].line == l {
            return Some(k - 1);
        }
        k = k - 1;
    }
    None
}

/// Gathers the rows by location.
fn gather(es: &Vec<LineEntry>) -> (res: Vec<GroupRows>)
    ensures
        groups_view(res@) == groups(entries_view(es@)),
{
    let mut gs: Vec<GroupRows> = Vec::new();
    let mut i: usize = 0;
    while i < es.len()
        invariant
            i <= es@.len(),
            groups_view(gs@) == groups(entries_view(es@).take(i as int)),
        decreases es@.len() - i,
    {
        let ghost ev = entries_view(es@);
        assert(ev.take(i + 1).drop_last() =~= ev.take(i as int));
        assert(ev.take(i + 1).last() == es@[i as int]@);
        let e = &es[i];
        let m = (e.address, copy_opt(&e.fn_name));
        match find_group_exec(&gs, e.path.as_str(), e.line) {
            Some(k) => {
                let ghost before = groups_view(gs@);
                gs[k].members.push(m);
                assert(groups_view(gs@) =~= before.update(
                    k as int,
                    (before[k as int].0, before[k as int].1, before[k as int].2.push(member_view(m))),
                )) by {
                    assert(members_view(gs@[k as int].members@) =~= before[k as int].2.push(member_view(m)));
                }
            },
            None => {
                let ghost before = groups_view(gs@);
                let mut ms: Vec<(Option<u64>, Option<String>)> = Vec::new();
                ms.push(m);
                gs.push(GroupRows { path: e.path.clone(), line: e.line, members: ms });
                assert(members_view(ms@) =~= seq![member_view(m)]);
                assert(groups_view(gs@) =~= before.push((e.path@, e.line, seq![member_view(m)])));
            },
        }
        i = i + 1;
    }
    assert(entries_view(es@).take(es@.len() as int) =~= entries_view(es@));
    gs
}

/// The trace of a group of rows.
fn trace_of(ms: &Vec<(Option<u64>, Option<String>)>, line: u64) -> (res: Trace)
    ensures
        res@ == group_trace((Seq::<char>::empty(), line, members_view(ms@))),
{
    let ghost mv = members_view(ms@);
    let mut address: HashSet<u64> = HashSet::new();
    let mut name: Option<String> = None;
    let mut i: usize = 0;
    while i < ms.len()
        invariant
            i <= ms@.len(),
            mv == members_view(ms@),
            address@ == member_addresses(dedup_members(mv.take(i as int))),
            opt_str(name) == first_name(dedup_members(mv.take(i as int))),
        decreases ms@.len() - i,
    {
        let ghost d0 = dedup_members(mv.take(i as int));
        let ghost t = mv.take(i + 1);
        assert(t.drop_last() =~= mv.take(i as int));
        assert(t.last() == member_view(ms@[i as int]));
        let repeat = i > 0 && ms[i - 1].0 == ms[i].0;
        if !repeat {
            assert(dedup_members(t) == d0.push(mv[i as int]));
            if let Some(a) = ms[i].0 {
                address.insert(a);
            }
            if name.is_none() && ms[i].1.is_some() {
                name = copy_opt(&ms[i].1);
            }
            proof {
                let d1 = d0.push(mv[i as int]);
                assert(d1.drop_last() =~= d0);
                assert(address@ =~= member_addresses(d1)) by {
                    assert forall|a: u64| address@.contains(a) <==> member_addresses(d1).contains(a) by {
                        if member_addresses(d0).contains(a) {
                            let j = choose|j: int| 0 <= j < d0.len() && d0[j].0 == Some(a);
                            assert(d1[j] == d0[j]);
                        }
                        if member_addresses(d1).contains(a) {
                            let j = choose|j: int| 0 <= j < d1.len() && d1[j].0 == Some(a);
                            if j < d0.len() {
                                assert(d1[j] == d0[j]);
                            }
                        }
                        if mv[i as int].0 == Some(a) {
                            assert(d1[d0.len() as int] == mv[i as int]);
                        }
                    }
                }
            }
        } else {
            assert(t[t.len() - 2] == mv[i - 1]);
            assert(dedup_members(t) == d0);
        }
        i = i + 1;
    }
    assert(mv.take(ms@.len() as int) =~= mv);
    let r = Trace { line, address, length: 1, stats: CoverageStat::Line(0), fn_name: name };
    assert(opt_text(r.fn_name) == opt_str(r.fn_name));
    r
}

/// The traces of one compilation unit's rows; see `unit_spec`.
pub fn unit_traces(
    es: &Vec<LineEntry>,
    project: &str,
    root: &str,
    config: &Config,
    analysis: &SourceAnalysis,
) -> (res: TraceMap)
    requires
        analysis.wf(),
    ensures
        res.wf(),
        res@ == unit_spec(entries_view(es@), project@, root@, config.ignore_tests, config.excluded_view(), *analysis),
{
    let gs = gather(es);
    let tests = string_of(&join_text(&chars_of(project), &chars_of("tests")));
    proof {
        reveal_strlit("tests");
    }
    let ghost gv = groups_view(gs@);
    let mut map = TraceMap::new();
    let mut k: usize = 0;
    while k < gs.len()
        invariant
            k <= gs@.len(),
            gv == groups_view(gs@),
            gv == groups(entries_view(es@)),
            tests@ == join_spec(project@, "tests"@),
            analysis.wf(),
            map.wf(),
            map@ == groups_map(gv.take(k as int), project@, root@, config.ignore_tests, config.excluded_view(), *analysis),
        decreases gs@.len() - k,
    {
        let ghost t = gv.take(k + 1);
        assert(t.drop_last() =~= gv.take(k as int));
        assert(t.last() == gv[k as int]);
        let g = &gs[k];
        let in_tests = config.ignore_tests && path_starts_with(g.path.as_str(), tests.as_str());
        let keep = !in_tests && !config.exclude_path(g.path.as_str(), root) && !analysis.should_ignore(
            g.path.as_str(),
            g.line as usize,
        );
        if keep {
            let tr = trace_of(&g.members, g.line);
            assert(tr@ == group_trace(gv[k as int]));
            map.add_trace(g.path.as_str(), tr);
        }
        k = k + 1;
    }
    assert(gv.take(gs@.len() as int) =~= gv);
    map
}


/// The rows of each unit as plain values.
pub open spec fn units_view(us: Seq<Vec<LineEntry>>) -> Seq<Seq<EntryView>> {
    us.map_values(|u: Vec<LineEntry>| entries_view(u@))
}

/// The traces of all units, each unit's merged in turn into those before.
pub open spec fn units_map(
    us: Seq<Seq<EntryView>>,
    project: Seq<char>,
    root: Seq<char>,
    ignore_tests: bool,
    patterns: Seq<Seq<char>>,
    analysis: SourceAnalysis,
) -> Entries
    decreases us.len(),
{
    if us.len() == 0 {
        Seq::empty()
    } else {
        merge_entries(
            units_map(us.drop_last(), project, root, ignore_tests, patterns, analysis),
            unit_spec(us.last(), project, root, ignore_tests, patterns, analysis),
        )
    }
}

/// Whether a file's analysis leaves line `l` out of coverage.
pub open spec fn analysis_ignores(la: LineAnalysis, l: usize) -> bool {
    la.ignore@.contains(Lines::Line(l)) || la.ignore@.contains(Lines::All) || (la.max_line > 0 && la.max_line < l)
}

/// The trace of a line the analysis counts and no row names.
pub open spec fn stub_trace(l: u64) -> TraceView {
    TraceView { line: l, address: Set::empty(), length: 0, stats: StatView::Line(0), fn_name: None }
}

/// The map with a trace for each of the lines `ls` of the file at `path`
/// that it has no trace on and the file's analysis does not leave out.
pub open spec fn add_lines(es: Entries, path: Seq<char>, ls: Seq<usize>, la: LineAnalysis) -> Entries
    decreases ls.len(),
{
    if ls.len() == 0 {
        es
    } else {
        let r = add_lines(es, path, ls.drop_last(), la);
        let l = ls.last();
        if !contains_location_spec(r, path, l as u64) && !analysis_ignores(la, l) {
            add_trace_spec(r, path, stub_trace(l as u64))
        } else {
            r
        }
    }
}

/// The map with the counted lines of each analysed file that is not
/// excluded added, taking the lines of file `i` in the order `ls[i]`.
pub open spec fn add_files(
    es: Entries,
    files: Seq<FileAnalysis>,
    ls: Seq<Seq<usize>>,
    patterns: Seq<Seq<char>>,
    root: Seq<char>,
) -> Entries
    decreases files.len(),
{
    if files.len() == 0 || ls.len() == 0 {
        es
    } else {
        let r = add_files(es, files.drop_last(), ls.drop_last(), patterns, root);
        if excluded_spec(patterns, files.last().path@, root) {
            r
        } else {
            add_lines(r, files.last().path@, ls.last(), files.last().analysis)
        }
    }
}

/// The traces of a test binary from the rows of its compilation units (see
/// `unit_spec`), merged unit after unit, with a trace added for each line an
/// analysed file that is not excluded counts and no trace holds (see
/// `add_files`). A file's counted lines are a set, taken in some order; the
/// result is stated for the order they were taken in.
pub fn line_traces(
    units: &Vec<Vec<LineEntry>>,
    project: &str,
    root: &str,
    config: &Config,
    analysis: &SourceAnalysis,
) -> (res: TraceMap)
    requires
        analysis.wf(),
    ensures
        res.wf(),
        exists|ls: Seq<Seq<usize>>|
            {
                &&& ls.len() == analysis.lines@.len()
                &&& forall|i: int|
                    0 <= i < ls.len() ==> (#[trigger] ls[i]).no_duplicates() && ls[i].to_set()
                        == analysis.lines@[i].analysis.cover@
                &&& res@ == add_files(
                    units_map(
                        units_view(units@),
                        project@,
                        root@,
                        config.ignore_tests,
                        config.excluded_view(),
                        *analysis,
                    ),
                    analysis.lines@,
                    ls,
                    config.excluded_view(),
                    root@,
                )
            },
{
    let ghost uv = units_view(units@);
    let mut result = TraceMap::new();
    let mut u: usize = 0;
    while u < units.len()
        invariant
            u <= units@.len(),
            uv == units_view(units@),
            analysis.wf(),
            result.wf(),
            result@ == units_map(uv.take(u as int), project@, root@, config.ignore_tests, config.excluded_view(), *analysis),
        decreases units@.len() - u,
    {
        assert(uv.take(u + 1).drop_last() =~= uv.take(u as int));
        assert(uv.take(u + 1).last() == entries_view(units@[u as int]@));
        let m = unit_traces(&units[u], project, root, config, analysis);
        result.merge(&m);
        u = u + 1;
    }
    assert(uv.take(units@.len() as int) =~= uv);
    let ghost base = result@;
    let ghost mut ls: Seq<Seq<usize>> = Seq::empty();
    let mut i: usize = 0;
    while i < analysis.lines.len()
        invariant
            i <= analysis.lines@.len(),
            result.wf(),
            ls.len() == i,
            forall|k: int|
                0 <= k < ls.len() ==> (#[trigger] ls[k]).no_duplicates() && ls[k].to_set()
                    == analysis.lines@[k].analysis.cover@,
            result@ == add_files(base, analysis.lines@.take(i as int), ls, config.excluded_view(), root@),
        decreases analysis.lines@.len() - i,
    {
        let f = &analysis.lines[i];
        let cl = f.analysis.cover_lines();
        let ghost r0 = result@;
        if !config.exclude_path(f.path.as_str(), root) {
            let mut j: usize = 0;
            while j < cl.len()
                invariant
                    j <= cl@.len(),
                    result.wf(),
                    result@ == add_lines(r0, f.path@, cl@.take(j as int), f.analysis),
                decreases cl@.len() - j,
            {
                assert(cl@.take(j + 1).drop_last() =~= cl@.take(j as int));
                let l = cl[j];
                if !result.contains_location(f.path.as_str(), l as u64) && !f.analysis.should_ignore(l) {
                    let t = Trace::new_stub(l as u64);
                    assert(t@ == stub_trace(l as u64));
                    result.add_trace(f.path.as_str(), t);
                }
                j = j + 1;
            }
            assert(cl@.take(cl@.len() as int) =~= cl@);
        }
        proof {
            let files = analysis.lines@.take(i + 1);
            let nls = ls.push(cl@);
            assert(files.drop_last() =~= analysis.lines@.take(i as int));
            assert(nls.drop_last() =~= ls);
            assert(files.last() == *f);
            ls = nls;
        }
        i = i + 1;
    }
    assert(analysis.lines@.take(analysis.lines@.len() as int) =~= analysis.lines@);
    result
}

} // verus!
