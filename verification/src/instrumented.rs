//! Turning the hit counts of an llvm coverage report into traces.
use vstd::prelude::*;
use vstd::std_specs::iter::IteratorSpec;
use crate::analysis::{LineAnalysis, Lines};
use crate::paths::same_path;
use crate::traces::{
    CoverageStat, Entries, StatView, Trace, TraceMap, TraceView, add_trace_spec, contains_location_spec,
    dedup_entries, set_hits_spec,
};
use crate::errors::{RunError, RunErrorView};
use crate::statemachine::TestState;

verus! {

broadcast use vstd::std_specs::hash::group_hash_axioms;

/// The hits of a region of a source file, which spans the lines from
/// `line_start` to `line_end`.
pub struct RegionHits {
    pub line_start: usize,
    pub line_end: usize,
    pub hits: u64,
}

/// Whether the analysis leaves the line out of coverage.
pub open spec fn ignores(a: LineAnalysis, line: usize) -> bool {
    a.ignore@.contains(Lines::Line(line)) || a.ignore@.contains(Lines::All)
        || (a.max_line > 0 && a.max_line < line)
}

/// A trace with no address on `line` with `hits` hits.
pub open spec fn stub_view(line: u64, hits: u64) -> TraceView {
    TraceView {
        line,
        address: Set::<u64>::empty(),
        length: 0,
        stats: StatView::Line(hits),
        fn_name: None,
    }
}

/// The traces added for the lines `from..=to` of a region, each unless the
/// analysis leaves it out.
pub open spec fn add_region_lines(es: Seq<(Seq<char>, Seq<TraceView>)>, file: Seq<char>, from: int, to: int, hits: u64, a: Option<LineAnalysis>) -> Seq<(Seq<char>, Seq<TraceView>)>
    decreases to - from + 1,
{
    if to < from {
        es
    } else {
        let prev = add_region_lines(es, file, from, to - 1, hits, a);
        let kept = match a {
            Some(an) => !ignores(an, to as usize),
            None => true,
        };
        if kept {
            add_trace_spec(prev, file, stub_view(to as u64, hits))
        } else {
            prev
        }
    }
}

/// The traces added for the regions, one after the other.
pub open spec fn add_regions(es: Seq<(Seq<char>, Seq<TraceView>)>, file: Seq<char>, rs: Seq<RegionHits>, a: Option<LineAnalysis>) -> Seq<(Seq<char>, Seq<TraceView>)>
    decreases rs.len(),
{
    if rs.len() == 0 {
        es
    } else {
        let prev = add_regions(es, file, rs.drop_last(), a);
        add_region_lines(prev, file, rs.last().line_start as int, rs.last().line_end as int, rs.last().hits, a)
    }
}

/// The traces with no hits added for the covered lines, in the given order,
/// each unless the map holds a trace on that line already.
pub open spec fn add_covered(es: Seq<(Seq<char>, Seq<TraceView>)>, file: Seq<char>, lines: Seq<usize>) -> Seq<(Seq<char>, Seq<TraceView>)>
    decreases lines.len(),
{
    if lines.len() == 0 {
        es
    } else {
        let prev = add_covered(es, file, lines.drop_last());
        if contains_location_spec(prev, file, lines.last() as u64) {
            prev
        } else {
            add_trace_spec(prev, file, stub_view(lines.last() as u64, 0))
        }
    }
}

fn stub(line: u64, hits: u64) -> (res: Trace)
    ensures
        res@ == stub_view(line, hits),
{
    let mut t = Trace::new_stub(line);
    t.stats = CoverageStat::Line(hits);
    assert(t@.address =~= Set::<u64>::empty());
    t
}

/// Adds traces to the map for one source file from its part of a coverage
/// report: a trace for each line of each region with the region's hits,
/// unless the analysis leaves the line out; then a trace with no hits for
/// each line the analysis covers that has none yet, in the order the set of
/// covered lines is walked.
pub fn add_report_traces(traces: &mut TraceMap, file: &str, regions: &Vec<RegionHits>, analysis: Option<&LineAnalysis>)
    requires
        old(traces).wf(),
        forall|i: int| 0 <= i < regions@.len() ==> #[trigger] regions@[i].line_end < usize::MAX,
    ensures
        final(traces).wf(),
        match analysis {
            Some(a) => exists|order: Seq<usize>| order.to_set() == a.cover@
                && final(traces)@ == add_covered(add_regions(old(traces)@, file@, regions@, Some(*a)), file@, order),
            None => final(traces)@ == add_regions(old(traces)@, file@, regions@, None),
        },
{
    let ghost a0 = match analysis {
        Some(a) => Some(*a),
        None => None,
    };
    let ghost es0 = traces@;
    let mut r: usize = 0;
    assert(regions@.take(0) =~= Seq::<RegionHits>::empty());
    while r < regions.len()
        invariant
            r <= regions.len(),
            traces.wf(),
            forall|i: int| 0 <= i < regions@.len() ==> #[trigger] regions@[i].line_end < usize::MAX,
            a0 == match analysis {
                Some(a) => Some(*a),
                None => None::<LineAnalysis>,
            },
            traces@ == add_regions(es0, file@, regions@.take(r as int), a0),
        decreases regions.len() - r,
    {
        assert(regions@.take(r + 1).drop_last() =~= regions@.take(r as int));
        assert(regions@.take(r + 1).last() == regions@[r as int]);
        let reg = &regions[r];
        let ghost start_es = traces@;
        let mut line: usize = reg.line_start;
        let end = reg.line_end;
        assert(end < usize::MAX);
        while line <= end && reg.line_start <= end
            invariant
                reg.line_start <= line,
                line <= end + 1 || line == reg.line_start,
                end < usize::MAX,
                end == reg.line_end,
                traces.wf(),
                a0 == match analysis {
                    Some(a) => Some(*a),
                    None => None::<LineAnalysis>,
                },
                traces@ == add_region_lines(start_es, file@, reg.line_start as int, line - 1, reg.hits, a0),
            decreases end + 1 - line,
        {
            let kept = match analysis {
                Some(a) => !a.should_ignore(line),
                None => true,
            };
            if kept {
                traces.add_trace(file, stub(line as u64, reg.hits));
            }
            line = line + 1;
        }
        r = r + 1;
    }
    assert(regions@.take(regions.len() as int) =~= regions@);
    match analysis {
        Some(a) => {
            let ghost mid = traces@;
            if a.cover.is_empty() {
                assert(a.cover@ =~= Seq::<usize>::empty().to_set());
                assert(traces@ == add_covered(mid, file@, Seq::<usize>::empty()));
                return;
            }
            let ghost all = vstd::std_specs::hash::spec_hash_keys_iter(&a.cover).remaining().unref();
            for x in it: a.cover.iter()
                invariant
                    traces.wf(),
                    !a.cover@.is_empty(),
                    it.seq() == vstd::std_specs::hash::spec_hash_keys_iter(&a.cover).remaining(),
                    it.seq().unref().to_set() == a.cover@,
                    all == it.seq().unref(),
                    traces@ == add_covered(mid, file@, it.seq().take(it.index() as int).unref()),
                    it.index() == it.seq().len() ==> traces@ == add_covered(mid, file@, all),
            {
                let ghost before = it.seq().take(it.index() as int).unref();
                assert(it.seq().take(it.index() + 1).unref() =~= before.push(*x));
                assert(it.seq().take(it.index() + 1).unref().drop_last() =~= before);
                let l = *x as u64;
                if !traces.contains_location(file, l) {
                    traces.add_trace(file, stub(l, 0));
                }
                assert(it.index() + 1 == it.seq().len() ==> it.seq().take(it.index() + 1).unref() =~= all);
            }
            assert(all.to_set() == a.cover@);
        },
        None => {},
    }
}


/// A report's hits by file, as plain values.
pub open spec fn report_view(files: Seq<(String, Vec<(u64, u64)>)>) -> Seq<(Seq<char>, Seq<(u64, u64)>)> {
    files.map_values(|f: (String, Vec<(u64, u64)>)| (f.0@, f.1@))
}

/// The map with the hits of each file of the report given to its traces,
/// file after file (see `set_hits_spec`).
pub open spec fn report_hits_spec(es: Entries, files: Seq<(Seq<char>, Seq<(u64, u64)>)>) -> Entries
    decreases files.len(),
{
    if files.len() == 0 {
        es
    } else {
        set_hits_spec(report_hits_spec(es, files.drop_last()), files.last().0, files.last().1)
    }
}

/// Gives the traces a map already holds the hits of a coverage report: the
/// map loses its repeated traces, then each file of the report (a line and
/// its hits per entry) gives its traces their hits.
pub fn apply_line_report(traces: &mut TraceMap, files: &Vec<(String, Vec<(u64, u64)>)>)
    requires
        old(traces).wf(),
    ensures
        final(traces).wf(),
        final(traces)@ == report_hits_spec(dedup_entries(old(traces)@), report_view(files@)),
{
    traces.dedup();
    let ghost base = traces@;
    let ghost fv = report_view(files@);
    let mut i: usize = 0;
    while i < files.len()
        invariant
            i <= files@.len(),
            fv == report_view(files@),
            traces.wf(),
            traces@ == report_hits_spec(base, fv.take(i as int)),
        decreases files@.len() - i,
    {
        assert(fv.take(i + 1).drop_last() =~= fv.take(i as int));
        assert(fv.take(i + 1).last() == (files@[i as int].0@, files@[i as int].1@));
        traces.set_line_hits(files[i].0.as_str(), &files[i].1);
        i = i + 1;
    }
    assert(fv.take(files@.len() as int) =~= fv);
}

/// How a test run under llvm coverage ends, from how its process exited:
/// a failure where it did not succeed and no panic was expected; otherwise
/// the end with its exit code, or 1 where it has none.
pub fn run_exit_state(success: bool, should_panic: bool, code: Option<i32>) -> (res: Result<TestState, RunError>)
    ensures
        !success && !should_panic ==> (res matches Err(e) && e@ == RunErrorView::TestFailed),
        success || should_panic ==> (res matches Ok(TestState::End(c)) && c == match code {
            Some(x) => x,
            None => 1,
        }),
{
    if !success && !should_panic {
        return Err(RunError::TestFailed);
    }
    let c = match code {
        Some(x) => x,
        None => 1,
    };
    Ok(TestState::End(c))
}

} // verus!
