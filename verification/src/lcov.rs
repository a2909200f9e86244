//! The lcov tracefile of a coverage run.
use vstd::prelude::*;
use crate::errors::{RunError, RunErrorView};
use crate::paths::same_path;
use crate::text::{decimal, strs, u64_text, usize_text};
use crate::traces::{FileTraces, StatView, TraceMap, TraceView, fview};

verus! {

/// A function of a source file: its name and the lines it spans, from
/// `start` up to, not including, `end`.
pub struct FunctionSpan {
    pub name: String,
    pub start: u64,
    pub end: u64,
}

/// The functions found in one source file.
pub struct FileFunctions {
    pub path: String,
    pub functions: Vec<FunctionSpan>,
}

/// The value of a function span.
pub open spec fn fspan(f: FunctionSpan) -> ((u64, u64), Seq<char>) {
    ((f.start, f.end), f.name@)
}

/// The order of spans: by start, then by end.
pub open spec fn key_lt(a: (u64, u64), b: (u64, u64)) -> bool {
    a.0 < b.0 || (a.0 == b.0 && a.1 < b.1)
}

/// The number of entries of `t` whose span comes before `k`.
pub open spec fn table_pos(t: Seq<((u64, u64), Seq<char>)>, k: (u64, u64)) -> int
    decreases t.len(),
{
    if t.len() == 0 {
        0
    } else if key_lt(t.last().0, k) {
        t.len() as int
    } else {
        table_pos(t.drop_last(), k)
    }
}

/// Putting a function into a table ordered by span: a function with the same
/// span is replaced, else it goes in at its place.
pub open spec fn table_insert(t: Seq<((u64, u64), Seq<char>)>, e: ((u64, u64), Seq<char>)) -> Seq<((u64, u64), Seq<char>)> {
    if exists|i: int| 0 <= i < t.len() && #[trigger] t[i].0 == e.0 {
        let i = choose|i: int| 0 <= i < t.len() && #[trigger] t[i].0 == e.0;
        t.update(i, e)
    } else {
        t.insert(table_pos(t, e.0), e)
    }
}

/// The functions of a file ordered by span, each span once (the last
/// function given for a span stays).
pub open spec fn fn_table(fs: Seq<((u64, u64), Seq<char>)>) -> Seq<((u64, u64), Seq<char>)>
    decreases fs.len(),
{
    if fs.len() == 0 {
        Seq::<((u64, u64), Seq<char>)>::empty()
    } else {
        table_insert(fn_table(fs.drop_last()), fs.last())
    }
}

/// The table's spans are in ascending order, each once.
pub open spec fn table_sorted(t: Seq<((u64, u64), Seq<char>)>) -> bool {
    forall|i: int, j: int| 0 <= i < j < t.len() ==> key_lt(#[trigger] t[i].0, #[trigger] t[j].0)
}

proof fn lemma_table_pos(t: Seq<((u64, u64), Seq<char>)>, k: (u64, u64))
    requires
        table_sorted(t),
    ensures
        0 <= table_pos(t, k) <= t.len(),
        forall|i: int| 0 <= i < table_pos(t, k) ==> key_lt(#[trigger] t[i].0, k),
        forall|i: int| table_pos(t, k) <= i < t.len() ==> !key_lt(#[trigger] t[i].0, k),
    decreases t.len(),
{
    if t.len() > 0 {
        if key_lt(t.last().0, k) {
            assert forall|i: int| 0 <= i < t.len() implies key_lt(#[trigger] t[i].0, k) by {
                if i < t.len() - 1 {
                    assert(key_lt(t[i].0, t[t.len() - 1].0));
                }
            }
        } else {
            let pre = t.drop_last();
            assert forall|i: int, j: int| 0 <= i < j < pre.len() implies key_lt(#[trigger] pre[i].0, #[trigger] pre[j].0) by {
                assert(pre[i] == t[i] && pre[j] == t[j]);
            }
            lemma_table_pos(pre, k);
            let p = table_pos(pre, k);
            assert forall|i: int| 0 <= i < p implies key_lt(#[trigger] t[i].0, k) by {
                assert(pre[i] == t[i]);
            }
            assert forall|i: int| p <= i < t.len() implies !key_lt(#[trigger] t[i].0, k) by {
                if i < t.len() - 1 {
                    assert(pre[i] == t[i]);
                }
            }
        }
    }
}

proof fn lemma_table_insert_sorted(t: Seq<((u64, u64), Seq<char>)>, e: ((u64, u64), Seq<char>))
    requires
        table_sorted(t),
    ensures
        table_sorted(table_insert(t, e)),
{
    if exists|i: int| 0 <= i < t.len() && #[trigger] t[i].0 == e.0 {
        let i = choose|i: int| 0 <= i < t.len() && #[trigger] t[i].0 == e.0;
        let r = t.update(i, e);
        assert forall|a: int, b: int| 0 <= a < b < r.len() implies key_lt(#[trigger] r[a].0, #[trigger] r[b].0) by {
            assert(r[a].0 == t[a].0 && r[b].0 == t[b].0);
        }
    } else {
        lemma_table_pos(t, e.0);
        let p = table_pos(t, e.0);
        let r = t.insert(p, e);
        assert forall|a: int, b: int| 0 <= a < b < r.len() implies key_lt(#[trigger] r[a].0, #[trigger] r[b].0) by {
            if b < p {
                assert(r[a] == t[a] && r[b] == t[b]);
            } else if b == p {
                assert(r[a] == t[a]);
            } else if a == p {
                assert(r[b] == t[b - 1]);
                assert(t[b - 1].0 != e.0);
            } else if a < p {
                assert(r[a] == t[a] && r[b] == t[b - 1]);
            } else {
                assert(r[a] == t[a - 1] && r[b] == t[b - 1]);
            }
        }
    }
}

proof fn lemma_fn_table_sorted(fs: Seq<((u64, u64), Seq<char>)>)
    ensures
        table_sorted(fn_table(fs)),
    decreases fs.len(),
{
    if fs.len() > 0 {
        lemma_fn_table_sorted(fs.drop_last());
        lemma_table_insert_sorted(fn_table(fs.drop_last()), fs.last());
    }
}

/// The table of the functions of a file.
fn build_table(fs: &Vec<FunctionSpan>) -> (res: Vec<(u64, u64, String)>)
    ensures
        res@.map_values(|e: (u64, u64, String)| ((e.0, e.1), e.2@)) == fn_table(fs@.map_values(|f: FunctionSpan| fspan(f))),
{
    let ghost fv = fs@.map_values(|f: FunctionSpan| fspan(f));
    let mut t: Vec<(u64, u64, String)> = Vec::new();
    let mut i: usize = 0;
    assert(fv.take(0) =~= Seq::<((u64, u64), Seq<char>)>::empty());
    while i < fs.len()
        invariant
            i <= fs.len(),
            fv == fs@.map_values(|f: FunctionSpan| fspan(f)),
            t@.map_values(|e: (u64, u64, String)| ((e.0, e.1), e.2@)) == fn_table(fv.take(i as int)),
        decreases fs.len() - i,
    {
        let ghost tv = t@.map_values(|e: (u64, u64, String)| ((e.0, e.1), e.2@));
        assert(fv.take(i + 1).drop_last() =~= fv.take(i as int));
        assert(fv.take(i + 1).last() == fspan(fs@[i as int]));
        proof {
            lemma_fn_table_sorted(fv.take(i as int));
        }
        let f = &fs[i];
        // Find the entry with the same span, or the place of a new one.
        let mut j: usize = 0;
        let mut found = false;
        while j < t.len()
            invariant_except_break
                !found,
            invariant
                j <= t.len(),
                tv == t@.map_values(|e: (u64, u64, String)| ((e.0, e.1), e.2@)),
                forall|k: int| 0 <= k < j ==> #[trigger] tv[k].0 != (f.start, f.end),
            ensures
                j <= t.len(),
                forall|k: int| 0 <= k < j ==> #[trigger] tv[k].0 != (f.start, f.end),
                found ==> j < t.len() && tv[j as int].0 == (f.start, f.end),
                !found ==> j == t.len(),
            decreases t.len() - j,
        {
            if t[j].0 == f.start && t[j].1 == f.end {
                found = true;
                break;
            }
            j = j + 1;
        }
        let ghost e = fspan(*f);
        assert(fv.take(i + 1).last() == e);
        assert(fn_table(fv.take(i + 1)) == table_insert(tv, e));
        if found {
            proof {
                assert(tv[j as int].0 == e.0);
                let k = choose|k: int| 0 <= k < tv.len() && #[trigger] tv[k].0 == e.0;
                if k != j {
                    if k < j {
                    } else {
                        assert(key_lt(tv[j as int].0, tv[k].0));
                    }
                }
                assert(table_insert(tv, e) == tv.update(j as int, e));
            }
            t.set(j, (f.start, f.end, f.name.clone()));
            assert(t@.map_values(|e: (u64, u64, String)| ((e.0, e.1), e.2@)) =~= tv.update(j as int, fspan(*f)));
        } else {
            let mut p: usize = t.len();
            assert(tv.take(p as int) =~= tv);
            while p > 0 && !(t[p - 1].0 < f.start || (t[p - 1].0 == f.start && t[p - 1].1 < f.end))
                invariant
                    p <= t.len(),
                    tv == t@.map_values(|e: (u64, u64, String)| ((e.0, e.1), e.2@)),
                    table_pos(tv.take(p as int), (f.start, f.end)) == table_pos(tv, (f.start, f.end)),
                decreases p,
            {
                assert(tv.take(p as int).drop_last() =~= tv.take(p - 1));
                p = p - 1;
            }
            assert(tv.take(0) =~= Seq::<((u64, u64), Seq<char>)>::empty());
            if p > 0 {
                assert(tv.take(p as int).last() == tv[p - 1]);
                assert(key_lt(tv[p - 1].0, e.0));
            }
            assert(table_pos(tv.take(p as int), e.0) == p);
            assert(!(exists|k: int| 0 <= k < tv.len() && #[trigger] tv[k].0 == e.0));
            assert(table_insert(tv, e) == tv.insert(p as int, e));
            t.insert(p, (f.start, f.end, f.name.clone()));
            assert(t@.map_values(|e: (u64, u64, String)| ((e.0, e.1), e.2@)) =~= tv.insert(p as int, fspan(*f)));
        }
        i = i + 1;
    }
    assert(fv.take(fs.len() as int) =~= fv);
    t
}

/// What walking the traces of a file gives: the function lines, their hit
/// lines, the line hits, and how many functions of the table were met;
/// `None` where a function starts on a trace without a hit count.
pub open spec fn walk_spec(ts: Seq<TraceView>, table: Seq<((u64, u64), Seq<char>)>)
    -> Option<(Seq<Seq<char>>, Seq<Seq<char>>, Seq<(u64, u64)>, int)>
    decreases ts.len(),
{
    if ts.len() == 0 {
        Some((Seq::<Seq<char>>::empty(), Seq::<Seq<char>>::empty(), Seq::<(u64, u64)>::empty(), 0))
    } else {
        match walk_spec(ts.drop_last(), table) {
            None => None,
            Some((fns, fnda, da, idx)) => {
                let t = ts.last();
                let in_fn = 0 <= idx < table.len() && table[idx].0.0 <= t.line && t.line < table[idx].0.1;
                if in_fn && !(t.stats is Line) {
                    None
                } else {
                    let (fns2, fnda2, idx2) = if in_fn {
                        let name = table[idx].1;
                        (
                            fns.push("FN:"@ + decimal(t.line as nat) + ","@ + name),
                            fnda.push("FNDA:"@ + decimal(t.stats->Line_0 as nat) + ","@ + name),
                            idx + 1,
                        )
                    } else {
                        (fns, fnda, idx)
                    };
                    let da2 = match t.stats {
                        StatView::Line(h) => da.push((t.line, h)),
                        _ => da,
                    };
                    Some((fns2, fnda2, da2, idx2))
                }
            },
        }
    }
}

/// The number of line hits that are not zero.
pub open spec fn hit_count(da: Seq<(u64, u64)>) -> nat
    decreases da.len(),
{
    if da.len() == 0 {
        0
    } else {
        hit_count(da.drop_last()) + if da.last().1 != 0 { 1nat } else { 0nat }
    }
}

/// The record of a file: its name, its functions, the hits of its lines and
/// their counts.
pub open spec fn record_spec(path: Seq<char>, fns: Seq<Seq<char>>, fnda: Seq<Seq<char>>, da: Seq<(u64, u64)>) -> Seq<Seq<char>> {
    seq!["TN:"@, "SF:"@ + path] + fns + seq!["FNF:"@ + decimal(fns.len())] + fnda
        + da.map_values(|d: (u64, u64)| "DA:"@ + decimal(d.0 as nat) + ","@ + decimal(d.1 as nat))
        + seq!["LF:"@ + decimal(da.len()), "LH:"@ + decimal(hit_count(da)), "end_of_record"@]
}

/// The functions listed for the file denoting `path`: those of the first
/// entry for it, none where there is none.
pub open spec fn functions_for(fs: Seq<(Seq<char>, Seq<((u64, u64), Seq<char>)>)>, path: Seq<char>) -> Seq<((u64, u64), Seq<char>)>
    decreases fs.len(),
{
    if fs.len() == 0 {
        Seq::<((u64, u64), Seq<char>)>::empty()
    } else if same_path(fs[0].0, path) {
        fs[0].1
    } else {
        functions_for(fs.drop_first(), path)
    }
}

/// The value of the function lists.
pub open spec fn ffview(fs: Seq<FileFunctions>) -> Seq<(Seq<char>, Seq<((u64, u64), Seq<char>)>)> {
    fs.map_values(|f: FileFunctions| (f.path@, f.functions@.map_values(|s: FunctionSpan| fspan(s))))
}

/// The lcov records of the files with traces, in order; `None` where a
/// function starts on a trace without a hit count.
pub open spec fn lcov_spec(es: Seq<(Seq<char>, Seq<TraceView>)>, fs: Seq<(Seq<char>, Seq<((u64, u64), Seq<char>)>)>) -> Option<Seq<Seq<char>>>
    decreases es.len(),
{
    if es.len() == 0 {
        Some(Seq::<Seq<char>>::empty())
    } else {
        match lcov_spec(es.drop_last(), fs) {
            None => None,
            Some(prev) => {
                let e = es.last();
                if e.1.len() == 0 {
                    Some(prev)
                } else {
                    match walk_spec(e.1, fn_table(functions_for(fs, e.0))) {
                        None => None,
                        Some((fns, fnda, da, _)) => Some(prev + record_spec(e.0, fns, fnda, da)),
                    }
                }
            },
        }
    }
}

fn functions_of<'a>(fs: &'a Vec<FileFunctions>, path: &str) -> (res: Option<&'a Vec<FunctionSpan>>)
    ensures
        match res {
            Some(v) => v@.map_values(|s: FunctionSpan| fspan(s)) == functions_for(ffview(fs@), path@),
            None => functions_for(ffview(fs@), path@).len() == 0,
        },
{
    let ghost fv = ffview(fs@);
    let mut i: usize = 0;
    assert(fv.skip(0) =~= fv);
    while i < fs.len()
        invariant
            i <= fs.len(),
            fv == ffview(fs@),
            functions_for(fv, path@) == functions_for(fv.skip(i as int), path@),
        decreases fs.len() - i,
    {
        assert(fv.skip(i as int)[0] == fv[i as int]);
        if crate::paths::path_eq(fs[i].path.as_str(), path) {
            return Some(&fs[i].functions);
        }
        assert(fv.skip(i as int).drop_first() =~= fv.skip(i + 1));
        i = i + 1;
    }
    assert(fv.skip(i as int) =~= Seq::<(Seq<char>, Seq<((u64, u64), Seq<char>)>)>::empty());
    None
}

/// Pushes `text` followed by the decimal number `n` onto `v`.
fn push_counted(v: &mut Vec<String>, text: &str, n: usize)
    ensures
        strs(final(v)@) == strs(old(v)@).push(text@ + decimal(n as nat)),
{
    let mut s = String::from_str(text);
    s.append(usize_text(n).as_str());
    let ghost o = strs(v@);
    v.push(s);
    assert(strs(v@) =~= o.push(text@ + decimal(n as nat)));
}

/// The record of one file with traces, or `None` where a function starts on
/// a trace without a hit count.
fn file_record(f: &FileTraces, table: &Vec<(u64, u64, String)>) -> (res: Option<Vec<String>>)
    ensures
        match walk_spec(f@.1, table@.map_values(|e: (u64, u64, String)| ((e.0, e.1), e.2@))) {
            None => res is None,
            Some((fns, fnda, da, _)) => res matches Some(r) && strs(r@) == record_spec(f@.0, fns, fnda, da),
        },
{
    let ghost tb = table@.map_values(|e: (u64, u64, String)| ((e.0, e.1), e.2@));
    let ghost ts = f@.1;
    let mut fns: Vec<String> = Vec::new();
    let mut fnda: Vec<String> = Vec::new();
    let mut da: Vec<(u64, u64)> = Vec::new();
    let mut idx: usize = 0;
    let mut i: usize = 0;
    assert(ts.take(0) =~= Seq::<TraceView>::empty());
    while i < f.traces.len()
        invariant
            i <= f.traces.len(),
            ts == f@.1,
            ts.len() == f.traces.len(),
            tb == table@.map_values(|e: (u64, u64, String)| ((e.0, e.1), e.2@)),
            walk_spec(ts.take(i as int), tb) == Some((strs(fns@), strs(fnda@), da@, idx as int)),
            idx <= table.len(),
        decreases f.traces.len() - i,
    {
        let t = &f.traces[i];
        assert(ts.take(i + 1).drop_last() =~= ts.take(i as int));
        assert(ts.take(i + 1).last() == t@);
        let in_fn = idx < table.len() && table[idx].0 <= t.line && t.line < table[idx].1;
        if in_fn {
            let hits = match t.stats {
                crate::traces::CoverageStat::Line(h) => h,
                _ => {
                    assert(walk_spec(ts.take(i + 1), tb) is None);
                    proof {
                        lemma_walk_none_stays(ts, tb, i + 1);
                    }
                    return None;
                },
            };
            let name = &table[idx].2;
            let mut a = String::from_str("FN:");
            a.append(u64_text(t.line).as_str());
            a.append(",");
            a.append(name.as_str());
            let ghost o1 = strs(fns@);
            fns.push(a);
            assert(strs(fns@) =~= o1.push("FN:"@ + decimal(t.line as nat) + ","@ + tb[idx as int].1));
            let mut b = String::from_str("FNDA:");
            b.append(u64_text(hits).as_str());
            b.append(",");
            b.append(name.as_str());
            let ghost o2 = strs(fnda@);
            fnda.push(b);
            assert(strs(fnda@) =~= o2.push("FNDA:"@ + decimal(hits as nat) + ","@ + tb[idx as int].1));
            idx = idx + 1;
        }
        match t.stats {
            crate::traces::CoverageStat::Line(h) => {
                da.push((t.line, h));
            },
            _ => {},
        }
        i = i + 1;
    }
    assert(ts.take(f.traces.len() as int) =~= ts);
    let mut out: Vec<String> = Vec::new();
    out.push(String::from_str("TN:"));
    let mut sf = String::from_str("SF:");
    sf.append(f.path.as_str());
    out.push(sf);
    assert(strs(out@) =~= seq!["TN:"@, "SF:"@ + f@.0]);
    let ghost h0 = strs(out@);
    crate::cargo::append_strs(&mut out, &fns);
    push_counted(&mut out, "FNF:", fns.len());
    crate::cargo::append_strs(&mut out, &fnda);
    let ghost before_da = strs(out@);
    let mut k: usize = 0;
    let mut hit: usize = 0;
    while k < da.len()
        invariant
            k <= da.len(),
            hit <= k,
            hit == hit_count(da@.take(k as int)),
            strs(out@) =~= before_da + da@.take(k as int).map_values(|d: (u64, u64)| "DA:"@ + decimal(d.0 as nat) + ","@ + decimal(d.1 as nat)),
        decreases da.len() - k,
    {
        let (l, h) = da[k];
        let mut s = String::from_str("DA:");
        s.append(u64_text(l).as_str());
        s.append(",");
        s.append(u64_text(h).as_str());
        let ghost o = strs(out@);
        out.push(s);
        assert(strs(out@) =~= o.push("DA:"@ + decimal(l as nat) + ","@ + decimal(h as nat)));
        assert(da@.take(k + 1).drop_last() =~= da@.take(k as int));
        assert(da@.take(k + 1).map_values(|d: (u64, u64)| "DA:"@ + decimal(d.0 as nat) + ","@ + decimal(d.1 as nat))
            =~= da@.take(k as int).map_values(|d: (u64, u64)| "DA:"@ + decimal(d.0 as nat) + ","@ + decimal(d.1 as nat)).push("DA:"@ + decimal(l as nat) + ","@ + decimal(h as nat)));
        if h != 0 {
            hit = hit + 1;
        }
        k = k + 1;
    }
    assert(da@.take(da.len() as int) =~= da@);
    push_counted(&mut out, "LF:", da.len());
    push_counted(&mut out, "LH:", hit);
    let ghost o = strs(out@);
    out.push(String::from_str("end_of_record"));
    assert(strs(out@) =~= o.push("end_of_record"@));
    assert(strs(out@) =~= record_spec(f@.0, strs(fns@), strs(fnda@), da@));
    Some(out)
}

/// The lines of the lcov tracefile of the traces: a record for each file
/// with traces; `functions` are the functions found in each source file.
/// Fails where a function starts on a trace without a hit count.
pub fn write_lcov(coverage_data: &TraceMap, functions: &Vec<FileFunctions>) -> (res: Result<Vec<String>, RunError>)
    ensures
        match lcov_spec(coverage_data@, ffview(functions@)) {
            Some(lines) => res matches Ok(r) && strs(r@) == lines,
            None => res matches Err(e) && e@ == RunErrorView::Lcov("Function doesn't have hits number"@),
        },
{
    let files = coverage_data.iter();
    let ghost es = coverage_data@;
    let ghost fv = ffview(functions@);
    let mut out: Vec<String> = Vec::new();
    let mut i: usize = 0;
    assert(es.take(0) =~= Seq::<(Seq<char>, Seq<TraceView>)>::empty());
    while i < files.len()
        invariant
            i <= files.len(),
            es == fview(files@),
            es == coverage_data@,
            fv == ffview(functions@),
            lcov_spec(es.take(i as int), fv) == Some(strs(out@)),
        decreases files.len() - i,
    {
        let f = &files[i];
        assert(es[i as int] == f@);
        assert(es.take(i + 1).drop_last() =~= es.take(i as int));
        assert(es.take(i + 1).last() == f@);
        if f.traces.len() > 0 {
            let empty: Vec<FunctionSpan> = Vec::new();
            let fs = match functions_of(functions, f.path.as_str()) {
                Some(v) => v,
                None => &empty,
            };
            assert(fs@.map_values(|s: FunctionSpan| fspan(s)) =~= functions_for(fv, f@.0));
            let table = build_table(fs);
            match file_record(f, &table) {
                Some(rec) => {
                    crate::cargo::append_strs(&mut out, &rec);
                },
                None => {
                    assert(lcov_spec(es.take(i + 1), fv) is None);
                    proof {
                        lemma_lcov_none_stays(es, fv, i as int + 1);
                    }
                    return Err(RunError::Lcov(String::from_str("Function doesn't have hits number")));
                },
            }
        }
        i = i + 1;
    }
    assert(es.take(files.len() as int) =~= es);
    Ok(out)
}

/// Once a trace fails, so does the whole walk.
proof fn lemma_walk_none_stays(ts: Seq<TraceView>, table: Seq<((u64, u64), Seq<char>)>, k: int)
    requires
        0 <= k <= ts.len(),
        walk_spec(ts.take(k), table) is None,
    ensures
        walk_spec(ts, table) is None,
    decreases ts.len() - k,
{
    if k < ts.len() {
        assert(ts.take(k + 1).drop_last() =~= ts.take(k));
        lemma_walk_none_stays(ts, table, k + 1);
    } else {
        assert(ts.take(k) =~= ts);
    }
}

/// Once a file fails, so does the whole tracefile.
proof fn lemma_lcov_none_stays(es: Seq<(Seq<char>, Seq<TraceView>)>, fs: Seq<(Seq<char>, Seq<((u64, u64), Seq<char>)>)>, k: int)
    requires
        0 <= k <= es.len(),
        lcov_spec(es.take(k), fs) is None,
    ensures
        lcov_spec(es, fs) is None,
    decreases es.len() - k,
{
    if k < es.len() {
        assert(es.take(k + 1).drop_last() =~= es.take(k));
        lemma_lcov_none_stays(es, fs, k + 1);
    } else {
        assert(es.take(k) =~= es);
    }
}

} // verus!
