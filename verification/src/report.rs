//! What the reports say: the name of the saved run report, and the lines
//! left uncovered, in runs.
use vstd::prelude::*;
use crate::paths::{chars_lt, lemma_chars_lt_total, chars_less};
use crate::text::{chars_of, decimal, joined, join_strings, strs, u64_text};
use crate::traces::{
    TraceMap, TraceView, StatView, FileTraces, CoverageStat, fview, coverable, covered, child_flat,
    has_key, lemma_covered_le_coverable,
};
use crate::config::{path_relative_from, relative_from, Config};
use crate::config::types::OutputFile;
use crate::errors::{RunError, RunErrorView};

verus! {

/// `b` does not come before `a` in the order of texts.
pub open spec fn chars_le(a: Seq<char>, b: Seq<char>) -> bool {
    !chars_lt(b, a)
}

/// The texts are in order.
pub open spec fn sorted_texts(xs: Seq<Seq<char>>) -> bool {
    forall|i: int, j: int| 0 <= i < j < xs.len() ==> chars_le(#[trigger] xs[i], #[trigger] xs[j])
}

/// The order of texts is transitive.
pub proof fn lemma_chars_lt_transitive(a: Seq<char>, b: Seq<char>, c: Seq<char>)
    requires
        chars_lt(a, b),
        chars_lt(b, c),
    ensures
        chars_lt(a, c),
    decreases a.len(),
{
    if a.len() > 0 && b.len() > 0 && c.len() > 0 && a[0] == b[0] && b[0] == c[0] {
        lemma_chars_lt_transitive(a.drop_first(), b.drop_first(), c.drop_first());
    }
}

/// Puts the strings of `v` in order.
pub fn sort_strings(v: &Vec<String>) -> (res: Vec<String>)
    ensures
        sorted_texts(strs(res@)),
        strs(res@).to_multiset() == strs(v@).to_multiset(),
{
    let mut out: Vec<String> = Vec::new();
    let ghost src = strs(v@);
    let mut i: usize = 0;
    assert(src.take(0) =~= Seq::<Seq<char>>::empty());
    assert(strs(out@) =~= src.take(0));
    while i < v.len()
        invariant
            i <= v.len(),
            src == strs(v@),
            src.len() == v.len(),
            sorted_texts(strs(out@)),
            strs(out@).to_multiset() == src.take(i as int).to_multiset(),
        decreases v.len() - i,
    {
        let s = chars_of(v[i].as_str());
        let ghost o = strs(out@);
        // The first place holding a text that `s` comes before.
        let mut p: usize = 0;
        while p < out.len()
            invariant
                p <= out.len(),
                i < v.len(),
                src.len() == v.len(),
                o == strs(out@),
                s@ == src[i as int],
                forall|k: int| 0 <= k < p ==> !chars_lt(s@, #[trigger] o[k]),
            ensures
                p <= out.len(),
                forall|k: int| 0 <= k < p ==> !chars_lt(s@, #[trigger] o[k]),
                p < out.len() ==> chars_lt(s@, o[p as int]),
            decreases out.len() - p,
        {
            let t = chars_of(out[p].as_str());
            if chars_less(&s, &t) {
                break;
            }
            p = p + 1;
        }
        proof {
            assert forall|k: int| p <= k < o.len() implies !chars_lt(#[trigger] o[k], s@) by {
                if p < o.len() {
                    assert(chars_lt(s@, o[p as int]));
                    lemma_chars_lt_total(o[k], o[p as int]);
                    lemma_chars_lt_total(s@, o[k]);
                    if o[k] != o[p as int] {
                        if chars_lt(o[p as int], o[k]) {
                            lemma_chars_lt_transitive(s@, o[p as int], o[k]);
                        }
                    }
                    lemma_chars_lt_total(o[k], s@);
                }
            }
        }
        out.insert(p, v[i].clone());
        proof {
            let n = strs(out@);
            assert(n =~= o.insert(p as int, src[i as int]));
            assert forall|a: int, b: int| 0 <= a < b < n.len() implies chars_le(#[trigger] n[a], #[trigger] n[b]) by {
                if b < p {
                    assert(n[a] == o[a] && n[b] == o[b]);
                } else if b == p {
                    assert(n[a] == o[a]);
                } else if a == p {
                    assert(n[b] == o[b - 1]);
                } else if a < p {
                    assert(n[a] == o[a] && n[b] == o[b - 1]);
                } else {
                    assert(n[a] == o[a - 1] && n[b] == o[b - 1]);
                }
            }
            o.to_multiset_ensures();
            n.to_multiset_ensures();
            vstd::seq_lib::lemma_multiset_commutative(o.take(p as int), seq![src[i as int]] + o.skip(p as int));
            vstd::seq_lib::lemma_multiset_commutative(seq![src[i as int]], o.skip(p as int));
            vstd::seq_lib::lemma_multiset_commutative(o.take(p as int), o.skip(p as int));
            assert(o =~= o.take(p as int) + o.skip(p as int));
            assert(n =~= o.take(p as int) + (seq![src[i as int]] + o.skip(p as int)));
            vstd::seq_lib::lemma_multiset_commutative(src.take(i as int), seq![src[i as int]]);
            assert(src.take(i + 1) =~= src.take(i as int) + seq![src[i as int]]);
        }
        i = i + 1;
    }
    assert(src.take(v.len() as int) =~= src);
    out
}

/// The package part of a report name: a dash, or the packages in order
/// between dashes.
pub open spec fn packages_part(sorted: Seq<Seq<char>>) -> Seq<char> {
    if sorted.len() == 0 {
        "-"@
    } else {
        "-"@ + joined(sorted, "-"@) + "-"@
    }
}

/// The name of the saved report of a run: the root package's name, the
/// packages part and `coverage.json`; just `coverage.json` where there is
/// no root package.
pub open spec fn report_name_spec(sorted: Seq<Seq<char>>, root_package: Option<Seq<char>>) -> Seq<char> {
    match root_package {
        Some(n) => n + packages_part(sorted) + "coverage.json"@,
        None => "coverage.json"@,
    }
}

/// The name of the saved report of a run, which keeps the statistics of
/// different selections of packages apart; `root_package` is the name of
/// the workspace's root package, where it has one.
pub fn coverage_report_name(packages: &Vec<String>, root_package: Option<&str>) -> (res: String)
    ensures
        exists|sorted: Seq<Seq<char>>| sorted_texts(sorted)
            && sorted.to_multiset() == strs(packages@).to_multiset()
            && res@ == report_name_spec(sorted, match root_package {
                Some(n) => Some(n@),
                None => None,
            }),
{
    let sorted = sort_strings(packages);
    let mut joined_part = String::from_str("-");
    if packages.len() > 0 {
        joined_part.append(join_strings(&sorted, "-").as_str());
        joined_part.append("-");
    }
    proof {
        strs(sorted@).to_multiset_ensures();
        strs(packages@).to_multiset_ensures();
        if packages@.len() == 0 {
            assert(strs(sorted@).to_multiset().len() == 0);
            assert(strs(sorted@).len() == 0);
        } else {
            assert(strs(packages@).to_multiset().len() > 0);
        }
    }
    let res = match root_package {
        Some(name) => {
            let mut r = String::from_str(name);
            r.append(joined_part.as_str());
            r.append("coverage.json");
            r
        },
        None => String::from_str("coverage.json"),
    };
    assert(res@ == report_name_spec(strs(sorted@), match root_package {
        Some(n) => Some(n@),
        None => None,
    }));
    res
}

/// The text of a run of lines: its only line, or its first and last line
/// with a dash between.
pub open spec fn group_text(g: Seq<u64>) -> Seq<char> {
    if g[0] == g.last() {
        decimal(g[0] as nat)
    } else {
        decimal(g[0] as nat) + "-"@ + decimal(g.last() as nat)
    }
}

/// One step of gathering runs of lines: `next` extends the current run
/// where it follows its last line; else the run is written out and `next`
/// starts a new one.
pub open spec fn accumulate_spec(acc: Seq<Seq<char>>, group: Seq<u64>, next: u64) -> (Seq<Seq<char>>, Seq<u64>) {
    if group.len() > 0 {
        if next == group.last() + 1 {
            (acc, group.push(next))
        } else {
            (acc.push(group_text(group)), seq![next])
        }
    } else {
        (acc, group.push(next))
    }
}

/// Gathers the next line into the runs of lines.
pub fn accumulate_lines(acc: Vec<String>, group: Vec<u64>, next: u64) -> (res: (Vec<String>, Vec<u64>))
    requires
        group@.len() > 0 ==> group@.last() < u64::MAX,
    ensures
        (strs(res.0@), res.1@) == accumulate_spec(strs(acc@), group@, next),
{
    let mut acc = acc;
    let mut group = group;
    if group.len() > 0 {
        let last = group[group.len() - 1];
        if next == last + 1 {
            group.push(next);
            (acc, group)
        } else {
            let first = group[0];
            let mut text = u64_text(first);
            if first != last {
                text.append("-");
                text.append(u64_text(last).as_str());
            }
            let ghost o = strs(acc@);
            acc.push(text);
            assert(strs(acc@) =~= o.push(group_text(group@)));
            let mut g: Vec<u64> = Vec::new();
            g.push(next);
            assert(g@ =~= seq![next]);
            (acc, g)
        }
    } else {
        group.push(next);
        (acc, group)
    }
}

/// The runs gathered from the lines, with the run still open.
pub open spec fn fold_groups(lines: Seq<u64>) -> (Seq<Seq<char>>, Seq<u64>)
    decreases lines.len(),
{
    if lines.len() == 0 {
        (Seq::<Seq<char>>::empty(), Seq::<u64>::empty())
    } else {
        let (acc, group) = fold_groups(lines.drop_last());
        accumulate_spec(acc, group, lines.last())
    }
}

/// The runs of the lines, written out: the gathered runs, closed by a step
/// with the largest line number.
pub open spec fn line_groups_spec(lines: Seq<u64>) -> Seq<Seq<char>> {
    let (acc, group) = fold_groups(lines);
    accumulate_spec(acc, group, u64::MAX).0
}

proof fn lemma_fold_group_bound(lines: Seq<u64>)
    requires
        forall|i: int| 0 <= i < lines.len() ==> #[trigger] lines[i] < u64::MAX,
    ensures
        fold_groups(lines).1.len() > 0 ==> fold_groups(lines).1.last() < u64::MAX,
        lines.len() > 0 ==> fold_groups(lines).1.len() > 0,
    decreases lines.len(),
{
    if lines.len() > 0 {
        assert forall|i: int| 0 <= i < lines.drop_last().len() implies #[trigger] lines.drop_last()[i] < u64::MAX by {
            assert(lines.drop_last()[i] == lines[i]);
        }
        lemma_fold_group_bound(lines.drop_last());
        assert(lines.last() == lines[lines.len() - 1]);
    }
}

/// The runs of consecutive lines among `lines`, written out (`3`, `5-7`, ...).
pub fn line_groups(lines: &Vec<u64>) -> (res: Vec<String>)
    requires
        forall|i: int| 0 <= i < lines@.len() ==> #[trigger] lines@[i] < u64::MAX,
    ensures
        strs(res@) == line_groups_spec(lines@),
{
    let mut acc: Vec<String> = Vec::new();
    let mut group: Vec<u64> = Vec::new();
    let mut i: usize = 0;
    assert(lines@.take(0) =~= Seq::<u64>::empty());
    while i < lines.len()
        invariant
            i <= lines.len(),
            forall|k: int| 0 <= k < lines@.len() ==> #[trigger] lines@[k] < u64::MAX,
            (strs(acc@), group@) == fold_groups(lines@.take(i as int)),
        decreases lines.len() - i,
    {
        proof {
            assert forall|k: int| 0 <= k < lines@.take(i as int).len() implies #[trigger] lines@.take(i as int)[k] < u64::MAX by {
                assert(lines@.take(i as int)[k] == lines@[k]);
            }
            lemma_fold_group_bound(lines@.take(i as int));
            assert(lines@.take(i + 1).drop_last() =~= lines@.take(i as int));
            assert(lines@.take(i + 1).last() == lines@[i as int]);
        }
        let (a, g) = accumulate_lines(acc, group, lines[i]);
        acc = a;
        group = g;
        i = i + 1;
    }
    assert(lines@.take(lines.len() as int) =~= lines@);
    proof {
        lemma_fold_group_bound(lines@);
    }
    let (a, _) = accumulate_lines(acc, group, u64::MAX);
    a
}

/// The lines of the traces that were never hit, in order.
pub open spec fn uncovered_spec(ts: Seq<TraceView>) -> Seq<u64>
    decreases ts.len(),
{
    if ts.len() == 0 {
        Seq::<u64>::empty()
    } else {
        let r = uncovered_spec(ts.drop_last());
        if ts.last().stats == StatView::Line(0) {
            r.push(ts.last().line)
        } else {
            r
        }
    }
}

/// The lines of the traces of a file that were never hit, in order.
pub fn uncovered_lines(f: &FileTraces) -> (res: Vec<u64>)
    ensures
        res@ == uncovered_spec(f@.1),
{
    let ghost ts = f@.1;
    let mut out: Vec<u64> = Vec::new();
    let mut i: usize = 0;
    assert(ts.take(0) =~= Seq::<TraceView>::empty());
    while i < f.traces.len()
        invariant
            i <= f.traces.len(),
            ts == f@.1,
            ts.len() == f.traces.len(),
            out@ == uncovered_spec(ts.take(i as int)),
        decreases f.traces.len() - i,
    {
        assert(ts.take(i + 1).drop_last() =~= ts.take(i as int));
        assert(ts.take(i + 1).last() == f.traces@[i as int]@);
        match f.traces[i].stats {
            CoverageStat::Line(0) => {
                out.push(f.traces[i].line);
            },
            _ => {},
        }
        i = i + 1;
    }
    assert(ts.take(f.traces.len() as int) =~= ts);
    out
}

/// A path as shown to the user: relative to the base directory where it can
/// be, else as it is.
pub open spec fn shown_path(path: Seq<char>, base: Seq<char>) -> Seq<char> {
    match relative_from(path, base) {
        Some(r) => r,
        None => path,
    }
}

/// A path relative to the base directory where it can be, else as it is.
pub fn strip_base_dir(path: &str, base_dir: &str) -> (res: String)
    ensures
        res@ == shown_path(path@, base_dir@),
{
    match path_relative_from(path, base_dir) {
        Some(r) => r,
        None => path.to_string(),
    }
}

/// The report line of one file: its shown path and its runs of uncovered
/// lines; none where every line was hit.
pub open spec fn missing_line_of(file: (Seq<char>, Seq<TraceView>), base: Seq<char>) -> Seq<Seq<char>> {
    let groups = line_groups_spec(uncovered_spec(file.1));
    if groups.len() == 0 {
        Seq::<Seq<char>>::empty()
    } else {
        seq!["|| "@ + shown_path(file.0, base) + ": "@ + joined(groups, ", "@)]
    }
}

/// The report lines of the files.
pub open spec fn missing_lines_of(files: Seq<(Seq<char>, Seq<TraceView>)>, base: Seq<char>) -> Seq<Seq<char>>
    decreases files.len(),
{
    if files.len() == 0 {
        Seq::<Seq<char>>::empty()
    } else {
        missing_lines_of(files.drop_last(), base) + missing_line_of(files.last(), base)
    }
}

/// No trace is on the largest line number.
pub open spec fn lines_below_max(es: Seq<(Seq<char>, Seq<TraceView>)>) -> bool {
    forall|i: int, j: int| 0 <= i < es.len() && 0 <= j < es[i].1.len() ==> #[trigger] es[i].1[j].line < u64::MAX
}

proof fn lemma_uncovered_below(ts: Seq<TraceView>)
    requires
        forall|j: int| 0 <= j < ts.len() ==> #[trigger] ts[j].line < u64::MAX,
    ensures
        forall|k: int| 0 <= k < uncovered_spec(ts).len() ==> #[trigger] uncovered_spec(ts)[k] < u64::MAX,
    decreases ts.len(),
{
    if ts.len() > 0 {
        assert forall|j: int| 0 <= j < ts.drop_last().len() implies #[trigger] ts.drop_last()[j].line < u64::MAX by {
            assert(ts.drop_last()[j] == ts[j]);
        }
        lemma_uncovered_below(ts.drop_last());
        assert(ts.last() == ts[ts.len() - 1]);
        let r = uncovered_spec(ts.drop_last());
        assert forall|k: int| 0 <= k < uncovered_spec(ts).len() implies #[trigger] uncovered_spec(ts)[k] < u64::MAX by {
            if k < r.len() {
                assert(uncovered_spec(ts)[k] == r[k]);
            }
        }
    }
}

/// The traces `ts` hold one that was never hit.
pub open spec fn has_uncovered(ts: Seq<TraceView>) -> bool {
    exists|j: int| 0 <= j < ts.len() && #[trigger] ts[j].stats == StatView::Line(0)
}

/// The files with a trace never hit, in order.
pub open spec fn uncovered_files(es: Seq<(Seq<char>, Seq<TraceView>)>) -> Seq<(Seq<char>, Seq<TraceView>)>
    decreases es.len(),
{
    if es.len() == 0 {
        Seq::empty()
    } else {
        let r = uncovered_files(es.drop_last());
        if has_uncovered(es.last().1) {
            r.push(es.last())
        } else {
            r
        }
    }
}

/// Every trace is below the largest line number but one.
pub open spec fn lines_below_last(es: Seq<(Seq<char>, Seq<TraceView>)>) -> bool {
    forall|i: int, j: int| 0 <= i < es.len() && 0 <= j < es[i].1.len() ==> #[trigger] es[i].1[j].line < u64::MAX - 1
}

/// Some line was never hit exactly where the list of never-hit lines is
/// not empty; its last entry is a line of the traces.
proof fn lemma_uncovered_nonempty(ts: Seq<TraceView>)
    requires
        forall|j: int| 0 <= j < ts.len() ==> #[trigger] ts[j].line < u64::MAX - 1,
    ensures
        (uncovered_spec(ts).len() > 0) == has_uncovered(ts),
        uncovered_spec(ts).len() > 0 ==> uncovered_spec(ts).last() < u64::MAX - 1,
    decreases ts.len(),
{
    if ts.len() > 0 {
        let pre = ts.drop_last();
        assert forall|j: int| 0 <= j < pre.len() implies #[trigger] pre[j].line < u64::MAX - 1 by {
            assert(pre[j] == ts[j]);
        }
        lemma_uncovered_nonempty(pre);
        assert(ts.last() == ts[ts.len() - 1]);
        if has_uncovered(pre) {
            let j = choose|j: int| 0 <= j < pre.len() && #[trigger] pre[j].stats == StatView::Line(0);
            assert(ts[j] == pre[j]);
        }
        if has_uncovered(ts) && ts.last().stats != StatView::Line(0) {
            let j = choose|j: int| 0 <= j < ts.len() && #[trigger] ts[j].stats == StatView::Line(0);
            assert(pre[j] == ts[j]);
        }
    }
}

/// Lines below the largest but one make at least one run exactly where
/// there is at least one line.
proof fn lemma_line_groups_nonempty(lines: Seq<u64>)
    requires
        lines.len() > 0 ==> lines.last() < u64::MAX - 1,
    ensures
        (line_groups_spec(lines).len() > 0) == (lines.len() > 0),
{
    if lines.len() > 0 {
        let (acc, group) = fold_groups(lines.drop_last());
        assert(fold_groups(lines) == accumulate_spec(acc, group, lines.last()));
        assert(fold_groups(lines).1.len() > 0 && fold_groups(lines).1.last() == lines.last());
    }
}

/// The report of uncovered lines has, after its heading, one line for each
/// file with a trace never hit, in order, each starting with `|| `, the
/// file's shown path and `: `; a file is left out only where all its traces
/// were hit.
pub proof fn lemma_missing_lines_files(es: Seq<(Seq<char>, Seq<TraceView>)>, base: Seq<char>)
    requires
        lines_below_last(es),
    ensures
        missing_lines_of(es, base).len() == uncovered_files(es).len(),
        forall|k: int|
            0 <= k < uncovered_files(es).len() ==> ("|| "@ + shown_path(#[trigger] uncovered_files(es)[k].0, base)
                + ": "@).is_prefix_of(missing_lines_of(es, base)[k]),
    decreases es.len(),
{
    if es.len() > 0 {
        let pre = es.drop_last();
        assert forall|i: int, j: int| 0 <= i < pre.len() && 0 <= j < pre[i].1.len() implies #[trigger] pre[i].1[j].line
            < u64::MAX - 1 by {
            assert(pre[i] == es[i]);
        }
        lemma_missing_lines_files(pre, base);
        let f = es.last();
        assert(f == es[es.len() - 1]);
        assert forall|j: int| 0 <= j < f.1.len() implies #[trigger] f.1[j].line < u64::MAX - 1 by {
            assert(es[es.len() - 1].1[j].line < u64::MAX - 1);
        }
        lemma_uncovered_nonempty(f.1);
        lemma_line_groups_nonempty(uncovered_spec(f.1));
        let m = missing_lines_of(es, base);
        let mp = missing_lines_of(pre, base);
        let u = uncovered_files(es);
        let up = uncovered_files(pre);
        assert forall|k: int| 0 <= k < u.len() implies ("|| "@ + shown_path(#[trigger] u[k].0, base) + ": "@).is_prefix_of(
            m[k],
        ) by {
            if k < up.len() {
                assert(u[k] == up[k]);
                assert(m[k] == mp[k]);
            } else {
                let groups = line_groups_spec(uncovered_spec(f.1));
                let head = "|| "@ + shown_path(f.0, base) + ": "@;
                assert(m[k] == head + joined(groups, ", "@));
                assert(head.is_prefix_of(head + joined(groups, ", "@))) by {
                    assert((head + joined(groups, ", "@)).subrange(0, head.len() as int) =~= head);
                }
            }
        }
    }
}

/// The report of the lines that no test hit: a heading, then a line for each
/// file with uncovered lines, its path shown relative to `base_dir`.
pub fn missing_lines_report(result: &TraceMap, base_dir: &str) -> (res: Vec<String>)
    requires
        lines_below_max(result@),
    ensures
        strs(res@) == seq!["|| Uncovered Lines:"@] + missing_lines_of(result@, base_dir@),
        lines_below_last(result@) ==> res@.len() == 1 + uncovered_files(result@).len(),
{
    proof {
        if lines_below_last(result@) {
            lemma_missing_lines_files(result@, base_dir@);
        }
    }
    let mut out: Vec<String> = Vec::new();
    out.push(String::from_str("|| Uncovered Lines:"));
    let files = result.iter();
    let ghost es = result@;
    let mut i: usize = 0;
    assert(es.take(0) =~= Seq::<(Seq<char>, Seq<TraceView>)>::empty());
    assert(strs(out@) =~= seq!["|| Uncovered Lines:"@] + missing_lines_of(es.take(0), base_dir@));
    while i < files.len()
        invariant
            i <= files.len(),
            es == fview(files@),
            es == result@,
            lines_below_max(es),
            strs(out@) =~= seq!["|| Uncovered Lines:"@] + missing_lines_of(es.take(i as int), base_dir@),
        decreases files.len() - i,
    {
        let f = &files[i];
        assert(es[i as int] == f@);
        assert(es.take(i + 1).drop_last() =~= es.take(i as int));
        assert(es.take(i + 1).last() == f@);
        let lines = uncovered_lines(f);
        proof {
            assert forall|j: int| 0 <= j < f@.1.len() implies #[trigger] f@.1[j].line < u64::MAX by {
                assert(es[i as int].1[j].line < u64::MAX);
            }
            lemma_uncovered_below(f@.1);
        }
        let groups = line_groups(&lines);
        let ghost o = strs(out@);
        if groups.len() > 0 {
            let mut text = String::from_str("|| ");
            text.append(strip_base_dir(f.path.as_str(), base_dir).as_str());
            text.append(": ");
            text.append(join_strings(&groups, ", ").as_str());
            out.push(text);
            assert(strs(out@) =~= o + missing_line_of(f@, base_dir@));
        } else {
            assert(strs(out@) =~= o + missing_line_of(f@, base_dir@));
        }
        i = i + 1;
    }
    assert(es.take(files.len() as int) =~= es);
    out
}

/// One line of the summary of a run: a file's path as shown, its covered
/// and coverable points, and whether the previous run had coverable points in it.
pub struct SummaryRow {
    pub path: String,
    pub covered: usize,
    pub coverable: usize,
    pub has_previous: bool,
}

/// The summary lines of the files `paths` of the map `es`: one for each
/// file with coverable points, in order.
pub open spec fn summary_spec(es: Seq<(Seq<char>, Seq<TraceView>)>, paths: Seq<Seq<char>>, last: Seq<(Seq<char>, Seq<TraceView>)>, base: Seq<char>) -> Seq<(Seq<char>, nat, nat, bool)>
    decreases paths.len(),
{
    if paths.len() == 0 {
        Seq::<(Seq<char>, nat, nat, bool)>::empty()
    } else {
        let r = summary_spec(es, paths.drop_last(), last, base);
        let p = paths.last();
        let cv = coverable(child_flat(es, p));
        if cv == 0 {
            r
        } else {
            r.push((shown_path(p, base), covered(child_flat(es, p)), cv,
                has_key(last, p) && coverable(child_flat(last, p)) > 0))
        }
    }
}

/// The view of summary lines.
pub open spec fn rows_view(v: Seq<SummaryRow>) -> Seq<(Seq<char>, nat, nat, bool)> {
    v.map_values(|r: SummaryRow| (r.path@, r.covered as nat, r.coverable as nat, r.has_previous))
}

/// The lines of the summary of a run, compared with the previous run's map
/// `last`, paths shown relative to `base_dir`.
pub fn summary_rows(result: &TraceMap, last: &TraceMap, base_dir: &str) -> (res: Vec<SummaryRow>)
    requires
        last.wf(),
        forall|i: int| 0 <= i < result@.len() ==> coverable(child_flat(result@, #[trigger] result@[i].0)) <= usize::MAX,
        forall|i: int| 0 <= i < result@.len() ==> coverable(child_flat(last@, #[trigger] result@[i].0)) <= usize::MAX,
    ensures
        rows_view(res@) == summary_spec(result@, result@.map_values(|e: (Seq<char>, Seq<TraceView>)| e.0), last@, base_dir@),
{
    let files = result.files();
    let ghost ps = result@.map_values(|e: (Seq<char>, Seq<TraceView>)| e.0);
    let mut out: Vec<SummaryRow> = Vec::new();
    let mut i: usize = 0;
    assert(ps.take(0) =~= Seq::<Seq<char>>::empty());
    while i < files.len()
        invariant
            i <= files.len(),
            last.wf(),
            ps == result@.map_values(|e: (Seq<char>, Seq<TraceView>)| e.0),
            files@.map_values(|s: &String| s@) == ps,
            forall|k: int| 0 <= k < result@.len() ==> coverable(child_flat(result@, #[trigger] result@[k].0)) <= usize::MAX,
            forall|k: int| 0 <= k < result@.len() ==> coverable(child_flat(last@, #[trigger] result@[k].0)) <= usize::MAX,
            rows_view(out@) == summary_spec(result@, ps.take(i as int), last@, base_dir@),
        decreases files.len() - i,
    {
        let f: &String = files[i];
        assert(files@.map_values(|s: &String| s@)[i as int] == f@);
        assert(ps[i as int] == f@);
        assert(ps.len() == result@.len());
        assert(ps[i as int] == result@[i as int].0);
        assert(ps.take(i + 1).drop_last() =~= ps.take(i as int));
        assert(ps.take(i + 1).last() == f@);
        proof {
            lemma_covered_le_coverable(child_flat(result@, f@));
        }
        let cv = result.coverable_in_path(f.as_str());
        if cv > 0 {
            let cov = result.covered_in_path(f.as_str());
            let prev = last.contains_file(f.as_str()) && last.coverable_in_path(f.as_str()) > 0;
            let ghost o = rows_view(out@);
            out.push(SummaryRow { path: strip_base_dir(f.as_str(), base_dir), covered: cov, coverable: cv, has_previous: prev });
            assert(rows_view(out@) =~= o.push((shown_path(f@, base_dir@), cov as nat, cv as nat, prev)));
        }
        i = i + 1;
    }
    assert(ps.take(files.len() as int) =~= ps);
    out
}

/// A step of reporting the coverage of a run.
#[derive(Debug, Copy, Clone, PartialEq, Eq, Structural)]
pub enum ReportStep {
    /// Send the report to coveralls
    SendCoveralls,
    /// Make sure the chosen output directory exists
    CreateOutputDir,
    /// Print the lines no test hit
    PrintMissingLines,
    /// Write a report file in the format
    Export(OutputFile),
    /// Print the summary of the run
    PrintSummary,
}

/// The steps for the report formats: a file for each format but the
/// standard output, for which the uncovered lines are printed unless they
/// were printed already because the run is verbose.
pub open spec fn format_steps(gs: Seq<OutputFile>, verbose: bool) -> Seq<ReportStep>
    decreases gs.len(),
{
    if gs.len() == 0 {
        Seq::<ReportStep>::empty()
    } else {
        let r = format_steps(gs.drop_last(), verbose);
        if gs.last() == OutputFile::Stdout {
            if verbose { r } else { r.push(ReportStep::PrintMissingLines) }
        } else {
            r.push(ReportStep::Export(gs.last()))
        }
    }
}

/// The steps of reporting: coveralls first where a key is given, the output
/// directory where one is chosen, the uncovered lines where the run is
/// verbose or asks for no format, the formats, and the summary last.
pub open spec fn report_steps_spec(c: Config) -> Seq<ReportStep> {
    (if c.coveralls is Some { seq![ReportStep::SendCoveralls] } else { Seq::<ReportStep>::empty() })
        + (if c.output_directory is Some { seq![ReportStep::CreateOutputDir] } else { Seq::<ReportStep>::empty() })
        + (if c.verbose || c.generate@.len() == 0 { seq![ReportStep::PrintMissingLines] } else { Seq::<ReportStep>::empty() })
        + format_steps(c.generate@, c.verbose)
        + seq![ReportStep::PrintSummary]
}

/// The steps of reporting the coverage of a run, in order.
pub fn report_steps(config: &Config) -> (res: Vec<ReportStep>)
    ensures
        res@ == report_steps_spec(*config),
{
    let mut steps: Vec<ReportStep> = Vec::new();
    if config.is_coveralls() {
        steps.push(ReportStep::SendCoveralls);
    }
    if !config.is_default_output_dir() {
        steps.push(ReportStep::CreateOutputDir);
    }
    if config.verbose || config.generate.len() == 0 {
        steps.push(ReportStep::PrintMissingLines);
    }
    let ghost head = steps@;
    assert(head =~= (if config.coveralls is Some { seq![ReportStep::SendCoveralls] } else { Seq::<ReportStep>::empty() })
        + (if config.output_directory is Some { seq![ReportStep::CreateOutputDir] } else { Seq::<ReportStep>::empty() })
        + (if config.verbose || config.generate@.len() == 0 { seq![ReportStep::PrintMissingLines] } else { Seq::<ReportStep>::empty() }));
    let mut i: usize = 0;
    assert(config.generate@.take(0) =~= Seq::<OutputFile>::empty());
    while i < config.generate.len()
        invariant
            i <= config.generate.len(),
            steps@ =~= head + format_steps(config.generate@.take(i as int), config.verbose),
        decreases config.generate.len() - i,
    {
        assert(config.generate@.take(i + 1).drop_last() =~= config.generate@.take(i as int));
        let g = config.generate[i];
        if g == OutputFile::Stdout {
            if !config.verbose {
                steps.push(ReportStep::PrintMissingLines);
            }
        } else {
            steps.push(ReportStep::Export(g));
        }
        i = i + 1;
    }
    assert(config.generate@.take(config.generate.len() as int) =~= config.generate@);
    steps.push(ReportStep::PrintSummary);
    steps
}

/// What a run with nothing to report comes to: an error where it ran tests,
/// nothing where it only built them; `None` where there is something to report.
pub fn empty_report_outcome(result_is_empty: bool, no_run: bool) -> (res: Option<Result<(), RunError>>)
    ensures
        !result_is_empty ==> res is None,
        result_is_empty && no_run ==> res matches Some(Ok(())),
        result_is_empty && !no_run ==> (res matches Some(Err(e))
            && e@ == RunErrorView::CovReport("No coverage results collected."@)),
{
    if !result_is_empty {
        None
    } else if !no_run {
        Some(Err(RunError::CovReport(String::from_str("No coverage results collected."))))
    } else {
        Some(Ok(()))
    }
}

} // verus!
