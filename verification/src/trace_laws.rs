//! What holds of traces and trace maps whichever values they hold.
use vstd::prelude::*;
use crate::paths::{components, same_path, path_lt};
use crate::traces::{
    LogicState, StatView, TraceView, Entries, logic_add, stat_add, wf_entries, has_key, key_index,
    key_insert_pos, sorted_insert, line_insert_pos, dedup_file, dedup_entries, merge_entry,
    merge_entries, add_file_spec, add_trace_spec, contains_location_spec, lines_sorted,
    lemma_key_insert_pos, lemma_line_insert_pos, lemma_insert_key, lemma_update_traces,
    lemma_sorted_insert, lemma_merge_entry_wf, merge_one, merge_file, first_same_point, with_stats,
    wrap_add, update_traces, lemma_merge_file_sorted, same_point, keys_sorted,
};

verus! {

/// Combining observations of a condition is commutative, associative and
/// idempotent, and an observation that saw nothing changes nothing.
pub proof fn lemma_logic_add_laws(a: LogicState, b: LogicState, c: LogicState)
    ensures
        logic_add(a, b) == logic_add(b, a),
        logic_add(logic_add(a, b), c) == logic_add(a, logic_add(b, c)),
        logic_add(a, a) == a,
        logic_add(a, LogicState { been_true: false, been_false: false }) == a,
{
}

/// Adding hit counts does not depend on order or grouping, and adding no
/// hits changes nothing.
pub proof fn lemma_line_stat_add_laws(a: u64, b: u64, c: u64)
    ensures
        stat_add(StatView::Line(a), StatView::Line(b)) == stat_add(StatView::Line(b), StatView::Line(a)),
        stat_add(stat_add(StatView::Line(a), StatView::Line(b)), StatView::Line(c))
            == stat_add(StatView::Line(a), stat_add(StatView::Line(b), StatView::Line(c))),
        stat_add(StatView::Line(a), StatView::Line(0)) == StatView::Line(a),
{
}

/// Adding branch observations does not depend on order.
pub proof fn lemma_branch_stat_add_commutative(a: LogicState, b: LogicState)
    ensures
        stat_add(StatView::Branch(a), StatView::Branch(b)) == stat_add(StatView::Branch(b), StatView::Branch(a)),
{
}

/// No two traces of `ts` are on the same line.
pub open spec fn lines_distinct(ts: Seq<TraceView>) -> bool {
    forall|a: int, b: int| 0 <= a < b < ts.len() ==> #[trigger] ts[a].line != #[trigger] ts[b].line
}

/// Collapsing traces whose lines are all distinct changes nothing.
pub proof fn lemma_dedup_distinct(ts: Seq<TraceView>)
    requires
        lines_distinct(ts),
    ensures
        dedup_file(ts) == ts,
    decreases ts.len(),
{
    if ts.len() > 0 {
        let pre = ts.drop_last();
        assert(lines_distinct(pre)) by {
            assert forall|a: int, b: int| 0 <= a < b < pre.len() implies #[trigger] pre[a].line != #[trigger] pre[b].line by {
                assert(pre[a] == ts[a] && pre[b] == ts[b]);
            }
        }
        lemma_dedup_distinct(pre);
        let v = ts.last();
        assert(!(exists|j: int| 0 <= j < pre.len() && #[trigger] pre[j].line == v.line)) by {
            if exists|j: int| 0 <= j < pre.len() && #[trigger] pre[j].line == v.line {
                let j = choose|j: int| 0 <= j < pre.len() && #[trigger] pre[j].line == v.line;
                assert(pre[j] == ts[j]);
                assert(ts[j].line != ts[ts.len() - 1].line);
            }
        }
        assert(pre.push(v) =~= ts);
    }
}

/// Collapsing duplicate traces twice is the same as collapsing them once.
pub proof fn lemma_dedup_idempotent(es: Entries)
    ensures
        dedup_entries(dedup_entries(es)) == dedup_entries(es),
{
    let d = dedup_entries(es);
    assert forall|i: int| 0 <= i < d.len() implies #[trigger] dedup_file(d[i].1) == d[i].1 by {
        crate::traces::lemma_dedup_file(es[i].1);
        lemma_dedup_distinct(dedup_file(es[i].1));
    }
    assert(dedup_entries(d) =~= d);
}

/// In a well-formed map, the file denoting a path is the one at the index
/// of any file denoting it.
proof fn lemma_key_index_unique(es: Entries, k: Seq<char>, i: int)
    requires
        wf_entries(es),
        0 <= i < es.len(),
        same_path(es[i].0, k),
    ensures
        has_key(es, k),
        key_index(es, k) == i,
{
    assert(has_key(es, k));
    let j = key_index(es, k);
    if j != i {
        if j < i {
            assert(!same_path(es[j].0, es[i].0));
        } else {
            assert(!same_path(es[i].0, es[j].0));
        }
    }
}

/// Once a file is added, the map holds it.
pub proof fn lemma_add_file_contains(es: Entries, k: Seq<char>)
    requires
        wf_entries(es),
    ensures
        has_key(add_file_spec(es, k), k),
        wf_entries(add_file_spec(es, k)),
{
    if !has_key(es, k) {
        lemma_key_insert_pos(es, k);
        lemma_insert_key(es, k, Seq::<TraceView>::empty());
        let p = key_insert_pos(es, k);
        let r = es.insert(p, (k, Seq::<TraceView>::empty()));
        assert(same_path(r[p].0, k));
    }
}

/// Adding a file twice is the same as adding it once.
pub proof fn lemma_add_file_idempotent(es: Entries, k: Seq<char>)
    requires
        wf_entries(es),
    ensures
        add_file_spec(add_file_spec(es, k), k) == add_file_spec(es, k),
{
    lemma_add_file_contains(es, k);
}

/// After a trace is added for a file, the map holds a trace on its line in that file.
pub proof fn lemma_add_trace_contains(es: Entries, k: Seq<char>, t: TraceView)
    requires
        wf_entries(es),
    ensures
        contains_location_spec(add_trace_spec(es, k, t), k, t.line),
{
    let r = add_trace_spec(es, k, t);
    if has_key(es, k) {
        let i = key_index(es, k);
        let ts = sorted_insert(es[i].1, t);
        lemma_line_insert_pos(es[i].1, t.line);
        lemma_sorted_insert(es[i].1, t);
        lemma_update_traces(es, i, ts);
        assert(r[i].0 == es[i].0);
        lemma_key_index_unique(r, k, i);
        let p = line_insert_pos(es[i].1, t.line);
        assert(r[i].1[p].line == t.line);
    } else {
        lemma_key_insert_pos(es, k);
        lemma_insert_key(es, k, seq![t]);
        let p = key_insert_pos(es, k);
        assert(same_path(r[p].0, k));
        lemma_key_index_unique(r, k, p);
        assert(r[p].1[0].line == t.line);
    }
}

/// Merging a file keeps every file the map held.
proof fn lemma_merge_entry_keeps(es: Entries, e: (Seq<char>, Seq<TraceView>), k: Seq<char>)
    requires
        wf_entries(es),
        lines_sorted(e.1),
        has_key(es, k),
    ensures
        has_key(merge_entry(es, e), k),
{
    let j = key_index(es, k);
    let r = merge_entry(es, e);
    if has_key(es, e.0) {
        let i = key_index(es, e.0);
        assert(r[j].0 == es[j].0);
    } else {
        lemma_key_insert_pos(es, e.0);
        let p = key_insert_pos(es, e.0);
        if j < p {
            assert(r[j] == es[j]);
        } else {
            assert(r[j + 1] == es[j]);
        }
    }
}

/// Merging a file makes the map hold it.
proof fn lemma_merge_entry_adds(es: Entries, e: (Seq<char>, Seq<TraceView>))
    requires
        wf_entries(es),
        lines_sorted(e.1),
    ensures
        has_key(merge_entry(es, e), e.0),
{
    let r = merge_entry(es, e);
    if has_key(es, e.0) {
        let i = key_index(es, e.0);
        assert(r[i].0 == es[i].0);
    } else {
        lemma_key_insert_pos(es, e.0);
        let p = key_insert_pos(es, e.0);
        assert(r[p].0 == e.0);
    }
}

/// Merging keeps the map well formed.
proof fn lemma_merge_entries_wf(es: Entries, os: Entries)
    requires
        wf_entries(es),
        wf_entries(os),
    ensures
        wf_entries(merge_entries(es, os)),
    decreases os.len(),
{
    if os.len() > 0 {
        let pre = os.drop_last();
        lemma_wf_prefix(os);
        lemma_merge_entries_wf(es, pre);
        assert(lines_sorted(os[os.len() - 1].1));
        lemma_merge_entry_wf(merge_entries(es, pre), os.last());
    }
}

/// Merging a file leaves the traces of every other file as they were.
proof fn lemma_merge_entry_other(es: Entries, e: (Seq<char>, Seq<TraceView>), k: Seq<char>)
    requires
        wf_entries(es),
        lines_sorted(e.1),
        has_key(es, k),
        !same_path(e.0, k),
    ensures
        has_key(merge_entry(es, e), k),
        merge_entry(es, e)[key_index(merge_entry(es, e), k)].1 == es[key_index(es, k)].1,
{
    let j = key_index(es, k);
    let r = merge_entry(es, e);
    if has_key(es, e.0) {
        let i = key_index(es, e.0);
        assert(i != j);
        lemma_merge_file_sorted(es[i].1, e.1);
        lemma_update_traces(es, i, merge_file(es[i].1, e.1));
        assert(r[j] == es[j]);
        lemma_key_index_unique(r, k, j);
    } else {
        lemma_key_insert_pos(es, e.0);
        let p = key_insert_pos(es, e.0);
        lemma_insert_key(es, e.0, e.1);
        if j < p {
            assert(r[j] == es[j]);
            lemma_key_index_unique(r, k, j);
        } else {
            assert(r[j + 1] == es[j]);
            lemma_key_index_unique(r, k, j + 1);
        }
    }
}

/// Merging another map leaves the traces of each file it does not hold as
/// they were.
pub proof fn lemma_merge_keeps_others(es: Entries, os: Entries, k: Seq<char>)
    requires
        wf_entries(es),
        wf_entries(os),
        has_key(es, k),
        !has_key(os, k),
    ensures
        has_key(merge_entries(es, os), k),
        merge_entries(es, os)[key_index(merge_entries(es, os), k)].1 == es[key_index(es, k)].1,
    decreases os.len(),
{
    if os.len() > 0 {
        let pre = os.drop_last();
        lemma_wf_prefix(os);
        assert(!has_key(pre, k)) by {
            if has_key(pre, k) {
                let i = key_index(pre, k);
                assert(os[i] == pre[i]);
            }
        }
        lemma_merge_keeps_others(es, pre, k);
        lemma_merge_entries_wf(es, pre);
        assert(os.last() == os[os.len() - 1]);
        assert(lines_sorted(os[os.len() - 1].1));
        assert(!same_path(os.last().0, k));
        lemma_merge_entry_other(merge_entries(es, pre), os.last(), k);
    }
}

/// The traces `ts` hold one recording the same point (line and addresses)
/// as `v`.
pub open spec fn has_point(ts: Seq<TraceView>, v: TraceView) -> bool {
    exists|i: int| 0 <= i < ts.len() && same_point(#[trigger] ts[i], v)
}

/// Merging one trace keeps every point the traces held, and adds its own.
proof fn lemma_merge_one_points(ts: Seq<TraceView>, v: TraceView)
    ensures
        has_point(merge_one(ts, v), v),
        forall|u: TraceView| has_point(ts, u) ==> #[trigger] has_point(merge_one(ts, v), u),
{
    let r = merge_one(ts, v);
    if exists|i: int| first_same_point(ts, v, i) {
        let i = choose|i: int| first_same_point(ts, v, i);
        assert(same_point(r[i], v));
        assert forall|u: TraceView| has_point(ts, u) implies #[trigger] has_point(r, u) by {
            let j = choose|j: int| 0 <= j < ts.len() && same_point(#[trigger] ts[j], u);
            assert(same_point(r[j], u));
        }
    } else {
        let p = line_insert_pos(ts, v.line);
        lemma_line_insert_pos(ts, v.line);
        assert(r[p] == v);
        assert(same_point(r[p], v));
        assert forall|u: TraceView| has_point(ts, u) implies #[trigger] has_point(r, u) by {
            let j = choose|j: int| 0 <= j < ts.len() && same_point(#[trigger] ts[j], u);
            if j < p {
                assert(r[j] == ts[j]);
            } else {
                assert(r[j + 1] == ts[j]);
            }
        }
    }
}

/// Merging traces keeps every point the file held, and adds each of theirs.
proof fn lemma_merge_file_points(ts: Seq<TraceView>, vs: Seq<TraceView>)
    ensures
        forall|j: int| 0 <= j < vs.len() ==> has_point(merge_file(ts, vs), #[trigger] vs[j]),
        forall|u: TraceView| has_point(ts, u) ==> #[trigger] has_point(merge_file(ts, vs), u),
    decreases vs.len(),
{
    if vs.len() > 0 {
        let pre = vs.drop_last();
        lemma_merge_file_points(ts, pre);
        let m = merge_file(ts, pre);
        lemma_merge_one_points(m, vs.last());
        assert forall|j: int| 0 <= j < vs.len() implies has_point(merge_file(ts, vs), #[trigger] vs[j]) by {
            if j < vs.len() - 1 {
                assert(pre[j] == vs[j]);
                assert(has_point(m, pre[j]));
            }
        }
    }
}

/// Merging a file gives the merged file's traces every point of its own.
proof fn lemma_merge_entry_points(es: Entries, e: (Seq<char>, Seq<TraceView>))
    requires
        wf_entries(es),
        lines_sorted(e.1),
    ensures
        has_key(merge_entry(es, e), e.0),
        forall|j: int|
            0 <= j < e.1.len() ==> has_point(
                merge_entry(es, e)[key_index(merge_entry(es, e), e.0)].1,
                #[trigger] e.1[j],
            ),
{
    lemma_merge_entry_wf(es, e);
    let r = merge_entry(es, e);
    if has_key(es, e.0) {
        let i = key_index(es, e.0);
        lemma_merge_file_points(es[i].1, e.1);
        assert(r[i].0 == es[i].0);
        lemma_key_index_unique(r, e.0, i);
    } else {
        lemma_key_insert_pos(es, e.0);
        let p = key_insert_pos(es, e.0);
        assert(r[p] == e);
        lemma_key_index_unique(r, e.0, p);
        assert forall|j: int| 0 <= j < e.1.len() implies has_point(r[p].1, #[trigger] e.1[j]) by {
            assert(same_point(r[p].1[j], e.1[j]));
        }
    }
}

/// Merging another map gives each of its files, in the result, every point
/// of that file's traces in the other map.
pub proof fn lemma_merge_points(es: Entries, os: Entries)
    requires
        wf_entries(es),
        wf_entries(os),
    ensures
        forall|i: int, j: int|
            0 <= i < os.len() && 0 <= j < os[i].1.len() ==> has_point(
                merge_entries(es, os)[key_index(merge_entries(es, os), os[i].0)].1,
                #[trigger] os[i].1[j],
            ),
    decreases os.len(),
{
    if os.len() > 0 {
        let pre = os.drop_last();
        lemma_wf_prefix(os);
        lemma_merge_points(es, pre);
        lemma_merge_entries_wf(es, pre);
        lemma_merge_holds_all(es, pre);
        let m = merge_entries(es, pre);
        let last = os.last();
        assert(lines_sorted(os[os.len() - 1].1));
        lemma_merge_entry_points(m, last);
        assert forall|i: int, j: int|
            0 <= i < os.len() && 0 <= j < os[i].1.len() implies has_point(
                merge_entries(es, os)[key_index(merge_entries(es, os), os[i].0)].1,
                #[trigger] os[i].1[j],
            ) by {
            if i < os.len() - 1 {
                assert(pre[i] == os[i]);
                assert(has_key(m, pre[i].0));
                assert(!same_path(os[i].0, os[os.len() - 1].0));
                lemma_merge_entry_other(m, last, os[i].0);
                assert(has_point(m[key_index(m, pre[i].0)].1, pre[i].1[j]));
            }
        }
    }
}

/// Merging a file makes the map hold no file that was in neither.
proof fn lemma_merge_entry_only(es: Entries, e: (Seq<char>, Seq<TraceView>), k: Seq<char>)
    requires
        wf_entries(es),
        has_key(merge_entry(es, e), k),
    ensures
        has_key(es, k) || same_path(e.0, k),
{
    let r = merge_entry(es, e);
    let j = key_index(r, k);
    if has_key(es, e.0) {
        let i = key_index(es, e.0);
        assert(r[j].0 == es[j].0);
    } else {
        lemma_key_insert_pos(es, e.0);
        let p = key_insert_pos(es, e.0);
        if j < p {
            assert(r[j] == es[j]);
        } else if j > p {
            assert(r[j] == es[j - 1]);
        }
    }
}

/// The files of a merge are those of either map.
proof fn lemma_merge_keys(es: Entries, os: Entries, k: Seq<char>)
    requires
        wf_entries(es),
        wf_entries(os),
    ensures
        has_key(merge_entries(es, os), k) <==> (has_key(es, k) || has_key(os, k)),
    decreases os.len(),
{
    lemma_merge_holds_all(es, os);
    if os.len() > 0 {
        let pre = os.drop_last();
        lemma_wf_prefix(os);
        lemma_merge_keys(es, pre, k);
        lemma_merge_entries_wf(es, pre);
        if has_key(merge_entries(es, os), k) {
            lemma_merge_entry_only(merge_entries(es, pre), os.last(), k);
            if has_key(pre, k) {
                let i = key_index(pre, k);
                assert(pre[i] == os[i]);
            }
            if same_path(os.last().0, k) {
                assert(same_path(os[os.len() - 1].0, k));
            }
        }
        if has_key(os, k) {
            let i = key_index(os, k);
            assert(has_key(merge_entries(es, os), os[i].0));
            assert(components(os[i].0) == components(k));
            let r = merge_entries(es, os);
            let q = key_index(r, os[i].0);
            assert(same_path(r[q].0, k));
        }
    } else {
        if has_key(os, k) {
            let i = key_index(os, k);
        }
    }
}

/// What a merge does, in one: the map stays well formed (its files sorted
/// by path, no path twice), its files are those of either map, each file
/// gains the hits of the other map's file (traces recording lines only,
/// and no count passing `u64::MAX`), every point (line and addresses) of
/// the other map's traces is recorded in the merged file, and a file the
/// other map does not hold keeps its traces.
pub proof fn lemma_merge_law(es: Entries, os: Entries)
    requires
        wf_entries(es),
        wf_entries(os),
        map_all_line(es),
        map_all_line(os),
        forall|f: Seq<char>| #[trigger] file_hits(es, f) + file_hits(os, f) <= u64::MAX,
    ensures
        wf_entries(merge_entries(es, os)),
        keys_sorted(merge_entries(es, os)),
        forall|k: Seq<char>| #[trigger] has_key(merge_entries(es, os), k) <==> (has_key(es, k) || has_key(os, k)),
        forall|k: Seq<char>| #[trigger] file_hits(merge_entries(es, os), k) == file_hits(es, k) + file_hits(os, k),
        forall|i: int, j: int|
            0 <= i < os.len() && 0 <= j < os[i].1.len() ==> has_point(
                merge_entries(es, os)[key_index(merge_entries(es, os), os[i].0)].1,
                #[trigger] os[i].1[j],
            ),
        forall|k: Seq<char>|
            has_key(es, k) && !has_key(os, k) ==> #[trigger] merge_entries(es, os)[key_index(
                merge_entries(es, os),
                k,
            )].1 == es[key_index(es, k)].1,
{
    lemma_merge_entries_wf(es, os);
    assert forall|k: Seq<char>| #[trigger] has_key(merge_entries(es, os), k) <==> (has_key(es, k) || has_key(os, k)) by {
        lemma_merge_keys(es, os, k);
    }
    assert forall|k: Seq<char>| #[trigger] file_hits(merge_entries(es, os), k) == file_hits(es, k) + file_hits(os, k) by {
        lemma_merge_adds_hits(es, os, k);
    }
    lemma_merge_points(es, os);
    assert forall|k: Seq<char>|
        has_key(es, k) && !has_key(os, k) implies #[trigger] merge_entries(es, os)[key_index(
            merge_entries(es, os),
            k,
        )].1 == es[key_index(es, k)].1 by {
        lemma_merge_keeps_others(es, os, k);
    }
}

/// A map without its last file is still well formed.
proof fn lemma_wf_prefix(os: Entries)
    requires
        wf_entries(os),
        os.len() > 0,
    ensures
        wf_entries(os.drop_last()),
{
    let pre = os.drop_last();
    assert forall|a: int, b: int| 0 <= a < b < pre.len() implies !same_path(#[trigger] pre[a].0, #[trigger] pre[b].0) by {
        assert(pre[a] == os[a] && pre[b] == os[b]);
    }
    assert forall|a: int| 0 <= a < pre.len() - 1 implies path_lt(#[trigger] pre[a].0, pre[a + 1].0) by {
        assert(pre[a] == os[a] && pre[a + 1] == os[a + 1]);
    }
    assert forall|a: int| 0 <= a < pre.len() implies lines_sorted(#[trigger] pre[a].1) by {
        assert(pre[a] == os[a]);
    }
}

/// After a merge the map holds every file it held and every file of the other map.
pub proof fn lemma_merge_holds_all(es: Entries, os: Entries)
    requires
        wf_entries(es),
        wf_entries(os),
    ensures
        forall|k: Seq<char>| has_key(es, k) ==> #[trigger] has_key(merge_entries(es, os), k),
        forall|i: int| 0 <= i < os.len() ==> has_key(merge_entries(es, os), #[trigger] os[i].0),
    decreases os.len(),
{
    if os.len() > 0 {
        let pre = os.drop_last();
        lemma_wf_prefix(os);
        lemma_merge_holds_all(es, pre);
        lemma_merge_entries_wf(es, pre);
        let m = merge_entries(es, pre);
        assert(lines_sorted(os[os.len() - 1].1));
        assert forall|k: Seq<char>| has_key(es, k) implies #[trigger] has_key(merge_entries(es, os), k) by {
            lemma_merge_entry_keeps(m, os.last(), k);
        }
        assert forall|i: int| 0 <= i < os.len() implies has_key(merge_entries(es, os), #[trigger] os[i].0) by {
            if i < os.len() - 1 {
                assert(pre[i] == os[i]);
                lemma_merge_entry_keeps(m, os.last(), os[i].0);
            } else {
                lemma_merge_entry_adds(m, os.last());
            }
        }
    }
}

/// Merging a map into an empty one gives that map.
pub proof fn lemma_merge_into_empty(os: Entries)
    requires
        wf_entries(os),
    ensures
        merge_entries(Seq::<(Seq<char>, Seq<TraceView>)>::empty(), os) == os,
    decreases os.len(),
{
    if os.len() > 0 {
        let pre = os.drop_last();
        lemma_wf_prefix(os);
        lemma_merge_into_empty(pre);
        let e = os.last();
        // The last file comes after all the others, so it is new and goes last.
        assert(!has_key(pre, e.0)) by {
            if has_key(pre, e.0) {
                let j = key_index(pre, e.0);
                assert(pre[j] == os[j]);
                assert(!same_path(os[j].0, os[os.len() - 1].0));
            }
        }
        if pre.len() > 0 {
            assert(pre.last() == os[os.len() - 2]);
            assert(path_lt(os[os.len() - 2].0, os[os.len() - 1].0));
        }
        assert(key_insert_pos(pre, e.0) == pre.len());
        assert(pre.insert(pre.len() as int, e) =~= os);
    }
}


/// The hits a trace records: its count where it counts line hits, else none.
pub open spec fn trace_hits(t: TraceView) -> int {
    match t.stats {
        StatView::Line(n) => n as int,
        _ => 0,
    }
}

/// The line hits a file's traces record together.
pub open spec fn line_hits(ts: Seq<TraceView>) -> int
    decreases ts.len(),
{
    if ts.len() == 0 {
        0
    } else {
        line_hits(ts.drop_last()) + trace_hits(ts.last())
    }
}

/// Every trace counts line hits.
pub open spec fn all_line(ts: Seq<TraceView>) -> bool {
    forall|i: int| 0 <= i < ts.len() ==> #[trigger] ts[i].stats is Line
}

/// The line hits of the file denoting `k`; none where the map lacks it.
pub open spec fn file_hits(es: Entries, k: Seq<char>) -> int {
    if has_key(es, k) {
        line_hits(es[key_index(es, k)].1)
    } else {
        0
    }
}

/// Every trace of the map counts line hits.
pub open spec fn map_all_line(es: Entries) -> bool {
    forall|i: int| 0 <= i < es.len() ==> all_line(#[trigger] es[i].1)
}

proof fn lemma_line_hits_nonneg_parts(ts: Seq<TraceView>, i: int)
    requires
        0 <= i < ts.len(),
    ensures
        0 <= trace_hits(ts[i]) <= line_hits(ts),
        line_hits(ts) >= 0,
    decreases ts.len(),
{
    lemma_line_hits_nonneg(ts.drop_last());
    if i < ts.len() - 1 {
        lemma_line_hits_nonneg_parts(ts.drop_last(), i);
        assert(ts.drop_last()[i] == ts[i]);
    }
}

proof fn lemma_line_hits_nonneg(ts: Seq<TraceView>)
    ensures
        line_hits(ts) >= 0,
    decreases ts.len(),
{
    if ts.len() > 0 {
        lemma_line_hits_nonneg(ts.drop_last());
    }
}

proof fn lemma_line_hits_update(ts: Seq<TraceView>, i: int, t: TraceView)
    requires
        0 <= i < ts.len(),
    ensures
        line_hits(ts.update(i, t)) == line_hits(ts) - trace_hits(ts[i]) + trace_hits(t),
    decreases ts.len(),
{
    let u = ts.update(i, t);
    if i == ts.len() - 1 {
        assert(u.drop_last() =~= ts.drop_last());
    } else {
        assert(u.drop_last() =~= ts.drop_last().update(i, t));
        lemma_line_hits_update(ts.drop_last(), i, t);
    }
}

proof fn lemma_line_hits_insert(ts: Seq<TraceView>, p: int, t: TraceView)
    requires
        0 <= p <= ts.len(),
    ensures
        line_hits(ts.insert(p, t)) == line_hits(ts) + trace_hits(t),
    decreases ts.len(),
{
    let u = ts.insert(p, t);
    if p == ts.len() {
        assert(u.drop_last() =~= ts);
    } else {
        assert(u.drop_last() =~= ts.drop_last().insert(p, t));
        lemma_line_hits_insert(ts.drop_last(), p, t);
    }
}

proof fn lemma_merge_one_hits(ts: Seq<TraceView>, v: TraceView)
    requires
        all_line(ts),
        v.stats is Line,
        line_hits(ts) + trace_hits(v) <= u64::MAX,
    ensures
        line_hits(merge_one(ts, v)) == line_hits(ts) + trace_hits(v),
        all_line(merge_one(ts, v)),
{
    if exists|i: int| first_same_point(ts, v, i) {
        let i = choose|i: int| first_same_point(ts, v, i);
        lemma_line_hits_nonneg_parts(ts, i);
        assert(ts[i].stats is Line);
        let t = with_stats(ts[i], stat_add(ts[i].stats, v.stats));
        lemma_line_hits_update(ts, i, t);
        let u = ts.update(i, t);
        assert forall|k: int| 0 <= k < u.len() implies #[trigger] u[k].stats is Line by {
            if k != i {
                assert(u[k] == ts[k]);
            }
        }
    } else {
        lemma_line_insert_pos(ts, v.line);
        lemma_line_hits_insert(ts, line_insert_pos(ts, v.line), v);
        let u = sorted_insert(ts, v);
        let p = line_insert_pos(ts, v.line);
        assert forall|k: int| 0 <= k < u.len() implies #[trigger] u[k].stats is Line by {
            if k < p {
                assert(u[k] == ts[k]);
            } else if k > p {
                assert(u[k] == ts[k - 1]);
            }
        }
    }
}

proof fn lemma_merge_file_hits(ts: Seq<TraceView>, vs: Seq<TraceView>)
    requires
        all_line(ts),
        all_line(vs),
        line_hits(ts) + line_hits(vs) <= u64::MAX,
    ensures
        line_hits(merge_file(ts, vs)) == line_hits(ts) + line_hits(vs),
        all_line(merge_file(ts, vs)),
    decreases vs.len(),
{
    if vs.len() > 0 {
        let pre = vs.drop_last();
        assert forall|k: int| 0 <= k < pre.len() implies #[trigger] pre[k].stats is Line by {
            assert(pre[k] == vs[k]);
        }
        assert(vs[vs.len() - 1].stats is Line);
        lemma_line_hits_nonneg_parts(vs, vs.len() - 1);
        lemma_line_hits_nonneg(pre);
        lemma_merge_file_hits(ts, pre);
        lemma_merge_one_hits(merge_file(ts, pre), vs.last());
    }
}

proof fn lemma_merge_entry_hits(es: Entries, e: (Seq<char>, Seq<TraceView>), k: Seq<char>)
    requires
        wf_entries(es),
        lines_sorted(e.1),
        map_all_line(es),
        all_line(e.1),
        file_hits(es, e.0) + line_hits(e.1) <= u64::MAX,
    ensures
        file_hits(merge_entry(es, e), k) == file_hits(es, k) + if same_path(e.0, k) {
            line_hits(e.1)
        } else {
            0
        },
        map_all_line(merge_entry(es, e)),
        wf_entries(merge_entry(es, e)),
{
    lemma_merge_entry_wf(es, e);
    let r = merge_entry(es, e);
    if has_key(es, e.0) {
        let i = key_index(es, e.0);
        lemma_key_index_unique(es, e.0, i);
        lemma_merge_file_hits(es[i].1, e.1);
        assert forall|a: int| 0 <= a < r.len() implies all_line(#[trigger] r[a].1) by {
            if a != i {
                assert(r[a] == es[a]);
            }
        }
        assert(r[i].0 == es[i].0);
        if has_key(es, k) {
            let j = key_index(es, k);
            assert(r[j].0 == es[j].0);
            lemma_key_index_unique(r, k, j);
            if same_path(e.0, k) {
                lemma_key_index_unique(es, k, i);
            } else if j == i {
                assert(same_path(es[i].0, k));
            } else {
                assert(r[j] == es[j]);
            }
        } else {
            if has_key(r, k) {
                let j = key_index(r, k);
                assert(r[j].0 == es[j].0);
            }
            if same_path(e.0, k) {
                assert(same_path(es[i].0, k));
            }
        }
    } else {
        lemma_key_insert_pos(es, e.0);
        lemma_insert_key(es, e.0, e.1);
        let p = key_insert_pos(es, e.0);
        assert forall|a: int| 0 <= a < r.len() implies all_line(#[trigger] r[a].1) by {
            if a < p {
                assert(r[a] == es[a]);
            } else if a > p {
                assert(r[a] == es[a - 1]);
            }
        }
        if same_path(e.0, k) {
            lemma_key_index_unique(r, k, p);
            if has_key(es, k) {
                let j = key_index(es, k);
                assert(same_path(es[j].0, e.0));
            }
        } else if has_key(es, k) {
            let j = key_index(es, k);
            if j < p {
                assert(r[j] == es[j]);
                lemma_key_index_unique(r, k, j);
            } else {
                assert(r[j + 1] == es[j]);
                lemma_key_index_unique(r, k, j + 1);
            }
        } else {
            if has_key(r, k) {
                let j = key_index(r, k);
                if j < p {
                    assert(r[j] == es[j]);
                } else if j > p {
                    assert(r[j] == es[j - 1]);
                }
            }
        }
    }
}

/// Merging two maps whose traces all count line hits adds, file by file,
/// the hits of the other map to those of the map, where no sum passes
/// `u64::MAX`.
pub proof fn lemma_merge_adds_hits(es: Entries, os: Entries, k: Seq<char>)
    requires
        wf_entries(es),
        wf_entries(os),
        map_all_line(es),
        map_all_line(os),
        forall|f: Seq<char>| #[trigger] file_hits(es, f) + file_hits(os, f) <= u64::MAX,
    ensures
        file_hits(merge_entries(es, os), k) == file_hits(es, k) + file_hits(os, k),
        map_all_line(merge_entries(es, os)),
    decreases os.len(),
{
    lemma_merge_hits_all(es, os);
}

/// The hits of a map's files, its last file set apart.
proof fn lemma_file_hits_split(os: Entries, f: Seq<char>)
    requires
        wf_entries(os),
        os.len() > 0,
    ensures
        file_hits(os, f) == file_hits(os.drop_last(), f) + if same_path(os.last().0, f) {
            line_hits(os.last().1)
        } else {
            0
        },
{
    let pre = os.drop_last();
    let n = os.len() - 1;
    lemma_wf_prefix(os);
    if same_path(os.last().0, f) {
        lemma_key_index_unique(os, f, n);
        if has_key(pre, f) {
            let j = key_index(pre, f);
            assert(pre[j] == os[j]);
            assert(!same_path(os[j].0, os[n].0));
        }
    } else if has_key(os, f) {
        let j = key_index(os, f);
        assert(j != n);
        assert(pre[j] == os[j]);
        lemma_key_index_unique(pre, f, j);
    } else if has_key(pre, f) {
        let j = key_index(pre, f);
        assert(pre[j] == os[j]);
    }
}

proof fn lemma_merge_hits_all(es: Entries, os: Entries)
    requires
        wf_entries(es),
        wf_entries(os),
        map_all_line(es),
        map_all_line(os),
        forall|f: Seq<char>| #[trigger] file_hits(es, f) + file_hits(os, f) <= u64::MAX,
    ensures
        forall|k: Seq<char>| #[trigger] file_hits(merge_entries(es, os), k) == file_hits(es, k) + file_hits(os, k),
        map_all_line(merge_entries(es, os)),
        wf_entries(merge_entries(es, os)),
    decreases os.len(),
{
    if os.len() == 0 {
        assert forall|k: Seq<char>| #[trigger] file_hits(merge_entries(es, os), k) == file_hits(es, k) + file_hits(os, k) by {
            assert(!has_key(os, k));
        }
    } else {
        let pre = os.drop_last();
        let e = os.last();
        lemma_wf_prefix(os);
        assert forall|a: int| 0 <= a < pre.len() implies all_line(#[trigger] pre[a].1) by {
            assert(pre[a] == os[a]);
        }
        assert(all_line(os[os.len() - 1].1));
        assert(lines_sorted(os[os.len() - 1].1));
        assert forall|f: Seq<char>| #[trigger] file_hits(es, f) + file_hits(pre, f) <= u64::MAX by {
            lemma_file_hits_split(os, f);
            lemma_line_hits_nonneg(e.1);
            assert(file_hits(es, f) + file_hits(os, f) <= u64::MAX);
        }
        lemma_merge_hits_all(es, pre);
        let m = merge_entries(es, pre);
        assert(file_hits(m, e.0) + line_hits(e.1) <= u64::MAX) by {
            lemma_file_hits_split(os, e.0);
            assert(file_hits(es, e.0) + file_hits(os, e.0) <= u64::MAX);
        }
        assert forall|k: Seq<char>| #[trigger] file_hits(merge_entries(es, os), k) == file_hits(es, k) + file_hits(os, k) by {
            lemma_merge_entry_hits(m, e, k);
            lemma_file_hits_split(os, k);
        }
        lemma_merge_entry_hits(m, e, e.0);
    }
}


} // verus!
