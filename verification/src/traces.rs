//! Coverage traces: the points of a program that can be covered, grouped
//! by source file, with the statistics gathered for each.
use vstd::prelude::*;
use std::collections::HashSet;
use vstd::std_specs::iter::IteratorSpec;
use crate::paths::{
    components, path_lt, same_path, path_eq, path_less, path_starts_with, lemma_comps_lt_total,
};

verus! {

broadcast use vstd::std_specs::hash::group_hash_axioms;

/// Used to track the state of logical conditions
#[derive(Debug, Clone, Copy, Default, Hash, PartialEq, Eq, Structural)]
pub struct LogicState {
    /// Whether the condition has been observed as true
    pub been_true: bool,
    /// Whether the condition has been observed as false
    pub been_false: bool,
}

/// The union of what two observations of a condition have seen.
pub open spec fn logic_add(a: LogicState, b: LogicState) -> LogicState {
    LogicState { been_true: a.been_true || b.been_true, been_false: a.been_false || b.been_false }
}

impl LogicState {
    /// Combines two observations of the same condition.
    pub fn add(&self, other: &LogicState) -> (res: LogicState)
        ensures
            res == logic_add(*self, *other),
    {
        LogicState {
            been_true: self.been_true || other.been_true,
            been_false: self.been_false || other.been_false,
        }
    }
}

/// Shows what type of coverage data is being collected by a given trace
#[derive(Debug, Clone, Hash, PartialEq, Eq)]
pub enum CoverageStat {
    /// Line coverage data (whether line has been hit)
    Line(u64),
    /// Branch coverage data (whether branch has been true and false
    Branch(LogicState),
    /// Condition coverage data (each boolean subcondition true and false)
    Condition(Vec<LogicState>),
}

/// The value of a coverage statistic.
pub enum StatView {
    Line(u64),
    Branch(LogicState),
    Condition(Seq<LogicState>),
}

impl View for CoverageStat {
    type V = StatView;

    open spec fn view(&self) -> StatView {
        match self {
            CoverageStat::Line(x) => StatView::Line(*x),
            CoverageStat::Branch(x) => StatView::Branch(*x),
            CoverageStat::Condition(x) => StatView::Condition(x@),
        }
    }
}

/// Addition of counters that wraps around past `u64::MAX`.
pub open spec fn wrap_add(a: u64, b: u64) -> u64 {
    if a + b > u64::MAX {
        (a + b - 0x1_0000_0000_0000_0000) as u64
    } else {
        (a + b) as u64
    }
}

/// Adding two statistics: hit counts add up (wrapping around past `u64::MAX`,
/// as release builds of the counter do), branch observations are combined, and
/// statistics of different kinds (or conditions) keep the left-hand side.
pub open spec fn stat_add(a: StatView, b: StatView) -> StatView {
    match (a, b) {
        (StatView::Line(l), StatView::Line(r)) => StatView::Line(wrap_add(l, r)),
        (StatView::Branch(l), StatView::Branch(r)) => StatView::Branch(logic_add(l, r)),
        _ => a,
    }
}

impl CoverageStat {
    /// A copy of this statistic.
    pub fn duplicate(&self) -> (res: CoverageStat)
        ensures
            res@ == self@,
    {
        match self {
            CoverageStat::Line(x) => CoverageStat::Line(*x),
            CoverageStat::Branch(x) => CoverageStat::Branch(*x),
            CoverageStat::Condition(v) => {
                let mut out: Vec<LogicState> = Vec::new();
                let mut i: usize = 0;
                while i < v.len()
                    invariant
                        i <= v.len(),
                        out@ =~= v@.take(i as int),
                    decreases v.len() - i,
                {
                    out.push(v[i]);
                    i = i + 1;
                }
                assert(v@.take(v.len() as int) =~= v@);
                CoverageStat::Condition(out)
            },
        }
    }

    /// Adds two statistics (see `stat_add`).
    pub fn add(self, other: CoverageStat) -> (res: CoverageStat)
        ensures
            res@ == stat_add(self@, other@),
    {
        match (self, other) {
            (CoverageStat::Line(l), CoverageStat::Line(r)) => CoverageStat::Line(l.wrapping_add(r)),
            (CoverageStat::Branch(l), CoverageStat::Branch(r)) => CoverageStat::Branch(l.add(&r)),
            (s, _) => s,
        }
    }
}

/// One coverable point of a program.
#[derive(Debug, PartialEq, Eq)]
pub struct Trace {
    /// Line the trace is on in the file
    pub line: u64,
    /// Optional address showing location in the test artefact
    pub address: HashSet<u64>,
    /// Length of the instruction (useful to get entire condition/branch)
    pub length: usize,
    /// Coverage stats
    pub stats: CoverageStat,
    /// Function name
    pub fn_name: Option<String>,
}

/// The value of a trace.
pub struct TraceView {
    pub line: u64,
    pub address: Set<u64>,
    pub length: usize,
    pub stats: StatView,
    pub fn_name: Option<Seq<char>>,
}

pub open spec fn opt_text(o: Option<String>) -> Option<Seq<char>> {
    match o {
        Some(s) => Some(s@),
        None => None,
    }
}

impl View for Trace {
    type V = TraceView;

    open spec fn view(&self) -> TraceView {
        TraceView {
            line: self.line,
            address: self.address@,
            length: self.length,
            stats: self.stats@,
            fn_name: opt_text(self.fn_name),
        }
    }
}

/// The values of a sequence of traces.
pub open spec fn tview(ts: Seq<Trace>) -> Seq<TraceView> {
    ts.map_values(|t: Trace| t@)
}

/// The values of a sequence of references to traces.
pub open spec fn rview(ts: Seq<&Trace>) -> Seq<TraceView> {
    ts.map_values(|t: &Trace| t@)
}

impl Clone for Trace {
    fn clone(&self) -> (res: Self)
        ensures
            res@ == self@,
    {
        self.duplicate()
    }
}

/// A copy of a set of addresses.
pub fn copy_addresses(a: &HashSet<u64>) -> (res: HashSet<u64>)
    ensures
        res@ == a@,
{
    let mut out: HashSet<u64> = HashSet::new();
    if a.is_empty() {
        assert(a@ =~= Set::<u64>::empty());
        return out;
    }
    for x in it: a.iter()
        invariant
            !a@.is_empty(),
            out@ == it.seq().take(it.index() as int).unref().to_set(),
            it.seq() == vstd::std_specs::hash::spec_hash_keys_iter(a).remaining(),
            it.seq().unref().to_set() == a@,
            it.index() == it.seq().len() ==> out@ == a@,
    {
        let ghost before = it.seq().take(it.index() as int).unref();
        out.insert(*x);
        assert(it.seq().take(it.index() + 1).unref() =~= before + seq![*x]);
        proof {
            Seq::lemma_to_set_insert_commutes(before, *x);
        }
        assert(it.index() + 1 == it.seq().len() ==> it.seq().take(it.index() + 1) =~= it.seq());
    }
    out
}

/// Whether every address of `a` is in `b`.
pub fn addresses_within(a: &HashSet<u64>, b: &HashSet<u64>) -> (res: bool)
    ensures
        res == a@.subset_of(b@),
{
    if a.is_empty() {
        return true;
    }
    for x in it: a.iter()
        invariant
            !a@.is_empty(),
            it.seq() == vstd::std_specs::hash::spec_hash_keys_iter(a).remaining(),
            it.seq().unref().to_set() == a@,
            forall|k: int| 0 <= k < it.index() ==> b@.contains(*it.seq()[k]),
            it.index() == it.seq().len() ==> a@.subset_of(b@),
    {
        if !b.contains(x) {
            assert(it.seq().unref()[it.index() as int] == *x);
            assert(a@.contains(*x));
            return false;
        }
        assert forall|y: u64| it.index() + 1 == it.seq().len() && a@.contains(y) implies b@.contains(y) by {
            let s = it.seq().unref();
            assert(s.to_set().contains(y));
            let k = choose|k: int| 0 <= k < s.len() && s[k] == y;
            assert(*it.seq()[k] == y);
        }
    }
    true
}

/// Whether two sets of addresses hold the same addresses.
pub fn same_addresses(a: &HashSet<u64>, b: &HashSet<u64>) -> (res: bool)
    ensures
        res == (a@ == b@),
{
    let r = addresses_within(a, b) && addresses_within(b, a);
    if r {
        assert(a@ =~= b@);
    }
    r
}

impl Trace {
    pub fn new(line: u64, address: HashSet<u64>, length: usize, fn_name: Option<String>) -> (res: Self)
        ensures
            res.line == line,
            res.address@ == address@,
            res.length == length,
            res.stats@ == StatView::Line(0),
            opt_text(res.fn_name) == opt_text(fn_name),
    {
        Self { line, address, length, stats: CoverageStat::Line(0), fn_name }
    }

    pub fn new_stub(line: u64) -> (res: Self)
        ensures
            res.line == line,
            res.address@ == Set::<u64>::empty(),
            res.length == 0,
            res.stats@ == StatView::Line(0),
            res.fn_name is None,
    {
        Self {
            line,
            address: HashSet::new(),
            length: 0,
            stats: CoverageStat::Line(0),
            fn_name: None,
        }
    }

    /// A copy of this trace.
    pub fn duplicate(&self) -> (res: Trace)
        ensures
            res@ == self@,
    {
        let name = match &self.fn_name {
            Some(s) => Some(s.clone()),
            None => None,
        };
        Trace {
            line: self.line,
            address: copy_addresses(&self.address),
            length: self.length,
            stats: self.stats.duplicate(),
            fn_name: name,
        }
    }
}

/// How many coverable points one trace has: one for a line, two for a branch
/// and two for each condition.
pub open spec fn coverable_of(t: TraceView) -> nat {
    match t.stats {
        StatView::Branch(_) => 2,
        StatView::Condition(x) => 2 * x.len(),
        StatView::Line(_) => 1,
    }
}

pub open spec fn logic_covered(x: LogicState) -> nat {
    (if x.been_true { 1nat } else { 0nat }) + (if x.been_false { 1nat } else { 0nat })
}

pub open spec fn conditions_covered(xs: Seq<LogicState>) -> nat
    decreases xs.len(),
{
    if xs.len() == 0 {
        0
    } else {
        conditions_covered(xs.drop_last()) + logic_covered(xs.last())
    }
}

/// How many of a trace's coverable points have been covered.
pub open spec fn covered_of(t: TraceView) -> nat {
    match t.stats {
        StatView::Branch(x) => logic_covered(x),
        StatView::Condition(xs) => conditions_covered(xs),
        StatView::Line(x) => if x > 0 { 1 } else { 0 },
    }
}

/// Total coverable points of a sequence of traces.
pub open spec fn coverable(ts: Seq<TraceView>) -> nat
    decreases ts.len(),
{
    if ts.len() == 0 {
        0
    } else {
        coverable(ts.drop_last()) + coverable_of(ts.last())
    }
}

/// Total covered points of a sequence of traces.
pub open spec fn covered(ts: Seq<TraceView>) -> nat
    decreases ts.len(),
{
    if ts.len() == 0 {
        0
    } else {
        covered(ts.drop_last()) + covered_of(ts.last())
    }
}

proof fn lemma_conditions_covered_bound(xs: Seq<LogicState>)
    ensures
        conditions_covered(xs) <= 2 * xs.len(),
    decreases xs.len(),
{
    if xs.len() > 0 {
        lemma_conditions_covered_bound(xs.drop_last());
    }
}

/// No trace has more covered points than coverable ones.
pub proof fn lemma_covered_le_coverable(ts: Seq<TraceView>)
    ensures
        covered(ts) <= coverable(ts),
    decreases ts.len(),
{
    if ts.len() > 0 {
        lemma_covered_le_coverable(ts.drop_last());
        match ts.last().stats {
            StatView::Condition(xs) => lemma_conditions_covered_bound(xs),
            _ => {},
        }
    }
}

/// Amount of data coverable in the provided slice traces
pub fn amount_coverable(traces: &[&Trace]) -> (res: usize)
    requires
        coverable(rview(traces@)) <= usize::MAX,
    ensures
        res == coverable(rview(traces@)),
{
    let mut result: usize = 0;
    let mut i: usize = 0;
    while i < traces.len()
        invariant
            i <= traces.len(),
            coverable(rview(traces@)) <= usize::MAX,
            result == coverable(rview(traces@).take(i as int)),
        decreases traces.len() - i,
    {
        let t = traces[i];
        assert(rview(traces@).take(i + 1).drop_last() =~= rview(traces@).take(i as int));
        proof {
            lemma_coverable_prefix(rview(traces@), i as int + 1);
        }
        let n: usize = match &t.stats {
            CoverageStat::Branch(_) => 2usize,
            CoverageStat::Condition(x) => x.len() * 2usize,
            _ => 1usize,
        };
        result = result + n;
        i = i + 1;
    }
    assert(rview(traces@).take(traces.len() as int) =~= rview(traces@));
    result
}

/// The coverable points of a prefix never exceed those of the whole.
pub proof fn lemma_coverable_prefix(ts: Seq<TraceView>, n: int)
    requires
        0 <= n <= ts.len(),
    ensures
        coverable(ts.take(n)) <= coverable(ts),
    decreases ts.len() - n,
{
    if n < ts.len() {
        lemma_coverable_prefix(ts, n + 1);
        assert(ts.take(n + 1).drop_last() =~= ts.take(n));
    } else {
        assert(ts.take(n) =~= ts);
    }
}

pub proof fn lemma_covered_prefix(ts: Seq<TraceView>, n: int)
    requires
        0 <= n <= ts.len(),
    ensures
        covered(ts.take(n)) <= covered(ts),
    decreases ts.len() - n,
{
    if n < ts.len() {
        lemma_covered_prefix(ts, n + 1);
        assert(ts.take(n + 1).drop_last() =~= ts.take(n));
    } else {
        assert(ts.take(n) =~= ts);
    }
}

fn conditions_hit(xs: &Vec<LogicState>) -> (res: usize)
    requires
        conditions_covered(xs@) <= usize::MAX,
    ensures
        res == conditions_covered(xs@),
{
    let mut acc: usize = 0;
    let mut i: usize = 0;
    while i < xs.len()
        invariant
            i <= xs.len(),
            conditions_covered(xs@) <= usize::MAX,
            acc == conditions_covered(xs@.take(i as int)),
        decreases xs.len() - i,
    {
        let x = xs[i];
        assert(xs@.take(i + 1).drop_last() =~= xs@.take(i as int));
        proof {
            lemma_conditions_prefix(xs@, i as int + 1);
        }
        acc = acc + (x.been_true as usize) + (x.been_false as usize);
        i = i + 1;
    }
    assert(xs@.take(xs.len() as int) =~= xs@);
    acc
}

proof fn lemma_conditions_prefix(xs: Seq<LogicState>, n: int)
    requires
        0 <= n <= xs.len(),
    ensures
        conditions_covered(xs.take(n)) <= conditions_covered(xs),
    decreases xs.len() - n,
{
    if n < xs.len() {
        lemma_conditions_prefix(xs, n + 1);
        assert(xs.take(n + 1).drop_last() =~= xs.take(n));
    } else {
        assert(xs.take(n) =~= xs);
    }
}

/// Amount of data covered in the provided trace slice
pub fn amount_covered(traces: &[&Trace]) -> (res: usize)
    requires
        covered(rview(traces@)) <= usize::MAX,
    ensures
        res == covered(rview(traces@)),
{
    let mut result: usize = 0;
    let mut i: usize = 0;
    while i < traces.len()
        invariant
            i <= traces.len(),
            covered(rview(traces@)) <= usize::MAX,
            result == covered(rview(traces@).take(i as int)),
        decreases traces.len() - i,
    {
        let t = traces[i];
        assert(rview(traces@).take(i + 1).drop_last() =~= rview(traces@).take(i as int));
        proof {
            lemma_covered_prefix(rview(traces@), i as int + 1);
        }
        let n: usize = match &t.stats {
            CoverageStat::Branch(x) => (x.been_true as usize) + (x.been_false as usize),
            CoverageStat::Condition(x) => conditions_hit(x),
            CoverageStat::Line(x) => (*x > 0) as usize,
        };
        result = result + n;
        i = i + 1;
    }
    assert(rview(traces@).take(traces.len() as int) =~= rview(traces@));
    result
}


/// The traces of one source file.
pub struct FileTraces {
    /// The path of the file
    pub path: String,
    /// Its traces, ordered by line
    pub traces: Vec<Trace>,
}

impl View for FileTraces {
    type V = (Seq<char>, Seq<TraceView>);

    open spec fn view(&self) -> (Seq<char>, Seq<TraceView>) {
        (self.path@, tview(self.traces@))
    }
}

/// The value of a trace map: its files in order, each with its traces.
pub type Entries = Seq<(Seq<char>, Seq<TraceView>)>;

pub open spec fn fview(v: Seq<FileTraces>) -> Entries {
    v.map_values(|f: FileTraces| f@)
}

/// No two files of the map denote the same path.
pub open spec fn keys_distinct(es: Entries) -> bool {
    forall|i: int, j: int| 0 <= i < j < es.len() ==> !same_path(#[trigger] es[i].0, #[trigger] es[j].0)
}

/// The files of the map are in ascending order of paths.
pub open spec fn keys_sorted(es: Entries) -> bool {
    forall|i: int| 0 <= i < es.len() - 1 ==> path_lt(#[trigger] es[i].0, es[i + 1].0)
}

/// The traces of a file are in ascending order of lines.
pub open spec fn lines_sorted(ts: Seq<TraceView>) -> bool {
    forall|i: int, j: int| 0 <= i < j < ts.len() ==> #[trigger] ts[i].line <= #[trigger] ts[j].line
}

pub open spec fn wf_entries(es: Entries) -> bool {
    &&& keys_distinct(es)
    &&& keys_sorted(es)
    &&& forall|i: int| 0 <= i < es.len() ==> lines_sorted(#[trigger] es[i].1)
}

/// The map holds a file denoting the path `k`.
pub open spec fn has_key(es: Entries, k: Seq<char>) -> bool {
    exists|i: int| 0 <= i < es.len() && same_path(#[trigger] es[i].0, k)
}

/// The index of the file denoting `k` (meaningful when `has_key`).
pub open spec fn key_index(es: Entries, k: Seq<char>) -> int {
    choose|i: int| 0 <= i < es.len() && same_path(#[trigger] es[i].0, k)
}

/// Where a new file `k` goes: after the last file that comes before it.
pub open spec fn key_insert_pos(es: Entries, k: Seq<char>) -> int
    decreases es.len(),
{
    if es.len() == 0 {
        0
    } else if path_lt(es.last().0, k) {
        es.len() as int
    } else {
        key_insert_pos(es.drop_last(), k)
    }
}

/// Where a new trace on `line` goes: after the last trace on a line not after it.
pub open spec fn line_insert_pos(ts: Seq<TraceView>, line: u64) -> int
    decreases ts.len(),
{
    if ts.len() == 0 {
        0
    } else if ts.last().line <= line {
        ts.len() as int
    } else {
        line_insert_pos(ts.drop_last(), line)
    }
}

/// A trace added to a file's traces, keeping them in order of lines.
pub open spec fn sorted_insert(ts: Seq<TraceView>, t: TraceView) -> Seq<TraceView> {
    ts.insert(line_insert_pos(ts, t.line), t)
}

/// All traces of the map, file after file.
pub open spec fn flat(es: Entries) -> Seq<TraceView>
    decreases es.len(),
{
    if es.len() == 0 {
        Seq::<TraceView>::empty()
    } else {
        flat(es.drop_last()) + es.last().1
    }
}

/// A prefix of the files holds no more traces than all of them.
pub proof fn lemma_flat_take_len(es: Entries, i: int)
    requires
        0 <= i <= es.len(),
    ensures
        flat(es.take(i)).len() <= flat(es).len(),
    decreases es.len(),
{
    if i == es.len() {
        assert(es.take(i) =~= es);
    } else {
        assert(es.drop_last().take(i) =~= es.take(i));
        lemma_flat_take_len(es.drop_last(), i);
    }
}

/// The traces of the files at or below the path `root`.
pub open spec fn child_flat(es: Entries, root: Seq<char>) -> Seq<TraceView>
    decreases es.len(),
{
    if es.len() == 0 {
        Seq::<TraceView>::empty()
    } else if components(root).is_prefix_of(components(es.last().0)) {
        child_flat(es.drop_last(), root) + es.last().1
    } else {
        child_flat(es.drop_last(), root)
    }
}

/// The traces of the files directly inside the folder `root`.
pub open spec fn dir_flat(es: Entries, root: Seq<char>) -> Seq<TraceView>
    decreases es.len(),
{
    if es.len() == 0 {
        Seq::<TraceView>::empty()
    } else if crate::paths::parent_spec(components(es.last().0)) == Some(components(root)) {
        dir_flat(es.drop_last(), root) + es.last().1
    } else {
        dir_flat(es.drop_last(), root)
    }
}

pub(crate) proof fn lemma_key_insert_pos(es: Entries, k: Seq<char>)
    ensures
        0 <= key_insert_pos(es, k) <= es.len(),
        key_insert_pos(es, k) > 0 ==> path_lt(es[key_insert_pos(es, k) - 1].0, k),
        key_insert_pos(es, k) < es.len() ==> !path_lt(es[key_insert_pos(es, k)].0, k),
    decreases es.len(),
{
    if es.len() > 0 && !path_lt(es.last().0, k) {
        lemma_key_insert_pos(es.drop_last(), k);
        let p = key_insert_pos(es.drop_last(), k);
        if p < es.len() - 1 {
            assert(es.drop_last()[p] == es[p]);
        }
        if p > 0 {
            assert(es.drop_last()[p - 1] == es[p - 1]);
        }
    }
}

pub(crate) proof fn lemma_line_insert_pos(ts: Seq<TraceView>, line: u64)
    ensures
        0 <= line_insert_pos(ts, line) <= ts.len(),
        lines_sorted(ts) ==> forall|i: int| 0 <= i < line_insert_pos(ts, line) ==> ts[i].line <= line,
        forall|i: int| line_insert_pos(ts, line) <= i < ts.len() ==> ts[i].line > line,
    decreases ts.len(),
{
    if ts.len() > 0 && !(ts.last().line <= line) {
        lemma_line_insert_pos(ts.drop_last(), line);
        let p = line_insert_pos(ts.drop_last(), line);
        assert forall|i: int| p <= i < ts.len() implies ts[i].line > line by {
            if i < ts.len() - 1 {
                assert(ts.drop_last()[i] == ts[i]);
            }
        }
        assert forall|i: int| lines_sorted(ts) && 0 <= i < p implies ts[i].line <= line by {
            assert(ts.drop_last()[i] == ts[i]);
        }
    } else if ts.len() > 0 {
        assert forall|i: int| lines_sorted(ts) && 0 <= i < ts.len() implies ts[i].line <= line by {
            if i < ts.len() - 1 {
                assert(ts[i].line <= ts[ts.len() - 1].line);
            }
        }
    }
}

/// Adding a trace keeps a file's traces in order of lines.
pub(crate) proof fn lemma_sorted_insert(ts: Seq<TraceView>, t: TraceView)
    requires
        lines_sorted(ts),
    ensures
        lines_sorted(sorted_insert(ts, t)),
        sorted_insert(ts, t).len() == ts.len() + 1,
{
    lemma_line_insert_pos(ts, t.line);
    let p = line_insert_pos(ts, t.line);
    let r = sorted_insert(ts, t);
    assert forall|i: int, j: int| 0 <= i < j < r.len() implies #[trigger] r[i].line <= #[trigger] r[j].line by {
        if j < p {
        } else if j == p {
        } else if i < p {
        } else if i == p {
            assert(r[j] == ts[j - 1]);
        } else {
            assert(r[i] == ts[i - 1]);
            assert(r[j] == ts[j - 1]);
        }
    }
}

/// Adding a new file at its place keeps the map well formed.
#[verifier::spinoff_prover]
#[verifier::rlimit(30)]
pub(crate) proof fn lemma_insert_key(es: Entries, k: Seq<char>, ts: Seq<TraceView>)
    requires
        wf_entries(es),
        !has_key(es, k),
        lines_sorted(ts),
    ensures
        wf_entries(es.insert(key_insert_pos(es, k), (k, ts))),
{
    lemma_key_insert_pos(es, k);
    let p = key_insert_pos(es, k);
    let r = es.insert(p, (k, ts));
    assert forall|i: int, j: int| 0 <= i < j < r.len() implies !same_path(#[trigger] r[i].0, #[trigger] r[j].0) by {
        if i == p {
            assert(r[j] == es[j - 1]);
            if same_path(r[i].0, r[j].0) {
                assert(same_path(es[j - 1].0, k));
            }
        } else if j == p {
            assert(r[i] == es[i]);
            if same_path(r[i].0, r[j].0) {
                assert(same_path(es[i].0, k));
            }
        } else {
            let ii = if i < p { i } else { i - 1 };
            let jj = if j < p { j } else { j - 1 };
            assert(r[i] == es[ii]);
            assert(r[j] == es[jj]);
        }
    }
    assert forall|i: int| 0 <= i < r.len() - 1 implies path_lt(#[trigger] r[i].0, r[i + 1].0) by {
        if i + 1 == p {
            assert(r[i] == es[i]);
        } else if i == p {
            assert(r[i + 1] == es[p]);
            lemma_comps_lt_total(components(es[p].0), components(k));
            assert(!same_path(es[p].0, k));
        } else if i < p {
            assert(r[i] == es[i]);
            assert(r[i + 1] == es[i + 1]);
        } else {
            assert(r[i] == es[i - 1]);
            assert(r[i + 1] == es[i]);
        }
    }
    assert forall|i: int| 0 <= i < r.len() implies lines_sorted(#[trigger] r[i].1) by {
        if i < p {
            assert(r[i] == es[i]);
        } else if i > p {
            assert(r[i] == es[i - 1]);
        }
    }
}

impl TraceMap {
    /// The files of the map in order, each with its traces.
    pub closed spec fn view_entries(&self) -> Entries {
        fview(self.traces@)
    }

    /// Whether the map is well formed: distinct paths in ascending order,
    /// each file's traces in ascending order of lines.
    pub open spec fn wf(&self) -> bool {
        wf_entries(self@)
    }
}

impl View for TraceMap {
    type V = Entries;

    open spec fn view(&self) -> Entries {
        self.view_entries()
    }
}

/// Stores all the program traces mapped to files and provides an interface to
/// add, query and change traces.
pub struct TraceMap {
    /// Traces in the program mapped to the given file
    traces: Vec<FileTraces>,
}

impl TraceMap {
    /// Create a new TraceMap
    pub fn new() -> (res: TraceMap)
        ensures
            res@ == Seq::<(Seq<char>, Seq<TraceView>)>::empty(),
            res.wf(),
    {
        let r = TraceMap { traces: Vec::new() };
        assert(r@ =~= Seq::<(Seq<char>, Seq<TraceView>)>::empty());
        r
    }

    /// Gives each trace of the file `file` its hits from the report `hits`,
    /// a line and its hits per entry; see `set_hits_spec`.
    pub fn set_line_hits(&mut self, file: &str, hits: &Vec<(u64, u64)>)
        requires
            old(self).wf(),
        ensures
            final(self).wf(),
            final(self)@ == set_hits_spec(old(self)@, file@, hits@),
    {
        match self.find_file(file) {
            None => {},
            Some(i) => {
                let ghost es0 = self@;
                let ghost ts0 = es0[i as int].1;
                let ghost target = ts0.map_values(|t: TraceView| with_report_hits(t, hits@));
                let n = self.traces[i].traces.len();
                let mut j: usize = 0;
                while j < n
                    invariant
                        i < self.traces@.len(),
                        self.traces@.len() == es0.len(),
                        n == ts0.len(),
                        target == ts0.map_values(|t: TraceView| with_report_hits(t, hits@)),
                        j <= n,
                        forall|k: int| 0 <= k < es0.len() && k != i ==> #[trigger] self.traces@[k]@ == es0[k],
                        self.traces@[i as int].path@ == es0[i as int].0,
                        tview(self.traces@[i as int].traces@).len() == n,
                        forall|k: int| 0 <= k < j ==> #[trigger] tview(self.traces@[i as int].traces@)[k] == target[k],
                        forall|k: int| j <= k < n ==> #[trigger] tview(self.traces@[i as int].traces@)[k] == ts0[k],
                    decreases n - j,
                {
                    let ghost before = self.traces@[i as int].traces@;
                    assert(tview(before)[j as int] == ts0[j as int]);
                    let line = self.traces[i].traces[j].line;
                    match lookup_hits(hits, line) {
                        Some(h) => {
                            let is_line = match self.traces[i].traces[j].stats {
                                CoverageStat::Line(_) => true,
                                _ => false,
                            };
                            if is_line {
                                self.traces[i].traces[j].stats = CoverageStat::Line(h);
                            }
                        },
                        None => {},
                    }
                    proof {
                        let after = self.traces@[i as int].traces@;
                        assert(after.len() == before.len());
                        assert(after[j as int]@ == with_report_hits(ts0[j as int], hits@));
                        assert forall|k: int| 0 <= k < n && k != j implies after[k] == before[k] by {}
                        assert(target.len() == n);
                        assert forall|k: int| 0 <= k < j + 1 implies #[trigger] tview(after)[k] == target[k] by {
                            assert(tview(after)[k] == after[k]@);
                            assert(target[k] == with_report_hits(ts0[k], hits@));
                            if k != j {
                                assert(after[k] == before[k]);
                                assert(tview(before)[k] == before[k]@);
                                assert(tview(before)[k] == target[k]);
                            }
                        }
                        assert forall|k: int| j + 1 <= k < n implies #[trigger] tview(after)[k] == ts0[k] by {
                            assert(after[k] == before[k]);
                            assert(tview(after)[k] == after[k]@);
                            assert(tview(before)[k] == before[k]@);
                            assert(tview(before)[k] == ts0[k]);
                        }
                    }
                    j = j + 1;
                }
                proof {
                    assert(tview(self.traces@[i as int].traces@) =~= target);
                    assert(lines_sorted(target)) by {
                        assert forall|a: int, b: int| 0 <= a < b < target.len() implies #[trigger] target[a].line
                            <= #[trigger] target[b].line by {
                            assert(ts0[a].line <= ts0[b].line);
                        }
                    }
                    lemma_update_traces(es0, i as int, target);
                    assert(self@ =~= update_traces(es0, i as int, target));
                }
            },
        }
    }

    /// Returns true if there are no traces
    pub fn is_empty(&self) -> (res: bool)
        ensures
            res == (flat(self@).len() == 0),
    {
        let mut i: usize = 0;
        while i < self.traces.len()
            invariant
                i <= self.traces@.len(),
                flat(self@.take(i as int)).len() == 0,
            decreases self.traces@.len() - i,
        {
            proof {
                assert(self@.take(i + 1).drop_last() =~= self@.take(i as int));
                assert(self@.take(i + 1).last() == self@[i as int]);
            }
            if self.traces[i].traces.len() > 0 {
                proof {
                    lemma_flat_take_len(self@, i + 1);
                }
                return false;
            }
            i = i + 1;
        }
        assert(self@.take(self.traces@.len() as int) =~= self@);
        true
    }

    /// The files of the map, in ascending order of paths, each with its traces.
    pub fn iter(&self) -> (res: &Vec<FileTraces>)
        ensures
            fview(res@) == self@,
    {
        &self.traces
    }

    /// The index of the file denoting `file`, if there is one.
    pub fn find_file(&self, file: &str) -> (res: Option<usize>)
        requires
            self.wf(),
        ensures
            res is Some <==> has_key(self@, file@),
            res matches Some(i) ==> i < self@.len() && same_path(self@[i as int].0, file@)
                && key_index(self@, file@) == i,
    {
        let mut i: usize = 0;
        while i < self.traces.len()
            invariant
                self.wf(),
                i <= self.traces.len(),
                forall|k: int| 0 <= k < i ==> !same_path(#[trigger] self@[k].0, file@),
            decreases self.traces.len() - i,
        {
            if path_eq(self.traces[i].path.as_str(), file) {
                assert(same_path(self@[i as int].0, file@));
                proof {
                    let c = key_index(self@, file@);
                    assert(0 <= c < self@.len() && same_path(self@[c].0, file@));
                    if c != i as int {
                        assert(same_path(self@[c].0, self@[i as int].0));
                        if c < i as int {
                            assert(!same_path(self@[c].0, self@[i as int].0));
                        } else {
                            assert(!same_path(self@[i as int].0, self@[c].0));
                        }
                    }
                }
                return Some(i);
            }
            i = i + 1;
        }
        None
    }

    /// Returns true if the file is among the traces
    pub fn contains_file(&self, file: &str) -> (res: bool)
        requires
            self.wf(),
        ensures
            res == has_key(self@, file@),
    {
        self.find_file(file).is_some()
    }

    /// Returns true if the location described by file and line number is present
    /// in the tracemap
    pub fn contains_location(&self, file: &str, line: u64) -> (res: bool)
        requires
            self.wf(),
        ensures
            res == contains_location_spec(self@, file@, line),
    {
        match self.find_file(file) {
            None => false,
            Some(i) => {
                let ts = &self.traces[i].traces;
                let mut j: usize = 0;
                while j < ts.len()
                    invariant
                        self.wf(),
                        i < self@.len(),
                        key_index(self@, file@) == i,
                        has_key(self@, file@),
                        j <= ts.len(),
                        ts@ == self.traces@[i as int].traces@,
                        forall|k: int| 0 <= k < j ==> #[trigger] self@[i as int].1[k].line != line,
                    decreases ts.len() - j,
                {
                    if ts[j].line == line {
                        assert(self@[key_index(self@, file@)].1[j as int].line == line);
                        return true;
                    }
                    j = j + 1;
                }
                false
            },
        }
    }

    /// Adds a file with no traces, unless the map holds it already.
    pub fn add_file(&mut self, file: &str)
        requires
            old(self).wf(),
        ensures
            final(self).wf(),
            final(self)@ == add_file_spec(old(self)@, file@),
    {
        if self.find_file(file).is_none() {
            let pos = self.insert_pos(file);
            let entry = FileTraces { path: file.to_string(), traces: Vec::new() };
            assert(entry@ =~= (file@, Seq::<TraceView>::empty()));
            proof {
                lemma_insert_key(self@, file@, Seq::<TraceView>::empty());
                lemma_key_insert_pos(self@, file@);
            }
            self.traces.insert(pos, entry);
            assert(self@ =~= old(self)@.insert(key_insert_pos(old(self)@, file@), (file@, Seq::<TraceView>::empty())));
        }
    }

    /// Where a new file goes.
    fn insert_pos(&self, file: &str) -> (res: usize)
        ensures
            res == key_insert_pos(self@, file@),
    {
        let mut p: usize = self.traces.len();
        assert(self@.take(p as int) =~= self@);
        while p > 0 && !path_less(self.traces[p - 1].path.as_str(), file)
            invariant
                p <= self@.len(),
                key_insert_pos(self@.take(p as int), file@) == key_insert_pos(self@, file@),
            decreases p,
        {
            assert(self@.take(p as int).drop_last() =~= self@.take(p - 1));
            p = p - 1;
        }
        assert(self@.take(0) =~= Seq::<(Seq<char>, Seq<TraceView>)>::empty());
        p
    }

    /// Where a trace on `line` goes among the traces of file `i`.
    fn line_pos(ts: &Vec<Trace>, line: u64) -> (res: usize)
        ensures
            res == line_insert_pos(tview(ts@), line),
    {
        let ghost tv = tview(ts@);
        let mut p: usize = ts.len();
        assert(tv.take(p as int) =~= tv);
        while p > 0 && !(ts[p - 1].line <= line)
            invariant
                p <= ts@.len(),
                tv == tview(ts@),
                line_insert_pos(tv.take(p as int), line) == line_insert_pos(tv, line),
            decreases p,
        {
            assert(tv.take(p as int).drop_last() =~= tv.take(p - 1));
            p = p - 1;
        }
        assert(tv.take(0) =~= Seq::<TraceView>::empty());
        p
    }

    /// Add a trace to the tracemap for the given file
    pub fn add_trace(&mut self, file: &str, trace: Trace)
        requires
            old(self).wf(),
        ensures
            final(self).wf(),
            final(self)@ == add_trace_spec(old(self)@, file@, trace@),
    {
        match self.find_file(file) {
            Some(i) => {
                let p = Self::line_pos(&self.traces[i].traces, trace.line);
                proof {
                    lemma_line_insert_pos(self@[i as int].1, trace.line);
                    lemma_sorted_insert(self@[i as int].1, trace@);
                    lemma_update_traces(self@, i as int, sorted_insert(self@[i as int].1, trace@));
                }
                let ghost tv = trace@;
                self.traces[i].traces.insert(p, trace);
                assert(self.traces@[i as int].traces@ =~= old(self).traces@[i as int].traces@.insert(p as int, trace));
                assert(tview(self.traces@[i as int].traces@) =~= sorted_insert(old(self)@[i as int].1, tv));
                assert(self@ =~= update_traces(old(self)@, i as int, sorted_insert(old(self)@[i as int].1, tv)));
            },
            None => {
                let pos = self.insert_pos(file);
                let mut v: Vec<Trace> = Vec::new();
                let ghost tv = trace@;
                v.push(trace);
                let entry = FileTraces { path: file.to_string(), traces: v };
                assert(entry@ =~= (file@, seq![tv]));
                proof {
                    lemma_insert_key(self@, file@, seq![tv]);
                    lemma_key_insert_pos(self@, file@);
                }
                self.traces.insert(pos, entry);
                assert(self@ =~= old(self)@.insert(key_insert_pos(old(self)@, file@), (file@, seq![tv])));
            },
        }
    }
}

/// Whether the map holds a trace on `line` in the file denoting `k`.
pub open spec fn contains_location_spec(es: Entries, k: Seq<char>, line: u64) -> bool {
    has_key(es, k) && exists|j: int| 0 <= j < es[key_index(es, k)].1.len()
        && #[trigger] es[key_index(es, k)].1[j].line == line
}

/// The map with a file without traces added at its place, unless it holds it already.
pub open spec fn add_file_spec(es: Entries, k: Seq<char>) -> Entries {
    if has_key(es, k) {
        es
    } else {
        es.insert(key_insert_pos(es, k), (k, Seq::<TraceView>::empty()))
    }
}

/// The map with a trace added, in order of lines, to the file denoting `k`;
/// a file with just that trace is added at its place where there is none.
pub open spec fn add_trace_spec(es: Entries, k: Seq<char>, t: TraceView) -> Entries {
    if has_key(es, k) {
        update_traces(es, key_index(es, k), sorted_insert(es[key_index(es, k)].1, t))
    } else {
        es.insert(key_insert_pos(es, k), (k, seq![t]))
    }
}

/// The map with the traces of file `i` replaced.
pub open spec fn update_traces(es: Entries, i: int, ts: Seq<TraceView>) -> Entries {
    es.update(i, (es[i].0, ts))
}

/// Replacing one file's traces by ordered ones keeps the map well formed.
pub(crate) proof fn lemma_update_traces(es: Entries, i: int, ts: Seq<TraceView>)
    requires
        wf_entries(es),
        0 <= i < es.len(),
        lines_sorted(ts),
    ensures
        wf_entries(update_traces(es, i, ts)),
{
    let r = update_traces(es, i, ts);
    assert forall|a: int, b: int| 0 <= a < b < r.len() implies !same_path(#[trigger] r[a].0, #[trigger] r[b].0) by {
        assert(r[a].0 == es[a].0);
        assert(r[b].0 == es[b].0);
    }
    assert forall|a: int| 0 <= a < r.len() - 1 implies path_lt(#[trigger] r[a].0, r[a + 1].0) by {
        assert(r[a].0 == es[a].0);
        assert(r[a + 1].0 == es[a + 1].0);
    }
}


/// `i` is the first trace of `ts` at `address`.
pub open spec fn first_at_address(ts: Seq<TraceView>, address: u64, i: int) -> bool {
    &&& 0 <= i < ts.len()
    &&& ts[i].address.contains(address)
    &&& forall|k: int| 0 <= k < i ==> !(#[trigger] ts[k].address.contains(address))
}

/// Replacing one file or one trace changes the view in that place only.
proof fn lemma_update_views()
    ensures
        forall|s: Seq<FileTraces>, i: int, x: FileTraces|
            0 <= i < s.len() ==> #[trigger] fview(s.update(i, x)) == fview(s).update(i, x@),
        forall|ts: Seq<Trace>, j: int, t: Trace|
            0 <= j < ts.len() ==> #[trigger] tview(ts.update(j, t)) == tview(ts).update(j, t@),
{
    assert forall|s: Seq<FileTraces>, i: int, x: FileTraces|
        0 <= i < s.len() implies #[trigger] fview(s.update(i, x)) == fview(s).update(i, x@) by {
        assert(fview(s.update(i, x)) =~= fview(s).update(i, x@));
    }
    assert forall|ts: Seq<Trace>, j: int, t: Trace|
        0 <= j < ts.len() implies #[trigger] tview(ts.update(j, t)) == tview(ts).update(j, t@) by {
        assert(tview(ts.update(j, t)) =~= tview(ts).update(j, t@));
    }
}

/// The trace at place `j` of file `i` is the first at `address`, file by
/// file and within a file in order.
pub open spec fn first_location(es: Entries, address: u64, i: int, j: int) -> bool {
    &&& 0 <= i < es.len()
    &&& 0 <= j < es[i].1.len()
    &&& es[i].1[j].address.contains(address)
    &&& forall|a: int, b: int|
        0 <= a < es.len() && 0 <= b < es[a].1.len() && (a < i || (a == i && b < j)) ==> !(
        #[trigger] es[a].1[b]).address.contains(address)
}

/// A trace after one hit at `address`: line counters of traces at that
/// address go up by one (wrapping past `u64::MAX`); other traces are unchanged.
pub open spec fn hit_trace(t: TraceView, address: u64) -> TraceView {
    if t.address.contains(address) {
        match t.stats {
            StatView::Line(x) => TraceView {
                stats: StatView::Line(wrap_add(x, 1)),
                ..t
            },
            _ => t,
        }
    } else {
        t
    }
}

pub open spec fn hit_entries(es: Entries, address: u64) -> Entries {
    es.map_values(|e: (Seq<char>, Seq<TraceView>)| (e.0, e.1.map_values(|t: TraceView| hit_trace(t, address))))
}

proof fn lemma_flat_push(es: Entries, e: (Seq<char>, Seq<TraceView>))
    ensures
        flat(es.push(e)) == flat(es) + e.1,
{
    assert(es.push(e).drop_last() =~= es);
}

impl TraceMap {
    /// The paths of the files, in order.
    pub fn files(&self) -> (res: Vec<&String>)
        ensures
            res@.map_values(|s: &String| s@) == self@.map_values(|e: (Seq<char>, Seq<TraceView>)| e.0),
    {
        let mut res: Vec<&String> = Vec::new();
        let mut i: usize = 0;
        while i < self.traces.len()
            invariant
                i <= self.traces.len(),
                res@.map_values(|s: &String| s@) =~= self@.take(i as int).map_values(|e: (Seq<char>, Seq<TraceView>)| e.0),
            decreases self.traces.len() - i,
        {
            let ghost old_v = res@.map_values(|s: &String| s@);
            res.push(&self.traces[i].path);
            assert(res@.map_values(|s: &String| s@) =~= old_v.push(self@[i as int].0));
            i = i + 1;
        }
        assert(self@.take(self.traces.len() as int) =~= self@);
        res
    }

    /// Gets all traces
    pub fn all_traces(&self) -> (res: Vec<&Trace>)
        ensures
            rview(res@) == flat(self@),
    {
        let mut res: Vec<&Trace> = Vec::new();
        let mut i: usize = 0;
        assert(self@.take(0) =~= Seq::<(Seq<char>, Seq<TraceView>)>::empty());
        while i < self.traces.len()
            invariant
                i <= self.traces.len(),
                rview(res@) =~= flat(self@.take(i as int)),
            decreases self.traces.len() - i,
        {
            let ts = &self.traces[i].traces;
            let ghost start = rview(res@);
            let mut j: usize = 0;
            while j < ts.len()
                invariant
                    j <= ts.len(),
                    i < self@.len(),
                    tview(ts@) == self@[i as int].1,
                    rview(res@) =~= start + self@[i as int].1.take(j as int),
                decreases ts.len() - j,
            {
                let ghost old_v = rview(res@);
                res.push(&ts[j]);
                assert(rview(res@) =~= old_v.push(self@[i as int].1[j as int]));
                j = j + 1;
            }
            assert(self@[i as int].1.take(ts.len() as int) =~= self@[i as int].1);
            proof {
                lemma_flat_push(self@.take(i as int), self@[i as int]);
            }
            assert(self@.take(i + 1) =~= self@.take(i as int).push(self@[i as int]));
            i = i + 1;
        }
        assert(self@.take(self.traces.len() as int) =~= self@);
        res
    }

    /// Gets all traces below a certain path
    pub fn get_child_traces(&self, root: &str) -> (res: Vec<&Trace>)
        ensures
            rview(res@) == child_flat(self@, root@),
    {
        let mut res: Vec<&Trace> = Vec::new();
        let mut i: usize = 0;
        assert(self@.take(0) =~= Seq::<(Seq<char>, Seq<TraceView>)>::empty());
        while i < self.traces.len()
            invariant
                i <= self.traces.len(),
                rview(res@) =~= child_flat(self@.take(i as int), root@),
            decreases self.traces.len() - i,
        {
            assert(self@.take(i + 1).drop_last() =~= self@.take(i as int));
            if path_starts_with(self.traces[i].path.as_str(), root) {
                let ts = &self.traces[i].traces;
                let ghost start = rview(res@);
                let mut j: usize = 0;
                while j < ts.len()
                    invariant
                        j <= ts.len(),
                        i < self@.len(),
                        tview(ts@) == self@[i as int].1,
                        rview(res@) =~= start + self@[i as int].1.take(j as int),
                    decreases ts.len() - j,
                {
                    let ghost old_v = rview(res@);
                    res.push(&ts[j]);
                    assert(rview(res@) =~= old_v.push(self@[i as int].1[j as int]));
                    j = j + 1;
                }
                assert(self@[i as int].1.take(ts.len() as int) =~= self@[i as int].1);
            }
            i = i + 1;
        }
        assert(self@.take(self.traces.len() as int) =~= self@);
        res
    }

    /// Gets the traces of the files directly inside the folder `root`.
    pub fn get_dir_traces(&self, root: &str) -> (res: Vec<&Trace>)
        ensures
            rview(res@) == dir_flat(self@, root@),
    {
        let rc = crate::paths::path_components(root);
        let mut res: Vec<&Trace> = Vec::new();
        let mut i: usize = 0;
        assert(self@.take(0) =~= Seq::<(Seq<char>, Seq<TraceView>)>::empty());
        while i < self.traces.len()
            invariant
                i <= self.traces.len(),
                crate::paths::comps_view(rc@) == components(root@),
                rview(res@) =~= dir_flat(self@.take(i as int), root@),
            decreases self.traces.len() - i,
        {
            assert(self@.take(i + 1).drop_last() =~= self@.take(i as int));
            let kc = crate::paths::path_components(self.traces[i].path.as_str());
            let par = crate::paths::comps_parent(&kc);
            let is_in = match &par {
                Some(p) => crate::paths::comps_eq(p, &rc),
                None => false,
            };
            if is_in {
                let ts = &self.traces[i].traces;
                let ghost start = rview(res@);
                let mut j: usize = 0;
                while j < ts.len()
                    invariant
                        j <= ts.len(),
                        i < self@.len(),
                        tview(ts@) == self@[i as int].1,
                        rview(res@) =~= start + self@[i as int].1.take(j as int),
                    decreases ts.len() - j,
                {
                    let ghost old_v = rview(res@);
                    res.push(&ts[j]);
                    assert(rview(res@) =~= old_v.push(self@[i as int].1[j as int]));
                    j = j + 1;
                }
                assert(self@[i as int].1.take(ts.len() as int) =~= self@[i as int].1);
            }
            i = i + 1;
        }
        assert(self@.take(self.traces.len() as int) =~= self@);
        res
    }

    /// Gets all traces in folder, doesn't go into other folders for that you
    /// want get_child_traces. When `root` names a file, its own traces.
    pub fn get_traces(&self, root: &str) -> (res: Vec<&Trace>)
        ensures
            rview(res@) == child_flat(self@, root@) || rview(res@) == dir_flat(self@, root@),
    {
        if crate::text::path_is_file(root) {
            self.get_child_traces(root)
        } else {
            self.get_dir_traces(root)
        }
    }

    /// Gets an immutable reference to a trace from an address. Returns None if
    /// there is no trace at that address
    pub fn get_trace(&self, address: u64) -> (res: Option<&Trace>)
        ensures
            res is None <==> forall|k: int| 0 <= k < flat(self@).len() ==> !(#[trigger] flat(self@)[k].address.contains(address)),
            res matches Some(t) ==> exists|i: int| first_at_address(flat(self@), address, i) && flat(self@)[i] == t@,
    {
        let all = self.all_traces();
        let ghost fl = flat(self@);
        let mut i: usize = 0;
        while i < all.len()
            invariant
                i <= all.len(),
                rview(all@) == fl,
                fl == flat(self@),
                forall|k: int| 0 <= k < i ==> !(#[trigger] fl[k].address.contains(address)),
            decreases all.len() - i,
        {
            if all[i].address.contains(&address) {
                assert(fl[i as int] == all@[i as int]@);
                assert(first_at_address(fl, address, i as int));
                return Some(all[i]);
            }
            i = i + 1;
        }
        None
    }

    /// The first trace at address `address`, file by file and within a file
    /// in order, to change in place. Where one is found, the map afterwards
    /// is the map with that trace replaced by whatever it was changed to;
    /// otherwise no trace is at `address` and the map is unchanged.
    pub fn get_trace_mut(&mut self, address: u64) -> (res: Option<&mut Trace>)
        ensures
            match res {
                Some(t) => exists|i: int, j: int|
                    first_location(old(self)@, address, i, j) && (*t)@ == old(self)@[i].1[j] && final(self)@ == old(
                        self,
                    )@.update(i, (old(self)@[i].0, old(self)@[i].1.update(j, (*final(t))@))),
                None => (forall|a: int, b: int|
                    0 <= a < old(self)@.len() && 0 <= b < old(self)@[a].1.len() ==> !(
                    #[trigger] old(self)@[a].1[b]).address.contains(address)) && final(self)@ == old(self)@,
            },
    {
        let ghost es = self@;
        let mut i: usize = 0;
        while i < self.traces.len()
            invariant
                i <= self.traces.len(),
                es == self@,
                self.traces@ == old(self).traces@,
                es == fview(self.traces@),
                forall|a: int, b: int|
                    0 <= a < i && 0 <= b < es[a].1.len() ==> !(#[trigger] es[a].1[b]).address.contains(address),
            decreases self.traces.len() - i,
        {
            let mut j: usize = 0;
            let mut found = false;
            assert(es[i as int] == self.traces@[i as int]@);
            while j < self.traces[i].traces.len()
                invariant_except_break
                    !found,
                invariant
                    i < self.traces.len(),
                    j <= self.traces@[i as int].traces@.len(),
                    es == fview(self.traces@),
                    es[i as int] == self.traces@[i as int]@,
                    forall|b: int| 0 <= b < j ==> !(#[trigger] es[i as int].1[b]).address.contains(address),
                ensures
                    found ==> j < es[i as int].1.len() && es[i as int].1[j as int].address.contains(address),
                    !found ==> j == es[i as int].1.len(),
                decreases self.traces@[i as int].traces@.len() - j,
            {
                assert(es[i as int].1[j as int] == self.traces@[i as int].traces@[j as int]@);
                if self.traces[i].traces[j].address.contains(&address) {
                    found = true;
                    break;
                }
                j = j + 1;
            }
            if found {
                assert(first_location(es, address, i as int, j as int));
                proof {
                    lemma_update_views();
                }
                let ft = &mut self.traces[i];
                return Some(&mut ft.traces[j]);
            }
            i = i + 1;
        }
        None
    }

    /// Counts one hit at `address`: every line trace at that address gains a hit.
    pub fn increment_hit(&mut self, address: u64)
        requires
            old(self).wf(),
        ensures
            final(self).wf(),
            final(self)@ == hit_entries(old(self)@, address),
    {
        let ghost es0 = self@;
        let mut i: usize = 0;
        while i < self.traces.len()
            invariant
                i <= self.traces.len(),
                self.traces.len() == es0.len(),
                wf_entries(es0),
                forall|k: int| 0 <= k < i ==> #[trigger] self@[k] == hit_entries(es0, address)[k],
                forall|k: int| i <= k < self.traces.len() ==> #[trigger] self@[k] == es0[k],
            decreases self.traces.len() - i,
        {
            let mut j: usize = 0;
            let ghost e0 = es0[i as int];
            while j < self.traces[i].traces.len()
                invariant
                    i < self.traces.len(),
                    self.traces.len() == es0.len(),
                    e0 == es0[i as int],
                    j <= self.traces[i as int].traces.len(),
                    self@[i as int].0 == e0.0,
                    self@[i as int].1.len() == e0.1.len(),
                    forall|m: int| 0 <= m < j ==> #[trigger] self@[i as int].1[m] == hit_trace(e0.1[m], address),
                    forall|m: int| j <= m < e0.1.len() ==> #[trigger] self@[i as int].1[m] == e0.1[m],
                    forall|k: int| 0 <= k < i ==> #[trigger] self@[k] == hit_entries(es0, address)[k],
                    forall|k: int| i < k < self.traces.len() ==> #[trigger] self@[k] == es0[k],
                decreases self.traces[i as int].traces.len() - j,
            {
                let ghost before = self.traces@;
                let ghost t0 = before[i as int].traces@[j as int];
                let ghost bview = self@;
                assert(bview[i as int].1[j as int] == e0.1[j as int]);
                assert(bview[i as int].1[j as int] == t0@);
                let hit = self.traces[i].traces[j].address.contains(&address);
                if hit {
                    match self.traces[i].traces[j].stats {
                        CoverageStat::Line(x) => {
                            self.traces[i].traces[j].stats = CoverageStat::Line(x.wrapping_add(1));
                            assert(self.traces@[i as int].traces@ == before[i as int].traces@.update(
                                j as int, Trace { stats: CoverageStat::Line(x.wrapping_add(1)), ..t0 }));
                        },
                        _ => {
                            assert(self.traces@ == before);
                        },
                    }
                } else {
                    assert(self.traces@ == before);
                }
                assert(self.traces@.len() == before.len());
                assert(forall|k: int| 0 <= k < before.len() && k != i ==> self.traces@[k] == before[k]);
                assert(self.traces@[i as int].path == before[i as int].path);
                assert(self.traces@[i as int].traces@.len() == before[i as int].traces@.len());
                assert(forall|m: int| 0 <= m < before[i as int].traces@.len() && m != j ==>
                    self.traces@[i as int].traces@[m] == before[i as int].traces@[m]);
                assert(self@[i as int].1[j as int] =~= hit_trace(e0.1[j as int], address));
                assert forall|m: int| 0 <= m < j implies #[trigger] self@[i as int].1[m] == hit_trace(e0.1[m], address) by {
                    assert(self.traces@[i as int].traces@[m] == before[i as int].traces@[m]);
                    assert(bview[i as int].1[m] == hit_trace(e0.1[m], address));
                }
                assert forall|m: int| j < m < e0.1.len() implies #[trigger] self@[i as int].1[m] == e0.1[m] by {
                    assert(self.traces@[i as int].traces@[m] == before[i as int].traces@[m]);
                    assert(bview[i as int].1[m] == e0.1[m]);
                }
                assert forall|k: int| 0 <= k < i implies #[trigger] self@[k] == hit_entries(es0, address)[k] by {
                    assert(self.traces@[k] == before[k]);
                    assert(bview[k] == hit_entries(es0, address)[k]);
                }
                assert forall|k: int| i < k < self.traces.len() implies #[trigger] self@[k] == es0[k] by {
                    assert(self.traces@[k] == before[k]);
                    assert(bview[k] == es0[k]);
                }
                j = j + 1;
            }
            assert(self@[i as int].1 =~= e0.1.map_values(|t: TraceView| hit_trace(t, address)));
            i = i + 1;
        }
        assert(self@ =~= hit_entries(es0, address));
        proof {
            let r = hit_entries(es0, address);
            assert forall|a: int, b: int| 0 <= a < b < r.len() implies !same_path(#[trigger] r[a].0, #[trigger] r[b].0) by {
                assert(r[a].0 == es0[a].0);
                assert(r[b].0 == es0[b].0);
            }
            assert forall|a: int| 0 <= a < r.len() - 1 implies path_lt(#[trigger] r[a].0, r[a + 1].0) by {
                assert(r[a].0 == es0[a].0);
                assert(r[a + 1].0 == es0[a + 1].0);
            }
            assert forall|a: int| 0 <= a < r.len() implies lines_sorted(#[trigger] r[a].1) by {
                assert forall|x: int, y: int| 0 <= x < y < r[a].1.len() implies #[trigger] r[a].1[x].line <= #[trigger] r[a].1[y].line by {
                    assert(r[a].1[x].line == es0[a].1[x].line);
                    assert(r[a].1[y].line == es0[a].1[y].line);
                }
            }
        }
    }
}


impl TraceMap {
    pub fn coverable_in_path(&self, path: &str) -> (res: usize)
        requires
            coverable(child_flat(self@, path@)) <= usize::MAX,
        ensures
            res == coverable(child_flat(self@, path@)),
    {
        let ts = self.get_child_traces(path);
        amount_coverable(ts.as_slice())
    }

    pub fn covered_in_path(&self, path: &str) -> (res: usize)
        requires
            covered(child_flat(self@, path@)) <= usize::MAX,
        ensures
            res == covered(child_flat(self@, path@)),
    {
        let ts = self.get_child_traces(path);
        amount_covered(ts.as_slice())
    }

    /// Give the total amount of coverable points in the code. This will vary
    /// based on the statistics available for line coverage it will be total
    /// lines whereas for condition or decision it will count the number of
    /// conditions available
    pub fn total_coverable(&self) -> (res: usize)
        requires
            coverable(flat(self@)) <= usize::MAX,
        ensures
            res == coverable(flat(self@)),
    {
        let ts = self.all_traces();
        amount_coverable(ts.as_slice())
    }

    /// From all the coverable data return the amount covered
    pub fn total_covered(&self) -> (res: usize)
        requires
            covered(flat(self@)) <= usize::MAX,
        ensures
            res == covered(flat(self@)),
    {
        let ts = self.all_traces();
        amount_covered(ts.as_slice())
    }
}

/// Two traces record the same point: the same line at the same addresses.
pub open spec fn same_point(t: TraceView, v: TraceView) -> bool {
    t.line == v.line && t.address == v.address
}

/// `i` is the first trace of `ts` recording the same point as `v`.
pub open spec fn first_same_point(ts: Seq<TraceView>, v: TraceView, i: int) -> bool {
    &&& 0 <= i < ts.len()
    &&& same_point(ts[i], v)
    &&& forall|k: int| 0 <= k < i ==> !same_point(#[trigger] ts[k], v)
}

/// A trace with its statistics replaced.
pub open spec fn with_stats(t: TraceView, s: StatView) -> TraceView {
    TraceView { stats: s, ..t }
}

/// The hits the report gives for `line`: those of the first entry for it.
pub open spec fn hits_lookup(hits: Seq<(u64, u64)>, line: u64) -> Option<u64>
    decreases hits.len(),
{
    if hits.len() == 0 {
        None
    } else if hits[0].0 == line {
        Some(hits[0].1)
    } else {
        hits_lookup(hits.drop_first(), line)
    }
}

/// A trace with the hits the report gives for its line, where it counts
/// hits and the report has the line; otherwise as it was.
pub open spec fn with_report_hits(t: TraceView, hits: Seq<(u64, u64)>) -> TraceView {
    match (hits_lookup(hits, t.line), t.stats) {
        (Some(h), StatView::Line(_)) => with_stats(t, StatView::Line(h)),
        _ => t,
    }
}

/// The map with each trace of the file `k` given its hits from the report
/// `hits` (see `with_report_hits`); unchanged where the map lacks the file.
pub open spec fn set_hits_spec(es: Entries, k: Seq<char>, hits: Seq<(u64, u64)>) -> Entries {
    if has_key(es, k) {
        update_traces(
            es,
            key_index(es, k),
            es[key_index(es, k)].1.map_values(|t: TraceView| with_report_hits(t, hits)),
        )
    } else {
        es
    }
}

/// The hits the report gives for `line`; see `hits_lookup`.
pub fn lookup_hits(hits: &Vec<(u64, u64)>, line: u64) -> (res: Option<u64>)
    ensures
        res == hits_lookup(hits@, line),
{
    let mut i: usize = 0;
    assert(hits@.skip(0) =~= hits@);
    while i < hits.len()
        invariant
            i <= hits@.len(),
            hits_lookup(hits@, line) == hits_lookup(hits@.skip(i as int), line),
        decreases hits@.len() - i,
    {
        assert(hits@.skip(i as int).drop_first() =~= hits@.skip(i + 1));
        if hits[i].0 == line {
            return Some(hits[i].1);
        }
        i = i + 1;
    }
    None
}

/// Merging one trace into a file's traces: the statistics of the first trace
/// recording the same point gain those of `v`; without such a trace, `v` is
/// added in order of lines.
pub open spec fn merge_one(ts: Seq<TraceView>, v: TraceView) -> Seq<TraceView> {
    if exists|i: int| first_same_point(ts, v, i) {
        let i = choose|i: int| first_same_point(ts, v, i);
        ts.update(i, with_stats(ts[i], stat_add(ts[i].stats, v.stats)))
    } else {
        sorted_insert(ts, v)
    }
}

/// Merging the traces `vs`, one after the other, into a file's traces.
pub open spec fn merge_file(ts: Seq<TraceView>, vs: Seq<TraceView>) -> Seq<TraceView>
    decreases vs.len(),
{
    if vs.len() == 0 {
        ts
    } else {
        merge_one(merge_file(ts, vs.drop_last()), vs.last())
    }
}

/// Merging one file of another map: a file already present gets the other's
/// traces merged into its own; a new file is added with its traces, in order.
pub open spec fn merge_entry(es: Entries, e: (Seq<char>, Seq<TraceView>)) -> Entries {
    if has_key(es, e.0) {
        let i = key_index(es, e.0);
        update_traces(es, i, merge_file(es[i].1, e.1))
    } else {
        es.insert(key_insert_pos(es, e.0), e)
    }
}

/// Merging the files of another map, one after the other.
pub open spec fn merge_entries(es: Entries, os: Entries) -> Entries
    decreases os.len(),
{
    if os.len() == 0 {
        es
    } else {
        merge_entry(merge_entries(es, os.drop_last()), os.last())
    }
}

proof fn lemma_first_same_point_unique(ts: Seq<TraceView>, v: TraceView, i: int, j: int)
    requires
        first_same_point(ts, v, i),
        first_same_point(ts, v, j),
    ensures
        i == j,
{
    if i < j {
        assert(!same_point(ts[i], v));
    } else if j < i {
        assert(!same_point(ts[j], v));
    }
}

proof fn lemma_merge_one_sorted(ts: Seq<TraceView>, v: TraceView)
    requires
        lines_sorted(ts),
    ensures
        lines_sorted(merge_one(ts, v)),
{
    if exists|i: int| first_same_point(ts, v, i) {
        let i = choose|i: int| first_same_point(ts, v, i);
        let r = merge_one(ts, v);
        assert forall|a: int, b: int| 0 <= a < b < r.len() implies #[trigger] r[a].line <= #[trigger] r[b].line by {
            assert(r[a].line == ts[a].line);
            assert(r[b].line == ts[b].line);
        }
    } else {
        lemma_sorted_insert(ts, v);
    }
}

pub(crate) proof fn lemma_merge_file_sorted(ts: Seq<TraceView>, vs: Seq<TraceView>)
    requires
        lines_sorted(ts),
    ensures
        lines_sorted(merge_file(ts, vs)),
    decreases vs.len(),
{
    if vs.len() > 0 {
        lemma_merge_file_sorted(ts, vs.drop_last());
        lemma_merge_one_sorted(merge_file(ts, vs.drop_last()), vs.last());
    }
}

pub(crate) proof fn lemma_merge_entry_wf(es: Entries, e: (Seq<char>, Seq<TraceView>))
    requires
        wf_entries(es),
        lines_sorted(e.1),
    ensures
        wf_entries(merge_entry(es, e)),
{
    if has_key(es, e.0) {
        let i = key_index(es, e.0);
        lemma_merge_file_sorted(es[i].1, e.1);
        lemma_update_traces(es, i, merge_file(es[i].1, e.1));
    } else {
        lemma_insert_key(es, e.0, e.1);
    }
}

/// A copy of a sequence of traces.
pub fn copy_traces(ts: &Vec<Trace>) -> (res: Vec<Trace>)
    ensures
        tview(res@) == tview(ts@),
{
    let mut out: Vec<Trace> = Vec::new();
    let mut i: usize = 0;
    while i < ts.len()
        invariant
            i <= ts.len(),
            tview(out@) =~= tview(ts@).take(i as int),
        decreases ts.len() - i,
    {
        let ghost old_v = tview(out@);
        out.push(ts[i].duplicate());
        assert(tview(out@) =~= old_v.push(tview(ts@)[i as int]));
        i = i + 1;
    }
    assert(tview(ts@).take(ts.len() as int) =~= tview(ts@));
    out
}

/// Merges the trace `v` into the traces `ts` of one file.
fn merge_one_into(ts: &mut Vec<Trace>, v: &Trace)
    requires
        lines_sorted(tview(old(ts)@)),
    ensures
        tview(final(ts)@) == merge_one(tview(old(ts)@), v@),
{
    let ghost tv0 = tview(ts@);
    let mut i: usize = 0;
    while i < ts.len()
        invariant
            i <= ts.len(),
            tv0 == tview(ts@),
            tv0 == tview(old(ts)@),
            forall|k: int| 0 <= k < i ==> !same_point(#[trigger] tv0[k], v@),
        decreases ts.len() - i,
    {
        if ts[i].line == v.line && same_addresses(&ts[i].address, &v.address) {
            assert(first_same_point(tv0, v@, i as int));
            proof {
                let c = choose|c: int| first_same_point(tv0, v@, c);
                lemma_first_same_point_unique(tv0, v@, c, i as int);
            }
            let s = ts[i].stats.duplicate().add(v.stats.duplicate());
            let ghost before = ts@;
            ts[i].stats = s;
            assert(ts@ == before.update(i as int, Trace { stats: s, ..before[i as int] }));
            assert(tview(ts@) =~= tv0.update(i as int, with_stats(tv0[i as int], stat_add(tv0[i as int].stats, v.stats@))));
            return;
        }
        i = i + 1;
    }
    assert(!exists|c: int| first_same_point(tv0, v@, c));
    let p = TraceMap::line_pos(ts, v.line);
    proof {
        lemma_line_insert_pos(tv0, v.line);
    }
    let c = v.duplicate();
    ts.insert(p, c);
    assert(tview(ts@) =~= sorted_insert(tv0, v@));
}

/// Merges the traces `vs`, one after the other, into the traces `ts` of one file.
fn merge_file_into(ts: &mut Vec<Trace>, vs: &Vec<Trace>)
    requires
        lines_sorted(tview(old(ts)@)),
    ensures
        tview(final(ts)@) == merge_file(tview(old(ts)@), tview(vs@)),
{
    let ghost tv0 = tview(ts@);
    let mut j: usize = 0;
    assert(tview(vs@).take(0) =~= Seq::<TraceView>::empty());
    while j < vs.len()
        invariant
            j <= vs.len(),
            lines_sorted(tv0),
            tview(ts@) == merge_file(tv0, tview(vs@).take(j as int)),
        decreases vs.len() - j,
    {
        proof {
            lemma_merge_file_sorted(tv0, tview(vs@).take(j as int));
        }
        merge_one_into(ts, &vs[j]);
        assert(tview(vs@).take(j + 1).drop_last() =~= tview(vs@).take(j as int));
        j = j + 1;
    }
    assert(tview(vs@).take(vs.len() as int) =~= tview(vs@));
}

impl TraceMap {
    /// Merges the results of one tracemap into the current one.
    /// This adds records which are missing and adds the statistics gathered to
    /// existing records
    pub fn merge(&mut self, other: &TraceMap)
        requires
            old(self).wf(),
            other.wf(),
        ensures
            final(self).wf(),
            final(self)@ == merge_entries(old(self)@, other@),
    {
        let ghost es0 = self@;
        let mut k: usize = 0;
        assert(other@.take(0) =~= Seq::<(Seq<char>, Seq<TraceView>)>::empty());
        while k < other.traces.len()
            invariant
                k <= other.traces.len(),
                other.wf(),
                self.wf(),
                self@ == merge_entries(es0, other@.take(k as int)),
            decreases other.traces.len() - k,
        {
            let entry = &other.traces[k];
            assert(other@.take(k + 1).drop_last() =~= other@.take(k as int));
            assert(other@.take(k + 1).last() == entry@);
            assert(lines_sorted(other@[k as int].1));
            proof {
                lemma_merge_entry_wf(self@, entry@);
            }
            match self.find_file(entry.path.as_str()) {
                Some(i) => {
                    let ghost before = self@;
                    proof {
                        lemma_merge_file_sorted(self@[i as int].1, entry@.1);
                    }
                    merge_file_into(&mut self.traces[i].traces, &entry.traces);
                    assert(self@ =~= update_traces(before, i as int, merge_file(before[i as int].1, entry@.1)));
                },
                None => {
                    let pos = self.insert_pos(entry.path.as_str());
                    proof {
                        lemma_key_insert_pos(self@, entry@.0);
                    }
                    let copy = FileTraces { path: entry.path.clone(), traces: copy_traces(&entry.traces) };
                    let ghost before = self@;
                    self.traces.insert(pos, copy);
                    assert(self@ =~= before.insert(pos as int, entry@));
                },
            }
            k = k + 1;
        }
        assert(other@.take(other.traces.len() as int) =~= other@);
    }
}


/// Collapsing the traces of one file so that each line has one trace: the
/// first trace of a line stays, and its statistics become the sum, in order,
/// of the statistics of all the traces of that line.
pub open spec fn dedup_file(ts: Seq<TraceView>) -> Seq<TraceView>
    decreases ts.len(),
{
    if ts.len() == 0 {
        Seq::<TraceView>::empty()
    } else {
        let d = dedup_file(ts.drop_last());
        let v = ts.last();
        if exists|j: int| 0 <= j < d.len() && #[trigger] d[j].line == v.line {
            let j = choose|j: int| 0 <= j < d.len() && #[trigger] d[j].line == v.line;
            d.update(j, with_stats(d[j], stat_add(d[j].stats, v.stats)))
        } else {
            d.push(v)
        }
    }
}

pub open spec fn dedup_entries(es: Entries) -> Entries {
    es.map_values(|e: (Seq<char>, Seq<TraceView>)| (e.0, dedup_file(e.1)))
}

/// Some trace of `ts` is on `line`.
pub open spec fn has_line(ts: Seq<TraceView>, line: u64) -> bool {
    exists|k: int| 0 <= k < ts.len() && #[trigger] ts[k].line == line
}

/// The traces of a file have distinct lines in ascending order.
pub open spec fn lines_strict(ts: Seq<TraceView>) -> bool {
    forall|i: int, j: int| 0 <= i < j < ts.len() ==> #[trigger] ts[i].line < #[trigger] ts[j].line
}

/// After collapsing, every line appears once, each line is a line of the
/// original traces, and ordered traces stay ordered.
pub proof fn lemma_dedup_file(ts: Seq<TraceView>)
    ensures
        forall|a: int, b: int| 0 <= a < b < dedup_file(ts).len() ==> #[trigger] dedup_file(ts)[a].line != #[trigger] dedup_file(ts)[b].line,
        forall|a: int| 0 <= a < dedup_file(ts).len() ==> exists|k: int| 0 <= k < ts.len() && #[trigger] ts[k].line == #[trigger] dedup_file(ts)[a].line,
        lines_sorted(ts) ==> lines_strict(dedup_file(ts)),
        forall|l: u64| #[trigger] has_line(ts, l) ==> has_line(dedup_file(ts), l),
    decreases ts.len(),
{
    if ts.len() > 0 {
        let pre = ts.drop_last();
        lemma_dedup_file(pre);
        let d = dedup_file(pre);
        let v = ts.last();
        let r = dedup_file(ts);
        if exists|j: int| 0 <= j < d.len() && #[trigger] d[j].line == v.line {
            let j = choose|j: int| 0 <= j < d.len() && #[trigger] d[j].line == v.line;
            assert(r == d.update(j, with_stats(d[j], stat_add(d[j].stats, v.stats))));
            assert forall|a: int| 0 <= a < r.len() implies exists|k: int| 0 <= k < ts.len() && #[trigger] ts[k].line == #[trigger] r[a].line by {
                assert(r[a].line == d[a].line);
                let k = choose|k: int| 0 <= k < pre.len() && #[trigger] pre[k].line == d[a].line;
                assert(ts[k] == pre[k]);
            }
            assert forall|l: u64| #[trigger] has_line(ts, l) implies has_line(r, l) by {
                let k = choose|k: int| 0 <= k < ts.len() && #[trigger] ts[k].line == l;
                if k < ts.len() - 1 {
                    assert(pre[k] == ts[k]);
                    assert(has_line(pre, l));
                    let a = choose|a: int| 0 <= a < d.len() && #[trigger] d[a].line == l;
                    assert(r[a].line == l);
                } else {
                    assert(r[j].line == l);
                }
            }
            assert forall|a: int, b: int| 0 <= a < b < r.len() implies #[trigger] r[a].line != #[trigger] r[b].line by {
                assert(r[a].line == d[a].line);
                assert(r[b].line == d[b].line);
            }
            if lines_sorted(ts) {
                assert(lines_sorted(pre));
                assert forall|a: int, b: int| 0 <= a < b < r.len() implies #[trigger] r[a].line < #[trigger] r[b].line by {
                    assert(r[a].line == d[a].line);
                    assert(r[b].line == d[b].line);
                }
            }
        } else {
            assert(r == d.push(v));
            assert forall|a: int| 0 <= a < r.len() implies exists|k: int| 0 <= k < ts.len() && #[trigger] ts[k].line == #[trigger] r[a].line by {
                if a < d.len() {
                    let k = choose|k: int| 0 <= k < pre.len() && #[trigger] pre[k].line == d[a].line;
                    assert(ts[k] == pre[k]);
                    assert(r[a] == d[a]);
                } else {
                    assert(ts[ts.len() - 1].line == r[a].line);
                }
            }
            assert forall|l: u64| #[trigger] has_line(ts, l) implies has_line(r, l) by {
                let k = choose|k: int| 0 <= k < ts.len() && #[trigger] ts[k].line == l;
                if k < ts.len() - 1 {
                    assert(pre[k] == ts[k]);
                    assert(has_line(pre, l));
                    let a = choose|a: int| 0 <= a < d.len() && #[trigger] d[a].line == l;
                    assert(r[a] == d[a]);
                } else {
                    assert(r[d.len() as int].line == l);
                }
            }
            assert forall|a: int, b: int| 0 <= a < b < r.len() implies #[trigger] r[a].line != #[trigger] r[b].line by {
                if b < d.len() {
                    assert(r[a] == d[a]);
                    assert(r[b] == d[b]);
                } else {
                    assert(r[a] == d[a]);
                }
            }
            if lines_sorted(ts) {
                assert(lines_sorted(pre));
                assert forall|a: int, b: int| 0 <= a < b < r.len() implies #[trigger] r[a].line < #[trigger] r[b].line by {
                    if b < d.len() {
                        assert(r[a] == d[a]);
                        assert(r[b] == d[b]);
                    } else {
                        assert(r[a] == d[a]);
                        let k = choose|k: int| 0 <= k < pre.len() && #[trigger] pre[k].line == d[a].line;
                        assert(ts[k] == pre[k]);
                        assert(ts[k].line <= ts[ts.len() - 1].line);
                    }
                }
            }
        }
    }
}

/// Collapses the traces of one file (see `dedup_file`).
fn dedup_traces(ts: &Vec<Trace>) -> (res: Vec<Trace>)
    ensures
        tview(res@) == dedup_file(tview(ts@)),
{
    let ghost tv = tview(ts@);
    let mut out: Vec<Trace> = Vec::new();
    let mut i: usize = 0;
    assert(tv.take(0) =~= Seq::<TraceView>::empty());
    while i < ts.len()
        invariant
            i <= ts.len(),
            tv == tview(ts@),
            tview(out@) == dedup_file(tv.take(i as int)),
        decreases ts.len() - i,
    {
        let v = &ts[i];
        let ghost d = tview(out@);
        assert(tv.take(i + 1).drop_last() =~= tv.take(i as int));
        assert(tv.take(i + 1).last() == v@);
        proof {
            lemma_dedup_file(tv.take(i as int));
        }
        let mut j: usize = 0;
        while j < out.len() && out[j].line != v.line
            invariant
                j <= out.len(),
                d == tview(out@),
                forall|k: int| 0 <= k < j ==> #[trigger] d[k].line != v.line,
            decreases out.len() - j,
        {
            j = j + 1;
        }
        if j < out.len() {
            proof {
                let c = choose|c: int| 0 <= c < d.len() && #[trigger] d[c].line == v.line;
                if c != j as int {
                    assert(d[c].line != d[j as int].line);
                }
            }
            let s = out[j].stats.duplicate().add(v.stats.duplicate());
            let ghost before = out@;
            out[j].stats = s;
            assert(out@ == before.update(j as int, Trace { stats: s, ..before[j as int] }));
            assert(tview(out@) =~= d.update(j as int, with_stats(d[j as int], stat_add(d[j as int].stats, v.stats@))));
        } else {
            assert(!exists|c: int| 0 <= c < d.len() && #[trigger] d[c].line == v.line);
            out.push(v.duplicate());
            assert(tview(out@) =~= d.push(v@));
        }
        i = i + 1;
    }
    assert(tv.take(ts.len() as int) =~= tv);
    out
}

impl TraceMap {
    /// This will collapse duplicate Traces into a single trace. Warning this
    /// will lose the addresses of the duplicate traces but increment the results
    /// should be called only if you don't need those addresses from then on
    pub fn dedup(&mut self)
        requires
            old(self).wf(),
        ensures
            final(self).wf(),
            final(self)@ == dedup_entries(old(self)@),
            forall|i: int| 0 <= i < final(self)@.len() ==> lines_strict(#[trigger] final(self)@[i].1),
    {
        let ghost es0 = self@;
        let mut i: usize = 0;
        while i < self.traces.len()
            invariant
                i <= self.traces.len(),
                self.traces.len() == es0.len(),
                wf_entries(es0),
                forall|k: int| 0 <= k < i ==> #[trigger] self@[k] == dedup_entries(es0)[k],
                forall|k: int| i <= k < self.traces.len() ==> #[trigger] self@[k] == es0[k],
            decreases self.traces.len() - i,
        {
            assert(self@[i as int] == es0[i as int]);
            let ghost e0 = es0[i as int];
            let d = dedup_traces(&self.traces[i].traces);
            let ghost before = self@;
            self.traces[i].traces = d;
            assert forall|k: int| 0 <= k < self.traces.len() && k != i implies #[trigger] self@[k] == before[k] by {}
            assert(self@[i as int] =~= (e0.0, dedup_file(e0.1)));
            i = i + 1;
        }
        assert(self@ =~= dedup_entries(es0));
        proof {
            let r = dedup_entries(es0);
            assert forall|a: int, b: int| 0 <= a < b < r.len() implies !same_path(#[trigger] r[a].0, #[trigger] r[b].0) by {
                assert(r[a].0 == es0[a].0);
                assert(r[b].0 == es0[b].0);
            }
            assert forall|a: int| 0 <= a < r.len() - 1 implies path_lt(#[trigger] r[a].0, r[a + 1].0) by {
                assert(r[a].0 == es0[a].0);
                assert(r[a + 1].0 == es0[a + 1].0);
            }
            assert forall|a: int| 0 <= a < r.len() implies lines_strict(#[trigger] r[a].1) && lines_sorted(r[a].1) by {
                lemma_dedup_file(es0[a].1);
            }
        }
    }
}


/// A map that a trace was added to holds a trace; a new map holds none.
pub proof fn lemma_added_trace_not_empty(es: Entries, k: Seq<char>, t: TraceView)
    requires
        wf_entries(es),
    ensures
        flat(add_trace_spec(es, k, t)).len() > 0,
        flat(Seq::<(Seq<char>, Seq<TraceView>)>::empty()).len() == 0,
{
    let r = add_trace_spec(es, k, t);
    let i = if has_key(es, k) {
        key_index(es, k)
    } else {
        lemma_key_insert_pos(es, k);
        key_insert_pos(es, k)
    };
    if has_key(es, k) {
        lemma_line_insert_pos(es[i].1, t.line);
        lemma_sorted_insert(es[i].1, t);
    }
    assert(r[i].1.len() > 0);
    lemma_flat_take_len(r, i + 1);
    assert(r.take(i + 1).drop_last() =~= r.take(i));
    assert(r.take(i + 1).last() == r[i]);
}

} // verus!
