//! The walk of a file's syntax tree that decides, item by item, statement
//! by statement and expression by expression, which lines of the file are
//! left out of coverage, which are counted though the debug tables may miss
//! them, which physical lines belong to a longer logical one, and which
//! modules declared in the file are left out entirely. It also tells which
//! code cannot be reached (an `unreachable!()`, an arm or branch that only
//! leads there), whose lines are then left out too.
//!
//! The analysis of the file is seen as a `WalkState`: its ignored entries,
//! its covered lines, its logical lines, and the names of the modules left
//! out so far. Each `w_..` spec function gives the state after visiting a
//! node from the state before it, in the order the walk visits.
use vstd::prelude::*;
use crate::analysis::{ignorable_lines, single_lines, sub_add, useful_lines, LineAnalysis, Lines, SubResult};
use crate::attributes::{attrs_keep, attrs_looked_at, meta_wf, span_lines, AttrSyntax};
use crate::file_syntax::{
    ArmSyntax, BlockSyntax, ExprKind, ExprSyntax, FieldSyntax, FileSyntax, FnArgSyntax, FnSyntax, TokenKind,
    TokenTreeSyntax, TypeTag, ImplItemSyntax, ImplSyntax,
    InitSyntax, ItemSyntax, LocalSyntax, MacroSyntax, ModSyntax, StmtSyntax, TraitItemSyntax, TraitSyntax,
};
use crate::fn_lines::{decl_lines, fn_left_out, fn_scan, fn_start_lines, range_lines, token_lines};
use crate::macro_lines::{arg_line, macro_name_outcome, macro_name_spec, statements_result, statements_spec, TokenSpan};
use crate::text::{chars_of, string_of, strs};
use crate::attributes::{attr_excludes, attr_excludes_exec, ctx_view, meta_wf_exec, CfgContext};
use crate::fn_lines::{fn_attr_scan, fn_finish, fn_start};

verus! {

/// What the walk changes: the ignored entries, the covered lines, the
/// logical line of each physical line, and the modules left out.
pub type WalkState = (Set<Lines>, Set<usize>, Map<usize, usize>, Seq<Seq<char>>);

/// What the walk reads besides the tree: the file's text, the `cfg`
/// context (see `ctx_view`), whether ignored tests run, and whether panics
/// are left out of coverage.
pub type WalkEnv = (Seq<char>, (bool, bool, Seq<Seq<char>>), bool, bool);

/// The state of an analysis, with the modules left out so far.
pub open spec fn sv(a: LineAnalysis, mods: Seq<String>) -> WalkState {
    (a.ignore@.to_set(), a.cover@, a.logical_lines@, strs(mods))
}

/// What the walk reads besides the tree; see `WalkEnv`.
pub struct WalkConfig<'a> {
    pub contents: &'a str,
    pub ctx: &'a CfgContext,
    pub run_ignored: bool,
    pub ignore_panics: bool,
}

/// The environment a configuration stands for.
pub open spec fn env(w: &WalkConfig) -> WalkEnv {
    (w.contents@, ctx_view(w.ctx), w.run_ignored, w.ignore_panics)
}

/// Ignoring two sets of single lines in turn ignores their union.
pub proof fn lemma_ig_ig(s: WalkState, a: Set<Lines>, b: Set<Lines>)
    requires
        !a.contains(Lines::All),
    ensures
        ig(ig(s, a), b) == ig(s, a + b),
{
    if !s.0.contains(Lines::All) {
        assert((s.0 + a) + b =~= s.0 + (a + b));
        assert(s.1.filter(|i: usize| !a.contains(Lines::Line(i))).filter(|i: usize| !b.contains(Lines::Line(i)))
            =~= s.1.filter(|i: usize| !(a + b).contains(Lines::Line(i))));
    }
}

/// Ignoring nothing changes nothing.
pub proof fn lemma_ig_empty(s: WalkState)
    ensures
        ig(s, Set::empty()) == s,
{
    if !s.0.contains(Lines::All) {
        assert(s.0 + Set::empty() =~= s.0);
        assert(s.1.filter(|i: usize| !Set::<Lines>::empty().contains(Lines::Line(i))) =~= s.1);
    }
}

/// Ignores the lines from `lo` to `hi`.
fn p_ignore(a: &mut LineAnalysis, m: &Vec<String>, lo: usize, hi: usize)
    requires
        old(a).wf(),
    ensures
        final(a).wf(),
        final(a).max_line == old(a).max_line,
        sv(*final(a), m@) == ig(sv(*old(a), m@), span_of(lo, hi)),
{
    let ghost s0 = sv(*a, m@);
    a.ignore_span(lo, hi);
    proof {
        if !s0.0.contains(Lines::All) {
            assert(sv(*a, m@).0 =~= ig(s0, span_of(lo, hi)).0);
            assert(sv(*a, m@).1 =~= ig(s0, span_of(lo, hi)).1);
        }
    }
}

/// Ignores the lines of `v`, the set `ls`.
fn p_lines(a: &mut LineAnalysis, m: &Vec<String>, v: &Vec<usize>, Ghost(ls): Ghost<Set<usize>>)
    requires
        old(a).wf(),
        forall|i: usize| #[trigger] v@.contains(i) <==> ls.contains(i),
    ensures
        final(a).wf(),
        final(a).max_line == old(a).max_line,
        sv(*final(a), m@) == ig(sv(*old(a), m@), line_set(ls)),
{
    let ghost s0 = sv(*a, m@);
    a.add_to_ignore(v);
    proof {
        if !s0.0.contains(Lines::All) {
            assert(single_lines(v@) =~= line_set(ls));
            assert(sv(*a, m@).0 =~= ig(s0, line_set(ls)).0);
            assert(sv(*a, m@).1 =~= ig(s0, line_set(ls)).1);
        }
    }
}

/// Covers the lines with code from `lo` to `hi`.
fn p_cover(a: &mut LineAnalysis, m: &Vec<String>, lo: usize, hi: usize, contents: &str)
    requires
        old(a).wf(),
    ensures
        final(a).wf(),
        final(a).max_line == old(a).max_line,
        sv(*final(a), m@) == cover(sv(*old(a), m@), lo, hi, contents@),
{
    if 1 <= lo && lo <= hi {
        let ghost s0 = sv(*a, m@);
        a.cover_span(lo, hi, Some(contents));
        assert(sv(*a, m@).1 =~= cover(s0, lo, hi, contents@).1);
        assert forall|i: usize| #[trigger] a.cover@.contains(i) implies !a.ignore@.contains(Lines::Line(i)) by {
            if !old(a).cover@.contains(i) {
                assert(!old(a).ignore@.contains(Lines::Line(i)));
            }
        }
    }
}

/// Records that line `k` belongs to the logical line `v`.
fn p_logical(a: &mut LineAnalysis, m: &Vec<String>, k: usize, v: usize)
    requires
        old(a).wf(),
    ensures
        final(a).wf(),
        final(a).max_line == old(a).max_line,
        sv(*final(a), m@) == logical(sv(*old(a), m@), k, v),
{
    a.logical_lines.insert(k, v);
}

/// Records that the lines after `lo` up to `hi` belong to the logical line
/// `lo`.
fn p_logical_run(a: &mut LineAnalysis, m: &Vec<String>, lo: usize, hi: usize)
    requires
        old(a).wf(),
    ensures
        final(a).wf(),
        final(a).max_line == old(a).max_line,
        sv(*final(a), m@) == logical_run(sv(*old(a), m@), lo, hi),
{
    let ghost m0 = a.logical_lines@;
    let mut l: usize = lo;
    if lo < hi {
        while l < hi
            invariant
                lo <= l <= hi,
                a.wf(),
                a.max_line == old(a).max_line,
                a.ignore@ == old(a).ignore@,
                a.cover@ == old(a).cover@,
                a.logical_lines@ == m0.union_prefer_right(Map::new(|x: usize| lo < x <= l, |x: usize| lo)),
            decreases hi - l,
        {
            l = l + 1;
            a.logical_lines.insert(l, lo);
            assert(a.logical_lines@ =~= m0.union_prefer_right(Map::new(|x: usize| lo < x <= l, |x: usize| lo)));
        }
    } else {
        assert(m0 =~= m0.union_prefer_right(Map::new(|x: usize| lo < x <= hi, |x: usize| lo)));
    }
}

/// Records that the module `name` is left out.
fn p_leave_out(m: &mut Vec<String>, name: &String)
    ensures
        strs(final(m)@) == strs(old(m)@).push(name@),
{
    m.push(string_of(&chars_of(name.as_str())));
    assert(strs(m@) =~= strs(old(m)@).push(name@));
}

/// Whether a token of `ex` holding code spans line `l`; see `arg_line`.
fn arg_line_exec(ex: &Vec<TokenSpan>, l: usize) -> (res: bool)
    ensures
        res == arg_line(ex@, l as int),
{
    let mut i: usize = 0;
    while i < ex.len()
        invariant
            i <= ex@.len(),
            forall|k: int|
                0 <= k < i ==> !(!(#[trigger] ex@[k]).literal_or_punct && ex@[k].start_line <= l <= ex@[k].end_line),
        decreases ex@.len() - i,
    {
        if !ex[i].literal_or_punct && ex[i].start_line <= l && l <= ex[i].end_line {
            return true;
        }
        i = i + 1;
    }
    false
}

/// The lines from `lo` to `hi` that no token of `ex` holding code spans.
fn kept(lo: usize, hi: usize, ex: &Vec<TokenSpan>) -> (res: Vec<usize>)
    ensures
        forall|i: usize| #[trigger] res@.contains(i) <==> kept_lines(lo as int, hi as int, ex@).contains(i),
{
    let mut v: Vec<usize> = Vec::new();
    if lo > hi {
        return v;
    }
    let mut l: usize = lo;
    while l < hi
        invariant
            lo <= l <= hi,
            forall|x: usize| #[trigger] v@.contains(x) <==> (lo <= x < l && !arg_line(ex@, x as int)),
        decreases hi - l,
    {
        let ghost prev = v@;
        let skip = arg_line_exec(ex, l);
        if !skip {
            v.push(l);
        }
        assert forall|x: usize| #[trigger] v@.contains(x) <==> (lo <= x < l + 1 && !arg_line(ex@, x as int)) by {
            assert(prev.contains(x) <==> (lo <= x < l && !arg_line(ex@, x as int)));
            if !skip {
                assert(v@ == prev.push(l));
                if x == l {
                    assert(v@[prev.len() as int] == l);
                } else if v@.contains(x) {
                    let j = choose|j: int| 0 <= j < v@.len() && v@[j] == x;
                    assert(prev[j] == x);
                } else if prev.contains(x) {
                    let j = choose|j: int| 0 <= j < prev.len() && prev[j] == x;
                    assert(v@[j] == x);
                }
            }
        }
        l = l + 1;
    }
    let ghost prev = v@;
    let skip = arg_line_exec(ex, hi);
    if !skip {
        v.push(hi);
    }
    assert forall|x: usize| #[trigger] v@.contains(x) <==> kept_lines(lo as int, hi as int, ex@).contains(x) by {
        assert(prev.contains(x) <==> (lo <= x < hi && !arg_line(ex@, x as int)));
        if !skip {
            assert(v@ == prev.push(hi));
            if x == hi {
                assert(v@[prev.len() as int] == hi);
            } else if v@.contains(x) {
                let j = choose|j: int| 0 <= j < v@.len() && v@[j] == x;
                assert(prev[j] == x);
            } else if prev.contains(x) {
                let j = choose|j: int| 0 <= j < prev.len() && prev[j] == x;
                assert(v@[j] == x);
            }
        }
    }
    v
}

/// Ignores the lines `kept_lines(lo, hi, ex)`.
fn p_kept(a: &mut LineAnalysis, m: &Vec<String>, lo: usize, hi: usize, ex: &Vec<TokenSpan>)
    requires
        old(a).wf(),
    ensures
        final(a).wf(),
        final(a).max_line == old(a).max_line,
        sv(*final(a), m@) == ig(sv(*old(a), m@), line_set(kept_lines(lo as int, hi as int, ex@))),
{
    let v = kept(lo, hi, ex);
    p_lines(a, m, &v, Ghost(kept_lines(lo as int, hi as int, ex@)));
}

/// Ignores the lines after `lo` up to `hi` that no token of `ex` holding
/// code spans.
fn p_kept_after(a: &mut LineAnalysis, m: &Vec<String>, lo: usize, hi: usize, ex: &Vec<TokenSpan>)
    requires
        old(a).wf(),
    ensures
        final(a).wf(),
        final(a).max_line == old(a).max_line,
        sv(*final(a), m@) == ig(sv(*old(a), m@), line_set(kept_lines(lo + 1, hi as int, ex@))),
{
    if lo < hi {
        p_kept(a, m, lo + 1, hi, ex);
    } else {
        proof {
            assert(line_set(kept_lines(lo + 1, hi as int, ex@)) =~= Set::empty());
            lemma_ig_empty(sv(*a, m@));
        }
    }
}

/// Whether every attribute of `attrs` is well formed.
fn attrs_wf(attrs: &Vec<AttrSyntax>) -> (res: bool)
    ensures
        res == forall|i: int| 0 <= i < attrs@.len() ==> meta_wf(#[trigger] attrs@[i].meta),
{
    let mut i: usize = 0;
    while i < attrs.len()
        invariant
            i <= attrs@.len(),
            forall|k: int| 0 <= k < i ==> meta_wf(#[trigger] attrs@[k].meta),
        decreases attrs@.len() - i,
    {
        if !meta_wf_exec(&attrs[i].meta) {
            return false;
        }
        i = i + 1;
    }
    true
}

/// The lines of the first `n + 1` attributes are those of the first `n` and
/// those of attribute `n`.
proof fn lemma_span_lines_step(attrs: Seq<AttrSyntax>, n: int)
    requires
        0 <= n < attrs.len(),
    ensures
        span_lines(attrs, n + 1) == span_lines(attrs, n) + span_of(attrs[n].start_line, attrs[n].end_line),
{
    assert forall|l: Lines| span_lines(attrs, n + 1).contains(l) <==> (span_lines(attrs, n) + span_of(
        attrs[n].start_line,
        attrs[n].end_line,
    )).contains(l) by {
        if span_lines(attrs, n + 1).contains(l) {
            let w = choose|w: int|
                0 <= w < n + 1 && (l matches Lines::Line(k) && (#[trigger] attrs[w]).start_line <= k <= attrs[w].end_line);
            if w < n {
                assert(span_lines(attrs, n).contains(l));
            }
        }
    }
    assert(span_lines(attrs, n + 1) =~= span_lines(attrs, n) + span_of(attrs[n].start_line, attrs[n].end_line));
}

/// Looks at the attributes; see `checked`.
fn p_check(a: &mut LineAnalysis, m: &Vec<String>, attrs: &Vec<AttrSyntax>, ctx: &CfgContext) -> (res: bool)
    requires
        old(a).wf(),
    ensures
        final(a).wf(),
        final(a).max_line == old(a).max_line,
        (sv(*final(a), m@), res) == checked(sv(*old(a), m@), attrs@, ctx_view(ctx)),
{
    let ghost s0 = sv(*a, m@);
    let ghost c = ctx_view(ctx);
    if !attrs_wf(attrs) {
        proof {
            assert(attrs_ok(attrs@) =~= Seq::<AttrSyntax>::empty());
            assert(span_lines(Seq::<AttrSyntax>::empty(), 0) =~= Set::empty());
            lemma_ig_empty(s0);
        }
        return true;
    }
    assert(attrs_ok(attrs@) == attrs@);
    let mut i: usize = 0;
    assert(attrs@.skip(0) =~= attrs@);
    assert(span_lines(attrs@, 0) =~= Set::empty());
    proof {
        lemma_ig_empty(s0);
    }
    while i < attrs.len()
        invariant
            i <= attrs.len(),
            a.wf(),
            a.max_line == old(a).max_line,
            forall|k: int| 0 <= k < attrs@.len() ==> meta_wf(#[trigger] attrs@[k].meta),
            forall|k: int| 0 <= k < i ==> !attr_excludes(#[trigger] attrs@[k].meta, c),
            attrs_looked_at(attrs@, c) == i + attrs_looked_at(attrs@.skip(i as int), c),
            sv(*a, m@) == ig(s0, span_lines(attrs@, i as int)),
            c == ctx_view(ctx),
            s0 == sv(*old(a), m@),
        decreases attrs.len() - i,
    {
        assert(attrs@.skip(i as int)[0] == attrs@[i as int]);
        assert(attrs@.skip(i as int).drop_first() =~= attrs@.skip(i + 1));
        let ghost before = sv(*a, m@);
        p_ignore(a, m, attrs[i].start_line, attrs[i].end_line);
        proof {
            lemma_span_lines_step(attrs@, i as int);
            lemma_ig_ig(s0, span_lines(attrs@, i as int), span_of(attrs@[i as int].start_line, attrs@[i as int].end_line));
        }
        if attr_excludes_exec(&attrs[i].meta, ctx) {
            assert(attrs_looked_at(attrs@.skip(i as int), c) == 1);
            assert(!attrs_keep(attrs@, c));
            return false;
        }
        i = i + 1;
    }
    assert(attrs@.skip(i as int) =~= Seq::<AttrSyntax>::empty());
    true
}

/// Ignores the lines of all the attributes; see `ig_attrs`.
fn p_ig_attrs(a: &mut LineAnalysis, m: &Vec<String>, attrs: &Vec<AttrSyntax>)
    requires
        old(a).wf(),
    ensures
        final(a).wf(),
        final(a).max_line == old(a).max_line,
        sv(*final(a), m@) == ig_attrs(sv(*old(a), m@), attrs@),
{
    let ghost s0 = sv(*a, m@);
    proof {
        lemma_ig_empty(s0);
    }
    if !attrs_wf(attrs) {
        assert(attrs_ok(attrs@) =~= Seq::<AttrSyntax>::empty());
        assert(span_lines(Seq::<AttrSyntax>::empty(), 0) =~= Set::empty());
        return;
    }
    assert(attrs_ok(attrs@) == attrs@);
    assert(span_lines(attrs@, 0) =~= Set::empty());
    let mut i: usize = 0;
    while i < attrs.len()
        invariant
            i <= attrs.len(),
            a.wf(),
            a.max_line == old(a).max_line,
            sv(*a, m@) == ig(s0, span_lines(attrs@, i as int)),
            s0 == sv(*old(a), m@),
        decreases attrs.len() - i,
    {
        p_ignore(a, m, attrs[i].start_line, attrs[i].end_line);
        proof {
            lemma_span_lines_step(attrs@, i as int);
            lemma_ig_ig(s0, span_lines(attrs@, i as int), span_of(attrs@[i as int].start_line, attrs@[i as int].end_line));
        }
        i = i + 1;
    }
}

/// Ignores the lines of the tokens `ts`.
fn p_ignore_tokens(a: &mut LineAnalysis, m: &Vec<String>, ts: &Vec<TokenSpan>)
    requires
        old(a).wf(),
    ensures
        final(a).wf(),
        final(a).max_line == old(a).max_line,
        sv(*final(a), m@) == ig(sv(*old(a), m@), token_lines(ts@)),
{
    let ghost s0 = sv(*a, m@);
    proof {
        lemma_ig_empty(s0);
    }
    assert(token_lines(ts@.take(0)) =~= Set::empty());
    let mut i: usize = 0;
    while i < ts.len()
        invariant
            i <= ts.len(),
            a.wf(),
            a.max_line == old(a).max_line,
            sv(*a, m@) == ig(s0, token_lines(ts@.take(i as int))),
            s0 == sv(*old(a), m@),
        decreases ts.len() - i,
    {
        p_ignore(a, m, ts[i].start_line, ts[i].end_line);
        proof {
            let t = ts@.take(i + 1);
            assert(t.take(i as int) =~= ts@.take(i as int));
            assert forall|l: Lines| token_lines(t).contains(l) <==> (token_lines(ts@.take(i as int)) + span_of(
                ts@[i as int].start_line,
                ts@[i as int].end_line,
            )).contains(l) by {
                if token_lines(t).contains(l) {
                    let k = choose|k: int|
                        0 <= k < t.len() && (l matches Lines::Line(x) && (#[trigger] t[k]).start_line <= x <= t[k].end_line);
                    if k < i {
                        assert(ts@.take(i as int)[k] == t[k]);
                    }
                } else if token_lines(ts@.take(i as int)).contains(l) {
                    let k = choose|k: int|
                        0 <= k < i && (l matches Lines::Line(x) && (#[trigger] ts@.take(i as int)[k]).start_line <= x
                            <= ts@.take(i as int)[k].end_line);
                    assert(t[k] == ts@.take(i as int)[k]);
                } else if span_of(ts@[i as int].start_line, ts@[i as int].end_line).contains(l) {
                    assert(t[i as int] == ts@[i as int]);
                }
            }
            assert(token_lines(t) =~= token_lines(ts@.take(i as int)) + span_of(
                ts@[i as int].start_line,
                ts@[i as int].end_line,
            ));
            lemma_ig_ig(s0, token_lines(ts@.take(i as int)), span_of(ts@[i as int].start_line, ts@[i as int].end_line));
        }
        i = i + 1;
    }
    assert(ts@.take(i as int) =~= ts@);
}

/// The first look at a function, with its attributes as the walk reads
/// them; see `fn_start`.
fn p_fn_start(a: &mut LineAnalysis, m: &Vec<String>, f: &FnSyntax, attrs: &Vec<AttrSyntax>, include_tests: bool, run_ignored: bool) -> (res: bool)
    requires
        old(a).wf(),
        attrs@ == attrs_ok(f.attrs@),
    ensures
        final(a).wf(),
        final(a).max_line == old(a).max_line,
        res == fn_left_out(attrs@, include_tests, run_ignored),
        sv(*final(a), m@) == ig(sv(*old(a), m@), fn_start_lines(attrs@, fn_tokens(*f), include_tests, run_ignored)),
{
    let toks: Vec<TokenSpan> = vec![TokenSpan { start_line: f.start_line, end_line: f.end_line, literal_or_punct: false }];
    assert(toks@ == fn_tokens(*f));
    proof {
        if !(forall|i: int| 0 <= i < f.attrs@.len() ==> meta_wf(#[trigger] f.attrs@[i].meta)) {
            assert(attrs@ =~= Seq::<AttrSyntax>::empty());
        }
    }
    let ghost s0 = sv(*a, m@);
    let r = fn_start(a, attrs, &toks, include_tests, run_ignored);
    proof {
        let l = fn_start_lines(attrs@, fn_tokens(*f), include_tests, run_ignored);
        if !s0.0.contains(Lines::All) {
            assert(sv(*a, m@).0 =~= ig(s0, l).0);
            assert(sv(*a, m@).1 =~= ig(s0, l).1);
        }
    }
    r
}

/// The last step of a function; see `finish`.
fn p_finish(a: &mut LineAnalysis, m: &Vec<String>, attrs: &Vec<AttrSyntax>, wh: &Vec<TokenSpan>, fn_line: usize, body: usize)
    requires
        old(a).wf(),
        fn_line < usize::MAX,
    ensures
        final(a).wf(),
        final(a).max_line == old(a).max_line,
        sv(*final(a), m@) == finish(sv(*old(a), m@), attrs@, wh@, fn_line, body),
{
    let ghost s0 = sv(*a, m@);
    fn_finish(a, attrs, wh, fn_line, body);
    proof {
        if !s0.0.contains(Lines::All) {
            assert(sv(*a, m@).1 =~= finish(s0, attrs@, wh@, fn_line, body).1);
        }
    }
}

/// Ignores the lines of `contents` with nothing to cover.
fn p_ignorable(a: &mut LineAnalysis, m: &Vec<String>, contents: &str)
    requires
        old(a).wf(),
    ensures
        final(a).wf(),
        final(a).max_line == old(a).max_line,
        sv(*final(a), m@) == ig(sv(*old(a), m@), single_lines(ignorable_lines(contents@))),
{
    let ghost s0 = sv(*a, m@);
    a.find_ignorable_lines(contents);
    proof {
        if !s0.0.contains(Lines::All) {
            assert(sv(*a, m@).1 =~= ig(s0, single_lines(ignorable_lines(contents@))).1);
        }
    }
}

/// Whether an argument of `v` has an `impl Trait` type.
fn has_impl_trait_arg(v: &Vec<FnArgSyntax>) -> (res: bool)
    ensures
        res == exists|i: int| 0 <= i < v@.len() && impl_trait_arg(#[trigger] v@[i]),
{
    let mut i: usize = 0;
    while i < v.len()
        invariant
            i <= v@.len(),
            forall|k: int| 0 <= k < i ==> !impl_trait_arg(#[trigger] v@[k]),
        decreases v@.len() - i,
    {
        if let FnArgSyntax::Typed(TypeTag::ImplTrait) = &v[i] {
            assert(impl_trait_arg(v@[i as int]));
            return true;
        }
        i = i + 1;
    }
    false
}

/// The token spans of token trees; see `token_spans`.
fn token_spans_exec(ts: &Vec<TokenTreeSyntax>) -> (res: Vec<TokenSpan>)
    ensures
        res@ == token_spans(ts@),
{
    let mut out: Vec<TokenSpan> = Vec::new();
    let mut i: usize = 0;
    while i < ts.len()
        invariant
            i <= ts@.len(),
            out@ == token_spans(ts@.take(i as int)),
        decreases ts@.len() - i,
    {
        let t = &ts[i];
        let lp = match t.kind {
            TokenKind::Literal => true,
            TokenKind::Punct => true,
            _ => false,
        };
        out.push(TokenSpan { start_line: t.start_line, end_line: t.end_line, literal_or_punct: lp });
        assert(ts@.take(i + 1) =~= ts@.take(i as int).push(ts@[i as int]));
        assert(out@ =~= token_spans(ts@.take(i + 1)));
        i = i + 1;
    }
    assert(ts@.take(i as int) =~= ts@);
    out
}

/// The token spans of the arguments of a call; see `arg_spans`.
fn arg_spans_exec(xs: &Vec<ExprSyntax>) -> (res: Vec<TokenSpan>)
    ensures
        res@ == arg_spans(xs@),
{
    let mut out: Vec<TokenSpan> = Vec::new();
    let mut i: usize = 0;
    while i < xs.len()
        invariant
            i <= xs@.len(),
            out@ == arg_spans(xs@.take(i as int)),
        decreases xs@.len() - i,
    {
        let x = &xs[i];
        let lit = match x.kind {
            ExprKind::Lit(_) => true,
            _ => false,
        };
        out.push(TokenSpan { start_line: x.start_line, end_line: x.end_line, literal_or_punct: lit });
        assert(xs@.take(i + 1) =~= xs@.take(i as int).push(xs@[i as int]));
        assert(out@ =~= arg_spans(xs@.take(i + 1)));
        i = i + 1;
    }
    assert(xs@.take(i as int) =~= xs@);
    out
}

/// The token spans of the fields of a struct literal; see `field_spans`.
fn field_spans_exec(fs: &Vec<FieldSyntax>) -> (res: Vec<TokenSpan>)
    ensures
        res@ == field_spans(fs@),
{
    let mut out: Vec<TokenSpan> = Vec::new();
    let mut i: usize = 0;
    while i < fs.len()
        invariant
            i <= fs@.len(),
            out@ == field_spans(fs@.take(i as int)),
        decreases fs@.len() - i,
    {
        let f = &fs[i];
        let plain = match f.value.kind {
            ExprKind::Lit(_) => true,
            ExprKind::Path(_) => true,
            _ => false,
        };
        out.push(TokenSpan { start_line: f.member_line, end_line: f.member_line, literal_or_punct: plain });
        assert(fs@.take(i + 1) =~= fs@.take(i as int).push(fs@[i as int]));
        assert(out@ =~= field_spans(fs@.take(i + 1)));
        i = i + 1;
    }
    assert(fs@.take(i as int) =~= fs@);
    out
}

/// Visits a macro call in expression or item position; see `w_macro`.
fn walk_macro(a: &mut LineAnalysis, m: &mut Vec<String>, mc: &MacroSyntax, w: &WalkConfig) -> (res: SubResult)
    requires
        old(a).wf(),
    ensures
        final(a).wf(),
        final(a).max_line == old(a).max_line,
        final(m)@ == old(m)@,
        (sv(*final(a), final(m)@), res) == w_macro(sv(*old(a), old(m)@), *mc, env(w)),
{
    match &mc.name {
        Some(n) => {
            let o = macro_name_outcome(n.as_str(), w.ignore_panics);
            if o.1 {
                p_ignore(a, m, mc.start_line, mc.end_line);
            } else {
                let spans = token_spans_exec(&mc.args);
                p_kept_after(a, m, mc.start_line, mc.end_line, &spans);
            }
            o.0
        },
        None => {
            let spans = token_spans_exec(&mc.args);
            p_kept_after(a, m, mc.start_line, mc.end_line, &spans);
            SubResult::Reachable
        },
    }
}

/// Whether `name` is one of std's panicking macros; see `panic_macro`.
fn is_panic_macro(name: &str) -> (res: bool)
    ensures
        res == panic_macro(name@),
{
    crate::text::str_eq(name, "panic") || crate::text::str_eq(name, "assert") || crate::text::str_eq(name, "assert_eq")
        || crate::text::str_eq(name, "assert_ne") || crate::text::str_eq(name, "debug_assert") || crate::text::str_eq(
        name,
        "debug_assert_eq",
    ) || crate::text::str_eq(name, "debug_assert_ne")
}

/// Visits a macro call in statement position; see `w_stmt_macro`.
fn walk_stmt_macro(a: &mut LineAnalysis, m: &mut Vec<String>, attrs: &Vec<AttrSyntax>, mc: &MacroSyntax, w: &WalkConfig) -> (res: SubResult)
    requires
        old(a).wf(),
    ensures
        final(a).wf(),
        final(a).max_line == old(a).max_line,
        final(m)@ == old(m)@,
        (sv(*final(a), final(m)@), res) == w_stmt_macro(sv(*old(a), old(m)@), attrs@, *mc, env(w)),
{
    let keep = p_check(a, m, attrs, w.ctx);
    if keep {
        let panics = match &mc.name {
            Some(n) => w.ignore_panics && is_panic_macro(n.as_str()),
            None => false,
        };
        if panics {
            p_ignore(a, m, mc.start_line, mc.end_line);
            SubResult::Reachable
        } else {
            walk_macro(a, m, mc, w)
        }
    } else {
        p_ignore(a, m, mc.start_line, mc.end_line);
        SubResult::Reachable
    }
}

/// Visits the items of a list; see `w_items`.
pub fn walk_items(a: &mut LineAnalysis, m: &mut Vec<String>, items: &Vec<ItemSyntax>, w: &WalkConfig) -> (res: bool)
    requires
        old(a).wf(),
    ensures
        final(a).wf(),
        final(a).max_line == old(a).max_line,
        (sv(*final(a), final(m)@), res) == w_items(sv(*old(a), old(m)@), items@, env(w)),
    decreases items,
{
    let ghost s0 = sv(*a, m@);
    let mut u = false;
    let mut i: usize = 0;
    assert(items@.take(0) =~= Seq::<ItemSyntax>::empty());
    while i < items.len()
        invariant
            i <= items@.len(),
            a.wf(),
            a.max_line == old(a).max_line,
            (sv(*a, m@), u) == w_items(s0, items@.take(i as int), env(w)),
        decreases items@.len() - i,
    {
        proof {
            assert(decreases_to!(*items => items@));
            assert(decreases_to!(items@ => items@[i as int]));
        }
        let q = walk_item(a, m, &items[i], w);
        proof {
            assert(items@.take(i + 1).drop_last() =~= items@.take(i as int));
            assert(items@.take(i + 1).last() == items@[i as int]);
        }
        u = u || q;
        i = i + 1;
    }
    assert(items@.take(i as int) =~= items@);
    u
}

/// Visits an item; see `w_item`.
pub fn walk_item(a: &mut LineAnalysis, m: &mut Vec<String>, it: &ItemSyntax, w: &WalkConfig) -> (res: bool)
    requires
        old(a).wf(),
    ensures
        final(a).wf(),
        final(a).max_line == old(a).max_line,
        (sv(*final(a), final(m)@), res) == w_item(sv(*old(a), old(m)@), *it, env(w)),
    decreases it,
{
    match it {
        ItemSyntax::Const(x, y) => {
            p_ignore(a, m, *x, *y);
            false
        },
        ItemSyntax::Enum(x, y) => {
            p_ignore(a, m, *x, *y);
            false
        },
        ItemSyntax::ExternCrate(x, y) => {
            p_ignore(a, m, *x, *y);
            false
        },
        ItemSyntax::Struct(x, y) => {
            p_ignore(a, m, *x, *y);
            false
        },
        ItemSyntax::Union(x, y) => {
            p_ignore(a, m, *x, *y);
            false
        },
        ItemSyntax::Use(x, y) => {
            p_ignore(a, m, *x, *y);
            false
        },
        ItemSyntax::Mod(md) => {
            walk_mod(a, m, md, w);
            false
        },
        ItemSyntax::Fn(f) => {
            walk_fn(a, m, f, false, w);
            false
        },
        ItemSyntax::Trait(t) => {
            walk_trait(a, m, t, w);
            false
        },
        ItemSyntax::Impl(b) => {
            walk_impl(a, m, b, w);
            false
        },
        ItemSyntax::Macro(mc) => {
            let r = walk_macro(a, m, mc, w);
            r.is_unreachable()
        },
        _ => false,
    }
}

/// Visits a module; see `w_mod`.
pub fn walk_mod(a: &mut LineAnalysis, m: &mut Vec<String>, md: &ModSyntax, w: &WalkConfig)
    requires
        old(a).wf(),
    ensures
        final(a).wf(),
        final(a).max_line == old(a).max_line,
        sv(*final(a), final(m)@) == w_mod(sv(*old(a), old(m)@), *md, env(w)),
    decreases md,
{
    p_ignore(a, m, md.mod_line, md.mod_line);
    let keep = p_check(a, m, &md.attrs, w.ctx);
    if keep {
        walk_items(a, m, &md.items, w);
    } else {
        match md.braces {
            Some((x, y)) => p_ignore(a, m, x, y),
            None => {},
        }
        let ghost before = sv(*a, m@);
        p_leave_out(m, &md.name);
        assert(sv(*a, m@) == leave_out(before, md.name@));
    }
}

/// Visits a function; see `w_fn`.
pub fn walk_fn(a: &mut LineAnalysis, m: &mut Vec<String>, f: &FnSyntax, force: bool, w: &WalkConfig)
    requires
        old(a).wf(),
    ensures
        final(a).wf(),
        final(a).max_line == old(a).max_line,
        sv(*final(a), final(m)@) == w_fn(sv(*old(a), old(m)@), *f, force, env(w)),
    decreases f,
{
    let empty: Vec<AttrSyntax> = Vec::new();
    let ok = attrs_wf(&f.attrs);
    let attrs = if ok {
        &f.attrs
    } else {
        &empty
    };
    assert(attrs@ =~= attrs_ok(f.attrs@));
    let left = p_fn_start(a, m, f, attrs, w.ctx.include_tests, w.run_ignored);
    if left {
        return;
    }
    let scan = fn_attr_scan(attrs);
    let generic = f.generic_params > 0 || has_impl_trait_arg(&f.args);
    if scan.inline || generic || force {
        p_cover(a, m, f.body.start_line, f.body.end_line, w.contents);
    }
    let rs = walk_stmts(a, m, &f.body.stmts, w);
    let r = statements_result(&rs);
    if r.is_unreachable() {
        p_ignore(a, m, f.start_line, f.end_line);
    } else if f.fn_line < usize::MAX {
        p_finish(a, m, attrs, &f.where_tokens, f.fn_line, f.body.start_line);
    }
}

/// Visits a trait; see `w_trait`.
pub fn walk_trait(a: &mut LineAnalysis, m: &mut Vec<String>, t: &TraitSyntax, w: &WalkConfig)
    requires
        old(a).wf(),
    ensures
        final(a).wf(),
        final(a).max_line == old(a).max_line,
        sv(*final(a), final(m)@) == w_trait(sv(*old(a), old(m)@), *t, env(w)),
    decreases t,
{
    let keep = p_check(a, m, &t.attrs, w.ctx);
    if keep {
        walk_trait_items(a, m, &t.items, w);
        p_ignore_tokens(a, m, &t.where_tokens);
    } else {
        p_ignore(a, m, t.start_line, t.end_line);
    }
}

/// Visits the items of a trait; see `w_trait_items`.
pub fn walk_trait_items(a: &mut LineAnalysis, m: &mut Vec<String>, items: &Vec<TraitItemSyntax>, w: &WalkConfig)
    requires
        old(a).wf(),
    ensures
        final(a).wf(),
        final(a).max_line == old(a).max_line,
        sv(*final(a), final(m)@) == w_trait_items(sv(*old(a), old(m)@), items@, env(w)),
    decreases items,
{
    let ghost s0 = sv(*a, m@);
    let mut i: usize = 0;
    assert(items@.take(0) =~= Seq::<TraitItemSyntax>::empty());
    while i < items.len()
        invariant
            i <= items@.len(),
            a.wf(),
            a.max_line == old(a).max_line,
            sv(*a, m@) == w_trait_items(s0, items@.take(i as int), env(w)),
        decreases items@.len() - i,
    {
        proof {
            assert(decreases_to!(*items => items@));
            assert(decreases_to!(items@ => items@[i as int]));
        }
        walk_trait_item(a, m, &items[i], w);
        proof {
            assert(items@.take(i + 1).drop_last() =~= items@.take(i as int));
            assert(items@.take(i + 1).last() == items@[i as int]);
        }
        i = i + 1;
    }
    assert(items@.take(i as int) =~= items@);
}

/// Visits an item of a trait; see `w_trait_item`.
pub fn walk_trait_item(a: &mut LineAnalysis, m: &mut Vec<String>, it: &TraitItemSyntax, w: &WalkConfig)
    requires
        old(a).wf(),
    ensures
        final(a).wf(),
        final(a).max_line == old(a).max_line,
        sv(*final(a), final(m)@) == w_trait_item(sv(*old(a), old(m)@), *it, env(w)),
    decreases it,
{
    match it {
        TraitItemSyntax::Fn(attrs, x, y, f) => {
            let keep = p_check(a, m, attrs, w.ctx);
            if keep {
                match f {
                    Some(g) => walk_fn(a, m, g, true, w),
                    None => p_ignore(a, m, *x, *y),
                }
            } else {
                p_ignore(a, m, *x, *y);
            }
            p_ig_attrs(a, m, attrs);
        },
        TraitItemSyntax::Other => {},
    }
}

/// Visits an impl block; see `w_impl`.
pub fn walk_impl(a: &mut LineAnalysis, m: &mut Vec<String>, b: &ImplSyntax, w: &WalkConfig)
    requires
        old(a).wf(),
    ensures
        final(a).wf(),
        final(a).max_line == old(a).max_line,
        sv(*final(a), final(m)@) == w_impl(sv(*old(a), old(m)@), *b, env(w)),
    decreases b,
{
    let keep = p_check(a, m, &b.attrs, w.ctx);
    if keep {
        walk_impl_items(a, m, &b.items, b.generic_params > 0, w);
        p_ignore_tokens(a, m, &b.where_tokens);
    } else {
        p_ignore(a, m, b.start_line, b.end_line);
    }
}

/// Visits the items of an impl block; see `w_impl_items`.
pub fn walk_impl_items(a: &mut LineAnalysis, m: &mut Vec<String>, items: &Vec<ImplItemSyntax>, force: bool, w: &WalkConfig)
    requires
        old(a).wf(),
    ensures
        final(a).wf(),
        final(a).max_line == old(a).max_line,
        sv(*final(a), final(m)@) == w_impl_items(sv(*old(a), old(m)@), items@, force, env(w)),
    decreases items,
{
    let ghost s0 = sv(*a, m@);
    let mut i: usize = 0;
    assert(items@.take(0) =~= Seq::<ImplItemSyntax>::empty());
    while i < items.len()
        invariant
            i <= items@.len(),
            a.wf(),
            a.max_line == old(a).max_line,
            sv(*a, m@) == w_impl_items(s0, items@.take(i as int), force, env(w)),
        decreases items@.len() - i,
    {
        proof {
            assert(decreases_to!(*items => items@));
            assert(decreases_to!(items@ => items@[i as int]));
        }
        walk_impl_item(a, m, &items[i], force, w);
        proof {
            assert(items@.take(i + 1).drop_last() =~= items@.take(i as int));
            assert(items@.take(i + 1).last() == items@[i as int]);
        }
        i = i + 1;
    }
    assert(items@.take(i as int) =~= items@);
}

/// Visits an item of an impl block; see `w_impl_item`.
pub fn walk_impl_item(a: &mut LineAnalysis, m: &mut Vec<String>, it: &ImplItemSyntax, force: bool, w: &WalkConfig)
    requires
        old(a).wf(),
    ensures
        final(a).wf(),
        final(a).max_line == old(a).max_line,
        sv(*final(a), final(m)@) == w_impl_item(sv(*old(a), old(m)@), *it, force, env(w)),
    decreases it,
{
    match it {
        ImplItemSyntax::Fn(f) => walk_fn(a, m, f, force, w),
        ImplItemSyntax::Type(x, y) => p_ignore(a, m, *x, *y),
        ImplItemSyntax::Other => {},
    }
}

/// Visits the statements of a list, with the reachability of each; see
/// `w_stmts`.
#[verifier::spinoff_prover]
#[verifier::rlimit(60)]
pub fn walk_stmts(a: &mut LineAnalysis, m: &mut Vec<String>, ss: &Vec<StmtSyntax>, w: &WalkConfig) -> (res: Vec<SubResult>)
    requires
        old(a).wf(),
    ensures
        final(a).wf(),
        final(a).max_line == old(a).max_line,
        (sv(*final(a), final(m)@), res@) == w_stmts(sv(*old(a), old(m)@), ss@, env(w)),
    decreases ss,
{
    let ghost s0 = sv(*a, m@);
    let mut rs: Vec<SubResult> = Vec::new();
    let mut i: usize = 0;
    assert(ss@.take(0) =~= Seq::<StmtSyntax>::empty());
    while i < ss.len()
        invariant
            i <= ss@.len(),
            a.wf(),
            a.max_line == old(a).max_line,
            (sv(*a, m@), rs@) == w_stmts(s0, ss@.take(i as int), env(w)),
        decreases ss@.len() - i,
    {
        proof {
            assert(decreases_to!(*ss => ss@));
            assert(decreases_to!(ss@ => ss@[i as int]));
        }
        let q = walk_stmt(a, m, &ss[i], w);
        proof {
            assert(ss@.take(i + 1).drop_last() =~= ss@.take(i as int));
            assert(ss@.take(i + 1).last() == ss@[i as int]);
        }
        rs.push(q);
        i = i + 1;
    }
    assert(ss@.take(i as int) =~= ss@);
    rs
}

/// Visits a statement; see `w_stmt`.
#[verifier::spinoff_prover]
#[verifier::rlimit(60)]
pub fn walk_stmt(a: &mut LineAnalysis, m: &mut Vec<String>, st: &StmtSyntax, w: &WalkConfig) -> (res: SubResult)
    requires
        old(a).wf(),
    ensures
        final(a).wf(),
        final(a).max_line == old(a).max_line,
        (sv(*final(a), final(m)@), res) == w_stmt(sv(*old(a), old(m)@), *st, env(w)),
    decreases st,
{
    match st {
        StmtSyntax::Local(l) => walk_local(a, m, l, w),
        StmtSyntax::Item(i) => {
            let u = walk_item(a, m, i, w);
            if u {
                SubResult::Unreachable
            } else {
                SubResult::Reachable
            }
        },
        StmtSyntax::Expr(x) => walk_expr(a, m, x, w),
        StmtSyntax::Macro(attrs, mc) => walk_stmt_macro(a, m, attrs, mc, w),
    }
}

/// Visits a block; see `w_block`.
#[verifier::spinoff_prover]
#[verifier::rlimit(60)]
pub fn walk_block(a: &mut LineAnalysis, m: &mut Vec<String>, b: &BlockSyntax, w: &WalkConfig) -> (res: SubResult)
    requires
        old(a).wf(),
    ensures
        final(a).wf(),
        final(a).max_line == old(a).max_line,
        (sv(*final(a), final(m)@), res) == w_block(sv(*old(a), old(m)@), *b, env(w)),
    decreases b,
{
    let rs = walk_stmts(a, m, &b.stmts, w);
    let r = statements_result(&rs);
    if r.is_unreachable() {
        p_ignore(a, m, b.start_line, b.end_line);
    }
    r
}

/// Visits the initialiser of a `let` statement; see `w_init`.
#[verifier::spinoff_prover]
#[verifier::rlimit(60)]
pub fn walk_init(a: &mut LineAnalysis, m: &mut Vec<String>, let_line: usize, pat_line: usize, init: &InitSyntax, w: &WalkConfig) -> (res: SubResult)
    requires
        old(a).wf(),
    ensures
        final(a).wf(),
        final(a).max_line == old(a).max_line,
        (sv(*final(a), final(m)@), res) == w_init(sv(*old(a), old(m)@), let_line, pat_line, *init, env(w)),
    decreases init,
{
    if pat_line != let_line {
        p_logical(a, m, pat_line, let_line);
    }
    if init.eq_line != let_line {
        p_logical(a, m, init.eq_line, let_line);
    }
    if init.expr.start_line != let_line {
        p_logical(a, m, init.expr.start_line, let_line);
    }
    let r = walk_expr(a, m, &init.expr, w);
    match &init.diverge {
        Some(d) => {
            walk_expr(a, m, d, w);
        },
        None => {},
    }
    SubResult::Reachable.add(r)
}

/// Visits a `let` statement; see `w_local`.
#[verifier::rlimit(100)]
#[verifier::spinoff_prover]
pub fn walk_local(a: &mut LineAnalysis, m: &mut Vec<String>, l: &LocalSyntax, w: &WalkConfig) -> (res: SubResult)
    requires
        old(a).wf(),
    ensures
        final(a).wf(),
        final(a).max_line == old(a).max_line,
        (sv(*final(a), final(m)@), res) == w_local(sv(*old(a), old(m)@), *l, env(w)),
    decreases l,
{
    match &l.init {
        None => SubResult::Reachable,
        Some(init) => {
            let ghost s0 = sv(*a, m@);
            let keep = p_check(a, m, &l.attrs, w.ctx);
            let ghost c = checked(s0, l.attrs@, env(w).1);
            assert(sv(*a, m@) == c.0 && keep == c.1);
            if keep {
                p_ig_attrs(a, m, &l.attrs);
                assert(sv(*a, m@) == ig_attrs(c.0, l.attrs@));
                if l.let_line != l.end_line {
                    walk_init(a, m, l.let_line, l.pat_line, init, w)
                } else {
                    SubResult::Reachable
                }
            } else {
                p_ignore(a, m, l.start_line, l.end_line);
                SubResult::Reachable
            }
        },
    }
}

/// Visits the arms of a `match`; see `w_arms`.
#[verifier::spinoff_prover]
#[verifier::rlimit(60)]
pub fn walk_arms(a: &mut LineAnalysis, m: &mut Vec<String>, arms: &Vec<ArmSyntax>, w: &WalkConfig) -> (res: Option<SubResult>)
    requires
        old(a).wf(),
    ensures
        final(a).wf(),
        final(a).max_line == old(a).max_line,
        (sv(*final(a), final(m)@), res) == w_arms(sv(*old(a), old(m)@), arms@, env(w)),
    decreases arms,
{
    let ghost s0 = sv(*a, m@);
    let mut acc: Option<SubResult> = None;
    let mut i: usize = 0;
    assert(arms@.take(0) =~= Seq::<ArmSyntax>::empty());
    while i < arms.len()
        invariant
            i <= arms@.len(),
            a.wf(),
            a.max_line == old(a).max_line,
            (sv(*a, m@), acc) == w_arms(s0, arms@.take(i as int), env(w)),
        decreases arms@.len() - i,
    {
        proof {
            assert(decreases_to!(*arms => arms@));
            assert(decreases_to!(arms@ => arms@[i as int]));
            assert(arms@.take(i + 1).drop_last() =~= arms@.take(i as int));
            assert(arms@.take(i + 1).last() == arms@[i as int]);
        }
        let arm = &arms[i];
        let keep = p_check(a, m, &arm.attrs, w.ctx);
        if keep {
            let q = walk_expr(a, m, &arm.body, w);
            if !q.is_unreachable() {
                p_logical_run(a, m, arm.pat_start, arm.pat_end);
                acc = Some(
                    match acc {
                        Some(r) => r.add(q),
                        None => q,
                    },
                );
            }
        } else {
            p_ignore(a, m, arm.start_line, arm.end_line);
        }
        i = i + 1;
    }
    assert(arms@.take(i as int) =~= arms@);
    acc
}

/// Visits an `unsafe` block; see `w_unsafe`.
#[verifier::spinoff_prover]
#[verifier::rlimit(60)]
pub fn walk_unsafe(
    a: &mut LineAnalysis,
    m: &mut Vec<String>,
    x: &ExprSyntax,
    u: usize,
    first: Option<usize>,
    b: &BlockSyntax,
    w: &WalkConfig,
) -> (res: SubResult)
    requires
        old(a).wf(),
    ensures
        final(a).wf(),
        final(a).max_line == old(a).max_line,
        (sv(*final(a), final(m)@), res) == w_unsafe(sv(*old(a), old(m)@), *x, u, first, *b, env(w)),
    decreases b,
{
    if u != b.start_line || b.stmts.len() == 0 {
        p_ignore(a, m, u, u);
        return SubResult::Reachable;
    }
    if first != Some(u) {
        p_ignore(a, m, u, u);
    }
    let rs = walk_stmts(a, m, &b.stmts, w);
    let r = statements_result(&rs);
    if r.is_unreachable() {
        p_ignore(a, m, x.start_line, x.end_line);
        r
    } else {
        SubResult::Reachable.add(r)
    }
}

/// Visits an expression; see `w_expr`.
#[verifier::spinoff_prover]
#[verifier::rlimit(60)]
pub fn walk_expr(a: &mut LineAnalysis, m: &mut Vec<String>, x: &ExprSyntax, w: &WalkConfig) -> (res: SubResult)
    requires
        old(a).wf(),
    ensures
        final(a).wf(),
        final(a).max_line == old(a).max_line,
        (sv(*final(a), final(m)@), res) == w_expr(sv(*old(a), old(m)@), *x, env(w)),
    decreases x,
{
    proof {
        reveal(w_expr);
    }
    let r = match &x.kind {
        ExprKind::Macro(mc) => walk_macro(a, m, mc, w),
        ExprKind::Struct(fs) => {
            let spans = field_spans_exec(fs);
            p_kept(a, m, x.start_line, x.end_line, &spans);
            SubResult::Reachable
        },
        ExprKind::Unsafe(u, first, b) => walk_unsafe(a, m, x, *u, *first, b, w),
        ExprKind::Call(attrs, f, args) => {
            let keep = p_check(a, m, attrs, w.ctx);
            if keep {
                if args.len() > 0 && x.start_line != x.end_line {
                    let spans = arg_spans_exec(args);
                    p_kept(a, m, x.start_line, x.end_line, &spans);
                }
                walk_expr(a, m, f, w);
            } else {
                p_ignore(a, m, x.start_line, x.end_line);
            }
            SubResult::Reachable
        },
        ExprKind::MethodCall(attrs, recv, args) => {
            let keep = p_check(a, m, attrs, w.ctx);
            if keep {
                walk_expr(a, m, recv, w);
                let spans = arg_spans_exec(args);
                p_kept_after(a, m, recv.end_line, x.end_line, &spans);
            } else {
                p_ignore(a, m, x.start_line, x.end_line);
            }
            SubResult::Reachable
        },
        ExprKind::Match(arms) => {
            let q = walk_arms(a, m, arms, w);
            match q {
                Some(res) => res,
                None => {
                    p_ignore(a, m, x.start_line, x.end_line);
                    SubResult::Unreachable
                },
            }
        },
        ExprKind::Block(attrs, b) => {
            let keep = p_check(a, m, attrs, w.ctx);
            if keep {
                walk_block(a, m, b, w)
            } else {
                p_ignore(a, m, x.start_line, x.end_line);
                SubResult::Reachable
            }
        },
        ExprKind::If(cond, then, els) => {
            let r1 = walk_expr(a, m, cond, w);
            let r2 = walk_block(a, m, then, w);
            let acc = r1.add(r2);
            let r3 = match els {
                Some(x2) => {
                    let q = walk_expr(a, m, x2, w);
                    acc.add(q)
                },
                None => acc.add(SubResult::Reachable),
            };
            if r3.is_unreachable() {
                p_ignore(a, m, x.start_line, x.end_line);
                SubResult::Unreachable
            } else {
                r3
            }
        },
        ExprKind::While(attrs, b) => {
            let keep = p_check(a, m, attrs, w.ctx);
            if keep {
                let q = walk_block(a, m, b, w);
                if q.is_unreachable() {
                    p_ignore(a, m, x.start_line, x.end_line);
                    SubResult::Unreachable
                } else {
                    SubResult::Definite
                }
            } else {
                p_ignore(a, m, x.start_line, x.end_line);
                SubResult::Definite
            }
        },
        ExprKind::ForLoop(attrs, b) => {
            let keep = p_check(a, m, attrs, w.ctx);
            if keep {
                let q = walk_block(a, m, b, w);
                if q.is_unreachable() {
                    p_ignore(a, m, x.start_line, x.end_line);
                    SubResult::Unreachable
                } else {
                    SubResult::Definite
                }
            } else {
                p_ignore(a, m, x.start_line, x.end_line);
                SubResult::Definite
            }
        },
        ExprKind::Loop(attrs, b) => {
            let keep = p_check(a, m, attrs, w.ctx);
            if keep {
                let q = walk_block(a, m, b, w);
                if q.is_unreachable() {
                    p_ignore(a, m, x.start_line, x.end_line);
                    SubResult::Unreachable
                } else {
                    SubResult::Definite
                }
            } else {
                p_ignore(a, m, x.start_line, x.end_line);
                SubResult::Definite
            }
        },
        ExprKind::Return(attrs) => {
            let keep = p_check(a, m, attrs, w.ctx);
            if keep {
                p_ig_attrs(a, m, attrs);
            } else {
                p_ignore(a, m, x.start_line, x.end_line);
            }
            SubResult::Definite
        },
        ExprKind::Closure(b) => {
            let q = walk_expr(a, m, b, w);
            if q.is_unreachable() {
                SubResult::Reachable
            } else {
                q
            }
        },
        ExprKind::Path(last) => {
            let hit = match last {
                Some(n) => crate::text::str_eq(n.as_str(), "unreachable_unchecked"),
                None => false,
            };
            if hit {
                p_ignore(a, m, x.start_line, x.end_line);
                SubResult::Unreachable
            } else {
                SubResult::Reachable
            }
        },
        ExprKind::Let(attrs, let_line, pat_line, eq_line, ex) => {
            let keep = p_check(a, m, attrs, w.ctx);
            if keep {
                p_ig_attrs(a, m, attrs);
                if *let_line != x.end_line {
                    if *pat_line != *let_line {
                        p_logical(a, m, *pat_line, *let_line);
                    }
                    if *eq_line != *let_line {
                        p_logical(a, m, *eq_line, *let_line);
                    }
                    if ex.start_line != *let_line {
                        p_logical(a, m, ex.start_line, *let_line);
                    }
                    let q = walk_expr(a, m, ex, w);
                    SubResult::Reachable.add(q)
                } else {
                    SubResult::Reachable
                }
            } else {
                p_ignore(a, m, x.start_line, x.end_line);
                SubResult::Reachable
            }
        },
        ExprKind::Group(b) => walk_expr(a, m, b, w),
        ExprKind::Await(b) => walk_expr(a, m, b, w),
        ExprKind::Async(b) => walk_block(a, m, b, w),
        ExprKind::Try(b) => {
            walk_expr(a, m, b, w);
            SubResult::Definite
        },
        ExprKind::TryBlock(b) => {
            walk_block(a, m, b, w);
            SubResult::Definite
        },
        ExprKind::Lit(_) => SubResult::Reachable,
        ExprKind::Other => SubResult::Reachable,
    };
    if r.is_unreachable() {
        p_ignore(a, m, x.start_line, x.end_line);
    }
    r
}

/// Visits a whole file; see `w_file`.
pub fn walk_file(a: &mut LineAnalysis, m: &mut Vec<String>, f: &FileSyntax, w: &WalkConfig) -> (res: bool)
    requires
        old(a).wf(),
    ensures
        final(a).wf(),
        final(a).max_line == old(a).max_line,
        (sv(*final(a), final(m)@), res) == w_file(sv(*old(a), old(m)@), *f, env(w)),
{
    let keep = p_check(a, m, &f.attrs, w.ctx);
    if keep {
        p_ignorable(a, m, w.contents);
        walk_items(a, m, &f.items, w);
    }
    keep
}

/// Ignores the lines `l`, unless all lines are ignored already; ignored
/// lines are no longer covered.
pub open spec fn ig(s: WalkState, l: Set<Lines>) -> WalkState {
    if s.0.contains(Lines::All) {
        s
    } else {
        (s.0 + l, s.1.filter(|i: usize| !l.contains(Lines::Line(i))), s.2, s.3)
    }
}

/// The lines from `a` to `b` of a node.
pub open spec fn span_of(a: usize, b: usize) -> Set<Lines> {
    range_lines(a as int, b as int)
}

/// The single lines of a set of line numbers.
pub open spec fn line_set(ls: Set<usize>) -> Set<Lines> {
    Set::new(|m: Lines| m matches Lines::Line(i) && ls.contains(i))
}

/// The lines from `lo` to `hi` that no token of `ex` holding code spans.
pub open spec fn kept_lines(lo: int, hi: int, ex: Seq<TokenSpan>) -> Set<usize> {
    Set::new(|l: usize| lo <= l <= hi && !arg_line(ex, l as int))
}

/// Covers the lines with code from `a` to `b` of `contents` that are not
/// ignored as single lines (nothing where `a` to `b` is not a span of lines).
pub open spec fn cover(s: WalkState, a: usize, b: usize, contents: Seq<char>) -> WalkState {
    if 1 <= a <= b {
        (
            s.0,
            s.1 + Set::new(
                |i: usize| useful_lines(Some(contents), a as int, b as int).contains(i as int) && !s.0.contains(
                    Lines::Line(i),
                ),
            ),
            s.2,
            s.3,
        )
    } else {
        s
    }
}

/// Records that physical line `k` belongs to the logical line `v`.
pub open spec fn logical(s: WalkState, k: usize, v: usize) -> WalkState {
    (s.0, s.1, s.2.insert(k, v), s.3)
}

/// Records that the lines after `lo` up to `hi` belong to the logical line
/// `lo`.
pub open spec fn logical_run(s: WalkState, lo: usize, hi: usize) -> WalkState {
    (s.0, s.1, s.2.union_prefer_right(Map::new(|l: usize| lo < l <= hi, |l: usize| lo)), s.3)
}

/// Records that the module `name` is left out.
pub open spec fn leave_out(s: WalkState, name: Seq<char>) -> WalkState {
    (s.0, s.1, s.2, s.3.push(name))
}

/// The attributes the walk reads: all of them where each is well formed,
/// else none.
pub open spec fn attrs_ok(attrs: Seq<AttrSyntax>) -> Seq<AttrSyntax> {
    if forall|i: int| 0 <= i < attrs.len() ==> meta_wf(#[trigger] attrs[i].meta) {
        attrs
    } else {
        Seq::empty()
    }
}

/// Looks at the attributes of a node in turn, ignoring the lines of each,
/// up to the first that leaves the node out; whether none does.
pub open spec fn checked(s: WalkState, attrs: Seq<AttrSyntax>, c: (bool, bool, Seq<Seq<char>>)) -> (WalkState, bool) {
    let k = attrs_ok(attrs);
    (ig(s, span_lines(k, attrs_looked_at(k, c))), attrs_keep(k, c))
}

/// Ignores the lines of all the attributes.
pub open spec fn ig_attrs(s: WalkState, attrs: Seq<AttrSyntax>) -> WalkState {
    let k = attrs_ok(attrs);
    ig(s, span_lines(k, k.len() as int))
}

/// Whether a function is generic: it has generic parameters, or an argument
/// of type `impl Trait`.
pub open spec fn fn_generic(f: FnSyntax) -> bool {
    f.generic_params > 0 || exists|i: int| 0 <= i < f.args@.len() && impl_trait_arg(#[trigger] f.args@[i])
}

/// Whether an argument's type is an `impl Trait`.
pub open spec fn impl_trait_arg(a: FnArgSyntax) -> bool {
    a matches FnArgSyntax::Typed(TypeTag::ImplTrait)
}

/// A token tree as a token span: a literal or a punctuation mark holds no
/// code.
pub open spec fn token_span(t: TokenTreeSyntax) -> TokenSpan {
    TokenSpan {
        start_line: t.start_line,
        end_line: t.end_line,
        literal_or_punct: t.kind is Literal || t.kind is Punct,
    }
}

/// The token spans of token trees.
pub open spec fn token_spans(ts: Seq<TokenTreeSyntax>) -> Seq<TokenSpan> {
    ts.map_values(|t: TokenTreeSyntax| token_span(t))
}

/// An argument of a call as a token span: a literal holds no code.
pub open spec fn arg_span(x: ExprSyntax) -> TokenSpan {
    TokenSpan { start_line: x.start_line, end_line: x.end_line, literal_or_punct: x.kind is Lit }
}

/// The token spans of the arguments of a call.
pub open spec fn arg_spans(xs: Seq<ExprSyntax>) -> Seq<TokenSpan> {
    xs.map_values(|x: ExprSyntax| arg_span(x))
}

/// A field of a struct literal as a token span on the line of its name: a
/// literal or a path as its value holds no code.
pub open spec fn field_span(f: FieldSyntax) -> TokenSpan {
    TokenSpan {
        start_line: f.member_line,
        end_line: f.member_line,
        literal_or_punct: f.value.kind is Lit || f.value.kind is Path,
    }
}

/// The token spans of the fields of a struct literal.
pub open spec fn field_spans(fs: Seq<FieldSyntax>) -> Seq<TokenSpan> {
    fs.map_values(|f: FieldSyntax| field_span(f))
}

/// The span of a function, as its one token.
pub open spec fn fn_tokens(f: FnSyntax) -> Seq<TokenSpan> {
    seq![TokenSpan { start_line: f.start_line, end_line: f.end_line, literal_or_punct: false }]
}

/// The last step of a function whose body can be reached: its `where`
/// clause and the lines from its first attribute up to its `fn` line are
/// ignored, the `fn` line is counted again, and the lines after it up to
/// the start of the body are ignored.
pub open spec fn finish(s: WalkState, attrs: Seq<AttrSyntax>, wh: Seq<TokenSpan>, fn_line: usize, body: usize) -> WalkState {
    if !s.0.contains(Lines::All) {
        let l = decl_lines(attrs, wh, fn_line) + range_lines(fn_line + 1, body as int);
        (
            (s.0 + decl_lines(attrs, wh, fn_line)).remove(Lines::Line(fn_line)) + range_lines(fn_line + 1, body as int),
            s.1.filter(|i: usize| !l.contains(Lines::Line(i))),
            s.2,
            s.3,
        )
    } else {
        (s.0.remove(Lines::Line(fn_line)), s.1, s.2, s.3)
    }
}

/// A macro call in expression or item position: a macro that takes its
/// code out of coverage (see `macro_name_spec`) has its lines ignored; any
/// other has its lines after the first ignored, but those where its
/// arguments hold code.
pub open spec fn w_macro(s: WalkState, m: MacroSyntax, e: WalkEnv) -> (WalkState, SubResult) {
    let rest = ig(s, line_set(kept_lines(m.start_line + 1, m.end_line as int, token_spans(m.args@))));
    match m.name {
        Some(n) => {
            let o = macro_name_spec(n@, e.3);
            if o.1 {
                (ig(s, span_of(m.start_line, m.end_line)), o.0)
            } else {
                (rest, o.0)
            }
        },
        None => (rest, SubResult::Reachable),
    }
}

/// Whether `name` is one of std's macros that panic: `panic` and the
/// assertions.
pub open spec fn panic_macro(name: Seq<char>) -> bool {
    name == "panic"@ || name == "assert"@ || name == "assert_eq"@ || name == "assert_ne"@ || name
        == "debug_assert"@ || name == "debug_assert_eq"@ || name == "debug_assert_ne"@
}

/// A macro call in statement position, with attributes `attrs`: where they
/// keep it, it is handled as `w_macro` says, a panicking macro (see
/// `panic_macro`) being left out too where panics are; where they leave it
/// out, its lines are ignored.
pub open spec fn w_stmt_macro(s: WalkState, attrs: Seq<AttrSyntax>, m: MacroSyntax, e: WalkEnv) -> (WalkState, SubResult) {
    let c = checked(s, attrs, e.1);
    if c.1 {
        match m.name {
            Some(n) => if e.3 && panic_macro(n@) {
                (ig(c.0, span_of(m.start_line, m.end_line)), SubResult::Reachable)
            } else {
                w_macro(c.0, m, e)
            },
            None => w_macro(c.0, m, e),
        }
    } else {
        (ig(c.0, span_of(m.start_line, m.end_line)), SubResult::Reachable)
    }
}

/// The items of a list in turn; whether one is a macro call that cannot be
/// reached.
pub open spec fn w_items(s: WalkState, items: Seq<ItemSyntax>, e: WalkEnv) -> (WalkState, bool)
    decreases items,
{
    if items.len() == 0 {
        (s, false)
    } else {
        let p = w_items(s, items.drop_last(), e);
        let q = w_item(p.0, items.last(), e);
        (q.0, p.1 || q.1)
    }
}

/// An item: items with nothing to run are ignored whole; modules,
/// functions, traits and impl blocks are visited; a macro call is handled
/// as `w_macro` says, and its reachability handed back.
pub open spec fn w_item(s: WalkState, it: ItemSyntax, e: WalkEnv) -> (WalkState, bool)
    decreases it,
{
    match it {
        ItemSyntax::Const(a, b) => (ig(s, span_of(a, b)), false),
        ItemSyntax::Enum(a, b) => (ig(s, span_of(a, b)), false),
        ItemSyntax::ExternCrate(a, b) => (ig(s, span_of(a, b)), false),
        ItemSyntax::Struct(a, b) => (ig(s, span_of(a, b)), false),
        ItemSyntax::Union(a, b) => (ig(s, span_of(a, b)), false),
        ItemSyntax::Use(a, b) => (ig(s, span_of(a, b)), false),
        ItemSyntax::Mod(m) => (w_mod(s, m, e), false),
        ItemSyntax::Fn(f) => (w_fn(s, f, false, e), false),
        ItemSyntax::Trait(t) => (w_trait(s, t, e), false),
        ItemSyntax::Impl(i) => (w_impl(s, i, e), false),
        ItemSyntax::Macro(m) => {
            let q = w_macro(s, m, e);
            (q.0, q.1 == SubResult::Unreachable)
        },
        _ => (s, false),
    }
}

/// A module: its `mod` line is ignored and its attributes looked at; where
/// they keep it, its items are visited, else its inline body is ignored and
/// the module is left out.
pub open spec fn w_mod(s: WalkState, m: ModSyntax, e: WalkEnv) -> WalkState
    decreases m,
{
    let c = checked(ig(s, span_of(m.mod_line, m.mod_line)), m.attrs@, e.1);
    if c.1 {
        w_items(c.0, m.items@, e).0
    } else {
        let s2 = match m.braces {
            Some((a, b)) => ig(c.0, span_of(a, b)),
            None => c.0,
        };
        leave_out(s2, m.name@)
    }
}

/// A function (`force`: its body is to be counted whatever the debug tables
/// say). Its `derive` attributes are ignored; where it is left out (see
/// `fn_left_out`) all its lines are. Else an inline or generic function
/// has its body covered, the statements of its body are visited, and then
/// either all its lines are ignored, where the body cannot be reached, or
/// its declaration is handled as `finish` says.
pub open spec fn w_fn(s: WalkState, f: FnSyntax, force: bool, e: WalkEnv) -> WalkState
    decreases f,
{
    let attrs = attrs_ok(f.attrs@);
    let s1 = ig(s, fn_start_lines(attrs, fn_tokens(f), e.1.0, e.2));
    if fn_left_out(attrs, e.1.0, e.2) {
        s1
    } else {
        let s2 = if fn_scan(attrs).1 || fn_generic(f) || force {
            cover(s1, f.body.start_line, f.body.end_line, e.0)
        } else {
            s1
        };
        let r = w_stmts(s2, f.body.stmts@, e);
        if statements_spec(r.1) == SubResult::Unreachable {
            ig(r.0, span_of(f.start_line, f.end_line))
        } else if f.fn_line < usize::MAX {
            finish(r.0, attrs, f.where_tokens@, f.fn_line, f.body.start_line)
        } else {
            r.0
        }
    }
}

/// A trait: where its attributes keep it, its methods are visited and its
/// `where` clause ignored; else all its lines are ignored.
pub open spec fn w_trait(s: WalkState, t: TraitSyntax, e: WalkEnv) -> WalkState
    decreases t,
{
    let c = checked(s, t.attrs@, e.1);
    if c.1 {
        ig(w_trait_items(c.0, t.items@, e), token_lines(t.where_tokens@))
    } else {
        ig(c.0, span_of(t.start_line, t.end_line))
    }
}

/// The items of a trait in turn.
pub open spec fn w_trait_items(s: WalkState, items: Seq<TraitItemSyntax>, e: WalkEnv) -> WalkState
    decreases items,
{
    if items.len() == 0 {
        s
    } else {
        w_trait_item(w_trait_items(s, items.drop_last(), e), items.last(), e)
    }
}

/// A method of a trait: where its attributes keep it and it has a default
/// body, it is visited as a function whose body is counted; else its lines
/// are ignored. Its attributes' lines are ignored either way.
pub open spec fn w_trait_item(s: WalkState, it: TraitItemSyntax, e: WalkEnv) -> WalkState
    decreases it,
{
    match it {
        TraitItemSyntax::Fn(attrs, a, b, f) => {
            let c = checked(s, attrs@, e.1);
            let s2 = if c.1 {
                match f {
                    Some(g) => w_fn(c.0, g, true, e),
                    None => ig(c.0, span_of(a, b)),
                }
            } else {
                ig(c.0, span_of(a, b))
            };
            ig_attrs(s2, attrs@)
        },
        TraitItemSyntax::Other => s,
    }
}

/// An impl block: where its attributes keep it, its items are visited (its
/// methods counted whatever the debug tables say where it is generic) and
/// its `where` clause ignored; else all its lines are ignored.
pub open spec fn w_impl(s: WalkState, i: ImplSyntax, e: WalkEnv) -> WalkState
    decreases i,
{
    let c = checked(s, i.attrs@, e.1);
    if c.1 {
        ig(w_impl_items(c.0, i.items@, i.generic_params > 0, e), token_lines(i.where_tokens@))
    } else {
        ig(c.0, span_of(i.start_line, i.end_line))
    }
}

/// The items of an impl block in turn.
pub open spec fn w_impl_items(s: WalkState, items: Seq<ImplItemSyntax>, force: bool, e: WalkEnv) -> WalkState
    decreases items,
{
    if items.len() == 0 {
        s
    } else {
        w_impl_item(w_impl_items(s, items.drop_last(), force, e), items.last(), force, e)
    }
}

/// An item of an impl block: a method is visited as a function, the lines
/// of an associated type are ignored.
pub open spec fn w_impl_item(s: WalkState, it: ImplItemSyntax, force: bool, e: WalkEnv) -> WalkState
    decreases it,
{
    match it {
        ImplItemSyntax::Fn(f) => w_fn(s, f, force, e),
        ImplItemSyntax::Type(a, b) => ig(s, span_of(a, b)),
        ImplItemSyntax::Other => s,
    }
}

/// The statements of a list in turn, with the reachability of each.
pub open spec fn w_stmts(s: WalkState, ss: Seq<StmtSyntax>, e: WalkEnv) -> (WalkState, Seq<SubResult>)
    decreases ss,
{
    if ss.len() == 0 {
        (s, Seq::empty())
    } else {
        let p = w_stmts(s, ss.drop_last(), e);
        let q = w_stmt(p.0, ss.last(), e);
        (q.0, p.1.push(q.1))
    }
}

/// A statement.
pub open spec fn w_stmt(s: WalkState, st: StmtSyntax, e: WalkEnv) -> (WalkState, SubResult)
    decreases st,
{
    match st {
        StmtSyntax::Local(l) => w_local(s, l, e),
        StmtSyntax::Item(i) => {
            let q = w_item(s, i, e);
            (q.0, if q.1 {
                SubResult::Unreachable
            } else {
                SubResult::Reachable
            })
        },
        StmtSyntax::Expr(x) => w_expr(s, x, e),
        StmtSyntax::Macro(attrs, m) => w_stmt_macro(s, attrs@, m, e),
    }
}

/// A block: its statements are visited; where they cannot be reached, its
/// lines are ignored.
pub open spec fn w_block(s: WalkState, b: BlockSyntax, e: WalkEnv) -> (WalkState, SubResult)
    decreases b,
{
    let r = w_stmts(s, b.stmts@, e);
    let res = statements_spec(r.1);
    if res == SubResult::Unreachable {
        (ig(r.0, span_of(b.start_line, b.end_line)), res)
    } else {
        (r.0, res)
    }
}

/// A `let` statement with an initialiser: where its attributes keep it,
/// their lines are ignored, and where it spans several lines, the lines of
/// its pattern, `=` and expression join the `let` line, and its expression
/// and `else` branch are visited. Where they leave it out, its lines are
/// ignored.
pub open spec fn w_local(s: WalkState, l: LocalSyntax, e: WalkEnv) -> (WalkState, SubResult)
    decreases l,
{
    match l.init {
        None => (s, SubResult::Reachable),
        Some(init) => {
            let c = checked(s, l.attrs@, e.1);
            if c.1 {
                let s2 = ig_attrs(c.0, l.attrs@);
                if l.let_line != l.end_line {
                    w_init(s2, l.let_line, l.pat_line, init, e)
                } else {
                    (s2, SubResult::Reachable)
                }
            } else {
                (ig(c.0, span_of(l.start_line, l.end_line)), SubResult::Reachable)
            }
        },
    }
}

/// The initialiser of a `let` statement spanning several lines: the lines
/// of its pattern, `=` and expression join the `let` line, and its
/// expression and `else` branch are visited.
pub open spec fn w_init(s: WalkState, let_line: usize, pat_line: usize, init: InitSyntax, e: WalkEnv) -> (WalkState, SubResult)
    decreases init,
{
    let s3 = if pat_line != let_line {
        logical(s, pat_line, let_line)
    } else {
        s
    };
    let s4 = if init.eq_line != let_line {
        logical(s3, init.eq_line, let_line)
    } else {
        s3
    };
    let s5 = if init.expr.start_line != let_line {
        logical(s4, init.expr.start_line, let_line)
    } else {
        s4
    };
    let r = w_expr(s5, init.expr, e);
    let s6 = match init.diverge {
        Some(d) => w_expr(r.0, d, e).0,
        None => r.0,
    };
    (s6, sub_add(SubResult::Reachable, r.1))
}

/// The arms of a `match` in turn: an arm its attributes leave out has its
/// lines ignored; the body of any other is visited, and where it can be
/// reached, the lines of its pattern join its first, and its reachability
/// is added to the result (none while no arm can be reached).
pub open spec fn w_arms(s: WalkState, arms: Seq<ArmSyntax>, e: WalkEnv) -> (WalkState, Option<SubResult>)
    decreases arms,
{
    if arms.len() == 0 {
        (s, None)
    } else {
        let p = w_arms(s, arms.drop_last(), e);
        let a = arms.last();
        let c = checked(p.0, a.attrs@, e.1);
        if c.1 {
            let q = w_expr(c.0, a.body, e);
            if q.1 != SubResult::Unreachable {
                (logical_run(q.0, a.pat_start, a.pat_end), Some(match p.1 {
                    Some(r) => sub_add(r, q.1),
                    None => q.1,
                }))
            } else {
                (q.0, p.1)
            }
        } else {
            (ig(c.0, span_of(a.start_line, a.end_line)), p.1)
        }
    }
}

/// An `unsafe` block starting on line `u` (its first statement on line
/// `first`): where the block does not open on that line or is empty, the
/// `unsafe` line is ignored; else it is ignored where the first statement
/// starts on another line, and the statements are visited.
pub open spec fn w_unsafe(s: WalkState, x: ExprSyntax, u: usize, first: Option<usize>, b: BlockSyntax, e: WalkEnv) -> (WalkState, SubResult)
    decreases b,
{
    if u != b.start_line || b.stmts@.len() == 0 {
        (ig(s, span_of(u, u)), SubResult::Reachable)
    } else {
        let s1 = if first != Some(u) {
            ig(s, span_of(u, u))
        } else {
            s
        };
        let r = w_stmts(s1, b.stmts@, e);
        let res = statements_spec(r.1);
        if res == SubResult::Unreachable {
            (ig(r.0, span_of(x.start_line, x.end_line)), res)
        } else {
            (r.0, sub_add(SubResult::Reachable, res))
        }
    }
}

/// An expression, by its kind; where it cannot be reached, its lines are
/// ignored.
#[verifier::opaque]
pub open spec fn w_expr(s: WalkState, x: ExprSyntax, e: WalkEnv) -> (WalkState, SubResult)
    decreases x,
{
    let all = span_of(x.start_line, x.end_line);
    let r = match x.kind {
        ExprKind::Macro(m) => w_macro(s, m, e),
        ExprKind::Struct(fs) => (
            ig(s, line_set(kept_lines(x.start_line as int, x.end_line as int, field_spans(fs@)))),
            SubResult::Reachable,
        ),
        ExprKind::Unsafe(u, first, b) => w_unsafe(s, x, u, first, b, e),
        ExprKind::Call(attrs, f, args) => {
            let c = checked(s, attrs@, e.1);
            if c.1 {
                let s2 = if args@.len() > 0 && x.start_line != x.end_line {
                    ig(c.0, line_set(kept_lines(x.start_line as int, x.end_line as int, arg_spans(args@))))
                } else {
                    c.0
                };
                (w_expr(s2, *f, e).0, SubResult::Reachable)
            } else {
                (ig(c.0, all), SubResult::Reachable)
            }
        },
        ExprKind::MethodCall(attrs, recv, args) => {
            let c = checked(s, attrs@, e.1);
            if c.1 {
                let s2 = w_expr(c.0, *recv, e).0;
                (ig(s2, line_set(kept_lines(recv.end_line + 1, x.end_line as int, arg_spans(args@)))), SubResult::Reachable)
            } else {
                (ig(c.0, all), SubResult::Reachable)
            }
        },
        ExprKind::Match(arms) => {
            let r = w_arms(s, arms@, e);
            match r.1 {
                Some(res) => (r.0, res),
                None => (ig(r.0, all), SubResult::Unreachable),
            }
        },
        ExprKind::Block(attrs, b) => {
            let c = checked(s, attrs@, e.1);
            if c.1 {
                w_block(c.0, b, e)
            } else {
                (ig(c.0, all), SubResult::Reachable)
            }
        },
        ExprKind::If(cond, then, els) => {
            let r1 = w_expr(s, *cond, e);
            let r2 = w_block(r1.0, then, e);
            let acc = sub_add(r1.1, r2.1);
            let r3 = match els {
                Some(x2) => {
                    let q = w_expr(r2.0, *x2, e);
                    (q.0, sub_add(acc, q.1))
                },
                None => (r2.0, sub_add(acc, SubResult::Reachable)),
            };
            if r3.1 == SubResult::Unreachable {
                (ig(r3.0, all), SubResult::Unreachable)
            } else {
                r3
            }
        },
        ExprKind::While(attrs, b) => {
            let c = checked(s, attrs@, e.1);
            if c.1 {
                let q = w_block(c.0, b, e);
                if q.1 == SubResult::Unreachable {
                    (ig(q.0, all), SubResult::Unreachable)
                } else {
                    (q.0, SubResult::Definite)
                }
            } else {
                (ig(c.0, all), SubResult::Definite)
            }
        },
        ExprKind::ForLoop(attrs, b) => {
            let c = checked(s, attrs@, e.1);
            if c.1 {
                let q = w_block(c.0, b, e);
                if q.1 == SubResult::Unreachable {
                    (ig(q.0, all), SubResult::Unreachable)
                } else {
                    (q.0, SubResult::Definite)
                }
            } else {
                (ig(c.0, all), SubResult::Definite)
            }
        },
        ExprKind::Loop(attrs, b) => {
            let c = checked(s, attrs@, e.1);
            if c.1 {
                let q = w_block(c.0, b, e);
                if q.1 == SubResult::Unreachable {
                    (ig(q.0, all), SubResult::Unreachable)
                } else {
                    (q.0, SubResult::Definite)
                }
            } else {
                (ig(c.0, all), SubResult::Definite)
            }
        },
        ExprKind::Return(attrs) => {
            let c = checked(s, attrs@, e.1);
            if c.1 {
                (ig_attrs(c.0, attrs@), SubResult::Definite)
            } else {
                (ig(c.0, all), SubResult::Definite)
            }
        },
        ExprKind::Closure(b) => {
            let q = w_expr(s, *b, e);
            (q.0, if q.1 == SubResult::Unreachable {
                SubResult::Reachable
            } else {
                q.1
            })
        },
        ExprKind::Path(last) => {
            if last matches Some(n) && n@ == "unreachable_unchecked"@ {
                (ig(s, all), SubResult::Unreachable)
            } else {
                (s, SubResult::Reachable)
            }
        },
        ExprKind::Let(attrs, let_line, pat_line, eq_line, ex) => {
            let c = checked(s, attrs@, e.1);
            if c.1 {
                let s2 = ig_attrs(c.0, attrs@);
                if let_line != x.end_line {
                    let s3 = if pat_line != let_line {
                        logical(s2, pat_line, let_line)
                    } else {
                        s2
                    };
                    let s4 = if eq_line != let_line {
                        logical(s3, eq_line, let_line)
                    } else {
                        s3
                    };
                    let s5 = if ex.start_line != let_line {
                        logical(s4, ex.start_line, let_line)
                    } else {
                        s4
                    };
                    let q = w_expr(s5, *ex, e);
                    (q.0, sub_add(SubResult::Reachable, q.1))
                } else {
                    (s2, SubResult::Reachable)
                }
            } else {
                (ig(c.0, all), SubResult::Reachable)
            }
        },
        ExprKind::Group(b) => w_expr(s, *b, e),
        ExprKind::Await(b) => w_expr(s, *b, e),
        ExprKind::Async(b) => w_block(s, b, e),
        ExprKind::Try(b) => (w_expr(s, *b, e).0, SubResult::Definite),
        ExprKind::TryBlock(b) => (w_block(s, b, e).0, SubResult::Definite),
        ExprKind::Lit(_) => (s, SubResult::Reachable),
        ExprKind::Other => (s, SubResult::Reachable),
    };
    if r.1 == SubResult::Unreachable {
        (ig(r.0, all), r.1)
    } else {
        r
    }
}

/// A function that its attributes leave out (`#[tarpaulin::skip]`,
/// `#[coverage(off)]`, `#[cfg(not(tarpaulin_include))]`, a test where tests
/// do not count, an ignored test where those do not run) has every line it
/// spans ignored, and none of them covered.
pub proof fn lemma_left_out_fn_ignored(s: WalkState, f: FnSyntax, force: bool, e: WalkEnv, l: usize)
    requires
        fn_left_out(attrs_ok(f.attrs@), e.1.0, e.2),
        f.start_line <= l <= f.end_line,
    ensures
        w_fn(s, f, force, e).0.contains(Lines::Line(l)) || w_fn(s, f, force, e).0.contains(Lines::All),
        !w_fn(s, f, force, e).1.contains(l) || s.1.contains(l) && s.0.contains(Lines::All),
{
    let toks = fn_tokens(f);
    assert(toks[0].start_line <= l <= toks[0].end_line);
    assert(token_lines(toks).contains(Lines::Line(l)));
    assert(fn_start_lines(attrs_ok(f.attrs@), toks, e.1.0, e.2).contains(Lines::Line(l)));
}

/// Ignoring lines already ignored (and so not covered) changes nothing.
proof fn lemma_ig_absorbs(u: WalkState, a: Set<Lines>)
    requires
        u.0.contains(Lines::All) || (forall|l: Lines| #[trigger] a.contains(l) ==> u.0.contains(l)),
        u.0.contains(Lines::All) || (forall|i: usize| #[trigger] u.1.contains(i) ==> !a.contains(Lines::Line(i))),
    ensures
        ig(u, a) == u,
{
    if !u.0.contains(Lines::All) {
        assert(u.0 + a =~= u.0);
        assert(u.1.filter(|i: usize| !a.contains(Lines::Line(i))) =~= u.1);
    }
}

/// An expression's state after a walk that found it unreachable has its
/// lines ignored (and none of them covered).
proof fn lemma_unreachable_expr_ignored(s: WalkState, b: ExprSyntax, e: WalkEnv)
    requires
        w_expr(s, b, e).1 == SubResult::Unreachable,
    ensures
        ({
            let u = w_expr(s, b, e).0;
            let a = span_of(b.start_line, b.end_line);
            &&& u.0.contains(Lines::All) || (forall|l: Lines| #[trigger] a.contains(l) ==> u.0.contains(l))
            &&& u.0.contains(Lines::All) || (forall|i: usize| #[trigger] u.1.contains(i) ==> !a.contains(Lines::Line(i)))
        }),
{
    reveal(w_expr);
}

/// Walking `e.await`, or a group `(e)` that the parser keeps, gives the
/// reachability of walking `e`, and the same analysis wherever `e` can be
/// reached or spans the same lines; where `e` cannot be reached, the lines
/// of the whole expression are ignored besides.
pub proof fn lemma_await_walks_inner(s: WalkState, x: ExprSyntax, e: WalkEnv)
    ensures
        x.kind matches ExprKind::Await(b) ==> {
            &&& w_expr(s, x, e).1 == w_expr(s, *b, e).1
            &&& w_expr(s, *b, e).1 != SubResult::Unreachable ==> w_expr(s, x, e).0 == w_expr(s, *b, e).0
            &&& w_expr(s, *b, e).1 == SubResult::Unreachable ==> w_expr(s, x, e).0 == ig(
                w_expr(s, *b, e).0,
                span_of(x.start_line, x.end_line),
            )
            &&& (x.start_line == b.start_line && x.end_line == b.end_line) ==> w_expr(s, x, e) == w_expr(s, *b, e)
        },
        x.kind matches ExprKind::Group(b) ==> {
            &&& w_expr(s, x, e).1 == w_expr(s, *b, e).1
            &&& w_expr(s, *b, e).1 != SubResult::Unreachable ==> w_expr(s, x, e).0 == w_expr(s, *b, e).0
            &&& (x.start_line == b.start_line && x.end_line == b.end_line) ==> w_expr(s, x, e) == w_expr(s, *b, e)
        },
{
    reveal(w_expr);
    match x.kind {
        ExprKind::Await(b) => {
            if w_expr(s, *b, e).1 == SubResult::Unreachable {
                lemma_unreachable_expr_ignored(s, *b, e);
                if x.start_line == b.start_line && x.end_line == b.end_line {
                    lemma_ig_absorbs(w_expr(s, *b, e).0, span_of(b.start_line, b.end_line));
                }
            }
        },
        ExprKind::Group(b) => {
            if w_expr(s, *b, e).1 == SubResult::Unreachable {
                lemma_unreachable_expr_ignored(s, *b, e);
                if x.start_line == b.start_line && x.end_line == b.end_line {
                    lemma_ig_absorbs(w_expr(s, *b, e).0, span_of(b.start_line, b.end_line));
                }
            }
        },
        _ => {},
    }
}

/// Walking `e?` gives the analysis of walking `e`, and code after it can
/// be reached (it may return early); walking a closure gives the analysis
/// of walking its body, and its body's reachability unless the body cannot
/// be reached, which does not make the closure's surroundings unreachable.
pub proof fn lemma_try_and_closure_walk_inner(s: WalkState, x: ExprSyntax, e: WalkEnv)
    ensures
        x.kind matches ExprKind::Try(b) ==> w_expr(s, x, e) == (w_expr(s, *b, e).0, SubResult::Definite),
        x.kind matches ExprKind::Closure(b) ==> w_expr(s, x, e).0 == w_expr(s, *b, e).0 && w_expr(s, x, e).1 == if w_expr(
            s,
            *b,
            e,
        ).1 == SubResult::Unreachable {
            SubResult::Reachable
        } else {
            w_expr(s, *b, e).1
        },
        x.kind matches ExprKind::Async(b) ==> w_expr(s, x, e).1 == w_block(s, b, e).1,
        x.kind matches ExprKind::TryBlock(b) ==> w_expr(s, x, e) == (w_block(s, b, e).0, SubResult::Definite),
{
    reveal(w_expr);
}

/// A whole file: its attributes are looked at; where they keep it, the
/// lines with nothing to cover are ignored and its items visited. Whether
/// they keep it.
pub open spec fn w_file(s: WalkState, f: FileSyntax, e: WalkEnv) -> (WalkState, bool) {
    let c = checked(s, f.attrs@, e.1);
    if c.1 {
        (w_items(ig(c.0, single_lines(ignorable_lines(e.0))), f.items@, e).0, true)
    } else {
        (c.0, false)
    }
}

} // verus!
