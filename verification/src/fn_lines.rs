//! How the source analysis treats a function item: what its attributes
//! say, and which lines of its declaration are left out once its body has
//! been found reachable. The item is read as plain values: its attributes,
//! the line of its `fn` token, the line its body starts on, and the lines
//! of the tokens of its `where` clause.
use vstd::prelude::*;
use crate::analysis::{LineAnalysis, Lines};
use crate::attributes::{
    attrs_keep, attrs_looked_at, check_attr_list, check_cfg_attr, check_cfg_attr_exec, ctx_view, is_ident,
    meta_wf, path_of, span_lines, AttrSyntax, CfgContext, MetaItem,
};
use crate::paths::{join_spec, join_text, parent_opt, parent_path};
use crate::text::{chars_of, opt_str, string_of};
use crate::macro_lines::TokenSpan;
use crate::text::{str_eq, strs};

verus! {

/// What the attributes of a function say, read in order up to the first
/// that takes the function out of coverage: whether one is a test attribute
/// (its last path segment `test`), `inline` or `ignore`, and whether one
/// takes the function out of coverage.
pub struct FnAttrScan {
    pub test: bool,
    pub inline: bool,
    pub ignored: bool,
    pub skip: bool,
}

/// The scan of `attrs`; see `FnAttrScan`.
pub open spec fn fn_scan(attrs: Seq<AttrSyntax>) -> (bool, bool, bool, bool)
    decreases attrs.len(),
{
    if attrs.len() == 0 {
        (false, false, false, false)
    } else {
        let p = path_of(attrs[0].meta);
        let r = fn_scan(attrs.drop_first());
        if p.len() > 0 && p.last() == "test"@ {
            (true, r.1, r.2, r.3)
        } else if is_ident(p, "derive"@) {
            r
        } else if is_ident(p, "inline"@) {
            (r.0, true, r.2, r.3)
        } else if is_ident(p, "ignore"@) {
            (r.0, r.1, true, r.3)
        } else if check_cfg_attr(attrs[0].meta) {
            (false, false, false, true)
        } else {
            r
        }
    }
}

/// The lines of the `derive` attributes met before reading stops.
pub open spec fn derive_lines(attrs: Seq<AttrSyntax>) -> Set<Lines>
    decreases attrs.len(),
{
    if attrs.len() == 0 {
        Set::empty()
    } else {
        let p = path_of(attrs[0].meta);
        let rest = derive_lines(attrs.drop_first());
        if p.len() > 0 && p.last() == "test"@ {
            rest
        } else if is_ident(p, "derive"@) {
            rest + Set::new(
                |l: Lines| l matches Lines::Line(i) && attrs[0].start_line <= i <= attrs[0].end_line,
            )
        } else if is_ident(p, "inline"@) || is_ident(p, "ignore"@) {
            rest
        } else if check_cfg_attr(attrs[0].meta) {
            Set::empty()
        } else {
            rest
        }
    }
}

/// Whether a function is left out entirely: an attribute takes it out of
/// coverage, it is a test where tests do not count, or it is ignored where
/// ignored tests are not run.
pub open spec fn fn_left_out(attrs: Seq<AttrSyntax>, include_tests: bool, run_ignored: bool) -> bool {
    let s = fn_scan(attrs);
    s.3 || (s.0 && !include_tests) || (s.2 && !run_ignored)
}

fn path_is(p: &Vec<String>, id: &str) -> (res: bool)
    ensures
        res == is_ident(strs(p@), id@),
{
    p.len() == 1 && str_eq(p[0].as_str(), id)
}

fn meta_path(m: &MetaItem) -> (res: &Vec<String>)
    ensures
        strs(res@) == path_of(*m),
{
    match m {
        MetaItem::Path(p) => p,
        MetaItem::List(p, _) => p,
        MetaItem::NameValue(p, _) => p,
    }
}

/// Reads the attributes of a function; see `fn_scan`.
pub fn fn_attr_scan(attrs: &Vec<AttrSyntax>) -> (res: FnAttrScan)
    requires
        forall|i: int| 0 <= i < attrs@.len() ==> meta_wf(#[trigger] attrs@[i].meta),
    ensures
        (res.test, res.inline, res.ignored, res.skip) == fn_scan(attrs@),
{
    let mut test = false;
    let mut inline = false;
    let mut ignored = false;
    let mut i: usize = 0;
    proof {
        reveal_strlit("test");
    }
    assert(attrs@.skip(0) =~= attrs@);
    while i < attrs.len()
        invariant
            i <= attrs@.len(),
            forall|k: int| 0 <= k < attrs@.len() ==> meta_wf(#[trigger] attrs@[k].meta),
            ({
                let r = fn_scan(attrs@.skip(i as int));
                fn_scan(attrs@) == (test || r.0, inline || r.1, ignored || r.2, r.3)
            }),
        decreases attrs@.len() - i,
    {
        let ghost t = attrs@.skip(i as int);
        assert(t.drop_first() =~= attrs@.skip(i + 1));
        assert(t[0] == attrs@[i as int]);
        let p = meta_path(&attrs[i].meta);
        let last_test = p.len() > 0 && str_eq(p[p.len() - 1].as_str(), "test");
        proof {
            if p@.len() > 0 {
                assert(strs(p@).last() == p@[p@.len() - 1]@);
            }
        }
        if last_test {
            test = true;
        } else if path_is(p, "derive") {
        } else if path_is(p, "inline") {
            inline = true;
        } else if path_is(p, "ignore") {
            ignored = true;
        } else if check_cfg_attr_exec(&attrs[i].meta) {
            return FnAttrScan { test, inline, ignored, skip: true };
        }
        i = i + 1;
    }
    assert(attrs@.skip(i as int) =~= Seq::<AttrSyntax>::empty());
    FnAttrScan { test, inline, ignored, skip: false }
}


/// The lines of the tokens `ts`.
pub open spec fn token_lines(ts: Seq<TokenSpan>) -> Set<Lines> {
    Set::new(
        |l: Lines|
            exists|k: int| 0 <= k < ts.len() && (l matches Lines::Line(x) && (#[trigger] ts[k]).start_line <= x <= ts[k].end_line),
    )
}

/// The lines `fn_start` leaves out: those of the `derive` attributes met,
/// and where the function is left out entirely, those of all its tokens.
pub open spec fn fn_start_lines(attrs: Seq<AttrSyntax>, tokens: Seq<TokenSpan>, include_tests: bool, run_ignored: bool) -> Set<Lines> {
    derive_lines(attrs) + if fn_left_out(attrs, include_tests, run_ignored) {
        token_lines(tokens)
    } else {
        Set::empty()
    }
}

/// The first look at a function item with attributes `attrs` and tokens
/// `tokens`: the lines of its `derive` attributes are ignored, and where
/// it is left out entirely (see `fn_left_out`) all its lines are; whether it
/// is left out.
pub fn fn_start(
    analysis: &mut LineAnalysis,
    attrs: &Vec<AttrSyntax>,
    tokens: &Vec<TokenSpan>,
    include_tests: bool,
    run_ignored: bool,
) -> (res: bool)
    requires
        old(analysis).wf(),
        forall|i: int| 0 <= i < attrs@.len() ==> meta_wf(#[trigger] attrs@[i].meta),
    ensures
        final(analysis).wf(),
        res == fn_left_out(attrs@, include_tests, run_ignored),
        old(analysis).ignore@.contains(Lines::All) ==> final(analysis).ignore@ == old(analysis).ignore@
            && final(analysis).cover@ == old(analysis).cover@,
        !old(analysis).ignore@.contains(Lines::All) ==> {
            &&& final(analysis).ignore@.to_set() == old(analysis).ignore@.to_set() + fn_start_lines(
                attrs@,
                tokens@,
                include_tests,
                run_ignored,
            )
            &&& final(analysis).cover@ == old(analysis).cover@.filter(
                |i: usize| !fn_start_lines(attrs@, tokens@, include_tests, run_ignored).contains(Lines::Line(i)),
            )
        },
        final(analysis).logical_lines@ == old(analysis).logical_lines@,
        final(analysis).max_line == old(analysis).max_line,
{
    let scan = fn_attr_scan(attrs);
    let ghost all0 = analysis.ignore@.contains(Lines::All);
    let ghost ig0 = analysis.ignore@.to_set();
    let ghost cv0 = analysis.cover@;
    let ghost mut acc: Set<Lines> = Set::empty();
    let mut i: usize = 0;
    proof {
        reveal_strlit("test");
    }
    assert(attrs@.skip(0) =~= attrs@);
    while i < attrs.len()
        invariant_except_break
            derive_lines(attrs@) == acc + derive_lines(attrs@.skip(i as int)),
        invariant
            i <= attrs@.len(),
            forall|k: int| 0 <= k < attrs@.len() ==> meta_wf(#[trigger] attrs@[k].meta),
            analysis.wf(),
            all0 == old(analysis).ignore@.contains(Lines::All),
            ig0 == old(analysis).ignore@.to_set(),
            cv0 == old(analysis).cover@,
            all0 ==> analysis.ignore@ == old(analysis).ignore@ && analysis.cover@ == cv0,
            !all0 ==> !analysis.ignore@.contains(Lines::All),
            !all0 ==> analysis.ignore@.to_set() == ig0 + acc,
            !all0 ==> analysis.cover@ == cv0.filter(|x: usize| !acc.contains(Lines::Line(x))),
            forall|l: Lines| #[trigger] acc.contains(l) ==> l is Line,
            analysis.logical_lines@ == old(analysis).logical_lines@,
            analysis.max_line == old(analysis).max_line,
        ensures
            derive_lines(attrs@) == acc,
        decreases attrs@.len() - i,
    {
        let ghost t = attrs@.skip(i as int);
        assert(t.drop_first() =~= attrs@.skip(i + 1));
        assert(t[0] == attrs@[i as int]);
        let p = meta_path(&attrs[i].meta);
        let last_test = p.len() > 0 && str_eq(p[p.len() - 1].as_str(), "test");
        proof {
            if p@.len() > 0 {
                assert(strs(p@).last() == p@[p@.len() - 1]@);
            }
        }
        if last_test {
        } else if path_is(p, "derive") {
            let a = &attrs[i];
            let ghost span = Set::new(|l: Lines| l matches Lines::Line(x) && a.start_line <= x <= a.end_line);
            let ghost before_cv = analysis.cover@;
            analysis.ignore_span(a.start_line, a.end_line);
            proof {
                let nacc = acc + span;
                if !all0 {
                    assert(analysis.ignore@.to_set() =~= ig0 + nacc);
                    assert(analysis.cover@ =~= cv0.filter(|x: usize| !nacc.contains(Lines::Line(x))));
                    if analysis.ignore@.contains(Lines::All) {
                        assert(analysis.ignore@.to_set().contains(Lines::All));
                    }
                }
                assert(derive_lines(t) == derive_lines(t.drop_first()) + span);
                assert(derive_lines(attrs@) =~= nacc + derive_lines(attrs@.skip(i + 1)));
                acc = nacc;
            }
        } else if path_is(p, "inline") || path_is(p, "ignore") {
        } else if check_cfg_attr_exec(&attrs[i].meta) {
            assert(derive_lines(t) == Set::<Lines>::empty());
            assert(derive_lines(attrs@) =~= acc);
            break;
        }
        i = i + 1;
    }
    proof {
        if i == attrs.len() {
            assert(attrs@.skip(i as int) =~= Seq::<AttrSyntax>::empty());
            assert(derive_lines(attrs@) =~= acc);
        }
    }
    let left_out = scan.skip || (scan.test && !include_tests) || (scan.ignored && !run_ignored);
    if left_out {
        let mut k: usize = 0;
        while k < tokens.len()
            invariant
                k <= tokens@.len(),
                analysis.wf(),
                all0 == old(analysis).ignore@.contains(Lines::All),
                ig0 == old(analysis).ignore@.to_set(),
                cv0 == old(analysis).cover@,
                derive_lines(attrs@) == acc,
                all0 ==> analysis.ignore@ == old(analysis).ignore@ && analysis.cover@ == cv0,
                !all0 ==> !analysis.ignore@.contains(Lines::All),
                !all0 ==> analysis.ignore@.to_set() == ig0 + acc + token_lines(tokens@.take(k as int)),
                !all0 ==> analysis.cover@ == cv0.filter(
                    |x: usize| !(acc + token_lines(tokens@.take(k as int))).contains(Lines::Line(x)),
                ),
                forall|l: Lines| #[trigger] acc.contains(l) ==> l is Line,
                analysis.logical_lines@ == old(analysis).logical_lines@,
                analysis.max_line == old(analysis).max_line,
            decreases tokens@.len() - k,
        {
            let tk = tokens[k];
            analysis.ignore_span(tk.start_line, tk.end_line);
            proof {
                let before = token_lines(tokens@.take(k as int));
                let after = token_lines(tokens@.take(k + 1));
                let span = Set::new(|l: Lines| l matches Lines::Line(x) && tk.start_line <= x <= tk.end_line);
                assert(after =~= before + span) by {
                    assert forall|l: Lines| after.contains(l) <==> (before + span).contains(l) by {
                        let tt = tokens@.take(k + 1);
                        if after.contains(l) {
                            let w = choose|w: int| 0 <= w < tt.len() && (l matches Lines::Line(x) && (#[trigger] tt[w]).start_line <= x <= tt[w].end_line);
                            if w < k {
                                assert(tokens@.take(k as int)[w] == tt[w]);
                            } else {
                                assert(tt[w] == tk);
                            }
                        }
                        if before.contains(l) {
                            let w = choose|w: int| 0 <= w < k && (l matches Lines::Line(x) && (#[trigger] tokens@.take(k as int)[w]).start_line <= x <= tokens@.take(k as int)[w].end_line);
                            assert(tt[w] == tokens@.take(k as int)[w]);
                        }
                        if span.contains(l) {
                            assert(tt[k as int] == tk);
                        }
                    }
                }
                if !all0 {
                    assert(analysis.ignore@.to_set() =~= ig0 + acc + after);
                    assert(analysis.cover@ =~= cv0.filter(|x: usize| !(acc + after).contains(Lines::Line(x))));
                    if analysis.ignore@.contains(Lines::All) {
                        assert(analysis.ignore@.to_set().contains(Lines::All));
                        assert(!after.contains(Lines::All));
                    }
                }
            }
            k = k + 1;
        }
        proof {
            assert(tokens@.take(tokens@.len() as int) =~= tokens@);
            if !all0 {
                assert(ig0 + acc + token_lines(tokens@) =~= ig0 + fn_start_lines(attrs@, tokens@, include_tests, run_ignored));
                assert(analysis.cover@ =~= cv0.filter(
                    |x: usize| !fn_start_lines(attrs@, tokens@, include_tests, run_ignored).contains(Lines::Line(x)),
                ));
            }
        }
    } else {
        proof {
            if !all0 {
                assert(acc + Set::<Lines>::empty() =~= acc);
                assert(analysis.cover@ =~= cv0.filter(
                    |x: usize| !fn_start_lines(attrs@, tokens@, include_tests, run_ignored).contains(Lines::Line(x)),
                ));
            }
        }
    }
    left_out
}


/// The first line of a function's declaration: that of its first
/// attribute, or of its `fn` token where no attribute starts earlier.
pub open spec fn decl_start(attrs: Seq<AttrSyntax>, fn_line: usize) -> int
    decreases attrs.len(),
{
    if attrs.len() == 0 {
        fn_line as int
    } else {
        let r = decl_start(attrs.drop_last(), fn_line);
        if attrs.last().start_line < r {
            attrs.last().start_line as int
        } else {
            r
        }
    }
}

/// The lines from `a` to `b`.
pub open spec fn range_lines(a: int, b: int) -> Set<Lines> {
    Set::new(|l: Lines| l matches Lines::Line(i) && a <= i <= b)
}

/// The lines `fn_finish` ignores before counting the `fn` line again.
pub open spec fn decl_lines(attrs: Seq<AttrSyntax>, where_tokens: Seq<TokenSpan>, fn_line: usize) -> Set<Lines> {
    token_lines(where_tokens) + range_lines(decl_start(attrs, fn_line), fn_line - 1)
}

/// The last look at a function item whose body is reachable: the lines of
/// its `where` clause and those from its first attribute up to its `fn`
/// line are ignored, its `fn` line is counted again, and the lines after
/// the `fn` line up to the one its body starts on (`block_start`) are
/// ignored.
pub fn fn_finish(
    analysis: &mut LineAnalysis,
    attrs: &Vec<AttrSyntax>,
    where_tokens: &Vec<TokenSpan>,
    fn_line: usize,
    block_start: usize,
)
    requires
        old(analysis).wf(),
        fn_line < usize::MAX,
    ensures
        final(analysis).wf(),
        !old(analysis).ignore@.contains(Lines::All) ==> {
            &&& final(analysis).ignore@.to_set() == (old(analysis).ignore@.to_set() + decl_lines(
                attrs@,
                where_tokens@,
                fn_line,
            )).remove(Lines::Line(fn_line)) + range_lines(fn_line + 1, block_start as int)
            &&& final(analysis).cover@ == old(analysis).cover@.filter(
                |i: usize| !(decl_lines(attrs@, where_tokens@, fn_line) + range_lines(fn_line + 1, block_start as int)).contains(
                    Lines::Line(i),
                ),
            )
        },
        old(analysis).ignore@.contains(Lines::All) ==> {
            &&& final(analysis).ignore@.to_set() == old(analysis).ignore@.to_set().remove(Lines::Line(fn_line))
            &&& final(analysis).cover@ == old(analysis).cover@
        },
        final(analysis).logical_lines@ == old(analysis).logical_lines@,
        final(analysis).max_line == old(analysis).max_line,
{
    let ghost all0 = analysis.ignore@.contains(Lines::All);
    let ghost ig0 = analysis.ignore@.to_set();
    let ghost cv0 = analysis.cover@;
    let mut k: usize = 0;
    while k < where_tokens.len()
        invariant
            k <= where_tokens@.len(),
            analysis.wf(),
            all0 == old(analysis).ignore@.contains(Lines::All),
            ig0 == old(analysis).ignore@.to_set(),
            cv0 == old(analysis).cover@,
            all0 ==> analysis.ignore@ == old(analysis).ignore@ && analysis.cover@ == cv0,
            !all0 ==> !analysis.ignore@.contains(Lines::All),
            !all0 ==> analysis.ignore@.to_set() == ig0 + token_lines(where_tokens@.take(k as int)),
            !all0 ==> analysis.cover@ == cv0.filter(
                |x: usize| !token_lines(where_tokens@.take(k as int)).contains(Lines::Line(x)),
            ),
            analysis.logical_lines@ == old(analysis).logical_lines@,
            analysis.max_line == old(analysis).max_line,
        decreases where_tokens@.len() - k,
    {
        let tk = where_tokens[k];
        analysis.ignore_span(tk.start_line, tk.end_line);
        proof {
            let tt = where_tokens@.take(k + 1);
            let before = token_lines(where_tokens@.take(k as int));
            let after = token_lines(tt);
            let span = range_lines(tk.start_line as int, tk.end_line as int);
            assert(after =~= before + span) by {
                assert forall|l: Lines| after.contains(l) <==> (before + span).contains(l) by {
                    if after.contains(l) {
                        let w = choose|w: int| 0 <= w < tt.len() && (l matches Lines::Line(x) && (#[trigger] tt[w]).start_line <= x <= tt[w].end_line);
                        if w < k {
                            assert(where_tokens@.take(k as int)[w] == tt[w]);
                        } else {
                            assert(tt[w] == tk);
                        }
                    }
                    if before.contains(l) {
                        let w = choose|w: int| 0 <= w < k && (l matches Lines::Line(x) && (#[trigger] where_tokens@.take(k as int)[w]).start_line <= x <= where_tokens@.take(k as int)[w].end_line);
                        assert(tt[w] == where_tokens@.take(k as int)[w]);
                    }
                    if span.contains(l) {
                        assert(tt[k as int] == tk);
                    }
                }
            }
            if !all0 {
                assert(analysis.ignore@.to_set() =~= ig0 + after);
                assert(analysis.cover@ =~= cv0.filter(|x: usize| !after.contains(Lines::Line(x))));
                if analysis.ignore@.contains(Lines::All) {
                    assert(analysis.ignore@.to_set().contains(Lines::All));
                    assert(!after.contains(Lines::All));
                }
            }
        }
        k = k + 1;
    }
    assert(where_tokens@.take(where_tokens@.len() as int) =~= where_tokens@);
    let mut start: usize = fn_line;
    let mut j: usize = 0;
    while j < attrs.len()
        invariant
            j <= attrs@.len(),
            start as int == decl_start(attrs@.take(j as int), fn_line),
        decreases attrs@.len() - j,
    {
        assert(attrs@.take(j + 1).drop_last() =~= attrs@.take(j as int));
        if attrs[j].start_line < start {
            start = attrs[j].start_line;
        }
        j = j + 1;
    }
    assert(attrs@.take(attrs@.len() as int) =~= attrs@);
    let ghost mid_ig = analysis.ignore@.to_set();
    let ghost mid_cv = analysis.cover@;
    if start < fn_line {
        analysis.ignore_span(start, fn_line - 1);
    }
    proof {
        let r1 = range_lines(start as int, fn_line - 1);
        if !all0 {
            if start < fn_line {
                assert(analysis.ignore@.to_set() =~= mid_ig + r1);
            } else {
                assert(r1 =~= Set::<Lines>::empty());
                assert(analysis.ignore@.to_set() =~= mid_ig + r1);
                assert(analysis.cover@ =~= mid_cv.filter(|x: usize| !r1.contains(Lines::Line(x))));
            }
            assert(analysis.ignore@.to_set() =~= ig0 + decl_lines(attrs@, where_tokens@, fn_line));
            assert(analysis.cover@ =~= cv0.filter(|x: usize| !decl_lines(attrs@, where_tokens@, fn_line).contains(Lines::Line(x))));
            if analysis.ignore@.contains(Lines::All) {
                assert(analysis.ignore@.to_set().contains(Lines::All));
                assert(!r1.contains(Lines::All));
            }
        }
    }
    let ghost pre_ig = analysis.ignore@.to_set();
    analysis.unignore_line(fn_line);
    let ghost rm_ig = analysis.ignore@.to_set();
    let ghost rm_cv = analysis.cover@;
    analysis.ignore_span(fn_line + 1, block_start);
    proof {
        let r2 = range_lines(fn_line + 1, block_start as int);
        if !all0 {
            assert(!analysis.ignore@.contains(Lines::All) || true);
            assert(analysis.ignore@.to_set() =~= rm_ig + r2);
            assert(analysis.cover@ =~= cv0.filter(
                |x: usize| !(decl_lines(attrs@, where_tokens@, fn_line) + r2).contains(Lines::Line(x)),
            ));
        }
    }
}


/// The file a module left out stands for: the entry named after it beside
/// the file declaring it (known to exist, where `exists` says so), else
/// that name with `.rs` added.
pub open spec fn module_file(file: Seq<char>, ident: Seq<char>, exists: bool) -> Seq<char> {
    let base = match parent_opt(file) {
        Some(d) => join_spec(d, ident),
        None => ident,
    };
    if exists {
        base
    } else {
        base + ".rs"@
    }
}

/// The first look at a module item declared in `file` as `ident`, with
/// attributes `attrs`, its `mod` token on `mod_line` and its body (where
/// it has one inline) spanning `body`: the `mod` line and the attributes
/// looked at are ignored (see `check_attr_list`); where an attribute leaves
/// the module out, its inline body is ignored too and the file it stands
/// for is handed back, to be left out; otherwise nothing is, and its items
/// are to be visited. Whether the entry named after the module exists is
/// read from the disk.
pub fn mod_start(
    analysis: &mut LineAnalysis,
    attrs: &Vec<AttrSyntax>,
    ctx: &CfgContext,
    mod_line: usize,
    body: Option<(usize, usize)>,
    file: &str,
    ident: &str,
) -> (res: Option<String>)
    requires
        old(analysis).wf(),
        forall|i: int| 0 <= i < attrs@.len() ==> meta_wf(#[trigger] attrs@[i].meta),
    ensures
        final(analysis).wf(),
        res is None <==> attrs_keep(attrs@, ctx_view(ctx)),
        res matches Some(p) ==> (p@ == module_file(file@, ident@, true) || p@ == module_file(file@, ident@, false)),
        old(analysis).ignore@.contains(Lines::All) ==> final(analysis).ignore@ == old(analysis).ignore@,
        !old(analysis).ignore@.contains(Lines::All) ==> final(analysis).ignore@.to_set() == old(
            analysis,
        ).ignore@.to_set() + range_lines(mod_line as int, mod_line as int) + span_lines(
            attrs@,
            attrs_looked_at(attrs@, ctx_view(ctx)),
        ) + match body {
            Some((a, b)) => if attrs_keep(attrs@, ctx_view(ctx)) {
                Set::<Lines>::empty()
            } else {
                range_lines(a as int, b as int)
            },
            None => Set::<Lines>::empty(),
        },
        final(analysis).logical_lines@ == old(analysis).logical_lines@,
        final(analysis).max_line == old(analysis).max_line,
{
    let ghost all0 = analysis.ignore@.contains(Lines::All);
    let ghost ig0 = analysis.ignore@.to_set();
    analysis.ignore_span(mod_line, mod_line);
    let ghost ig1 = analysis.ignore@.to_set();
    proof {
        if !all0 {
            assert(ig1 =~= ig0 + range_lines(mod_line as int, mod_line as int));
            if analysis.ignore@.contains(Lines::All) {
                assert(ig1.contains(Lines::All));
            }
        }
    }
    let keep = check_attr_list(analysis, attrs, ctx);
    if keep {
        proof {
            if !all0 {
                assert(analysis.ignore@.to_set() =~= ig0 + range_lines(mod_line as int, mod_line as int) + span_lines(
                    attrs@,
                    attrs_looked_at(attrs@, ctx_view(ctx)),
                ) + Set::<Lines>::empty());
            }
        }
        return None;
    }
    let ghost ig2 = analysis.ignore@.to_set();
    proof {
        if !all0 && analysis.ignore@.contains(Lines::All) {
            assert(ig2.contains(Lines::All));
            assert(!span_lines(attrs@, attrs_looked_at(attrs@, ctx_view(ctx))).contains(Lines::All));
        }
    }
    match body {
        Some((a, b)) => {
            analysis.ignore_span(a, b);
            proof {
                if !all0 {
                    assert(analysis.ignore@.to_set() =~= ig2 + range_lines(a as int, b as int));
                }
            }
        },
        None => {
            proof {
                if !all0 {
                    assert(ig2 + Set::<Lines>::empty() =~= ig2);
                }
            }
        },
    }
    Some(module_file_path(file, ident))
}

/// The file a module declared in `file` as `ident` stands for; see
/// `module_file`. Whether the entry named after it exists is read from the
/// disk.
pub fn module_file_path(file: &str, ident: &str) -> (res: String)
    ensures
        res@ == module_file(file@, ident@, true) || res@ == module_file(file@, ident@, false),
{
    let base = match parent_path(file) {
        Some(d) => string_of(&join_text(&chars_of(d.as_str()), &chars_of(ident))),
        None => ident.to_string(),
    };
    proof {
        reveal_strlit(".rs");
    }
    if crate::text::path_exists(base.as_str()) {
        base
    } else {
        let mut cs = chars_of(base.as_str());
        cs.push('.');
        cs.push('r');
        cs.push('s');
        assert(cs@ =~= base@ + ".rs"@);
        string_of(&cs)
    }
}

} // verus!
