//! Which attributes take code out of coverage: `#[tarpaulin::skip]`,
//! `#[coverage(off)]`, `#[cfg(not(tarpaulin_include))]`, test attributes,
//! and `cfg` predicates that do not hold for the run. Attributes are read as
//! plain values: a meta item is a path, a path with a list of nested items,
//! or a path with a value.
use vstd::prelude::*;
use crate::analysis::{LineAnalysis, Lines};
use crate::text::{str_eq, strs};
use crate::paths::{components, parent_opt, parent_path, path_components, path_starts_with};
use crate::cargo::{rfind_char, rfind_char_exec, slice_chars};

verus! {

/// A meta item of an attribute.
pub enum MetaItem {
    /// A path alone, by its segments: `test`, `tarpaulin::skip`
    Path(Vec<String>),
    /// A path with a parenthesised list, `cfg(..)`: the items of the list
    /// where they read as meta items
    List(Vec<String>, Option<Vec<MetaItem>>),
    /// A path with a value, `feature = "x"`
    NameValue(Vec<String>, MetaValue),
}

/// A literal, by its kind; a string literal with its value.
pub enum LitSyntax {
    Str(String),
    ByteStr,
    CStr,
    Byte,
    Char,
    Int,
    Float,
    Bool(bool),
    Other,
}

/// The value of a meta item: a literal, or another expression.
pub enum MetaValue {
    Lit(LitSyntax),
    Other,
}

/// An attribute, with the lines it spans.
pub struct AttrSyntax {
    pub meta: MetaItem,
    pub start_line: usize,
    pub end_line: usize,
}

/// What a `cfg` predicate is evaluated against.
pub struct CfgContext {
    /// Whether test code counts for coverage
    pub include_tests: bool,
    /// Whether the build leaves out `--cfg=tarpaulin`
    pub avoid_cfg_tarpaulin: bool,
    /// The features active for the file's package
    pub features: Vec<String>,
}

/// The segments of a meta item's path.
pub open spec fn path_of(m: MetaItem) -> Seq<Seq<char>> {
    match m {
        MetaItem::Path(p) => strs(p@),
        MetaItem::List(p, _) => strs(p@),
        MetaItem::NameValue(p, _) => strs(p@),
    }
}

/// Whether a path is the single identifier `id`.
pub open spec fn is_ident(p: Seq<Seq<char>>, id: Seq<char>) -> bool {
    p.len() == 1 && p[0] == id
}

/// Whether a path names a test attribute: its last segment ends with `test`.
pub open spec fn is_test_path(p: Seq<Seq<char>>) -> bool {
    p.len() > 0 && p.last().len() >= 4 && p.last().skip(p.last().len() - 4) == "test"@
}

/// The nested items of a list, where they read as meta items.
pub open spec fn nested(m: MetaItem) -> Option<Seq<MetaItem>> {
    match m {
        MetaItem::List(_, Some(v)) => Some(v@),
        _ => None,
    }
}

/// Every path of a meta item, nested ones too, has a segment.
pub open spec fn meta_wf(m: MetaItem) -> bool
    decreases m,
{
    match m {
        MetaItem::Path(p) => p@.len() > 0,
        MetaItem::NameValue(p, _) => p@.len() > 0,
        MetaItem::List(p, items) => p@.len() > 0 && match items {
            Some(v) => forall|i: int| 0 <= i < v@.len() ==> meta_wf(#[trigger] v@[i]),
            None => true,
        },
    }
}

/// The value of a `cfg` predicate: `all`, `any` and `not` combine the values
/// of their items, where those can be told; a feature holds where it is
/// active; `test` holds where tests count, and `tarpaulin` where the build
/// sets it. Anything else cannot be told (none).
pub open spec fn eval_cfg(m: MetaItem, ctx: (bool, bool, Seq<Seq<char>>)) -> Option<bool>
    decreases m, 1nat,
{
    let p = path_of(m);
    if is_ident(p, "all"@) {
        match m {
            MetaItem::List(_, Some(v)) => eval_all(v@, ctx),
            _ => None,
        }
    } else if is_ident(p, "any"@) {
        match m {
            MetaItem::List(_, Some(v)) => eval_any(v@, ctx),
            _ => None,
        }
    } else if is_ident(p, "not"@) {
        match m {
            MetaItem::List(_, Some(v)) => if v@.len() == 1 {
                match eval_cfg(v@[0], ctx) {
                    Some(b) => Some(!b),
                    None => None,
                }
            } else {
                None
            },
            _ => None,
        }
    } else if is_ident(p, "feature"@) {
        match m {
            MetaItem::NameValue(_, MetaValue::Lit(LitSyntax::Str(f))) => Some(ctx.2.contains(f@)),
            _ => None,
        }
    } else if is_ident(p, "test"@) {
        Some(ctx.0)
    } else if is_ident(p, "tarpaulin"@) {
        Some(!ctx.1)
    } else {
        None
    }
}

/// The value of predicates that must all hold: false where one is false;
/// else true where all can be told; else none.
pub open spec fn eval_all(v: Seq<MetaItem>, ctx: (bool, bool, Seq<Seq<char>>)) -> Option<bool>
    decreases v, 0nat,
{
    if v.len() == 0 {
        Some(true)
    } else {
        match eval_cfg(v[0], ctx) {
            Some(false) => Some(false),
            Some(true) => eval_all(v.drop_first(), ctx),
            None => match eval_all(v.drop_first(), ctx) {
                Some(false) => Some(false),
                _ => None,
            },
        }
    }
}

/// The value of predicates one of which must hold: true where one is true;
/// else false where all can be told; else none.
pub open spec fn eval_any(v: Seq<MetaItem>, ctx: (bool, bool, Seq<Seq<char>>)) -> Option<bool>
    decreases v, 0nat,
{
    if v.len() == 0 {
        Some(false)
    } else {
        match eval_cfg(v[0], ctx) {
            Some(true) => Some(true),
            Some(false) => eval_any(v.drop_first(), ctx),
            None => match eval_any(v.drop_first(), ctx) {
                Some(true) => Some(true),
                _ => None,
            },
        }
    }
}

/// `any(p1, .., pn)` holds exactly where some pi holds, fails exactly where
/// every pi fails (so `any()` fails), and cannot be told otherwise.
pub proof fn lemma_eval_any_law(v: Seq<MetaItem>, ctx: (bool, bool, Seq<Seq<char>>))
    ensures
        (eval_any(v, ctx) == Some(true)) == (exists|i: int| 0 <= i < v.len() && #[trigger] eval_cfg(v[i], ctx) == Some(true)),
        (eval_any(v, ctx) == Some(false)) == (forall|i: int| 0 <= i < v.len() ==> #[trigger] eval_cfg(v[i], ctx) == Some(false)),
    decreases v.len(),
{
    if v.len() > 0 {
        let r = v.drop_first();
        lemma_eval_any_law(r, ctx);
        assert forall|i: int| 0 <= i < r.len() implies #[trigger] r[i] == v[i + 1] by {}
        if exists|i: int| 0 <= i < v.len() && #[trigger] eval_cfg(v[i], ctx) == Some(true) {
            let i = choose|i: int| 0 <= i < v.len() && #[trigger] eval_cfg(v[i], ctx) == Some(true);
            if i > 0 {
                assert(eval_cfg(r[i - 1], ctx) == Some(true));
            }
        }
        if exists|i: int| 0 <= i < r.len() && #[trigger] eval_cfg(r[i], ctx) == Some(true) {
            let i = choose|i: int| 0 <= i < r.len() && #[trigger] eval_cfg(r[i], ctx) == Some(true);
            assert(eval_cfg(v[i + 1], ctx) == Some(true));
        }
        if forall|i: int| 0 <= i < v.len() ==> #[trigger] eval_cfg(v[i], ctx) == Some(false) {
            assert(eval_cfg(v[0], ctx) == Some(false));
            assert forall|i: int| 0 <= i < r.len() implies #[trigger] eval_cfg(r[i], ctx) == Some(false) by {
                assert(eval_cfg(v[i + 1], ctx) == Some(false));
            }
        }
        if eval_any(v, ctx) == Some(false) {
            assert forall|i: int| 0 <= i < v.len() implies #[trigger] eval_cfg(v[i], ctx) == Some(false) by {
                if i > 0 {
                    assert(eval_cfg(r[i - 1], ctx) == Some(false));
                }
            }
        }
    }
}

/// `all(p1, .., pn)` holds exactly where every pi holds (so `all()` holds),
/// fails exactly where some pi fails, and cannot be told otherwise.
pub proof fn lemma_eval_all_law(v: Seq<MetaItem>, ctx: (bool, bool, Seq<Seq<char>>))
    ensures
        (eval_all(v, ctx) == Some(false)) == (exists|i: int| 0 <= i < v.len() && #[trigger] eval_cfg(v[i], ctx) == Some(false)),
        (eval_all(v, ctx) == Some(true)) == (forall|i: int| 0 <= i < v.len() ==> #[trigger] eval_cfg(v[i], ctx) == Some(true)),
    decreases v.len(),
{
    if v.len() > 0 {
        let r = v.drop_first();
        lemma_eval_all_law(r, ctx);
        assert forall|i: int| 0 <= i < r.len() implies #[trigger] r[i] == v[i + 1] by {}
        if exists|i: int| 0 <= i < v.len() && #[trigger] eval_cfg(v[i], ctx) == Some(false) {
            let i = choose|i: int| 0 <= i < v.len() && #[trigger] eval_cfg(v[i], ctx) == Some(false);
            if i > 0 {
                assert(eval_cfg(r[i - 1], ctx) == Some(false));
            }
        }
        if exists|i: int| 0 <= i < r.len() && #[trigger] eval_cfg(r[i], ctx) == Some(false) {
            let i = choose|i: int| 0 <= i < r.len() && #[trigger] eval_cfg(r[i], ctx) == Some(false);
            assert(eval_cfg(v[i + 1], ctx) == Some(false));
        }
        if forall|i: int| 0 <= i < v.len() ==> #[trigger] eval_cfg(v[i], ctx) == Some(true) {
            assert(eval_cfg(v[0], ctx) == Some(true));
            assert forall|i: int| 0 <= i < r.len() implies #[trigger] eval_cfg(r[i], ctx) == Some(true) by {
                assert(eval_cfg(v[i + 1], ctx) == Some(true));
            }
        }
        if eval_all(v, ctx) == Some(true) {
            assert forall|i: int| 0 <= i < v.len() implies #[trigger] eval_cfg(v[i], ctx) == Some(true) by {
                if i > 0 {
                    assert(eval_cfg(r[i - 1], ctx) == Some(true));
                }
            }
        }
    }
}

/// `not(p)` holds exactly where `p` fails and fails exactly where `p`
/// holds; it cannot be told where `p` cannot.
pub proof fn lemma_eval_not_law(m: MetaItem, ctx: (bool, bool, Seq<Seq<char>>))
    ensures
        m matches MetaItem::List(p, Some(v)) ==> (is_ident(strs(p@), "not"@) && v@.len() == 1 ==> eval_cfg(m, ctx) == match eval_cfg(v@[0], ctx) {
            Some(b) => Some(!b),
            None => None,
        }),
{
    reveal_strlit("not");
    reveal_strlit("all");
    reveal_strlit("any");
    if let MetaItem::List(p, Some(v)) = m {
        if is_ident(strs(p@), "not"@) {
            assert(path_of(m) == strs(p@));
            assert(strs(p@)[0] == "not"@);
            assert(!is_ident(strs(p@), "all"@)) by {
                assert("not"@[0] != "all"@[0]);
            }
            assert(!is_ident(strs(p@), "any"@)) by {
                assert("not"@[0] != "any"@[0]);
            }
        }
    }
}

/// The value of a context.
pub open spec fn ctx_view(ctx: &CfgContext) -> (bool, bool, Seq<Seq<char>>) {
    (ctx.include_tests, ctx.avoid_cfg_tarpaulin, strs(ctx.features@))
}

/// What a run of predicates that met an unknown one comes to.
pub open spec fn after_unknown_all(r: Option<bool>) -> Option<bool> {
    match r {
        Some(false) => Some(false),
        _ => None,
    }
}

/// What a run of alternatives that met an unknown one comes to.
pub open spec fn after_unknown_any(r: Option<bool>) -> Option<bool> {
    match r {
        Some(true) => Some(true),
        _ => None,
    }
}

/// Whether the path `p` is the single identifier `id`.
fn path_is(p: &Vec<String>, id: &str) -> (res: bool)
    ensures
        res == is_ident(strs(p@), id@),
{
    p.len() == 1 && str_eq(p[0].as_str(), id)
}

fn meta_path(m: &MetaItem) -> (res: &Vec<String>)
    ensures
        strs(res@) == path_of(*m),
{
    match m {
        MetaItem::Path(p) => p,
        MetaItem::List(p, _) => p,
        MetaItem::NameValue(p, _) => p,
    }
}

fn contains_feature(fs: &Vec<String>, f: &String) -> (res: bool)
    ensures
        res == strs(fs@).contains(f@),
{
    crate::text::contains_string(fs, f)
}

/// The value of a `cfg` predicate; see `eval_cfg`.
pub fn eval_cfg_exec(m: &MetaItem, ctx: &CfgContext) -> (res: Option<bool>)
    ensures
        res == eval_cfg(*m, ctx_view(ctx)),
    decreases m, 1nat,
{
    let p = meta_path(m);
    proof {
        reveal_strlit("all");
        reveal_strlit("any");
        reveal_strlit("not");
        reveal_strlit("feature");
        reveal_strlit("test");
        reveal_strlit("tarpaulin");
    }
    if path_is(p, "all") {
        match m {
            MetaItem::List(_, Some(v)) => eval_all_exec(v, ctx),
            _ => None,
        }
    } else if path_is(p, "any") {
        match m {
            MetaItem::List(_, Some(v)) => eval_any_exec(v, ctx),
            _ => None,
        }
    } else if path_is(p, "not") {
        match m {
            MetaItem::List(_, Some(v)) => if v.len() == 1 {
                match eval_cfg_exec(&v[0], ctx) {
                    Some(b) => Some(!b),
                    None => None,
                }
            } else {
                None
            },
            _ => None,
        }
    } else if path_is(p, "feature") {
        match m {
            MetaItem::NameValue(_, MetaValue::Lit(LitSyntax::Str(f))) => Some(contains_feature(&ctx.features, f)),
            _ => None,
        }
    } else if path_is(p, "test") {
        Some(ctx.include_tests)
    } else if path_is(p, "tarpaulin") {
        Some(!ctx.avoid_cfg_tarpaulin)
    } else {
        None
    }
}

/// The value of predicates that must all hold; see `eval_all`.
pub fn eval_all_exec(v: &Vec<MetaItem>, ctx: &CfgContext) -> (res: Option<bool>)
    ensures
        res == eval_all(v@, ctx_view(ctx)),
    decreases v@, 0nat,
{
    let mut result: Option<bool> = Some(true);
    let mut i: usize = 0;
    assert(v@.skip(0) =~= v@);
    while i < v.len()
        invariant
            i <= v.len(),
            result == Some(true) || result is None,
            eval_all(v@, ctx_view(ctx)) == if result is Some {
                eval_all(v@.skip(i as int), ctx_view(ctx))
            } else {
                after_unknown_all(eval_all(v@.skip(i as int), ctx_view(ctx)))
            },
        decreases v.len() - i,
    {
        assert(v@.skip(i as int)[0] == v@[i as int]);
        assert(v@.skip(i as int).drop_first() =~= v@.skip(i + 1));
        match eval_cfg_exec(&v[i], ctx) {
            Some(false) => {
                return Some(false);
            },
            Some(true) => {},
            None => {
                result = None;
            },
        }
        i = i + 1;
    }
    assert(v@.skip(i as int) =~= Seq::<MetaItem>::empty());
    result
}

/// The value of predicates one of which must hold; see `eval_any`.
pub fn eval_any_exec(v: &Vec<MetaItem>, ctx: &CfgContext) -> (res: Option<bool>)
    ensures
        res == eval_any(v@, ctx_view(ctx)),
    decreases v@, 0nat,
{
    let mut result: Option<bool> = Some(false);
    let mut i: usize = 0;
    assert(v@.skip(0) =~= v@);
    while i < v.len()
        invariant
            i <= v.len(),
            result == Some(false) || result is None,
            eval_any(v@, ctx_view(ctx)) == if result is Some {
                eval_any(v@.skip(i as int), ctx_view(ctx))
            } else {
                after_unknown_any(eval_any(v@.skip(i as int), ctx_view(ctx)))
            },
        decreases v.len() - i,
    {
        assert(v@.skip(i as int)[0] == v@[i as int]);
        assert(v@.skip(i as int).drop_first() =~= v@.skip(i + 1));
        match eval_cfg_exec(&v[i], ctx) {
            Some(true) => {
                return Some(true);
            },
            Some(false) => {},
            None => {
                result = None;
            },
        }
        i = i + 1;
    }
    assert(v@.skip(i as int) =~= Seq::<MetaItem>::empty());
    result
}

/// The value of a `cfg(..)` attribute: its one predicate's, or, where it
/// has several, that of their conjunction; none where its items cannot be
/// read or there are none.
pub open spec fn eval_cfg_attr(m: MetaItem, ctx: (bool, bool, Seq<Seq<char>>)) -> Option<bool> {
    match m {
        MetaItem::List(_, Some(v)) => if v@.len() == 0 {
            None
        } else if v@.len() == 1 {
            eval_cfg(v@[0], ctx)
        } else {
            eval_all(v@, ctx)
        },
        _ => None,
    }
}

/// Whether some nested item of `m` is the identifier `id`.
pub open spec fn has_nested_ident(m: MetaItem, id: Seq<char>) -> bool {
    match nested(m) {
        Some(v) => exists|i: int| 0 <= i < v.len() && is_ident(path_of(#[trigger] v[i]), id),
        None => false,
    }
}

/// Whether some item of `v` is `not(..)` holding `tarpaulin_include` or
/// `tarpaulin`.
pub open spec fn has_not_tarpaulin(v: Seq<MetaItem>) -> bool {
    exists|i: int|
        0 <= i < v.len() && is_ident(path_of(#[trigger] v[i]), "not"@) && (has_nested_ident(
            v[i],
            "tarpaulin_include"@,
        ) || has_nested_ident(v[i], "tarpaulin"@))
}

/// Reading the items of a `cfg_attr(..)`: once the first one read is
/// `tarpaulin` (the state's second part), a later `no_coverage` or
/// `coverage(off)` ignores the code (its third part); the first part tells
/// whether `tarpaulin` is still awaited.
pub open spec fn cfg_attr_scan(v: Seq<MetaItem>) -> (bool, bool, bool)
    decreases v.len(),
{
    if v.len() == 0 {
        (true, false, false)
    } else {
        let (first, is_tarpaulin, ignore) = cfg_attr_scan(v.drop_last());
        let n = v.last();
        if first && is_ident(path_of(n), "tarpaulin"@) {
            (false, true, ignore)
        } else if !first && is_tarpaulin {
            if is_ident(path_of(n), "no_coverage"@) {
                (first, is_tarpaulin, true)
            } else if is_ident(path_of(n), "coverage"@) {
                (first, is_tarpaulin, ignore || has_nested_ident(n, "off"@))
            } else {
                (first, is_tarpaulin, ignore)
            }
        } else {
            (first, is_tarpaulin, ignore)
        }
    }
}

/// Whether an attribute takes the code it is on out of coverage:
/// `no_coverage`, `coverage(off)`, `cfg(not(tarpaulin_include))` or
/// `cfg(not(tarpaulin))`, `cfg_attr(tarpaulin, no_coverage)` or
/// `cfg_attr(tarpaulin, coverage(off))`, a test attribute, or
/// `tarpaulin::skip`.
pub open spec fn check_cfg_attr(m: MetaItem) -> bool {
    let p = path_of(m);
    if is_ident(p, "no_coverage"@) {
        true
    } else if is_ident(p, "coverage"@) {
        has_nested_ident(m, "off"@)
    } else if is_ident(p, "cfg"@) {
        match nested(m) {
            Some(v) => has_not_tarpaulin(v),
            None => false,
        }
    } else if is_ident(p, "cfg_attr"@) {
        match nested(m) {
            Some(v) => cfg_attr_scan(v).2,
            None => false,
        }
    } else if is_test_path(p) {
        true
    } else {
        p.len() >= 2 && p[0] == "tarpaulin"@ && p[1] == "skip"@
    }
}

/// Whether an attribute leaves the code it is on out: it takes it out of
/// coverage, or it is a `cfg` that does not hold or that names a test
/// where tests do not count.
pub open spec fn attr_excludes(m: MetaItem, ctx: (bool, bool, Seq<Seq<char>>)) -> bool {
    check_cfg_attr(m) || (is_ident(path_of(m), "cfg"@) && (eval_cfg_attr(m, ctx) == Some(false) || (!ctx.0
        && match nested(m) {
        Some(v) => exists|i: int| 0 <= i < v.len() && is_test_path(path_of(#[trigger] v[i])),
        None => false,
    })))
}

/// The number of attributes looked at: up to and including the first that
/// leaves the code out, else all.
pub open spec fn attrs_looked_at(attrs: Seq<AttrSyntax>, ctx: (bool, bool, Seq<Seq<char>>)) -> int
    decreases attrs.len(),
{
    if attrs.len() == 0 {
        0
    } else if attr_excludes(attrs[0].meta, ctx) {
        1
    } else {
        1 + attrs_looked_at(attrs.drop_first(), ctx)
    }
}

/// The lines the first `n` attributes span.
pub open spec fn span_lines(attrs: Seq<AttrSyntax>, n: int) -> Set<Lines> {
    Set::new(
        |l: Lines|
            exists|i: int|
                0 <= i < n && (l matches Lines::Line(k) && (#[trigger] attrs[i]).start_line <= k <= attrs[i].end_line),
    )
}

/// Whether no attribute of `attrs` leaves the code out.
pub open spec fn attrs_keep(attrs: Seq<AttrSyntax>, ctx: (bool, bool, Seq<Seq<char>>)) -> bool {
    forall|i: int| 0 <= i < attrs.len() ==> !attr_excludes(#[trigger] attrs[i].meta, ctx)
}

/// Whether a path names a test attribute; see `is_test_path`.
pub fn is_test_attribute(p: &Vec<String>) -> (res: bool)
    requires
        p@.len() > 0,
    ensures
        res == is_test_path(strs(p@)),
{
    let last = crate::text::chars_of(p[p.len() - 1].as_str());
    let ghost l = strs(p@).last();
    assert(l == last@);
    if last.len() < 4 {
        return false;
    }
    let n = last.len();
    let res = last[n - 4] == 't' && last[n - 3] == 'e' && last[n - 2] == 's' && last[n - 1] == 't';
    proof {
        reveal_strlit("test");
        if res {
            assert(l.skip(l.len() - 4) =~= "test"@);
        } else {
            if l.skip(l.len() - 4) == "test"@ {
                assert(l.skip(l.len() - 4)[0] == 't');
                assert(l.skip(l.len() - 4)[1] == 'e');
                assert(l.skip(l.len() - 4)[2] == 's');
                assert(l.skip(l.len() - 4)[3] == 't');
            }
        }
    }
    res
}

fn nested_has_ident(m: &MetaItem, id: &str) -> (res: bool)
    ensures
        res == has_nested_ident(*m, id@),
{
    match m {
        MetaItem::List(_, Some(v)) => {
            assert(nested(*m) == Some(v@));
            let mut i: usize = 0;
            while i < v.len()
                invariant
                    i <= v.len(),
                    nested(*m) == Some(v@),
                    forall|k: int| 0 <= k < i ==> !is_ident(path_of(#[trigger] v@[k]), id@),
                decreases v.len() - i,
            {
                if path_is(meta_path(&v[i]), id) {
                    assert(is_ident(path_of(v@[i as int]), id@));
                    assert(exists|j: int| 0 <= j < v@.len() && is_ident(path_of(#[trigger] v@[j]), id@));
                    assert(nested(*m)->0 == v@);
                    assert(has_nested_ident(*m, id@));
                    return true;
                }
                i = i + 1;
            }
            false
        },
        _ => false,
    }
}

/// Whether an attribute takes the code it is on out of coverage; see
/// `check_cfg_attr`.
pub fn check_cfg_attr_exec(m: &MetaItem) -> (res: bool)
    requires
        meta_wf(*m),
    ensures
        res == check_cfg_attr(*m),
{
    let p = meta_path(m);
    proof {
        reveal_strlit("no_coverage");
        reveal_strlit("coverage");
        reveal_strlit("cfg");
        reveal_strlit("cfg_attr");
        reveal_strlit("not");
        reveal_strlit("tarpaulin_include");
        reveal_strlit("tarpaulin");
        reveal_strlit("off");
        reveal_strlit("skip");
    }
    if path_is(p, "no_coverage") {
        true
    } else if path_is(p, "coverage") {
        nested_has_ident(m, "off")
    } else if path_is(p, "cfg") {
        match m {
            MetaItem::List(_, Some(v)) => {
                assert(nested(*m) == Some(v@));
                let mut i: usize = 0;
                while i < v.len()
                    invariant
                        i <= v.len(),
                        nested(*m) == Some(v@),
                        is_ident(path_of(*m), "cfg"@),
                        !is_ident(path_of(*m), "no_coverage"@),
                        !is_ident(path_of(*m), "coverage"@),
                        forall|k: int|
                            0 <= k < i ==> !(is_ident(path_of(#[trigger] v@[k]), "not"@) && (has_nested_ident(
                                v@[k],
                                "tarpaulin_include"@,
                            ) || has_nested_ident(v@[k], "tarpaulin"@))),
                    decreases v.len() - i,
                {
                    let item = &v[i];
                    if path_is(meta_path(item), "not") && (nested_has_ident(item, "tarpaulin_include")
                        || nested_has_ident(item, "tarpaulin")) {
                        assert(is_ident(path_of(v@[i as int]), "not"@) && (has_nested_ident(
                            v@[i as int],
                            "tarpaulin_include"@,
                        ) || has_nested_ident(v@[i as int], "tarpaulin"@)));
                        assert(has_not_tarpaulin(v@));
                        assert(nested(*m)->0 == v@);
                        return true;
                    }
                    i = i + 1;
                }
                false
            },
            _ => false,
        }
    } else if path_is(p, "cfg_attr") {
        match m {
            MetaItem::List(_, Some(v)) => {
                let mut first = true;
                let mut is_tarpaulin = false;
                let mut ignore = false;
                let mut i: usize = 0;
                assert(v@.take(0) =~= Seq::<MetaItem>::empty());
                while i < v.len()
                    invariant
                        i <= v.len(),
                        (first, is_tarpaulin, ignore) == cfg_attr_scan(v@.take(i as int)),
                    decreases v.len() - i,
                {
                    assert(v@.take(i + 1).drop_last() =~= v@.take(i as int));
                    assert(v@.take(i + 1).last() == v@[i as int]);
                    let n = &v[i];
                    if first && path_is(meta_path(n), "tarpaulin") {
                        first = false;
                        is_tarpaulin = true;
                    } else if !first && is_tarpaulin {
                        if path_is(meta_path(n), "no_coverage") {
                            ignore = true;
                        } else if path_is(meta_path(n), "coverage") {
                            ignore = ignore || nested_has_ident(n, "off");
                        }
                    }
                    i = i + 1;
                }
                assert(v@.take(v.len() as int) =~= v@);
                ignore
            },
            _ => false,
        }
    } else if is_test_attribute(p) {
        true
    } else {
        p.len() >= 2 && str_eq(p[0].as_str(), "tarpaulin") && str_eq(p[1].as_str(), "skip")
    }
}

/// The value of a `cfg(..)` attribute; see `eval_cfg_attr`.
pub fn eval_cfg_attr_exec(m: &MetaItem, ctx: &CfgContext) -> (res: Option<bool>)
    ensures
        res == eval_cfg_attr(*m, ctx_view(ctx)),
{
    match m {
        MetaItem::List(_, Some(v)) => if v.len() == 0 {
            None
        } else if v.len() == 1 {
            eval_cfg_exec(&v[0], ctx)
        } else {
            eval_all_exec(v, ctx)
        },
        _ => None,
    }
}

fn names_test(m: &MetaItem) -> (res: bool)
    requires
        meta_wf(*m),
    ensures
        res == match nested(*m) {
            Some(v) => exists|i: int| 0 <= i < v.len() && is_test_path(path_of(#[trigger] v[i])),
            None => false,
        },
{
    match m {
        MetaItem::List(_, Some(v)) => {
            assert(nested(*m) == Some(v@));
            let mut i: usize = 0;
            while i < v.len()
                invariant
                    i <= v.len(),
                    nested(*m) == Some(v@),
                    forall|k: int| 0 <= k < v@.len() ==> meta_wf(#[trigger] v@[k]),
                    forall|k: int| 0 <= k < i ==> !is_test_path(path_of(#[trigger] v@[k])),
                decreases v.len() - i,
            {
                assert(meta_wf(v@[i as int]));
                let item = &v[i];
                let ip = meta_path(item);
                assert(ip@.len() > 0) by {
                    assert(strs(ip@).len() == ip@.len());
                    match *item {
                        MetaItem::Path(q) => {},
                        MetaItem::List(q, _) => {},
                        MetaItem::NameValue(q, _) => {},
                    }
                }
                if is_test_attribute(ip) {
                    assert(is_test_path(path_of(v@[i as int])));
                    assert(exists|j: int| 0 <= j < v@.len() && is_test_path(path_of(#[trigger] v@[j])));
                    assert(nested(*m)->0 == v@);
                    return true;
                }
                i = i + 1;
            }
            false
        },
        _ => false,
    }
}

/// Whether a meta item is well formed; see `meta_wf`.
#[verifier::loop_isolation(false)]
pub fn meta_wf_exec(m: &MetaItem) -> (res: bool)
    ensures
        res == meta_wf(*m),
    decreases m,
{
    match m {
        MetaItem::Path(p) => p.len() > 0,
        MetaItem::NameValue(p, _) => p.len() > 0,
        MetaItem::List(p, items) => {
            if p.len() == 0 {
                return false;
            }
            match items {
                None => true,
                Some(v) => {
                    let mut i: usize = 0;
                    while i < v.len()
                        invariant
                            i <= v@.len(),
                            forall|k: int| 0 <= k < i ==> meta_wf(#[trigger] v@[k]),
                        decreases v@.len() - i,
                    {
                        proof {
                            assert(*items == m->List_1);
                            assert(decreases_to!(*m => m->List_1));
                            assert(*v == items->Some_0);
                            assert(decreases_to!(*items => items->Some_0));
                            assert(decreases_to!(*v => v@));
                            assert(decreases_to!(v@ => v@[i as int]));
                        }
                        if !meta_wf_exec(&v[i]) {
                            assert(!meta_wf(v@[i as int]));
                            return false;
                        }
                        i = i + 1;
                    }
                    true
                },
            }
        },
    }
}

/// Whether the attribute with meta item `m` leaves its item out; see
/// `attr_excludes`.
pub fn attr_excludes_exec(m: &MetaItem, ctx: &CfgContext) -> (res: bool)
    requires
        meta_wf(*m),
    ensures
        res == attr_excludes(*m, ctx_view(ctx)),
{
    proof {
        reveal_strlit("cfg");
    }
    if check_cfg_attr_exec(m) {
        true
    } else if path_is(meta_path(m), "cfg") {
        eval_cfg_attr_exec(m, ctx) == Some(false) || (!ctx.include_tests && names_test(m))
    } else {
        false
    }
}

/// Looks at the attributes of an item in turn, ignoring the lines each
/// spans, up to the first that leaves the item out (see `attr_excludes`);
/// whether none does.
pub fn check_attr_list(analysis: &mut LineAnalysis, attrs: &Vec<AttrSyntax>, ctx: &CfgContext) -> (res: bool)
    requires
        old(analysis).wf(),
        forall|i: int| 0 <= i < attrs@.len() ==> meta_wf(#[trigger] attrs@[i].meta),
    ensures
        final(analysis).wf(),
        res == attrs_keep(attrs@, ctx_view(ctx)),
        old(analysis).ignore@.contains(Lines::All) ==> final(analysis).ignore@ == old(analysis).ignore@,
        !old(analysis).ignore@.contains(Lines::All) ==> final(analysis).ignore@.to_set() == old(
            analysis,
        ).ignore@.to_set() + span_lines(attrs@, attrs_looked_at(attrs@, ctx_view(ctx))),
        final(analysis).logical_lines@ == old(analysis).logical_lines@,
        final(analysis).max_line == old(analysis).max_line,
{
    let ghost c = ctx_view(ctx);
    let ghost all0 = analysis.ignore@.contains(Lines::All);
    let ghost ig0 = analysis.ignore@;
    let mut i: usize = 0;
    assert(attrs@.skip(0) =~= attrs@);
    assert(span_lines(attrs@, 0) =~= Set::<Lines>::empty());
    while i < attrs.len()
        invariant
            i <= attrs.len(),
            analysis.wf(),
            forall|k: int| 0 <= k < attrs@.len() ==> meta_wf(#[trigger] attrs@[k].meta),
            forall|k: int| 0 <= k < i ==> !attr_excludes(#[trigger] attrs@[k].meta, c),
            attrs_looked_at(attrs@, c) == i + attrs_looked_at(attrs@.skip(i as int), c),
            all0 == old(analysis).ignore@.contains(Lines::All),
            ig0 == old(analysis).ignore@,
            all0 ==> analysis.ignore@ == ig0,
            !all0 ==> analysis.ignore@.to_set() == ig0.to_set() + span_lines(attrs@, i as int),
            !all0 ==> !analysis.ignore@.contains(Lines::All),
            analysis.logical_lines@ == old(analysis).logical_lines@,
            analysis.max_line == old(analysis).max_line,
            c == ctx_view(ctx),
        decreases attrs.len() - i,
    {
        let a = &attrs[i];
        assert(attrs@.skip(i as int)[0] == attrs@[i as int]);
        assert(attrs@.skip(i as int).drop_first() =~= attrs@.skip(i + 1));
        analysis.ignore_span(a.start_line, a.end_line);
        proof {
            if !all0 {
                assert(analysis.ignore@.to_set() =~= ig0.to_set() + span_lines(attrs@, i + 1)) by {
                    assert forall|l: Lines| span_lines(attrs@, i + 1).contains(l) <==> (span_lines(
                        attrs@,
                        i as int,
                    ).contains(l) || (l matches Lines::Line(k) && a.start_line <= k <= a.end_line)) by {
                        if span_lines(attrs@, i + 1).contains(l) {
                            let w = choose|w: int|
                                0 <= w < i + 1 && (l matches Lines::Line(k) && (#[trigger] attrs@[w]).start_line <= k
                                    <= attrs@[w].end_line);
                            if w < i {
                                assert(span_lines(attrs@, i as int).contains(l));
                            }
                        }
                    }
                }
                assert(!analysis.ignore@.contains(Lines::All)) by {
                    if analysis.ignore@.contains(Lines::All) {
                        assert(analysis.ignore@.to_set().contains(Lines::All));
                        assert(ig0.to_set().contains(Lines::All) || span_lines(attrs@, i + 1).contains(Lines::All));
                        if ig0.to_set().contains(Lines::All) {
                            assert(ig0.contains(Lines::All));
                        }
                    }
                }
            }
        }
        let excludes = if check_cfg_attr_exec(&a.meta) {
            true
        } else if path_is(meta_path(&a.meta), "cfg") {
            eval_cfg_attr_exec(&a.meta, ctx) == Some(false) || (!ctx.include_tests && names_test(&a.meta))
        } else {
            false
        };
        proof {
            reveal_strlit("cfg");
        }
        if excludes {
            assert(attrs_looked_at(attrs@.skip(i as int), c) == 1);
            return false;
        }
        i = i + 1;
    }
    assert(attrs@.skip(i as int) =~= Seq::<AttrSyntax>::empty());
    true
}

/// A package of the project: where its manifest is, and its features, each
/// with what it enables (no feature twice).
pub struct PackageFeatures {
    pub manifest_path: String,
    pub features: Vec<(String, Vec<String>)>,
}

/// The view of a package's features.
pub open spec fn features_view(v: Seq<(String, Vec<String>)>) -> Seq<(Seq<char>, Seq<Seq<char>>)> {
    v.map_values(|e: (String, Vec<String>)| (e.0@, strs(e.1@)))
}

/// Whether `name` is a feature of the package.
pub open spec fn is_feature(fs: Seq<(Seq<char>, Seq<Seq<char>>)>, name: Seq<char>) -> bool {
    exists|i: int| 0 <= i < fs.len() && (#[trigger] fs[i]).0 == name
}

/// No feature is listed twice.
pub open spec fn features_distinct(fs: Seq<(Seq<char>, Seq<Seq<char>>)>) -> bool {
    forall|i: int, j: int| 0 <= i < j < fs.len() ==> (#[trigger] fs[i]).0 != (#[trigger] fs[j]).0
}

/// What follows the first `c` in `s`, where `s` holds one.
pub open spec fn after_char(s: Seq<char>, c: char) -> Option<Seq<char>>
    decreases s.len(),
{
    if s.len() == 0 {
        None
    } else if s[0] == c {
        Some(s.drop_first())
    } else {
        after_char(s.drop_first(), c)
    }
}

/// The feature a dependency entry of a feature names, as it is read: after
/// a `?`, then after a `/`, where either is missing the entry as written
/// (with any `dep:` prefix).
pub open spec fn dep_feature(dep: Seq<char>) -> Seq<char> {
    let a = if dep.len() >= 4 && dep.take(4) == "dep:"@ {
        dep.skip(4)
    } else {
        dep
    };
    let b = match after_char(a, '?') {
        Some(x) => x,
        None => dep,
    };
    match after_char(b, '/') {
        Some(x) => x,
        None => dep,
    }
}

/// Feature `b` is enabled by feature `a`: some entry of `a` names it, and
/// it is a feature of the package.
pub open spec fn enables(fs: Seq<(Seq<char>, Seq<Seq<char>>)>, a: Seq<char>, b: Seq<char>) -> bool {
    is_feature(fs, b) && exists|i: int, k: int|
        0 <= i < fs.len() && fs[i].0 == a && 0 <= k < fs[i].1.len() && dep_feature(#[trigger] fs[i].1[k]) == b
}

/// Feature `g` is reached from feature `f` by features enabling others.
pub open spec fn reaches(fs: Seq<(Seq<char>, Seq<Seq<char>>)>, f: Seq<char>, g: Seq<char>) -> bool {
    exists|path: Seq<Seq<char>>|
        #![trigger path.len(), path[0]]
        path.len() >= 1 && path[0] == f && path.last() == g && is_feature(fs, f) && forall|i: int|
            0 <= i < path.len() - 1 ==> enables(fs, #[trigger] path[i], path[i + 1])
}

proof fn lemma_reaches_self(fs: Seq<(Seq<char>, Seq<Seq<char>>)>, f: Seq<char>)
    requires
        is_feature(fs, f),
    ensures
        reaches(fs, f, f),
{
    let path = seq![f];
    assert(path.len() >= 1 && path[0] == f && path.last() == f);
}

proof fn lemma_reaches_prepend(fs: Seq<(Seq<char>, Seq<Seq<char>>)>, f: Seq<char>, d: Seq<char>, g: Seq<char>)
    requires
        is_feature(fs, f),
        enables(fs, f, d),
        reaches(fs, d, g),
    ensures
        reaches(fs, f, g),
{
    let p = choose|path: Seq<Seq<char>>|
        #![trigger path.len(), path[0]]
        path.len() >= 1 && path[0] == d && path.last() == g && is_feature(fs, d) && forall|i: int|
            0 <= i < path.len() - 1 ==> enables(fs, #[trigger] path[i], path[i + 1]);
    let q = seq![f] + p;
    assert(q.len() >= 1 && q[0] == f && q.last() == g);
    assert forall|i: int| 0 <= i < q.len() - 1 implies enables(fs, #[trigger] q[i], q[i + 1]) by {
        if i == 0 {
            assert(q[1] == p[0]);
        } else {
            assert(q[i] == p[i - 1] && q[i + 1] == p[i]);
        }
    }
}

/// A set of features holds every feature that any of its features enables.
pub open spec fn enable_closed(fs: Seq<(Seq<char>, Seq<Seq<char>>)>, s: Seq<Seq<char>>) -> bool {
    forall|a: Seq<char>, b: Seq<char>| #![trigger s.contains(a), enables(fs, a, b)]
        s.contains(a) && enables(fs, a, b) ==> s.contains(b)
}

proof fn lemma_closed_holds_reached(fs: Seq<(Seq<char>, Seq<Seq<char>>)>, s: Seq<Seq<char>>, f: Seq<char>, g: Seq<char>)
    requires
        enable_closed(fs, s),
        s.contains(f),
        reaches(fs, f, g),
    ensures
        s.contains(g),
{
    let p = choose|path: Seq<Seq<char>>|
        #![trigger path.len(), path[0]]
        path.len() >= 1 && path[0] == f && path.last() == g && is_feature(fs, f) && forall|i: int|
            0 <= i < path.len() - 1 ==> enables(fs, #[trigger] path[i], path[i + 1]);
    lemma_path_in_closed(fs, s, p, p.len() - 1);
}

proof fn lemma_path_in_closed(fs: Seq<(Seq<char>, Seq<Seq<char>>)>, s: Seq<Seq<char>>, p: Seq<Seq<char>>, k: int)
    requires
        0 <= k < p.len(),
        enable_closed(fs, s),
        s.contains(p[0]),
        forall|i: int| 0 <= i < p.len() - 1 ==> enables(fs, #[trigger] p[i], p[i + 1]),
    ensures
        s.contains(p[k]),
    decreases k,
{
    if k > 0 {
        lemma_path_in_closed(fs, s, p, k - 1);
        assert(enables(fs, p[k - 1], p[k]));
    }
}

fn find_feature(fs: &Vec<(String, Vec<String>)>, name: &String) -> (res: Option<usize>)
    ensures
        match res {
            Some(i) => i < fs@.len() && fs@[i as int].0@ == name@,
            None => !is_feature(features_view(fs@), name@),
        },
{
    let mut i: usize = 0;
    while i < fs.len()
        invariant
            i <= fs.len(),
            forall|k: int| 0 <= k < i ==> fs@[k].0@ != name@,
        decreases fs.len() - i,
    {
        if crate::text::string_eq(&fs[i].0, name) {
            return Some(i);
        }
        i = i + 1;
    }
    assert forall|k: int| 0 <= k < fs@.len() implies (#[trigger] features_view(fs@)[k]).0 != name@ by {
        assert(features_view(fs@)[k].0 == fs@[k].0@);
    }
    None
}

fn after_char_exec(s: &Vec<char>, c: char) -> (res: Option<Vec<char>>)
    ensures
        match res {
            Some(r) => after_char(s@, c) == Some(r@),
            None => after_char(s@, c) is None,
        },
{
    assert(s@.skip(0) =~= s@);
    let mut i: usize = 0;
    while i < s.len()
        invariant
            i <= s.len(),
            after_char(s@, c) == after_char(s@.skip(i as int), c),
        decreases s.len() - i,
    {
        assert(s@.skip(i as int)[0] == s@[i as int]);
        if s[i] == c {
            let mut out: Vec<char> = Vec::new();
            let mut j: usize = i + 1;
            while j < s.len()
                invariant
                    i + 1 <= j <= s.len(),
                    out@ == s@.subrange(i + 1, j as int),
                decreases s.len() - j,
            {
                out.push(s[j]);
                assert(s@.subrange(i + 1, j + 1) =~= s@.subrange(i + 1, j as int).push(s@[j as int]));
                j = j + 1;
            }
            assert(out@ =~= s@.skip(i as int).drop_first());
            return Some(out);
        }
        assert(s@.skip(i as int).drop_first() =~= s@.skip(i + 1));
        i = i + 1;
    }
    None
}

fn dep_feature_exec(dep: &String) -> (res: String)
    ensures
        res@ == dep_feature(dep@),
{
    let d = crate::text::chars_of(dep.as_str());
    proof {
        reveal_strlit("dep:");
    }
    let a: Vec<char> = if d.len() >= 4 && d[0] == 'd' && d[1] == 'e' && d[2] == 'p' && d[3] == ':' {
        assert(d@.take(4) =~= "dep:"@);
        crate::cargo::slice_chars(&d, 4, d.len())
    } else {
        proof {
            if d@.len() >= 4 && d@.take(4) == "dep:"@ {
                assert(d@.take(4)[0] == 'd' && d@.take(4)[1] == 'e' && d@.take(4)[2] == 'p' && d@.take(4)[3] == ':');
            }
        }
        crate::text::chars_of(dep.as_str())
    };
    let b: Vec<char> = match after_char_exec(&a, '?') {
        Some(x) => x,
        None => crate::text::chars_of(dep.as_str()),
    };
    let c: Vec<char> = match after_char_exec(&b, '/') {
        Some(x) => x,
        None => crate::text::chars_of(dep.as_str()),
    };
    crate::text::string_of(&c)
}

proof fn lemma_no_dup_subset_len(a: Seq<Seq<char>>, fs: Seq<(Seq<char>, Seq<Seq<char>>)>)
    requires
        a.no_duplicates(),
        features_distinct(fs),
        forall|x: Seq<char>| a.contains(x) ==> is_feature(fs, x),
    ensures
        a.len() <= fs.len(),
{
    let keys = fs.map_values(|e: (Seq<char>, Seq<Seq<char>>)| e.0);
    assert(keys.no_duplicates()) by {
        assert forall|i: int, j: int| 0 <= i < keys.len() && 0 <= j < keys.len() && i != j implies keys[i]
            != keys[j] by {
            if i < j {
                assert(fs[i].0 != fs[j].0);
            } else {
                assert(fs[j].0 != fs[i].0);
            }
        }
    }
    a.unique_seq_to_set();
    keys.unique_seq_to_set();
    assert(a.to_set().subset_of(keys.to_set())) by {
        assert forall|x: Seq<char>| a.to_set().contains(x) implies keys.to_set().contains(x) by {
            assert(is_feature(fs, x));
            let i = choose|i: int| 0 <= i < fs.len() && (#[trigger] fs[i]).0 == x;
            assert(keys[i] == x);
        }
    }
    vstd::set_lib::lemma_len_subset(a.to_set(), keys.to_set());
}

/// Turns on feature `feature` of a package, and the features it enables in
/// turn; `active` holds the features already on.
pub fn add_feature(feature: &String, features: &Vec<(String, Vec<String>)>, active: &mut Vec<String>)
    requires
        features_distinct(features_view(features@)),
        strs(old(active)@).no_duplicates(),
        forall|x: Seq<char>| strs(old(active)@).contains(x) ==> is_feature(features_view(features@), x),
    ensures
        final(active)@.len() >= old(active)@.len(),
        strs(final(active)@).no_duplicates(),
        forall|x: Seq<char>| strs(final(active)@).contains(x) ==> is_feature(features_view(features@), x),
        forall|x: Seq<char>| strs(old(active)@).contains(x) ==> strs(final(active)@).contains(x),
        is_feature(features_view(features@), feature@) ==> strs(final(active)@).contains(feature@),
        forall|x: Seq<char>|
            strs(final(active)@).contains(x) && !strs(old(active)@).contains(x) ==> reaches(
                features_view(features@),
                feature@,
                x,
            ),
        forall|x: Seq<char>, y: Seq<char>|
            #![trigger strs(final(active)@).contains(x), enables(features_view(features@), x, y)]
            strs(final(active)@).contains(x) && !strs(old(active)@).contains(x) && enables(
                features_view(features@),
                x,
                y,
            ) ==> strs(final(active)@).contains(y),
    decreases features@.len() - old(active)@.len(),
{
    let ghost fs = features_view(features@);
    let ghost a0 = strs(active@);
    proof {
        lemma_no_dup_subset_len(a0, fs);
    }
    let idx = match find_feature(features, feature) {
        Some(i) => i,
        None => {
            return;
        },
    };
    assert(fs[idx as int].0 == feature@);
    if crate::text::contains_string(active, feature) {
        return;
    }
    active.push(feature.clone());
    assert(strs(active@) =~= a0.push(feature@));
    assert(strs(active@)[a0.len() as int] == feature@);
    assert forall|x: Seq<char>| a0.contains(x) implies strs(active@).contains(x) by {
        let w = choose|w: int| 0 <= w < a0.len() && a0[w] == x;
        assert(strs(active@)[w] == x);
    }
    proof {
        lemma_reaches_self(fs, feature@);
    }
    let deps = &features[idx].1;
    let mut k: usize = 0;
    while k < deps.len()
        invariant
            k <= deps.len(),
            fs == features_view(features@),
            features_distinct(fs),
            *deps == features@[idx as int].1,
            fs[idx as int].0 == feature@,
            idx < fs.len(),
            strs(active@).no_duplicates(),
            forall|x: Seq<char>| strs(active@).contains(x) ==> is_feature(fs, x),
            forall|x: Seq<char>| a0.contains(x) ==> strs(active@).contains(x),
            strs(active@).contains(feature@),
            !a0.contains(feature@),
            active@.len() > old(active)@.len(),
            a0 == strs(old(active)@),
            forall|x: Seq<char>| strs(active@).contains(x) && !a0.contains(x) ==> reaches(fs, feature@, x),
            forall|j: int|
                0 <= j < k && is_feature(fs, dep_feature(#[trigger] strs(deps@)[j])) ==> strs(active@).contains(
                    dep_feature(strs(deps@)[j]),
                ),
            forall|x: Seq<char>, y: Seq<char>|
                #![trigger strs(active@).contains(x), enables(fs, x, y)]
                strs(active@).contains(x) && !a0.contains(x) && x != feature@ && enables(fs, x, y) ==> strs(
                    active@,
                ).contains(y),
        decreases deps.len() - k,
    {
        let d = dep_feature_exec(&deps[k]);
        assert(strs(deps@)[k as int] == deps@[k as int]@);
        let found = find_feature(features, &d);
        if found.is_some() {
            let ghost before = strs(active@);
            assert(fs[idx as int].1 == strs(deps@));
            assert(is_feature(fs, d@)) by {
                let j = found.unwrap();
                assert(fs[j as int].0 == d@);
            }
            assert(enables(fs, feature@, d@)) by {
                assert(fs[idx as int].1[k as int] == strs(deps@)[k as int]);
                assert(dep_feature(fs[idx as int].1[k as int]) == d@);
            }
            proof {
                lemma_no_dup_subset_len(strs(active@), fs);
            }
            add_feature(&d, features, active);
            proof {
                assert forall|x: Seq<char>| strs(active@).contains(x) && !a0.contains(x) implies reaches(
                    fs,
                    feature@,
                    x,
                ) by {
                    if !before.contains(x) {
                        lemma_reaches_prepend(fs, feature@, d@, x);
                    }
                }
            }
        } else {
            assert(!is_feature(fs, dep_feature(strs(deps@)[k as int])));
        }
        k = k + 1;
    }
    proof {
        assert forall|x: Seq<char>, y: Seq<char>|
            #![trigger strs(active@).contains(x), enables(fs, x, y)]
            strs(active@).contains(x) && !a0.contains(x) && enables(fs, x, y) implies strs(active@).contains(y) by {
            if x == feature@ {
                let (i, kk) = choose|i: int, kk: int|
                    0 <= i < fs.len() && fs[i].0 == x && 0 <= kk < fs[i].1.len() && dep_feature(
                        #[trigger] fs[i].1[kk],
                    ) == y;
                if i != idx {
                    if i < idx {
                        assert(fs[i].0 != fs[idx as int].0);
                    } else {
                        assert(fs[idx as int].0 != fs[i].0);
                    }
                }
                assert(fs[idx as int].1 == strs(deps@));
                assert(strs(deps@)[kk] == fs[i].1[kk]);
            }
        }
    }
}

/// The directory of a package: where its manifest is.
pub open spec fn package_root(p: PackageFeatures) -> Option<Seq<char>> {
    parent_opt(p.manifest_path@)
}

/// Whether `file` lies in the directory of package `p`.
pub open spec fn holds_file(p: PackageFeatures, file: Seq<char>) -> bool {
    package_root(p) matches Some(r) && components(r).is_prefix_of(components(file))
}

/// The package a file belongs to: of the packages whose directory holds it,
/// the one whose directory is deepest (the last of those equally deep).
pub open spec fn package_for_file_spec(ps: Seq<PackageFeatures>, file: Seq<char>) -> Option<int>
    decreases ps.len(),
{
    if ps.len() == 0 {
        None
    } else {
        let b = package_for_file_spec(ps.drop_last(), file);
        let last = ps.last();
        if holds_file(last, file) && match b {
            Some(i) => components(package_root(last)->0).len() >= components(package_root(ps[i])->0).len(),
            None => true,
        } {
            Some(ps.len() - 1)
        } else {
            b
        }
    }
}

/// The package a file belongs to; see `package_for_file_spec`.
pub fn package_for_file(file: &str, packages: &Vec<PackageFeatures>) -> (res: Option<usize>)
    ensures
        match res {
            Some(i) => package_for_file_spec(packages@, file@) == Some(i as int) && i < packages@.len(),
            None => package_for_file_spec(packages@, file@) is None,
        },
{
    let mut best: Option<usize> = None;
    let mut best_len: usize = 0;
    let mut i: usize = 0;
    assert(packages@.take(0) =~= Seq::<PackageFeatures>::empty());
    while i < packages.len()
        invariant
            i <= packages.len(),
            match best {
                Some(b) => package_for_file_spec(packages@.take(i as int), file@) == Some(b as int) && b < i
                    && best_len == components(package_root(packages@[b as int])->0).len(),
                None => package_for_file_spec(packages@.take(i as int), file@) is None,
            },
        decreases packages.len() - i,
    {
        assert(packages@.take(i + 1).drop_last() =~= packages@.take(i as int));
        assert(packages@.take(i + 1).last() == packages@[i as int]);
        match parent_path(packages[i].manifest_path.as_str()) {
            Some(root) => {
                if path_starts_with(file, root.as_str()) {
                    let n = path_components(root.as_str()).len();
                    let better = match best {
                        Some(_) => n >= best_len,
                        None => true,
                    };
                    if better {
                        best = Some(i);
                        best_len = n;
                    }
                }
            },
            None => {},
        }
        proof {
            match best {
                Some(b) => {
                    assert(packages@.take(i + 1)[b as int] == packages@[b as int]);
                },
                None => {},
            }
        }
        i = i + 1;
    }
    assert(packages@.take(packages.len() as int) =~= packages@);
    best
}

/// ASCII white space, as `split_ascii_whitespace` knows it.
pub open spec fn ascii_ws(c: char) -> bool {
    c == ' ' || c == '\t' || c == '\n' || c == '\x0C' || c == '\r'
}

/// The words of `s` between runs of ASCII white space.
pub open spec fn ascii_words(s: Seq<char>) -> Seq<Seq<char>>
    decreases s.len(),
{
    if s.len() == 0 {
        Seq::<Seq<char>>::empty()
    } else {
        let w = ascii_words(s.drop_last());
        if ascii_ws(s.last()) {
            w
        } else if s.len() > 1 && !ascii_ws(s[s.len() - 2]) {
            w.update(w.len() - 1, w.last().push(s.last()))
        } else {
            w.push(seq![s.last()])
        }
    }
}

/// A feature as it is named on the command line, without any `package/`
/// before it.
pub open spec fn own_feature(w: Seq<char>) -> Seq<char> {
    match rfind_char(w, '/') {
        Some(i) => w.skip(i + 1),
        None => w,
    }
}

/// The features asked for: `default` unless default features are off, then
/// each feature named.
pub open spec fn requested_features(no_default_features: bool, features: Option<Seq<char>>) -> Seq<Seq<char>> {
    (if no_default_features {
        Seq::<Seq<char>>::empty()
    } else {
        seq!["default"@]
    }) + match features {
        Some(f) => ascii_words(f).map_values(|w: Seq<char>| own_feature(w)),
        None => Seq::<Seq<char>>::empty(),
    }
}

/// Whether feature `g` is on for a package with features `fs`: with all
/// features, every one; else those the requested ones enable, one after
/// another.
pub open spec fn feature_active(
    fs: Seq<(Seq<char>, Seq<Seq<char>>)>,
    all_features: bool,
    requested: Seq<Seq<char>>,
    g: Seq<char>,
) -> bool {
    if all_features {
        is_feature(fs, g)
    } else {
        exists|i: int| 0 <= i < requested.len() && reaches(fs, #[trigger] requested[i], g)
    }
}

fn ascii_words_exec(s: &str) -> (res: Vec<String>)
    ensures
        strs(res@) == ascii_words(s@),
{
    let cs = crate::text::chars_of(s);
    let mut out: Vec<Vec<char>> = Vec::new();
    let mut i: usize = 0;
    let mut in_word = false;
    while i < cs.len()
        invariant
            i <= cs.len(),
            cs@ == s@,
            out@.map_values(|v: Vec<char>| v@) =~= ascii_words(cs@.take(i as int)),
            in_word == (i > 0 && !ascii_ws(cs@[i - 1])),
            in_word ==> out@.len() > 0,
        decreases cs.len() - i,
    {
        let ghost prev = out@.map_values(|v: Vec<char>| v@);
        let c = cs[i];
        assert(cs@.take(i + 1).drop_last() =~= cs@.take(i as int));
        assert(cs@.take(i + 1).last() == c);
        if c == ' ' || c == '\t' || c == '\n' || c == '\x0C' || c == '\r' {
            in_word = false;
        } else if in_word {
            let last = out.len() - 1;
            let mut w = out.remove(last);
            w.push(c);
            out.push(w);
            assert(out@.map_values(|v: Vec<char>| v@) =~= prev.update(prev.len() - 1, prev.last().push(c)));
        } else {
            let mut w: Vec<char> = Vec::new();
            w.push(c);
            out.push(w);
            assert(out@.map_values(|v: Vec<char>| v@) =~= prev.push(seq![c]));
            in_word = true;
        }
        i = i + 1;
    }
    assert(cs@.take(cs.len() as int) =~= cs@);
    let mut res: Vec<String> = Vec::new();
    let mut k: usize = 0;
    while k < out.len()
        invariant
            k <= out.len(),
            strs(res@) == out@.map_values(|v: Vec<char>| v@).take(k as int),
        decreases out.len() - k,
    {
        let ghost before = strs(res@);
        res.push(crate::text::string_of(&out[k]));
        assert(strs(res@) =~= before.push(out@[k as int]@));
        assert(out@.map_values(|v: Vec<char>| v@).take(k + 1) =~= out@.map_values(|v: Vec<char>| v@).take(
            k as int,
        ).push(out@[k as int]@));
        k = k + 1;
    }
    assert(out@.map_values(|v: Vec<char>| v@).take(out.len() as int) =~= out@.map_values(|v: Vec<char>| v@));
    res
}

fn own_feature_exec(w: &String) -> (res: String)
    ensures
        res@ == own_feature(w@),
{
    let cs = crate::text::chars_of(w.as_str());
    match rfind_char_exec(&cs, '/') {
        Some(i) => crate::text::string_of(&slice_chars(&cs, i + 1, cs.len())),
        None => w.clone(),
    }
}

/// The features on for the package that `file` belongs to (none where it
/// belongs to none); see `feature_active`. Each comes once.
pub fn active_features(
    file: &str,
    packages: &Vec<PackageFeatures>,
    all_features: bool,
    no_default_features: bool,
    features: &Option<String>,
) -> (res: Vec<String>)
    requires
        forall|i: int| 0 <= i < packages@.len() ==> features_distinct(features_view(#[trigger] packages@[i].features@)),
    ensures
        strs(res@).no_duplicates(),
        match package_for_file_spec(packages@, file@) {
            Some(p) => forall|g: Seq<char>| #[trigger] strs(res@).contains(g) <==> feature_active(
                features_view(packages@[p].features@),
                all_features,
                requested_features(no_default_features, opt_str_of(features)),
                g,
            ),
            None => res@.len() == 0,
        },
{
    let p = match package_for_file(file, packages) {
        Some(p) => p,
        None => {
            return Vec::new();
        },
    };
    let fsv = &packages[p].features;
    let ghost fs = features_view(fsv@);
    assert(features_distinct(fs));
    let mut active: Vec<String> = Vec::new();
    if all_features {
        let mut i: usize = 0;
        while i < fsv.len()
            invariant
                i <= fsv.len(),
                fs == features_view(fsv@),
                features_distinct(fs),
                strs(active@) == fs.take(i as int).map_values(|e: (Seq<char>, Seq<Seq<char>>)| e.0),
            decreases fsv.len() - i,
        {
            let ghost before = strs(active@);
            active.push(fsv[i].0.clone());
            assert(strs(active@) =~= before.push(fs[i as int].0));
            assert(fs.take(i + 1).map_values(|e: (Seq<char>, Seq<Seq<char>>)| e.0) =~= fs.take(i as int).map_values(
                |e: (Seq<char>, Seq<Seq<char>>)| e.0,
            ).push(fs[i as int].0));
            i = i + 1;
        }
        assert(fs.take(fsv.len() as int) =~= fs);
        proof {
            let keys = fs.map_values(|e: (Seq<char>, Seq<Seq<char>>)| e.0);
            assert(strs(active@) == keys);
            assert(keys.no_duplicates()) by {
                assert forall|i: int, j: int| 0 <= i < keys.len() && 0 <= j < keys.len() && i != j implies keys[i]
                    != keys[j] by {
                    if i < j {
                        assert(fs[i].0 != fs[j].0);
                    } else {
                        assert(fs[j].0 != fs[i].0);
                    }
                }
            }
            assert forall|g: Seq<char>| #[trigger] keys.contains(g) <==> is_feature(fs, g) by {
                if keys.contains(g) {
                    let w = choose|w: int| 0 <= w < keys.len() && keys[w] == g;
                    assert(fs[w].0 == g);
                }
                if is_feature(fs, g) {
                    let w = choose|w: int| 0 <= w < fs.len() && (#[trigger] fs[w]).0 == g;
                    assert(keys[w] == g);
                }
            }
        }
        return active;
    }
    let mut requested: Vec<String> = Vec::new();
    if !no_default_features {
        requested.push(String::from_str("default"));
    }
    proof {
        reveal_strlit("default");
    }
    let ghost head = strs(requested@);
    assert(head =~= (if no_default_features {
        Seq::<Seq<char>>::empty()
    } else {
        seq!["default"@]
    }));
    match features {
        Some(f) => {
            let words = ascii_words_exec(f.as_str());
            let mut k: usize = 0;
            while k < words.len()
                invariant
                    k <= words.len(),
                    strs(requested@) == head + strs(words@).take(k as int).map_values(|w: Seq<char>| own_feature(w)),
                decreases words.len() - k,
            {
                let ghost before = strs(requested@);
                requested.push(own_feature_exec(&words[k]));
                assert(strs(requested@) =~= before.push(own_feature(strs(words@)[k as int])));
                assert(strs(words@).take(k + 1).map_values(|w: Seq<char>| own_feature(w)) =~= strs(words@).take(
                    k as int,
                ).map_values(|w: Seq<char>| own_feature(w)).push(own_feature(strs(words@)[k as int])));
                k = k + 1;
            }
            assert(strs(words@).take(words.len() as int) =~= strs(words@));
        },
        None => {
            assert(strs(requested@) =~= head + Seq::<Seq<char>>::empty());
        },
    }
    let ghost req = strs(requested@);
    assert(req == requested_features(no_default_features, opt_str_of(features)));
    let mut j: usize = 0;
    while j < requested.len()
        invariant
            j <= requested.len(),
            req == strs(requested@),
            fs == features_view(fsv@),
            features_distinct(fs),
            strs(active@).no_duplicates(),
            forall|x: Seq<char>| strs(active@).contains(x) ==> is_feature(fs, x),
            enable_closed(fs, strs(active@)),
            forall|x: Seq<char>| #[trigger] strs(active@).contains(x) ==> exists|i: int|
                0 <= i < j && reaches(fs, #[trigger] req[i], x),
            forall|i: int| 0 <= i < j && is_feature(fs, #[trigger] req[i]) ==> strs(active@).contains(req[i]),
        decreases requested.len() - j,
    {
        let ghost before = strs(active@);
        add_feature(&requested[j], fsv, &mut active);
        proof {
            assert(req[j as int] == requested@[j as int]@);
            assert(enable_closed(fs, strs(active@))) by {
                assert forall|a: Seq<char>, b: Seq<char>| #![trigger strs(active@).contains(a), enables(fs, a, b)]
                    strs(active@).contains(a) && enables(fs, a, b) implies strs(active@).contains(b) by {
                    if before.contains(a) {
                        assert(before.contains(b));
                    }
                }
            }
            assert forall|x: Seq<char>| #[trigger] strs(active@).contains(x) implies exists|i: int|
                0 <= i < j + 1 && reaches(fs, #[trigger] req[i], x) by {
                if before.contains(x) {
                    let i = choose|i: int| 0 <= i < j && reaches(fs, #[trigger] req[i], x);
                    assert(reaches(fs, req[i], x));
                } else {
                    assert(reaches(fs, req[j as int], x));
                }
            }
        }
        j = j + 1;
    }
    proof {
        assert forall|g: Seq<char>| #[trigger] strs(active@).contains(g) <==> (exists|i: int|
            0 <= i < req.len() && reaches(fs, #[trigger] req[i], g)) by {
            if exists|i: int| 0 <= i < req.len() && reaches(fs, #[trigger] req[i], g) {
                let i = choose|i: int| 0 <= i < req.len() && reaches(fs, #[trigger] req[i], g);
                assert(is_feature(fs, req[i]));
                lemma_closed_holds_reached(fs, strs(active@), req[i], g);
            }
        }
    }
    active
}

/// The view of an optional string.
pub open spec fn opt_str_of(o: &Option<String>) -> Option<Seq<char>> {
    match o {
        Some(s) => Some(s@),
        None => None,
    }
}

} // verus!
