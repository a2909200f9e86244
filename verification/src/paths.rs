//! A model of POSIX paths as sequences of components.
//!
//! A path is held as text; its meaning is the sequence of components that
//! `/`-separated text denotes: an optional leading root, an optional leading
//! `.` of a relative path, `..` entries and named entries. Repeated
//! separators, a trailing separator and inner `.` entries carry no meaning.
//! Prefix tests, parents, file names, joins and the order of paths are all
//! stated over these components.
use vstd::prelude::*;
use crate::text::{chars_of};

verus! {

/// One component of a path, as a mathematical value.
pub enum Comp {
    RootDir,
    CurDir,
    ParentDir,
    Normal(Seq<char>),
}

/// One component of a path.
pub enum Component {
    RootDir,
    CurDir,
    ParentDir,
    Normal(Vec<char>),
}

impl View for Component {
    type V = Comp;

    open spec fn view(&self) -> Comp {
        match self {
            Component::RootDir => Comp::RootDir,
            Component::CurDir => Comp::CurDir,
            Component::ParentDir => Comp::ParentDir,
            Component::Normal(n) => Comp::Normal(n@),
        }
    }
}

/// The mathematical components of a vector of components.
pub open spec fn comps_view(v: Seq<Component>) -> Seq<Comp> {
    v.map_values(|c: Component| c@)
}

/// The texts between the separators of `s` (always at least one, maybe empty).
pub open spec fn segments(s: Seq<char>) -> Seq<Seq<char>>
    decreases s.len(),
{
    if s.len() == 0 {
        seq![Seq::<char>::empty()]
    } else {
        let prev = segments(s.drop_last());
        if s.last() == '/' {
            prev.push(Seq::<char>::empty())
        } else {
            prev.update(prev.len() - 1, prev.last().push(s.last()))
        }
    }
}

pub proof fn lemma_segments_nonempty(s: Seq<char>)
    ensures
        segments(s).len() >= 1,
    decreases s.len(),
{
    if s.len() > 0 {
        lemma_segments_nonempty(s.drop_last());
    }
}

/// The component that one segment contributes (none for an empty segment or `.`).
pub open spec fn segment_comps(seg: Seq<char>) -> Seq<Comp> {
    if seg.len() == 0 || seg =~= seq!['.'] {
        Seq::<Comp>::empty()
    } else if seg =~= seq!['.', '.'] {
        seq![Comp::ParentDir]
    } else {
        seq![Comp::Normal(seg)]
    }
}

pub open spec fn segs_comps(segs: Seq<Seq<char>>) -> Seq<Comp>
    decreases segs.len(),
{
    if segs.len() == 0 {
        Seq::<Comp>::empty()
    } else {
        segs_comps(segs.drop_last()) + segment_comps(segs.last())
    }
}

/// Whether the text of a path starts at the root.
pub open spec fn is_absolute_spec(s: Seq<char>) -> bool {
    s.len() > 0 && s[0] == '/'
}

/// The components that the text `s` denotes.
pub open spec fn components(s: Seq<char>) -> Seq<Comp> {
    let segs = segments(s);
    if is_absolute_spec(s) {
        seq![Comp::RootDir] + segs_comps(segs)
    } else if segs[0] =~= seq!['.'] {
        seq![Comp::CurDir] + segs_comps(segs)
    } else {
        segs_comps(segs)
    }
}

/// The text of one component as the path iterator yields it.
pub open spec fn comp_text(c: Comp) -> Seq<char> {
    match c {
        Comp::RootDir => seq!['/'],
        Comp::CurDir => seq!['.'],
        Comp::ParentDir => seq!['.', '.'],
        Comp::Normal(n) => n,
    }
}

/// Pushing `p` onto the path `base`: an absolute `p` replaces `base`,
/// otherwise a separator is put between them where one is missing.
pub open spec fn join_spec(base: Seq<char>, p: Seq<char>) -> Seq<char> {
    if is_absolute_spec(p) {
        p
    } else if base.len() == 0 || base.last() == '/' {
        base + p
    } else {
        base + seq!['/'] + p
    }
}

/// The text of a path built by pushing each component in turn.
pub open spec fn render(cs: Seq<Comp>) -> Seq<char>
    decreases cs.len(),
{
    if cs.len() == 0 {
        Seq::<char>::empty()
    } else {
        join_spec(render(cs.drop_last()), comp_text(cs.last()))
    }
}

/// Rank of the kinds of components in the order of paths.
pub open spec fn comp_rank(c: Comp) -> int {
    match c {
        Comp::RootDir => 0,
        Comp::CurDir => 1,
        Comp::ParentDir => 2,
        Comp::Normal(_) => 3,
    }
}

/// Lexicographic order of texts by character code.
pub open spec fn chars_lt(a: Seq<char>, b: Seq<char>) -> bool
    decreases a.len(),
{
    if a.len() == 0 {
        b.len() > 0
    } else if b.len() == 0 {
        false
    } else if a[0] != b[0] {
        (a[0] as int) < (b[0] as int)
    } else {
        chars_lt(a.drop_first(), b.drop_first())
    }
}

pub open spec fn comp_lt(a: Comp, b: Comp) -> bool {
    if comp_rank(a) != comp_rank(b) {
        comp_rank(a) < comp_rank(b)
    } else {
        match (a, b) {
            (Comp::Normal(x), Comp::Normal(y)) => chars_lt(x, y),
            _ => false,
        }
    }
}

/// Lexicographic order of component sequences: the order of paths.
pub open spec fn comps_lt(a: Seq<Comp>, b: Seq<Comp>) -> bool
    decreases a.len(),
{
    if a.len() == 0 {
        b.len() > 0
    } else if b.len() == 0 {
        false
    } else if a[0] != b[0] {
        comp_lt(a[0], b[0])
    } else {
        comps_lt(a.drop_first(), b.drop_first())
    }
}

/// `a` comes before `b` in the order of paths.
pub open spec fn path_lt(a: Seq<char>, b: Seq<char>) -> bool {
    comps_lt(components(a), components(b))
}

/// `a` and `b` denote the same path.
pub open spec fn same_path(a: Seq<char>, b: Seq<char>) -> bool {
    components(a) == components(b)
}

pub proof fn lemma_chars_lt_total(a: Seq<char>, b: Seq<char>)
    ensures
        a != b ==> chars_lt(a, b) || chars_lt(b, a),
        !(chars_lt(a, b) && chars_lt(b, a)),
        !chars_lt(a, a),
    decreases a.len(),
{
    if a.len() > 0 && b.len() > 0 && a[0] == b[0] {
        lemma_chars_lt_total(a.drop_first(), b.drop_first());
        if a.drop_first() == b.drop_first() {
            assert(a =~= seq![a[0]] + a.drop_first());
            assert(b =~= seq![b[0]] + b.drop_first());
        }
    }
    if a.len() > 0 {
        lemma_chars_lt_total(a.drop_first(), a.drop_first());
    }
    if a.len() == 0 && b.len() == 0 {
        assert(a =~= b);
    }
}

pub proof fn lemma_comp_lt_total(a: Comp, b: Comp)
    ensures
        a != b ==> comp_lt(a, b) || comp_lt(b, a),
        !(comp_lt(a, b) && comp_lt(b, a)),
        !comp_lt(a, a),
{
    match (a, b) {
        (Comp::Normal(x), Comp::Normal(y)) => {
            lemma_chars_lt_total(x, y);
        },
        _ => {},
    }
    match a {
        Comp::Normal(x) => {
            lemma_chars_lt_total(x, x);
        },
        _ => {},
    }
}

/// The order of paths is a strict total order on component sequences.
pub proof fn lemma_comps_lt_total(a: Seq<Comp>, b: Seq<Comp>)
    ensures
        a != b ==> comps_lt(a, b) || comps_lt(b, a),
        !(comps_lt(a, b) && comps_lt(b, a)),
        !comps_lt(a, a),
    decreases a.len(),
{
    if a.len() > 0 && b.len() > 0 {
        lemma_comp_lt_total(a[0], b[0]);
        if a[0] == b[0] {
            lemma_comps_lt_total(a.drop_first(), b.drop_first());
            if a.drop_first() == b.drop_first() {
                assert(a =~= seq![a[0]] + a.drop_first());
                assert(b =~= seq![b[0]] + b.drop_first());
            }
        }
    }
    if a.len() > 0 {
        lemma_comp_lt_total(a[0], a[0]);
        lemma_comps_lt_total(a.drop_first(), a.drop_first());
    }
    if a.len() == 0 && b.len() == 0 {
        assert(a =~= b);
    }
}

/// The texts between the separators of `s`.
pub fn split_segments(s: &Vec<char>) -> (res: Vec<Vec<char>>)
    ensures
        res@.map_values(|v: Vec<char>| v@) == segments(s@),
{
    let mut res: Vec<Vec<char>> = Vec::new();
    let mut cur: Vec<char> = Vec::new();
    let mut i: usize = 0;
    proof {
        lemma_segments_nonempty(s@.take(0));
        assert(s@.take(0) =~= Seq::<char>::empty());
    }
    while i < s.len()
        invariant
            i <= s.len(),
            segments(s@.take(i as int)).len() >= 1,
            res@.map_values(|v: Vec<char>| v@) =~= segments(s@.take(i as int)).drop_last(),
            cur@ == segments(s@.take(i as int)).last(),
        decreases s.len() - i,
    {
        let c = s[i];
        let ghost pre = s@.take(i as int);
        assert(s@.take(i + 1).drop_last() =~= pre);
        proof {
            lemma_segments_nonempty(s@.take(i + 1));
        }
        let ghost prev = segments(pre);
        let ghost old_res = res@.map_values(|v: Vec<char>| v@);
        assert(s@.take(i + 1).last() == c);
        if c == '/' {
            assert(segments(s@.take(i + 1)) == prev.push(Seq::<char>::empty()));
            let done = cur;
            res.push(done);
            cur = Vec::new();
            assert(res@.map_values(|v: Vec<char>| v@) =~= old_res.push(prev.last()));
            assert(res@.map_values(|v: Vec<char>| v@) =~= segments(s@.take(i + 1)).drop_last());
        } else {
            assert(segments(s@.take(i + 1)) == prev.update(prev.len() - 1, prev.last().push(c)));
            cur.push(c);
            assert(res@.map_values(|v: Vec<char>| v@) =~= segments(s@.take(i + 1)).drop_last());
        }
        i = i + 1;
    }
    assert(s@.take(s.len() as int) =~= s@);
    let ghost old_res = res@.map_values(|v: Vec<char>| v@);
    res.push(cur);
    assert(res@.map_values(|v: Vec<char>| v@) =~= old_res.push(segments(s@).last()));
    assert(res@.map_values(|v: Vec<char>| v@) =~= segments(s@));
    res
}

fn is_dot(seg: &Vec<char>) -> (res: bool)
    ensures
        res == (seg@ =~= seq!['.']),
{
    seg.len() == 1 && seg[0] == '.'
}

fn is_dot_dot(seg: &Vec<char>) -> (res: bool)
    ensures
        res == (seg@ =~= seq!['.', '.']),
{
    seg.len() == 2 && seg[0] == '.' && seg[1] == '.'
}

/// The components of the path text `s`.
pub fn path_components(s: &str) -> (res: Vec<Component>)
    ensures
        comps_view(res@) == components(s@),
{
    let cs = chars_of(s);
    let segs = split_segments(&cs);
    let ghost segv = segs@.map_values(|v: Vec<char>| v@);
    proof {
        lemma_segments_nonempty(s@);
    }
    let mut res: Vec<Component> = Vec::new();
    let abs = cs.len() > 0 && cs[0] == '/';
    if abs {
        res.push(Component::RootDir);
    } else if is_dot(&segs[0]) {
        res.push(Component::CurDir);
    }
    let ghost head = comps_view(res@);
    assert(segv.take(0) =~= Seq::<Seq<char>>::empty());
    let mut i: usize = 0;
    while i < segs.len()
        invariant
            i <= segs.len(),
            segv == segs@.map_values(|v: Vec<char>| v@),
            comps_view(res@) =~= head + segs_comps(segv.take(i as int)),
        decreases segs.len() - i,
    {
        let seg = &segs[i];
        assert(segv.take(i + 1).drop_last() =~= segv.take(i as int));
        assert(segv.take(i + 1).last() == seg@);
        assert(segs_comps(segv.take(i + 1)) == segs_comps(segv.take(i as int)) + segment_comps(seg@));
        let ghost old_res = comps_view(res@);
        if seg.len() == 0 || is_dot(seg) {
            assert(segment_comps(seg@) =~= Seq::<Comp>::empty());
        } else if is_dot_dot(seg) {
            res.push(Component::ParentDir);
            assert(comps_view(res@) =~= old_res.push(Comp::ParentDir));
        } else {
            let mut name: Vec<char> = Vec::new();
            let mut j: usize = 0;
            while j < seg.len()
                invariant
                    j <= seg.len(),
                    name@ =~= seg@.take(j as int),
                decreases seg.len() - j,
            {
                name.push(seg[j]);
                j = j + 1;
            }
            assert(seg@.take(seg.len() as int) =~= seg@);
            res.push(Component::Normal(name));
            assert(comps_view(res@) =~= old_res.push(Comp::Normal(seg@)));
        }
        i = i + 1;
    }
    assert(segv.take(segs.len() as int) =~= segv);
    res
}

/// Whether the path text starts at the root.
pub fn is_absolute(s: &str) -> (res: bool)
    ensures
        res == is_absolute_spec(s@),
{
    let cs = chars_of(s);
    cs.len() > 0 && cs[0] == '/'
}


/// Whether two texts are equal, character by character.
pub fn chars_eq(a: &Vec<char>, b: &Vec<char>) -> (res: bool)
    ensures
        res == (a@ == b@),
{
    if a.len() != b.len() {
        return false;
    }
    let mut i: usize = 0;
    while i < a.len()
        invariant
            i <= a.len(),
            a.len() == b.len(),
            a@.take(i as int) =~= b@.take(i as int),
        decreases a.len() - i,
    {
        if a[i] != b[i] {
            assert(a@[i as int] != b@[i as int]);
            return false;
        }
        assert(a@.take(i + 1) =~= a@.take(i as int).push(a@[i as int]));
        assert(b@.take(i + 1) =~= b@.take(i as int).push(b@[i as int]));
        i = i + 1;
    }
    assert(a@ =~= a@.take(a.len() as int));
    assert(b@ =~= b@.take(b.len() as int));
    true
}

/// Whether two components are equal.
pub fn comp_eq(a: &Component, b: &Component) -> (res: bool)
    ensures
        res == (a@ == b@),
{
    match (a, b) {
        (Component::RootDir, Component::RootDir) => true,
        (Component::CurDir, Component::CurDir) => true,
        (Component::ParentDir, Component::ParentDir) => true,
        (Component::Normal(x), Component::Normal(y)) => chars_eq(x, y),
        _ => false,
    }
}

/// Whether `base` is a prefix of `cs`, component by component.
pub fn comps_start_with(cs: &Vec<Component>, base: &Vec<Component>) -> (res: bool)
    ensures
        res == comps_view(base@).is_prefix_of(comps_view(cs@)),
{
    if base.len() > cs.len() {
        return false;
    }
    let mut i: usize = 0;
    while i < base.len()
        invariant
            i <= base.len(),
            base.len() <= cs.len(),
            forall|k: int| 0 <= k < i ==> comps_view(base@)[k] == comps_view(cs@)[k],
        decreases base.len() - i,
    {
        if !comp_eq(&base[i], &cs[i]) {
            assert(comps_view(base@)[i as int] != comps_view(cs@)[i as int]);
            return false;
        }
        i = i + 1;
    }
    true
}

/// Whether the components of two vectors are equal.
pub fn comps_eq(a: &Vec<Component>, b: &Vec<Component>) -> (res: bool)
    ensures
        res == (comps_view(a@) == comps_view(b@)),
{
    if a.len() != b.len() {
        assert(comps_view(a@).len() != comps_view(b@).len());
        return false;
    }
    let r = comps_start_with(a, b);
    if r {
        assert(comps_view(a@) =~= comps_view(b@));
    }
    r
}

/// Whether `path` starts with `base`, considering whole components only.
pub fn path_starts_with(path: &str, base: &str) -> (res: bool)
    ensures
        res == components(base@).is_prefix_of(components(path@)),
{
    let a = path_components(path);
    let b = path_components(base);
    comps_start_with(&a, &b)
}

/// Whether two path texts denote the same path.
pub fn path_eq(a: &str, b: &str) -> (res: bool)
    ensures
        res == same_path(a@, b@),
{
    let x = path_components(a);
    let y = path_components(b);
    comps_eq(&x, &y)
}

/// The components of `path` after the components of `base`, if `base` is a prefix of it.
pub fn comps_strip_prefix(path: &Vec<Component>, base: &Vec<Component>) -> (res: Option<Vec<Component>>)
    ensures
        res is Some <==> comps_view(base@).is_prefix_of(comps_view(path@)),
        res matches Some(r) ==> comps_view(r@) == comps_view(path@).skip(base@.len() as int),
{
    if !comps_start_with(path, base) {
        return None;
    }
    let mut rest: Vec<Component> = Vec::new();
    let mut i: usize = base.len();
    while i < path.len()
        invariant
            base.len() <= i <= path.len(),
            comps_view(rest@) =~= comps_view(path@).subrange(base.len() as int, i as int),
        decreases path.len() - i,
    {
        let c = copy_component(&path[i]);
        let ghost old_rest = comps_view(rest@);
        rest.push(c);
        assert(comps_view(rest@) =~= old_rest.push(comps_view(path@)[i as int]));
        i = i + 1;
    }
    Some(rest)
}

/// A copy of a component.
pub fn copy_component(c: &Component) -> (res: Component)
    ensures
        res@ == c@,
{
    match c {
        Component::RootDir => Component::RootDir,
        Component::CurDir => Component::CurDir,
        Component::ParentDir => Component::ParentDir,
        Component::Normal(n) => {
            let mut m: Vec<char> = Vec::new();
            let mut j: usize = 0;
            while j < n.len()
                invariant
                    j <= n.len(),
                    m@ =~= n@.take(j as int),
                decreases n.len() - j,
            {
                m.push(n[j]);
                j = j + 1;
            }
            assert(n@.take(n.len() as int) =~= n@);
            Component::Normal(m)
        },
    }
}

/// The parent of a path: its components without the last, unless the last is the root
/// or there is none.
pub open spec fn parent_spec(cs: Seq<Comp>) -> Option<Seq<Comp>> {
    if cs.len() == 0 || cs.last() == Comp::RootDir {
        None
    } else {
        Some(cs.drop_last())
    }
}

/// The parent of a component sequence.
pub fn comps_parent(cs: &Vec<Component>) -> (res: Option<Vec<Component>>)
    ensures
        res is Some <==> parent_spec(comps_view(cs@)) is Some,
        res matches Some(r) ==> parent_spec(comps_view(cs@)) == Some(comps_view(r@)),
{
    if cs.len() == 0 {
        return None;
    }
    match &cs[cs.len() - 1] {
        Component::RootDir => {
            return None;
        },
        _ => {},
    }
    let mut out: Vec<Component> = Vec::new();
    let mut i: usize = 0;
    while i + 1 < cs.len()
        invariant
            i + 1 <= cs.len(),
            comps_view(out@) =~= comps_view(cs@).take(i as int),
        decreases cs.len() - i,
    {
        let c = copy_component(&cs[i]);
        let ghost old_out = comps_view(out@);
        out.push(c);
        assert(comps_view(out@) =~= old_out.push(comps_view(cs@)[i as int]));
        i = i + 1;
    }
    assert(comps_view(out@) =~= comps_view(cs@).drop_last());
    Some(out)
}

/// The text of the parent of a path, empty where it has none.
pub open spec fn parent_text(p: Seq<char>) -> Seq<char> {
    match parent_spec(components(p)) {
        Some(cs) => render(cs),
        None => Seq::<char>::empty(),
    }
}

/// The text of the parent of a path, empty where it has none.
pub fn path_parent(p: &str) -> (res: Vec<char>)
    ensures
        res@ == parent_text(p@),
{
    let cs = path_components(p);
    match comps_parent(&cs) {
        Some(pc) => render_components(&pc),
        None => Vec::new(),
    }
}

/// The text of the parent of a path, where it has one.
pub open spec fn parent_opt(p: Seq<char>) -> Option<Seq<char>> {
    match parent_spec(components(p)) {
        Some(cs) => Some(render(cs)),
        None => None,
    }
}

/// The text of the parent of a path, where it has one.
pub fn parent_path(p: &str) -> (res: Option<String>)
    ensures
        crate::text::opt_str(res) == parent_opt(p@),
{
    let cs = path_components(p);
    match comps_parent(&cs) {
        Some(pc) => Some(crate::text::string_of(&render_components(&pc))),
        None => None,
    }
}

/// The last component of a path, when it is a named entry.
pub open spec fn file_name_spec(cs: Seq<Comp>) -> Option<Seq<char>> {
    if cs.len() > 0 && cs.last() is Normal {
        Some(cs.last()->Normal_0)
    } else {
        None
    }
}

/// The file name of the path text `s`: its last component when that is a named entry.
pub fn path_file_name(s: &str) -> (res: Option<Vec<char>>)
    ensures
        res matches Some(n) ==> file_name_spec(components(s@)) == Some(n@),
        res is None ==> file_name_spec(components(s@)) is None,
{
    let cs = path_components(s);
    if cs.len() == 0 {
        return None;
    }
    match &cs[cs.len() - 1] {
        Component::Normal(n) => {
            let mut out: Vec<char> = Vec::new();
            append_chars(&mut out, n);
            Some(out)
        },
        _ => None,
    }
}

/// The text of `p` pushed onto the path `base`.
pub fn join_text(base: &Vec<char>, p: &Vec<char>) -> (res: Vec<char>)
    ensures
        res@ == join_spec(base@, p@),
{
    let mut out: Vec<char> = Vec::new();
    if p.len() > 0 && p[0] == '/' {
        append_chars(&mut out, p);
        return out;
    }
    append_chars(&mut out, base);
    if base.len() > 0 && base[base.len() - 1] != '/' {
        out.push('/');
    }
    append_chars(&mut out, p);
    out
}

/// Appends the characters of `src` to `dst`.
pub fn append_chars(dst: &mut Vec<char>, src: &Vec<char>)
    ensures
        final(dst)@ == old(dst)@ + src@,
{
    let ghost start = dst@;
    let mut i: usize = 0;
    while i < src.len()
        invariant
            i <= src.len(),
            dst@ =~= start + src@.take(i as int),
        decreases src.len() - i,
    {
        dst.push(src[i]);
        i = i + 1;
    }
    assert(src@.take(src.len() as int) =~= src@);
}

/// The text of one component.
pub fn component_text(c: &Component) -> (res: Vec<char>)
    ensures
        res@ == comp_text(c@),
{
    match c {
        Component::RootDir => {
            let mut v = Vec::new();
            v.push('/');
            assert(v@ =~= seq!['/']);
            v
        },
        Component::CurDir => {
            let mut v = Vec::new();
            v.push('.');
            assert(v@ =~= seq!['.']);
            v
        },
        Component::ParentDir => {
            let mut v = Vec::new();
            v.push('.');
            v.push('.');
            assert(v@ =~= seq!['.', '.']);
            v
        },
        Component::Normal(n) => {
            let mut v = Vec::new();
            append_chars(&mut v, n);
            assert(v@ =~= n@);
            v
        },
    }
}

/// The text of the path made of the given components.
pub fn render_components(cs: &Vec<Component>) -> (res: Vec<char>)
    ensures
        res@ == render(comps_view(cs@)),
{
    let mut out: Vec<char> = Vec::new();
    let mut i: usize = 0;
    while i < cs.len()
        invariant
            i <= cs.len(),
            out@ == render(comps_view(cs@).take(i as int)),
        decreases cs.len() - i,
    {
        let t = component_text(&cs[i]);
        assert(comps_view(cs@).take(i + 1).drop_last() =~= comps_view(cs@).take(i as int));
        out = join_text(&out, &t);
        i = i + 1;
    }
    assert(comps_view(cs@).take(cs.len() as int) =~= comps_view(cs@));
    out
}

/// Lexicographic comparison of two texts.
pub fn chars_less(a: &Vec<char>, b: &Vec<char>) -> (res: bool)
    ensures
        res == chars_lt(a@, b@),
{
    let mut i: usize = 0;
    assert(a@.skip(0) =~= a@);
    assert(b@.skip(0) =~= b@);
    while i < a.len() && i < b.len()
        invariant
            i <= a.len(),
            i <= b.len(),
            a@.take(i as int) =~= b@.take(i as int),
            chars_lt(a@, b@) == chars_lt(a@.skip(i as int), b@.skip(i as int)),
        decreases a.len() - i,
    {
        let x = a[i];
        let y = b[i];
        if x != y {
            return x < y;
        }
        assert(a@.skip(i as int).drop_first() =~= a@.skip(i + 1));
        assert(b@.skip(i as int).drop_first() =~= b@.skip(i + 1));
        assert(a@.take(i + 1) =~= a@.take(i as int).push(x));
        assert(b@.take(i + 1) =~= b@.take(i as int).push(y));
        i = i + 1;
    }
    i == a.len() && i < b.len()
}

fn comp_rank_of(c: &Component) -> (res: u8)
    ensures
        res as int == comp_rank(c@),
{
    match c {
        Component::RootDir => 0,
        Component::CurDir => 1,
        Component::ParentDir => 2,
        Component::Normal(_) => 3,
    }
}

/// Whether component `a` comes before component `b`.
pub fn comp_less(a: &Component, b: &Component) -> (res: bool)
    ensures
        res == comp_lt(a@, b@),
{
    let ra = comp_rank_of(a);
    let rb = comp_rank_of(b);
    if ra != rb {
        return ra < rb;
    }
    match (a, b) {
        (Component::Normal(x), Component::Normal(y)) => chars_less(x, y),
        _ => false,
    }
}

/// Whether component sequence `a` comes before `b` in the order of paths.
pub fn comps_less(a: &Vec<Component>, b: &Vec<Component>) -> (res: bool)
    ensures
        res == comps_lt(comps_view(a@), comps_view(b@)),
{
    let ghost av = comps_view(a@);
    let ghost bv = comps_view(b@);
    let mut i: usize = 0;
    assert(av.skip(0) =~= av);
    assert(bv.skip(0) =~= bv);
    while i < a.len() && i < b.len()
        invariant
            i <= a.len(),
            i <= b.len(),
            av == comps_view(a@),
            bv == comps_view(b@),
            comps_lt(av, bv) == comps_lt(av.skip(i as int), bv.skip(i as int)),
        decreases a.len() - i,
    {
        if !comp_eq(&a[i], &b[i]) {
            assert(av.skip(i as int)[0] == av[i as int]);
            assert(bv.skip(i as int)[0] == bv[i as int]);
            return comp_less(&a[i], &b[i]);
        }
        assert(av.skip(i as int).drop_first() =~= av.skip(i + 1));
        assert(bv.skip(i as int).drop_first() =~= bv.skip(i + 1));
        i = i + 1;
    }
    i == a.len() && i < b.len()
}

/// Whether path `a` comes before path `b`.
pub fn path_less(a: &str, b: &str) -> (res: bool)
    ensures
        res == path_lt(a@, b@),
{
    let x = path_components(a);
    let y = path_components(b);
    comps_less(&x, &y)
}

} // verus!
