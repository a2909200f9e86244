//! The configuration of a coverage run.
pub mod types;

use vstd::prelude::*;
use crate::paths::{
    Comp, Component, components, comps_view, render, is_absolute_spec, path_components, is_absolute,
    comp_eq, copy_component, render_components, join_spec, parent_text, path_parent, join_text,
};
use crate::patterns::{glob_is_match, glob_matches, glob_valid};
use crate::text::{string_of, strs, opt_str, contains_string, copy_strings, copy_opt, push_char, chars_of};
use self::types::{Ci, CiView, Color, Mode, OutputFile, RunType, TraceEngine};
use crate::args::ConfigArgs;

verus! {

/// The components of the way from `base` to the rest of `pa`, having already
/// gathered `acc`; `None` where `base` climbs out through a `..`.
pub open spec fn rel_comps(pa: Seq<Comp>, pb: Seq<Comp>, acc: Seq<Comp>) -> Option<Seq<Comp>>
    decreases pa.len() + pb.len(),
{
    if pa.len() == 0 && pb.len() == 0 {
        Some(acc)
    } else if pb.len() == 0 {
        Some(acc + pa)
    } else if pa.len() == 0 {
        rel_comps(pa, pb.drop_first(), acc.push(Comp::ParentDir))
    } else if acc.len() == 0 && pa[0] == pb[0] {
        rel_comps(pa.drop_first(), pb.drop_first(), acc)
    } else if pb[0] == Comp::CurDir {
        rel_comps(pa.drop_first(), pb.drop_first(), acc.push(pa[0]))
    } else if pb[0] == Comp::ParentDir {
        None
    } else {
        Some(acc.push(Comp::ParentDir) + Seq::new((pb.len() - 1) as nat, |k: int| Comp::ParentDir) + pa)
    }
}

/// The relative path from `base` to `path`: when exactly one of them is
/// absolute, `path` itself if it is the absolute one and nothing otherwise;
/// else the path made of the components of `rel_comps`.
pub open spec fn relative_from(path: Seq<char>, base: Seq<char>) -> Option<Seq<char>> {
    if is_absolute_spec(path) != is_absolute_spec(base) {
        if is_absolute_spec(path) {
            Some(path)
        } else {
            None
        }
    } else {
        match rel_comps(components(path), components(base), Seq::<Comp>::empty()) {
            Some(c) => Some(render(c)),
            None => None,
        }
    }
}

/// One step of reading a path lexically: a `..` takes away a named
/// component before it; anything else is kept.
pub open spec fn lexical_step(st: Seq<Comp>, c: Comp) -> Seq<Comp> {
    if c == Comp::ParentDir && st.len() > 0 && st.last() is Normal {
        st.drop_last()
    } else {
        st.push(c)
    }
}

/// The components `cs` read lexically after `st`.
pub open spec fn lexical(st: Seq<Comp>, cs: Seq<Comp>) -> Seq<Comp>
    decreases cs.len(),
{
    if cs.len() == 0 {
        st
    } else {
        lexical_step(lexical(st, cs.drop_last()), cs.last())
    }
}

/// Components with no `.` and no `..`.
pub open spec fn plain(cs: Seq<Comp>) -> bool {
    forall|i: int| 0 <= i < cs.len() ==> !(#[trigger] cs[i] is CurDir) && !(cs[i] is ParentDir)
}

/// `n` times `..`.
pub open spec fn ups(n: nat) -> Seq<Comp> {
    Seq::new(n, |k: int| Comp::ParentDir)
}

/// How many leading components two component sequences share.
pub open spec fn common_len(a: Seq<Comp>, b: Seq<Comp>) -> nat
    decreases a.len(),
{
    if a.len() == 0 || b.len() == 0 || a[0] != b[0] {
        0
    } else {
        1 + common_len(a.drop_first(), b.drop_first())
    }
}

proof fn lemma_lexical_add(st: Seq<Comp>, a: Seq<Comp>, b: Seq<Comp>)
    ensures
        lexical(st, a + b) == lexical(lexical(st, a), b),
    decreases b.len(),
{
    if b.len() == 0 {
        assert(a + b =~= a);
    } else {
        assert((a + b).drop_last() =~= a + b.drop_last());
        lemma_lexical_add(st, a, b.drop_last());
    }
}

proof fn lemma_lexical_plain(st: Seq<Comp>, cs: Seq<Comp>)
    requires
        plain(cs),
    ensures
        lexical(st, cs) == st + cs,
    decreases cs.len(),
{
    if cs.len() == 0 {
        assert(st + cs =~= st);
    } else {
        let pre = cs.drop_last();
        assert forall|i: int| 0 <= i < pre.len() implies !(#[trigger] pre[i] is CurDir) && !(pre[i] is ParentDir) by {
            assert(pre[i] == cs[i]);
        }
        lemma_lexical_plain(st, pre);
        assert(!(cs[cs.len() - 1] is ParentDir));
        assert((st + pre).push(cs.last()) =~= st + cs);
    }
}

proof fn lemma_lexical_ups(y: Seq<Comp>, z: Seq<Comp>)
    requires
        forall|i: int| 0 <= i < z.len() ==> #[trigger] z[i] is Normal,
    ensures
        lexical(y + z, ups(z.len())) == y,
    decreases z.len(),
{
    if z.len() == 0 {
        assert(y + z =~= y);
        assert(ups(0) =~= Seq::<Comp>::empty());
    } else {
        let zp = z.drop_last();
        assert forall|i: int| 0 <= i < zp.len() implies #[trigger] zp[i] is Normal by {
            assert(zp[i] == z[i]);
        }
        assert(ups(z.len()) =~= seq![Comp::ParentDir] + ups(zp.len()));
        lemma_lexical_add(y + z, seq![Comp::ParentDir], ups(zp.len()));
        assert(seq![Comp::ParentDir].drop_last() =~= Seq::<Comp>::empty());
        assert(z[z.len() - 1] is Normal);
        assert((y + z).drop_last() =~= y + zp);
        assert(lexical(y + z, Seq::<Comp>::empty()) == y + z);
        assert(lexical(y + z, seq![Comp::ParentDir]) == lexical_step(
            lexical(y + z, seq![Comp::ParentDir].drop_last()),
            Comp::ParentDir,
        ));
        assert((y + z).last() == z[z.len() - 1]);
        assert(lexical(y + z, seq![Comp::ParentDir]) == y + zp);
        lemma_lexical_ups(y, zp);
    }
}

proof fn lemma_rel_ups(pb: Seq<Comp>, acc: Seq<Comp>)
    ensures
        rel_comps(Seq::<Comp>::empty(), pb, acc) == Some(acc + ups(pb.len())),
    decreases pb.len(),
{
    if pb.len() == 0 {
        assert(acc + ups(0) =~= acc);
    } else {
        lemma_rel_ups(pb.drop_first(), acc.push(Comp::ParentDir));
        assert(acc.push(Comp::ParentDir) + ups((pb.len() - 1) as nat) =~= acc + ups(pb.len()));
    }
}

#[verifier::spinoff_prover]
#[verifier::rlimit(40)]
proof fn lemma_rel_plain(pa: Seq<Comp>, pb: Seq<Comp>)
    requires
        plain(pa),
        plain(pb),
    ensures
        common_len(pa, pb) <= pa.len(),
        common_len(pa, pb) <= pb.len(),
        pa.take(common_len(pa, pb) as int) == pb.take(common_len(pa, pb) as int),
        rel_comps(pa, pb, Seq::<Comp>::empty()) == Some(
            ups((pb.len() - common_len(pa, pb)) as nat) + pa.skip(common_len(pa, pb) as int),
        ),
    decreases pa.len(),
{
    let e = Seq::<Comp>::empty();
    if pa.len() == 0 && pb.len() == 0 {
        assert(ups(0) + pa =~= e);
        assert(rel_comps(pa, pb, Seq::<Comp>::empty()) == Some(ups((pb.len() - common_len(pa, pb)) as nat) + pa.skip(common_len(pa, pb) as int)));
    } else if pb.len() == 0 {
        assert(ups(0) + pa.skip(0) =~= e + pa);
        assert(rel_comps(pa, pb, Seq::<Comp>::empty()) == Some(ups((pb.len() - common_len(pa, pb)) as nat) + pa.skip(common_len(pa, pb) as int)));
    } else if pa.len() == 0 {
        lemma_rel_ups(pb, e);
        assert(e + ups(pb.len()) =~= ups(pb.len()) + pa.skip(0));
        assert(rel_comps(pa, pb, Seq::<Comp>::empty()) == Some(ups((pb.len() - common_len(pa, pb)) as nat) + pa.skip(common_len(pa, pb) as int)));
    } else if pa[0] == pb[0] {
        let a = pa.drop_first();
        let b = pb.drop_first();
        assert forall|i: int| 0 <= i < a.len() implies !(#[trigger] a[i] is CurDir) && !(a[i] is ParentDir) by {
            assert(a[i] == pa[i + 1]);
        }
        assert forall|i: int| 0 <= i < b.len() implies !(#[trigger] b[i] is CurDir) && !(b[i] is ParentDir) by {
            assert(b[i] == pb[i + 1]);
        }
        lemma_rel_plain(a, b);
        let n = common_len(a, b);
        assert(pa.skip(n + 1int) =~= a.skip(n as int));
        assert(pa.take(n + 1int) =~= seq![pa[0]] + a.take(n as int));
        assert(pb.take(n + 1int) =~= seq![pb[0]] + b.take(n as int));
        assert(rel_comps(pa, pb, Seq::<Comp>::empty()) == Some(ups((pb.len() - common_len(pa, pb)) as nat) + pa.skip(common_len(pa, pb) as int)));
    } else {
        assert(!(pb[0] is CurDir) && !(pb[0] is ParentDir));
        assert(e.push(Comp::ParentDir) + ups((pb.len() - 1) as nat) =~= ups(pb.len()));
        assert(pa.skip(0) =~= pa);
        assert(common_len(pa, pb) == 0);
        assert(pa.take(0) =~= pb.take(0));
        assert(rel_comps(pa, pb, Seq::<Comp>::empty()) == Some(ups((pb.len() - common_len(pa, pb)) as nat) + pa.skip(common_len(pa, pb) as int)));
    }
}

/// The relative path between two paths made of named components from the
/// same root leads back: reading `base` followed by it lexically (each `..`
/// taking away the component before it) gives `path`.
pub proof fn lemma_relative_round_trip(path: Seq<Comp>, base: Seq<Comp>)
    requires
        plain(path),
        plain(base),
        path.len() > 0,
        base.len() > 0,
        path[0] == base[0],
        forall|i: int| 1 <= i < path.len() ==> #[trigger] path[i] is Normal,
        forall|i: int| 1 <= i < base.len() ==> #[trigger] base[i] is Normal,
    ensures
        rel_comps(path, base, Seq::<Comp>::empty()) is Some,
        lexical(Seq::<Comp>::empty(), base + rel_comps(path, base, Seq::<Comp>::empty())->0) == lexical(
            Seq::<Comp>::empty(),
            path,
        ),
        lexical(Seq::<Comp>::empty(), path) == path,
{
    let e = Seq::<Comp>::empty();
    lemma_rel_plain(path, base);
    let n = common_len(path, base);
    let r = ups((base.len() - n) as nat) + path.skip(n as int);
    assert(n >= 1) by {
        reveal_with_fuel(common_len, 2);
    }
    let c = base.take(n as int);
    let z = base.skip(n as int);
    assert(base =~= c + z);
    lemma_lexical_plain(e, base);
    lemma_lexical_plain(e, path);
    lemma_lexical_add(e, base, r);
    lemma_lexical_add(lexical(e, base), ups(z.len()), path.skip(n as int));
    assert forall|i: int| 0 <= i < z.len() implies #[trigger] z[i] is Normal by {
        assert(z[i] == base[i + n]);
    }
    assert(e + base =~= c + z);
    lemma_lexical_ups(c, z);
    let rest = path.skip(n as int);
    assert forall|i: int| 0 <= i < rest.len() implies !(#[trigger] rest[i] is CurDir) && !(rest[i] is ParentDir) by {
        assert(rest[i] == path[i + n]);
    }
    lemma_lexical_plain(c, rest);
    assert(c + rest =~= path);
    assert(e + path =~= path);
}

/// Where the settings of a run come from besides the command line.
pub enum ConfigSource {
    /// The command line alone
    ArgsOnly,
    /// The config file at this path, each of its configs merged with the
    /// command line's settings
    File(String),
}

/// The directory config files are looked for in: the root given, else the
/// directory of the manifest.
pub open spec fn config_dir_spec(root: Option<Seq<char>>, manifest: Seq<char>) -> Option<Seq<char>> {
    match root {
        Some(r) => Some(r),
        None => crate::paths::parent_opt(manifest),
    }
}

/// The two files looked for in `dir`, in order.
pub open spec fn config_candidates(dir: Seq<char>) -> (Seq<char>, Seq<char>) {
    (join_spec(dir, "tarpaulin.toml"@), join_spec(dir, ".tarpaulin.toml"@))
}

/// The config file chosen in `dir`, given whether each of the two
/// candidates exists: `tarpaulin.toml` first, then `.tarpaulin.toml`.
pub open spec fn pick_config_spec(dir: Seq<char>, first_exists: bool, second_exists: bool) -> Option<Seq<char>> {
    if first_exists {
        Some(config_candidates(dir).0)
    } else if second_exists {
        Some(config_candidates(dir).1)
    } else {
        None
    }
}

/// The config file chosen in `dir`, given whether `tarpaulin.toml` and
/// `.tarpaulin.toml` exist there; see `pick_config_spec`.
pub fn pick_config(dir: &str, first_exists: bool, second_exists: bool) -> (res: Option<String>)
    ensures
        opt_str(res) == pick_config_spec(dir@, first_exists, second_exists),
{
    let d = chars_of(dir);
    if first_exists {
        Some(string_of(&join_text(&d, &chars_of("tarpaulin.toml"))))
    } else if second_exists {
        Some(string_of(&join_text(&d, &chars_of(".tarpaulin.toml"))))
    } else {
        None
    }
}

/// The config file found in `dir`: `tarpaulin.toml` where it exists, else
/// `.tarpaulin.toml` where it exists (see `pick_config`). The file system
/// answers whether each exists; the result is the choice for its answers.
pub fn check_path_for_configs(dir: &str) -> (res: Option<String>)
    ensures
        exists|a: bool, b: bool| opt_str(res) == pick_config_spec(dir@, a, b),
{
    let d = chars_of(dir);
    let first = string_of(&join_text(&d, &chars_of("tarpaulin.toml")));
    let second = string_of(&join_text(&d, &chars_of(".tarpaulin.toml")));
    let a = crate::text::path_exists(first.as_str());
    let b = crate::text::path_exists(second.as_str());
    pick_config(dir, a, b)
}

/// Where the settings come from, given the config file `found` in the
/// directory looked in (none where none was found or there is no such
/// directory): the command line alone where config files are ignored; the
/// file named on the command line where there is one (a relative one taken
/// from `cwd`); else the file found; else the command line alone.
pub open spec fn source_spec(ignore_config: bool, config: Option<Seq<char>>, cwd: Seq<char>, found: Option<Seq<char>>) -> Option<Seq<char>> {
    if ignore_config {
        None
    } else {
        match config {
            Some(c) => Some(if is_absolute_spec(c) {
                c
            } else {
                join_spec(cwd, c)
            }),
            None => found,
        }
    }
}

/// The file a source names, if any.
pub open spec fn source_file(s: ConfigSource) -> Option<Seq<char>> {
    match s {
        ConfigSource::File(p) => Some(p@),
        ConfigSource::ArgsOnly => None,
    }
}

/// Where the settings come from, given the config file found; see
/// `source_spec`.
pub fn choose_source(ignore_config: bool, config: Option<&str>, cwd: &str, found: Option<String>) -> (res: ConfigSource)
    ensures
        source_file(res) == source_spec(ignore_config, opt_text_view(config), cwd@, opt_str(found)),
{
    if ignore_config {
        return ConfigSource::ArgsOnly;
    }
    match config {
        Some(c) => {
            if is_absolute(c) {
                ConfigSource::File(c.to_string())
            } else {
                ConfigSource::File(string_of(&join_text(&chars_of(cwd), &chars_of(c))))
            }
        },
        None => match found {
            Some(p) => ConfigSource::File(p),
            None => ConfigSource::ArgsOnly,
        },
    }
}

/// Where the settings come from: see `source_spec`, with the config file
/// looked for (see `check_path_for_configs`) in the root, else in the
/// manifest's directory, only where no file is named and config files are
/// not ignored. What is on disk decides which file is found.
pub fn config_source(
    ignore_config: bool,
    config: Option<&str>,
    cwd: &str,
    root: Option<&str>,
    manifest: &str,
) -> (res: ConfigSource)
    ensures
        ignore_config || config is Some ==> source_file(res) == source_spec(
            ignore_config,
            opt_text_view(config),
            cwd@,
            None,
        ),
        !ignore_config && config is None ==> match config_dir_spec(opt_text_view(root), manifest@) {
            Some(d) => exists|a: bool, b: bool| source_file(res) == pick_config_spec(d, a, b),
            None => res is ArgsOnly,
        },
{
    let found = if ignore_config || config.is_some() {
        None
    } else {
        let dir = match root {
            Some(r) => Some(r.to_string()),
            None => crate::paths::parent_path(manifest),
        };
        assert(opt_str(dir) == config_dir_spec(opt_text_view(root), manifest@));
        match dir {
            Some(d) => {
                let f = check_path_for_configs(d.as_str());
                proof {
                    let (a, b) = choose|a: bool, b: bool| opt_str(f) == pick_config_spec(d@, a, b);
                    assert(opt_str(f) == pick_config_spec(config_dir_spec(opt_text_view(root), manifest@)->0, a, b));
                }
                f
            },
            None => None,
        }
    };
    let res = choose_source(ignore_config, config, cwd, found);
    proof {
        if !ignore_config && config is None {
            assert(source_file(res) == opt_str(found));
        }
    }
    res
}

/// Appends copies of `src[from..]` to `acc`.
fn push_rest(acc: &mut Vec<Component>, src: &Vec<Component>, from: usize)
    requires
        from <= src.len(),
    ensures
        comps_view(final(acc)@) == comps_view(old(acc)@) + comps_view(src@).skip(from as int),
{
    let ghost start = comps_view(acc@);
    let mut k: usize = from;
    while k < src.len()
        invariant
            from <= k <= src.len(),
            comps_view(acc@) =~= start + comps_view(src@).subrange(from as int, k as int),
        decreases src.len() - k,
    {
        let ghost o = comps_view(acc@);
        acc.push(copy_component(&src[k]));
        assert(comps_view(acc@) =~= o.push(comps_view(src@)[k as int]));
        k = k + 1;
    }
}

/// Gets the relative path from one directory to another, if it exists.
pub fn path_relative_from(path: &str, base: &str) -> (res: Option<String>)
    ensures
        res matches Some(r) ==> relative_from(path@, base@) == Some(r@),
        res is None ==> relative_from(path@, base@) is None,
{
    let pabs = is_absolute(path);
    let babs = is_absolute(base);
    if pabs != babs {
        if pabs {
            return Some(path.to_string());
        } else {
            return None;
        }
    }
    let pa = path_components(path);
    let pb = path_components(base);
    let ghost va = comps_view(pa@);
    let ghost vb = comps_view(pb@);
    let mut acc: Vec<Component> = Vec::new();
    let mut i: usize = 0;
    let mut j: usize = 0;
    assert(va.skip(0) =~= va);
    assert(vb.skip(0) =~= vb);
    assert(comps_view(acc@) =~= Seq::<Comp>::empty());
    loop
        invariant_except_break
            rel_comps(va.skip(i as int), vb.skip(j as int), comps_view(acc@))
                == rel_comps(va, vb, Seq::<Comp>::empty()),
        invariant
            i <= pa.len(),
            j <= pb.len(),
            va == comps_view(pa@),
            vb == comps_view(pb@),
            va == components(path@),
            vb == components(base@),
            is_absolute_spec(path@) == is_absolute_spec(base@),
        ensures
            rel_comps(va, vb, Seq::<Comp>::empty()) == Some(comps_view(acc@)),
        decreases pa.len() + pb.len() - i - j,
    {
        let ghost sa = va.skip(i as int);
        let ghost sb = vb.skip(j as int);
        let ghost ac = comps_view(acc@);
        if i == pa.len() && j == pb.len() {
            assert(sa =~= Seq::<Comp>::empty());
            assert(sb =~= Seq::<Comp>::empty());
            break;
        } else if j == pb.len() {
            assert(sb =~= Seq::<Comp>::empty());
            push_rest(&mut acc, &pa, i);
            assert(rel_comps(sa, sb, ac) == Some(ac + sa));
            break;
        } else if i == pa.len() {
            acc.push(Component::ParentDir);
            assert(comps_view(acc@) =~= ac.push(Comp::ParentDir));
            assert(sb.drop_first() =~= vb.skip(j + 1));
            j = j + 1;
        } else if acc.len() == 0 && comp_eq(&pa[i], &pb[j]) {
            assert(sa[0] == va[i as int]);
            assert(sb[0] == vb[j as int]);
            assert(sa.drop_first() =~= va.skip(i + 1));
            assert(sb.drop_first() =~= vb.skip(j + 1));
            i = i + 1;
            j = j + 1;
        } else {
            assert(sa[0] == va[i as int]);
            assert(sb[0] == vb[j as int]);
            match &pb[j] {
                Component::CurDir => {
                    acc.push(copy_component(&pa[i]));
                    assert(comps_view(acc@) =~= ac.push(sa[0]));
                    assert(sa.drop_first() =~= va.skip(i + 1));
                    assert(sb.drop_first() =~= vb.skip(j + 1));
                    i = i + 1;
                    j = j + 1;
                },
                Component::ParentDir => {
                    return None;
                },
                _ => {
                    acc.push(Component::ParentDir);
                    let mut k: usize = j + 1;
                    while k < pb.len()
                        invariant
                            j + 1 <= k <= pb.len(),
                            comps_view(acc@) =~= ac.push(Comp::ParentDir) + Seq::new((k - j - 1) as nat, |q: int| Comp::ParentDir),
                        decreases pb.len() - k,
                    {
                        let ghost o = comps_view(acc@);
                        acc.push(Component::ParentDir);
                        assert(comps_view(acc@) =~= o.push(Comp::ParentDir));
                        k = k + 1;
                    }
                    push_rest(&mut acc, &pa, i);
                    assert(sb.len() - 1 == pb.len() - j - 1);
                    assert(comps_view(acc@) =~= ac.push(Comp::ParentDir) + Seq::new((sb.len() - 1) as nat, |q: int| Comp::ParentDir) + sa);
                    break;
                },
            }
        }
    }
    let text = render_components(&acc);
    Some(string_of(&text))
}


/// A duration in whole seconds and nanoseconds.
#[derive(Debug, Copy, Clone, PartialEq, Eq, Structural)]
pub struct Timeout {
    pub secs: u64,
    pub nanos: u32,
}

/// The time to wait for a test before it is deemed to have timed out: a minute.
pub fn default_test_timeout() -> (res: Timeout)
    ensures
        res == (Timeout { secs: 60, nanos: 0 }),
{
    Timeout { secs: 60, nanos: 0 }
}

pub open spec fn opt_ci(o: Option<Ci>) -> Option<CiView> {
    match o {
        Some(c) => Some(c@),
        None => None,
    }
}

/// Specifies the current configuration tarpaulin is using.
#[derive(Debug, Clone)]
pub struct Config {
    pub name: String,
    /// Path to the projects cargo manifest
    pub manifest: String,
    /// Path to a tarpaulin.toml config file
    pub config: Option<String>,
    /// Path to the projects cargo manifest
    pub root: Option<String>,
    /// Flag to also run tests with the ignored attribute
    pub run_ignored: bool,
    /// Flag to ignore test functions in coverage statistics
    pub ignore_tests: bool,
    /// Ignore panic macros in code.
    pub ignore_panics: bool,
    /// Flag to add a clean step when preparing the target project
    pub force_clean: bool,
    pub all_targets: bool,
    /// Verbose flag for printing information to the user
    pub verbose: bool,
    /// Debug flag for printing internal debugging information to the user
    pub debug: bool,
    /// Enable the event logger
    pub dump_traces: bool,
    /// Flag to count hits in coverage
    pub count: bool,
    /// Flag specifying to run line coverage (default)
    pub line_coverage: bool,
    /// Flag specifying to run branch coverage
    pub branch_coverage: bool,
    /// Directory to write output files
    pub output_directory: Option<String>,
    /// Key relating to coveralls service or repo
    pub coveralls: Option<String>,
    /// Enum representing CI tool used.
    pub ci_tool: Option<Ci>,
    /// Only valid if coveralls option is set. If coveralls option is set,
    /// as well as report_uri, then the report will be sent to this endpoint
    /// instead.
    pub report_uri: Option<String>,
    /// Forward unexpected signals back to the tracee.
    pub forward_signals: bool,
    /// Include all available features in target build
    pub all_features: bool,
    /// Do not include default features in target build
    pub no_default_features: bool,
    /// Build all packages in the workspace
    pub all: bool,
    /// Duration to wait before a timeout occurs
    pub test_timeout: Timeout,
    /// Build in release mode
    pub release: bool,
    /// Build the tests only don't run coverage
    pub no_run: bool,
    /// Don't update `Cargo.lock`.
    pub locked: bool,
    /// Don't update `Cargo.lock` or any caches.
    pub frozen: bool,
    /// Build for the target triple.
    pub target: Option<String>,
    /// Directory for generated artifacts
    pub target_dir: Option<String>,
    /// Run tarpaulin on project without accessing the network
    pub offline: bool,
    /// Types of tests for tarpaulin to collect coverage on
    pub run_types: Vec<RunType>,
    /// Packages to include when building the target project
    pub packages: Vec<String>,
    /// Packages to exclude from testing
    pub exclude: Vec<String>,
    /// Files to exclude from testing (glob patterns)
    pub excluded_files_raw: Vec<String>,
    /// Varargs to be forwarded to the test executables.
    pub varargs: Vec<String>,
    /// Features to include in the target project build, e.g. "feature1 feature2"
    pub features: Option<String>,
    /// Unstable cargo features to use
    pub unstable_features: Vec<String>,
    /// Output files to generate
    pub generate: Vec<OutputFile>,
    /// Names of tests to run corresponding to `cargo --test <NAME>...` (no repeats)
    pub test_names: Vec<String>,
    /// Names of binaries to run corresponding to `cargo --bin <NAME>...` (no repeats)
    pub bin_names: Vec<String>,
    /// Names of examples to run corresponding to `cargo --example <NAME>...` (no repeats)
    pub example_names: Vec<String>,
    /// Names of benches to run corresponding to `cargo --bench <NAME>...` (no repeats)
    pub bench_names: Vec<String>,
    /// Whether to carry on or stop when a test failure occurs
    pub no_fail_fast: bool,
    /// Run with the given profile
    pub profile: Option<String>,
    /// Coverage tracing backend
    pub engine: TraceEngine,
    /// Do not build with -Clink-dead-code
    pub no_dead_code: bool,
    /// Do not add --cfg=tarpaulin to the flags
    pub avoid_cfg_tarpaulin: bool,
    /// Flags to add when building the project
    pub rustflags: Option<String>,
    /// Coloring of the output
    pub color: Color,
    /// Number of parallel jobs
    pub jobs: Option<usize>,
    /// cargo subcommand to run
    pub command: Mode,
    /// Print logs to stderr instead of stdout
    pub stderr: bool,
}

impl Config {
    /// The default configuration, for the project whose manifest is at
    /// `manifest`, collecting coverage with `engine`: line coverage of the
    /// tests, a minute's timeout, no report files.
    pub fn with_defaults(manifest: String, engine: TraceEngine) -> (res: Config)
        ensures
            res.name@ == Seq::<char>::empty(),
            res.run_types@ == seq![RunType::Tests],
            res.manifest@ == manifest@,
            res.config is None,
            res.root is None,
            !res.run_ignored && !res.all_targets && !res.ignore_tests && !res.ignore_panics,
            !res.force_clean && !res.verbose && !res.debug && !res.dump_traces && !res.count,
            res.line_coverage && !res.branch_coverage,
            res.generate@.len() == 0,
            res.output_directory is None && res.coveralls is None && res.ci_tool is None,
            res.report_uri is None,
            !res.forward_signals && !res.no_default_features && !res.all,
            res.features is None,
            res.unstable_features@.len() == 0 && res.packages@.len() == 0 && res.exclude@.len() == 0,
            res.excluded_files_raw@.len() == 0 && res.varargs@.len() == 0,
            res.test_timeout == (Timeout { secs: 60, nanos: 0 }),
            !res.release && !res.all_features && !res.no_run && !res.locked && !res.frozen,
            res.target is None && res.target_dir is None,
            !res.offline,
            res.test_names@.len() == 0 && res.bin_names@.len() == 0,
            res.example_names@.len() == 0 && res.bench_names@.len() == 0,
            !res.no_fail_fast,
            res.profile is None,
            res.engine == engine,
            !res.no_dead_code && !res.avoid_cfg_tarpaulin,
            res.rustflags is None,
            res.color == Color::Auto,
            res.jobs is None,
            res.command == Mode::Test,
            !res.stderr,
    {
        let mut run_types: Vec<RunType> = Vec::new();
        run_types.push(RunType::Tests);
        assert(run_types@ =~= seq![RunType::Tests]);
        Config {
            name: String::new(),
            run_types,
            manifest,
            config: None,
            root: None,
            run_ignored: false,
            all_targets: false,
            ignore_tests: false,
            ignore_panics: false,
            force_clean: false,
            verbose: false,
            debug: false,
            dump_traces: false,
            count: false,
            line_coverage: true,
            branch_coverage: false,
            generate: Vec::new(),
            output_directory: None,
            coveralls: None,
            ci_tool: None,
            report_uri: None,
            forward_signals: false,
            no_default_features: false,
            features: None,
            unstable_features: Vec::new(),
            all: false,
            packages: Vec::new(),
            exclude: Vec::new(),
            excluded_files_raw: Vec::new(),
            varargs: Vec::new(),
            test_timeout: default_test_timeout(),
            release: false,
            all_features: false,
            no_run: false,
            locked: false,
            frozen: false,
            target: None,
            target_dir: None,
            offline: false,
            test_names: Vec::new(),
            example_names: Vec::new(),
            bin_names: Vec::new(),
            bench_names: Vec::new(),
            no_fail_fast: false,
            profile: None,
            engine,
            no_dead_code: false,
            avoid_cfg_tarpaulin: false,
            rustflags: None,
            color: Color::Auto,
            jobs: None,
            command: Mode::Test,
            stderr: false,
        }
    }
}

/// The manifest a run is for: the one named, taken from the current
/// directory `cwd` where it is relative; else `Cargo.toml` in the chosen
/// root (taken from `cwd`), or in `cwd` itself.
pub open spec fn manifest_from_args(cwd: Seq<char>, manifest_path: Option<Seq<char>>, root: Option<Seq<char>>) -> Seq<char> {
    match manifest_path {
        Some(p) => join_spec(cwd, p),
        None => join_spec(
            match root {
                Some(r) => join_spec(cwd, r),
                None => cwd,
            },
            "Cargo.toml"@,
        ),
    }
}

/// The features to build with: those named, joined by spaces, where any are.
pub open spec fn features_from_args(features: Seq<Seq<char>>) -> Option<Seq<char>> {
    if features.len() == 0 {
        None
    } else {
        Some(crate::text::joined(features, " "@))
    }
}

/// The directory build artifacts go to: the one chosen, else the one the
/// environment names, taken from `cwd` where it is relative.
pub open spec fn target_dir_from_args(cwd: Seq<char>, chosen: Option<Seq<char>>, env: Option<Seq<char>>) -> Option<Seq<char>> {
    match pick(env, chosen) {
        Some(d) => Some(join_spec(cwd, d)),
        None => None,
    }
}

impl Config {
    /// The configuration the command line makes, where `cwd` is the current
    /// directory, `env_target_dir` the value of `CARGO_TARPAULIN_TARGET_DIR`
    /// where it is set, and `default_engine` the engine to use where none is
    /// chosen. Debugging implies verbose output and the event log; where
    /// neither line nor branch coverage is chosen, both are collected; the
    /// named targets are kept without repeats.
    pub fn from_args(args: ConfigArgs, cwd: &str, env_target_dir: Option<&str>, default_engine: TraceEngine) -> (res: Config)
        ensures
            res.name@ == Seq::<char>::empty(),
            res.manifest@ == manifest_from_args(cwd@, opt_str(args.manifest_path), opt_str(args.root)),
            res.config is None,
            opt_str(res.root) == opt_str(args.root),
            res.run_types@ == crate::args::collect_spec(args.run_types),
            res.all_targets == args.run_types.all_targets,
            res.run_ignored == args.ignored,
            res.ignore_tests == args.ignore_tests,
            res.ignore_panics == args.ignore_panics,
            res.force_clean == args.force_clean,
            res.debug == args.logging.debug,
            res.verbose == (args.logging.verbose || args.logging.debug),
            res.dump_traces == (args.logging.dump_traces || args.logging.debug),
            res.count == args.count,
            res.line_coverage == (args.line || !args.branch),
            res.branch_coverage == (args.branch || !args.line),
            res.generate@ == args.out@,
            opt_str(res.output_directory) == opt_str(args.output_dir),
            opt_str(res.coveralls) == opt_str(args.coveralls),
            opt_ci(res.ci_tool) == match args.ciserver {
                Some(c) => Some(self::types::ci_from_name(c@)),
                None => None,
            },
            opt_str(res.report_uri) == opt_str(args.report_uri),
            res.forward_signals == args.forward,
            res.all_features == args.all_features,
            res.no_default_features == args.no_default_features,
            opt_str(res.features) == features_from_args(strs(args.features@)),
            strs(res.unstable_features@) == strs(args.unstable_features@),
            res.all == (args.all || args.workspace),
            strs(res.packages@) == strs(args.packages@),
            strs(res.exclude@) == strs(args.exclude@),
            strs(res.excluded_files_raw@) == strs(args.exclude_files@),
            strs(res.varargs@) == strs(args.args@),
            res.test_timeout == (Timeout {
                secs: match args.timeout {
                    Some(t) => t,
                    None => 60,
                },
                nanos: 0,
            }),
            res.release == args.release,
            res.no_run == args.no_run,
            res.locked == args.locked,
            res.frozen == args.frozen,
            opt_str(res.target) == opt_str(args.target),
            opt_str(res.target_dir) == target_dir_from_args(
                cwd@,
                opt_str(args.target_dir),
                match env_target_dir {
                    Some(e) => Some(e@),
                    None => None,
                },
            ),
            res.offline == args.offline,
            strs(res.test_names@) == push_absent_all(Seq::<Seq<char>>::empty(), strs(args.test@)),
            strs(res.bin_names@) == push_absent_all(Seq::<Seq<char>>::empty(), strs(args.bin@)),
            strs(res.example_names@) == push_absent_all(Seq::<Seq<char>>::empty(), strs(args.example@)),
            strs(res.bench_names@) == push_absent_all(Seq::<Seq<char>>::empty(), strs(args.bench@)),
            res.names_distinct(),
            res.no_fail_fast == args.no_fail_fast,
            opt_str(res.profile) == opt_str(args.profile),
            res.engine == match args.engine {
                Some(e) => e,
                None => default_engine,
            },
            res.no_dead_code == args.no_dead_code,
            res.avoid_cfg_tarpaulin == args.avoid_cfg_tarpaulin,
            opt_str(res.rustflags) == opt_str(args.rustflags),
            res.color == match args.logging.color {
                Some(c) => c,
                None => Color::Auto,
            },
            res.jobs == args.jobs,
            res.command == match args.command {
                Some(m) => m,
                None => Mode::Test,
            },
            !res.stderr,
    {
        proof {
            reveal_strlit("Cargo.toml");
            reveal_strlit(" ");
        }
        let cwd_chars = chars_of(cwd);
        let manifest = match &args.manifest_path {
            Some(p) => string_of(&join_text(&cwd_chars, &chars_of(p.as_str()))),
            None => {
                let base = match &args.root {
                    Some(r) => join_text(&cwd_chars, &chars_of(r.as_str())),
                    None => chars_of(cwd),
                };
                string_of(&join_text(&base, &chars_of("Cargo.toml")))
            },
        };
        let features = if args.features.len() == 0 {
            None
        } else {
            Some(crate::text::join_strings(&args.features, " "))
        };
        let chosen_target: Option<String> = match &args.target_dir {
            Some(d) => Some(string_of(&join_text(&cwd_chars, &chars_of(d.as_str())))),
            None => match env_target_dir {
                Some(e) => Some(string_of(&join_text(&cwd_chars, &chars_of(e)))),
                None => None,
            },
        };
        let ci_tool = match &args.ciserver {
            Some(c) => Some(Ci::from_name(c.as_str())),
            None => None,
        };
        let mut test_names: Vec<String> = Vec::new();
        assert(strs(test_names@) =~= Seq::<Seq<char>>::empty());
        insert_strings(&mut test_names, &args.test);
        let mut bin_names: Vec<String> = Vec::new();
        assert(strs(bin_names@) =~= Seq::<Seq<char>>::empty());
        insert_strings(&mut bin_names, &args.bin);
        let mut example_names: Vec<String> = Vec::new();
        assert(strs(example_names@) =~= Seq::<Seq<char>>::empty());
        insert_strings(&mut example_names, &args.example);
        let mut bench_names: Vec<String> = Vec::new();
        assert(strs(bench_names@) =~= Seq::<Seq<char>>::empty());
        insert_strings(&mut bench_names, &args.bench);
        let all_targets = args.run_types.all_targets;
        let logging = args.logging;
        let timeout = match args.timeout {
            Some(t) => t,
            None => 60,
        };
        let engine = match args.engine {
            Some(e) => e,
            None => default_engine,
        };
        let color = match logging.color {
            Some(c) => c,
            None => Color::Auto,
        };
        let command = match args.command {
            Some(m) => m,
            None => Mode::Test,
        };
        let ghost a = args;
        let run_types = args.run_types.collect();
        Config {
            name: String::new(),
            manifest,
            config: None,
            root: args.root,
            run_types,
            run_ignored: args.ignored,
            all_targets,
            ignore_tests: args.ignore_tests,
            ignore_panics: args.ignore_panics,
            force_clean: args.force_clean,
            verbose: logging.verbose || logging.debug,
            debug: logging.debug,
            dump_traces: logging.dump_traces || logging.debug,
            count: args.count,
            line_coverage: args.line || !args.branch,
            branch_coverage: args.branch || !args.line,
            generate: args.out,
            output_directory: args.output_dir,
            coveralls: args.coveralls,
            ci_tool,
            report_uri: args.report_uri,
            forward_signals: args.forward,
            no_default_features: args.no_default_features,
            features,
            unstable_features: args.unstable_features,
            all: args.all || args.workspace,
            packages: args.packages,
            exclude: args.exclude,
            excluded_files_raw: args.exclude_files,
            varargs: args.args,
            test_timeout: Timeout { secs: timeout, nanos: 0 },
            release: args.release,
            all_features: args.all_features,
            no_run: args.no_run,
            locked: args.locked,
            frozen: args.frozen,
            target: args.target,
            target_dir: chosen_target,
            offline: args.offline,
            test_names,
            example_names,
            bin_names,
            bench_names,
            no_fail_fast: args.no_fail_fast,
            profile: args.profile,
            engine,
            no_dead_code: args.no_dead_code,
            avoid_cfg_tarpaulin: args.avoid_cfg_tarpaulin,
            rustflags: args.rustflags,
            color,
            jobs: args.jobs,
            command,
            stderr: false,
        }
    }
}

/// The directory build artifacts go to: the chosen one, else the one that
/// cargo's metadata names (`metadata_target`), else `target` beside the manifest.
pub open spec fn target_dir_spec(c: Config, metadata_target: Option<Seq<char>>) -> Seq<char> {
    match opt_str(c.target_dir) {
        Some(d) => d,
        None => match metadata_target {
            Some(m) => m,
            None => join_spec(parent_text(c.manifest@), "target"@),
        },
    }
}

/// The root of the project: the workspace root that cargo's metadata
/// names (`metadata_root`), else the folder of the manifest.
pub open spec fn root_spec(c: Config, metadata_root: Option<Seq<char>>) -> Seq<char> {
    match metadata_root {
        Some(r) => r,
        None => parent_text(c.manifest@),
    }
}

/// The view of an optional text.
pub open spec fn opt_text_view(o: Option<&str>) -> Option<Seq<char>> {
    match o {
        Some(s) => Some(s@),
        None => None,
    }
}

impl Config {
    /// The directory build artifacts go to; `metadata_target` is the target
    /// directory that cargo's metadata names, where it could be read.
    pub fn target_dir(&self, metadata_target: Option<&str>) -> (res: String)
        ensures
            res@ == target_dir_spec(*self, opt_text_view(metadata_target)),
    {
        match &self.target_dir {
            Some(s) => s.clone(),
            None => match metadata_target {
                Some(m) => m.to_string(),
                None => {
                    let parent = path_parent(self.manifest.as_str());
                    string_of(&join_text(&parent, &chars_of("target")))
                },
            },
        }
    }

    /// The directory doctest binaries are kept in: `doctests` in the target directory.
    pub fn doctest_dir(&self, metadata_target: Option<&str>) -> (res: String)
        ensures
            res@ == join_spec(target_dir_spec(*self, opt_text_view(metadata_target)), "doctests"@),
    {
        let t = self.target_dir(metadata_target);
        string_of(&join_text(&chars_of(t.as_str()), &chars_of("doctests")))
    }

    /// The root of the project; `metadata_root` is the workspace root that
    /// cargo's metadata names, where it could be read.
    pub fn root(&self, metadata_root: Option<&str>) -> (res: String)
        ensures
            res@ == root_spec(*self, opt_text_view(metadata_root)),
    {
        match metadata_root {
            Some(r) => r.to_string(),
            None => string_of(&path_parent(self.manifest.as_str())),
        }
    }

    /// The directory reports go to: the chosen one, else `current_dir`.
    pub fn output_dir(&self, current_dir: &str) -> (res: String)
        ensures
            res@ == match opt_str(self.output_directory) {
                Some(d) => d,
                None => current_dir@,
            },
    {
        match &self.output_directory {
            Some(d) => d.clone(),
            None => current_dir.to_string(),
        }
    }
}

/// Whether a file is left out by the patterns of excluded files: one of
/// them, accepted as a glob pattern, matches the file's path shown relative
/// to the base directory.
pub open spec fn excluded_spec(patterns: Seq<Seq<char>>, path: Seq<char>, base_dir: Seq<char>) -> bool {
    exists|i: int| 0 <= i < patterns.len() && glob_valid(#[trigger] patterns[i])
        && glob_matches(patterns[i], crate::report::shown_path(path, base_dir))
}

impl Config {
    /// Whether the file at `path` is excluded from coverage; `base_dir` is
    /// the directory paths are shown relative to.
    pub fn exclude_path(&self, path: &str, base_dir: &str) -> (res: bool)
        ensures
            res == excluded_spec(self.excluded_view(), path@, base_dir@),
    {
        let project = crate::report::strip_base_dir(path, base_dir);
        let ghost pats = self.excluded_view();
        let mut i: usize = 0;
        while i < self.excluded_files_raw.len()
            invariant
                i <= self.excluded_files_raw.len(),
                pats == self.excluded_view(),
                project@ == crate::report::shown_path(path@, base_dir@),
                forall|k: int| 0 <= k < i ==> !(glob_valid(#[trigger] pats[k]) && glob_matches(pats[k], project@)),
            decreases self.excluded_files_raw.len() - i,
        {
            assert(pats[i as int] == self.excluded_files_raw@[i as int]@);
            if glob_is_match(self.excluded_files_raw[i].as_str(), project.as_str()) {
                return true;
            }
            i = i + 1;
        }
        false
    }
}

/// The test of not being held by `s`.
pub open spec fn not_in<A>(s: Seq<A>) -> spec_fn(A) -> bool {
    |x: A| !s.contains(x)
}

/// `b`'s elements that `a` lacks, appended to `a` (repeats within `b` kept).
pub open spec fn append_absent<A>(a: Seq<A>, b: Seq<A>) -> Seq<A> {
    a + b.filter(not_in(a))
}

/// `a` without the elements that `ex` holds.
pub open spec fn without<A>(a: Seq<A>, ex: Seq<A>) -> Seq<A> {
    a.filter(not_in(ex))
}

proof fn lemma_filter_step<A>(b: Seq<A>, i: int, p: spec_fn(A) -> bool)
    requires
        0 <= i < b.len(),
    ensures
        b.take(i + 1).filter(p) == (if p(b[i]) { b.take(i).filter(p).push(b[i]) } else { b.take(i).filter(p) }),
{
    reveal_with_fuel(Seq::<_>::filter, 1);
    assert(b.take(i + 1).drop_last() =~= b.take(i));
    assert(b.take(i + 1).last() == b[i]);
}

/// After a merge no package that is excluded is built: the packages keep
/// none of the excluded ones.
pub proof fn lemma_without_excluded<A>(a: Seq<A>, ex: Seq<A>)
    ensures
        forall|x: A| #[trigger] without(a, ex).contains(x) ==> !ex.contains(x) && a.contains(x),
        forall|x: A| a.contains(x) && !ex.contains(x) ==> #[trigger] without(a, ex).contains(x),
{
    assert forall|x: A| #[trigger] without(a, ex).contains(x) implies !ex.contains(x) && a.contains(x) by {
        a.filter_lemma(not_in(ex));
        a.lemma_filter_contains_rev(not_in(ex), x);
        let k = choose|k: int| 0 <= k < without(a, ex).len() && without(a, ex)[k] == x;
    }
    assert forall|x: A| a.contains(x) && !ex.contains(x) implies #[trigger] without(a, ex).contains(x) by {
        a.filter_lemma(not_in(ex));
        let k = choose|k: int| 0 <= k < a.len() && a[k] == x;
        assert(not_in(ex)(a[k]));
    }
}

/// What `append_absent` holds: what either sequence held.
pub proof fn lemma_append_absent_contains<A>(a: Seq<A>, b: Seq<A>)
    ensures
        forall|x: A| #[trigger] append_absent(a, b).contains(x) <==> (a.contains(x) || b.contains(x)),
{
    assert forall|x: A| #[trigger] append_absent(a, b).contains(x) <==> (a.contains(x) || b.contains(x)) by {
        let f = b.filter(not_in(a));
        if append_absent(a, b).contains(x) {
            let k = choose|k: int| 0 <= k < append_absent(a, b).len() && append_absent(a, b)[k] == x;
            if k >= a.len() {
                assert(f.contains(f[k - a.len()]));
                b.lemma_filter_contains_rev(not_in(a), x);
            } else {
                assert(a[k] == x);
            }
        }
        if a.contains(x) {
            let k = choose|k: int| 0 <= k < a.len() && a[k] == x;
            assert(append_absent(a, b)[k] == x);
        } else if b.contains(x) {
            let k = choose|k: int| 0 <= k < b.len() && b[k] == x;
            b.lemma_filter_contains(not_in(a), k);
            let j = choose|j: int| 0 <= j < f.len() && f[j] == x;
            assert(append_absent(a, b)[a.len() + j] == x);
        }
    }
}

/// After a merge, no package that is excluded is built, and every package
/// that either configuration asked for and that is not excluded is built.
pub proof fn lemma_merged_packages(a: Config, b: Config, r: Config)
    requires
        merged(a, b, r),
    ensures
        forall|x: Seq<char>| #[trigger] strs(r.packages@).contains(x) ==> !strs(r.exclude@).contains(x),
        forall|x: Seq<char>| (strs(a.packages@).contains(x) || strs(b.packages@).contains(x))
            && !strs(r.exclude@).contains(x) ==> #[trigger] strs(r.packages@).contains(x),
        forall|x: Seq<char>| #[trigger] strs(r.exclude@).contains(x)
            <==> (strs(a.exclude@).contains(x) || strs(b.exclude@).contains(x)),
{
    let all = append_absent(strs(a.packages@), strs(b.packages@));
    lemma_without_excluded(all, strs(r.exclude@));
    lemma_append_absent_contains(strs(a.packages@), strs(b.packages@));
    lemma_append_absent_contains(strs(a.exclude@), strs(b.exclude@));
}

/// The relative path from a path to itself is empty.
pub proof fn lemma_relative_to_itself(p: Seq<char>)
    ensures
        relative_from(p, p) == Some(Seq::<char>::empty()),
{
    lemma_rel_comps_same(components(p));
    assert(render(Seq::<Comp>::empty()) == Seq::<char>::empty());
}

proof fn lemma_rel_comps_same(c: Seq<Comp>)
    ensures
        rel_comps(c, c, Seq::<Comp>::empty()) == Some(Seq::<Comp>::empty()),
    decreases c.len(),
{
    if c.len() > 0 {
        lemma_rel_comps_same(c.drop_first());
    }
}

/// `b`'s elements pushed onto `a` one by one, each unless already present.
pub open spec fn push_absent_all<A>(a: Seq<A>, b: Seq<A>) -> Seq<A>
    decreases b.len(),
{
    if b.len() == 0 {
        a
    } else {
        let r = push_absent_all(a, b.drop_last());
        if r.contains(b.last()) {
            r
        } else {
            r.push(b.last())
        }
    }
}

/// The override if there is one, else the base.
pub open spec fn pick<A>(base: Option<A>, over: Option<A>) -> Option<A> {
    if over is Some {
        over
    } else {
        base
    }
}

/// The features after merging: the other's features appended after a space.
pub open spec fn merged_features(a: Option<Seq<char>>, b: Option<Seq<char>>) -> Option<Seq<char>> {
    match (a, b) {
        (Some(x), Some(y)) => Some(x + seq![' '] + y),
        (None, Some(y)) => Some(y),
        (_, None) => a,
    }
}

/// Appends to `dst` clones of the strings of `src` that `dst` did not hold.
fn append_absent_strings(dst: &mut Vec<String>, src: &Vec<String>)
    ensures
        strs(final(dst)@) == append_absent(strs(old(dst)@), strs(src@)),
{
    let orig = copy_strings(dst);
    let ghost a = strs(orig@);
    let ghost b = strs(src@);
    let mut i: usize = 0;
    assert(b.take(0) =~= Seq::<Seq<char>>::empty());
    while i < src.len()
        invariant
            i <= src.len(),
            a == strs(orig@),
            b == strs(src@),
            strs(dst@) =~= a + b.take(i as int).filter(not_in(a)),
        decreases src.len() - i,
    {
        proof {
            lemma_filter_step(b, i as int, not_in(a));
        }
        if !contains_string(&orig, &src[i]) {
            let ghost o = strs(dst@);
            dst.push(src[i].clone());
            assert(strs(dst@) =~= o.push(b[i as int]));
        }
        i = i + 1;
    }
    assert(b.take(src.len() as int) =~= b);
}

/// Keeps in `v` only the strings that `ex` does not hold.
fn retain_absent_strings(v: &mut Vec<String>, ex: &Vec<String>)
    ensures
        strs(final(v)@) == without(strs(old(v)@), strs(ex@)),
{
    let mut out: Vec<String> = Vec::new();
    let ghost a = strs(v@);
    let ghost e = strs(ex@);
    let mut i: usize = 0;
    assert(a.take(0) =~= Seq::<Seq<char>>::empty());
    while i < v.len()
        invariant
            i <= v.len(),
            a == strs(v@),
            e == strs(ex@),
            strs(out@) =~= a.take(i as int).filter(not_in(e)),
        decreases v.len() - i,
    {
        proof {
            lemma_filter_step(a, i as int, not_in(e));
        }
        if !contains_string(ex, &v[i]) {
            let ghost o = strs(out@);
            out.push(v[i].clone());
            assert(strs(out@) =~= o.push(a[i as int]));
        }
        i = i + 1;
    }
    assert(a.take(v.len() as int) =~= a);
    *v = out;
}

/// Adds to the set `dst` (a vector without repeats) the strings of `src`.
fn insert_strings(dst: &mut Vec<String>, src: &Vec<String>)
    requires
        strs(old(dst)@).no_duplicates(),
    ensures
        strs(final(dst)@).no_duplicates(),
        strs(final(dst)@).to_set() == strs(old(dst)@).to_set() + strs(src@).to_set(),
        strs(final(dst)@) == push_absent_all(strs(old(dst)@), strs(src@)),
{
    let ghost a = strs(dst@);
    let ghost b = strs(src@);
    let mut i: usize = 0;
    assert(b.take(0) =~= Seq::<Seq<char>>::empty());
    while i < src.len()
        invariant
            i <= src.len(),
            b == strs(src@),
            strs(dst@).no_duplicates(),
            strs(dst@) == push_absent_all(a, b.take(i as int)),
            strs(dst@).to_set() == a.to_set() + b.take(i as int).to_set(),
        decreases src.len() - i,
    {
        assert(b.take(i + 1).drop_last() =~= b.take(i as int));
        assert(b.take(i + 1).last() == b[i as int]);
        assert(b.take(i + 1) =~= b.take(i as int).push(b[i as int]));
        proof {
            Seq::lemma_to_set_insert_commutes(b.take(i as int), b[i as int]);
            assert(b.take(i as int) + seq![b[i as int]] =~= b.take(i as int).push(b[i as int]));
        }
        if !contains_string(dst, &src[i]) {
            let ghost o = strs(dst@);
            dst.push(src[i].clone());
            assert(strs(dst@) =~= o.push(b[i as int]));
            proof {
                Seq::lemma_to_set_insert_commutes(o, b[i as int]);
                assert(o + seq![b[i as int]] =~= o.push(b[i as int]));
            }
            assert(strs(dst@).to_set() =~= a.to_set() + b.take(i + 1).to_set());
        } else {
            assert(strs(dst@).to_set() =~= a.to_set() + b.take(i + 1).to_set());
        }
        i = i + 1;
    }
    assert(b.take(src.len() as int) =~= b);
}

/// Whether `v` holds `x`.
pub(crate) fn contains_run_type(v: &Vec<RunType>, x: RunType) -> (res: bool)
    ensures
        res == v@.contains(x),
{
    let mut i: usize = 0;
    while i < v.len()
        invariant
            i <= v.len(),
            forall|k: int| 0 <= k < i ==> v@[k] != x,
        decreases v.len() - i,
    {
        if v[i] == x {
            return true;
        }
        i = i + 1;
    }
    false
}

/// Whether `v` holds `x`.
fn contains_output(v: &Vec<OutputFile>, x: OutputFile) -> (res: bool)
    ensures
        res == v@.contains(x),
{
    let mut i: usize = 0;
    while i < v.len()
        invariant
            i <= v.len(),
            forall|k: int| 0 <= k < i ==> v@[k] != x,
        decreases v.len() - i,
    {
        if v[i] == x {
            return true;
        }
        i = i + 1;
    }
    false
}

/// What merging `b` into `a` gives (`r`): flags set in either stay set,
/// choices of `b` override those of `a`, lists gain what they lacked.
pub open spec fn merged(a: Config, b: Config, r: Config) -> bool {
    &&& r.debug == (if b.debug { b.debug } else { a.debug })
    &&& r.verbose == (if b.debug || b.verbose { b.verbose } else { a.verbose })
    &&& r.no_run == (a.no_run || b.no_run)
    &&& r.no_default_features == (a.no_default_features || b.no_default_features)
    &&& r.ignore_panics == (a.ignore_panics || b.ignore_panics)
    &&& r.forward_signals == (a.forward_signals || b.forward_signals)
    &&& r.run_ignored == (a.run_ignored || b.run_ignored)
    &&& r.release == (a.release || b.release)
    &&& r.count == (a.count || b.count)
    &&& r.all_features == (a.all_features || b.all_features)
    &&& r.all_targets == (a.all_targets || b.all_targets)
    &&& r.line_coverage == (a.line_coverage || b.line_coverage)
    &&& r.branch_coverage == (a.branch_coverage || b.branch_coverage)
    &&& r.dump_traces == (a.dump_traces || b.dump_traces)
    &&& r.offline == (a.offline || b.offline)
    &&& r.all == (a.all || b.all)
    &&& r.frozen == (a.frozen || b.frozen)
    &&& r.locked == (a.locked || b.locked)
    &&& r.force_clean == (a.force_clean || b.force_clean)
    &&& r.ignore_tests == (a.ignore_tests || b.ignore_tests)
    &&& r.no_fail_fast == (a.no_fail_fast || b.no_fail_fast)
    &&& r.manifest@ == b.manifest@
    &&& opt_str(r.root) == pick(opt_str(a.root), opt_str(b.root))
    &&& opt_str(r.coveralls) == pick(opt_str(a.coveralls), opt_str(b.coveralls))
    &&& opt_ci(r.ci_tool) == pick(opt_ci(a.ci_tool), opt_ci(b.ci_tool))
    &&& opt_str(r.report_uri) == pick(opt_str(a.report_uri), opt_str(b.report_uri))
    &&& opt_str(r.target) == pick(opt_str(a.target), opt_str(b.target))
    &&& r.target_dir_view() == pick(a.target_dir_view(), b.target_dir_view())
    &&& opt_str(r.output_directory) == pick(opt_str(a.output_directory), opt_str(b.output_directory))
    &&& r.test_timeout == (if b.test_timeout != (Timeout { secs: 60, nanos: 0 }) {
            b.test_timeout
        } else {
            a.test_timeout
        })
    &&& opt_str(r.profile) == (if a.profile is None && b.profile is Some {
            opt_str(b.profile)
        } else {
            opt_str(a.profile)
        })
    &&& opt_str(r.features) == merged_features(opt_str(a.features), opt_str(b.features))
    &&& strs(r.exclude@) == append_absent(strs(a.exclude@), strs(b.exclude@))
    &&& strs(r.packages@) == without(
            append_absent(strs(a.packages@), strs(b.packages@)),
            strs(r.exclude@),
        )
    &&& r.generate@ == append_absent(a.generate@, b.generate@)
    &&& strs(r.varargs@) == append_absent(strs(a.varargs@), strs(b.varargs@))
    &&& strs(r.unstable_features@) == append_absent(strs(a.unstable_features@), strs(b.unstable_features@))
    &&& strs(r.test_names@).to_set() == strs(a.test_names@).to_set() + strs(b.test_names@).to_set()
    &&& strs(r.bin_names@).to_set() == strs(a.bin_names@).to_set() + strs(b.bin_names@).to_set()
    &&& strs(r.example_names@).to_set() == strs(a.example_names@).to_set() + strs(b.example_names@).to_set()
    &&& strs(r.bench_names@).to_set() == strs(a.bench_names@).to_set() + strs(b.bench_names@).to_set()
    &&& r.run_types@ == push_absent_all(a.run_types@, b.run_types@)
    &&& r.excluded_view() == a.excluded_view() + b.excluded_view()
    &&& r.name@ == a.name@
    &&& opt_str(r.config) == opt_str(a.config)
    &&& r.engine == a.engine
    &&& r.no_dead_code == a.no_dead_code
    &&& r.avoid_cfg_tarpaulin == a.avoid_cfg_tarpaulin
    &&& opt_str(r.rustflags) == opt_str(a.rustflags)
    &&& r.color == a.color
    &&& r.jobs == a.jobs
    &&& r.command == a.command
    &&& r.stderr == a.stderr
}

impl Config {
    pub open spec fn excluded_view(&self) -> Seq<Seq<char>> {
        strs(self.excluded_files_raw@)
    }

    pub open spec fn target_dir_view(&self) -> Option<Seq<char>> {
        opt_str(self.target_dir)
    }

    /// The names of tests, binaries, examples and benches hold no repeats.
    pub open spec fn names_distinct(&self) -> bool {
        &&& strs(self.test_names@).no_duplicates()
        &&& strs(self.bin_names@).no_duplicates()
        &&& strs(self.example_names@).no_duplicates()
        &&& strs(self.bench_names@).no_duplicates()
    }

    /// The override if there is one, else the base.
    pub fn pick_optional_config(base_config: &Option<String>, override_config: &Option<String>) -> (res: Option<String>)
        ensures
            opt_str(res) == pick(opt_str(*base_config), opt_str(*override_config)),
    {
        if override_config.is_some() {
            copy_opt(override_config)
        } else {
            copy_opt(base_config)
        }
    }

    /// Whether any test, binary, example or bench was named.
    pub fn has_named_tests(&self) -> (res: bool)
        ensures
            res == !(self.test_names@.len() == 0 && self.bin_names@.len() == 0
                && self.example_names@.len() == 0 && self.bench_names@.len() == 0),
    {
        !(self.test_names.len() == 0 && self.bin_names.len() == 0 && self.example_names.len() == 0
            && self.bench_names.len() == 0)
    }

    /// Whether the report goes to coveralls.
    pub fn is_coveralls(&self) -> (res: bool)
        ensures
            res == self.coveralls is Some,
    {
        self.coveralls.is_some()
    }

    /// Whether no output directory was chosen.
    pub fn is_default_output_dir(&self) -> (res: bool)
        ensures
            res == self.output_directory is None,
    {
        self.output_directory.is_none()
    }

    /// Given a config made from args ignoring the config file take the
    /// relevant settings that should be carried across and move them
    pub fn merge(&mut self, other: &Config)
        requires
            old(self).names_distinct(),
        ensures
            final(self).names_distinct(),
            merged(*old(self), *other, *final(self)),
    {
        let (debug, verbose) = if other.debug {
            (other.debug, other.verbose)
        } else if other.verbose {
            (self.debug, other.verbose)
        } else {
            (self.debug, self.verbose)
        };
        let test_timeout = if other.test_timeout != default_test_timeout() {
            other.test_timeout
        } else {
            self.test_timeout
        };
        let profile = if self.profile.is_none() && other.profile.is_some() {
            copy_opt(&other.profile)
        } else {
            copy_opt(&self.profile)
        };
        let ci_tool = match &other.ci_tool {
            Some(c) => Some(c.duplicate()),
            None => match &self.ci_tool {
                Some(c) => Some(c.duplicate()),
                None => None,
            },
        };
        let mut features = copy_opt(&self.features);
        merge_features(&mut features, &other.features);

        let mut packages = copy_strings(&self.packages);
        append_absent_strings(&mut packages, &other.packages);
        let mut generate = copy_outputs(&self.generate);
        append_absent_outputs(&mut generate, &other.generate);
        let mut exclude = copy_strings(&self.exclude);
        append_absent_strings(&mut exclude, &other.exclude);
        let mut varargs = copy_strings(&self.varargs);
        append_absent_strings(&mut varargs, &other.varargs);
        let mut unstable_features = copy_strings(&self.unstable_features);
        append_absent_strings(&mut unstable_features, &other.unstable_features);
        retain_absent_strings(&mut packages, &exclude);

        let mut test_names = copy_strings(&self.test_names);
        insert_strings(&mut test_names, &other.test_names);
        let mut bin_names = copy_strings(&self.bin_names);
        insert_strings(&mut bin_names, &other.bin_names);
        let mut example_names = copy_strings(&self.example_names);
        insert_strings(&mut example_names, &other.example_names);
        let mut bench_names = copy_strings(&self.bench_names);
        insert_strings(&mut bench_names, &other.bench_names);
        let mut run_types = copy_run_types(&self.run_types);
        insert_run_types(&mut run_types, &other.run_types);
        let mut excluded_files_raw = copy_strings(&self.excluded_files_raw);
        extend_strings(&mut excluded_files_raw, &other.excluded_files_raw);

        *self = Config {
            name: self.name.clone(),
            manifest: other.manifest.clone(),
            config: copy_opt(&self.config),
            root: Config::pick_optional_config(&self.root, &other.root),
            run_ignored: self.run_ignored || other.run_ignored,
            ignore_tests: self.ignore_tests || other.ignore_tests,
            ignore_panics: self.ignore_panics || other.ignore_panics,
            force_clean: self.force_clean || other.force_clean,
            all_targets: self.all_targets || other.all_targets,
            verbose,
            debug,
            dump_traces: self.dump_traces || other.dump_traces,
            count: self.count || other.count,
            line_coverage: self.line_coverage || other.line_coverage,
            branch_coverage: self.branch_coverage || other.branch_coverage,
            output_directory: Config::pick_optional_config(&self.output_directory, &other.output_directory),
            coveralls: Config::pick_optional_config(&self.coveralls, &other.coveralls),
            ci_tool,
            report_uri: Config::pick_optional_config(&self.report_uri, &other.report_uri),
            forward_signals: self.forward_signals || other.forward_signals,
            all_features: self.all_features || other.all_features,
            no_default_features: self.no_default_features || other.no_default_features,
            all: self.all || other.all,
            test_timeout,
            release: self.release || other.release,
            no_run: self.no_run || other.no_run,
            locked: self.locked || other.locked,
            frozen: self.frozen || other.frozen,
            target: Config::pick_optional_config(&self.target, &other.target),
            target_dir: Config::pick_optional_config(&self.target_dir, &other.target_dir),
            offline: self.offline || other.offline,
            run_types,
            packages,
            exclude,
            excluded_files_raw,
            varargs,
            features,
            unstable_features,
            generate,
            test_names,
            bin_names,
            example_names,
            bench_names,
            no_fail_fast: self.no_fail_fast || other.no_fail_fast,
            profile,
            engine: self.engine,
            no_dead_code: self.no_dead_code,
            avoid_cfg_tarpaulin: self.avoid_cfg_tarpaulin,
            rustflags: copy_opt(&self.rustflags),
            color: self.color,
            jobs: self.jobs,
            command: self.command,
            stderr: self.stderr,
        };
    }
}

/// Appends `extra` to the features, after a space where there were some.
fn merge_features(features: &mut Option<String>, extra: &Option<String>)
    ensures
        opt_str(*final(features)) == merged_features(opt_str(*old(features)), opt_str(*extra)),
{
    match extra {
        Some(e) => {
            match features {
                None => {
                    *features = Some(e.clone());
                },
                Some(f) => {
                    push_char(f, ' ');
                    f.append(e.as_str());
                },
            }
        },
        None => {},
    }
}

/// Appends to `dst` the report formats of `src` that `dst` did not hold.
fn append_absent_outputs(dst: &mut Vec<OutputFile>, src: &Vec<OutputFile>)
    ensures
        final(dst)@ == append_absent(old(dst)@, src@),
{
    let orig = copy_outputs(dst);
    let ghost ga = orig@;
    let mut i: usize = 0;
    assert(src@.take(0) =~= Seq::<OutputFile>::empty());
    proof {
        reveal_with_fuel(Seq::<_>::filter, 1);
    }
    while i < src.len()
        invariant
            i <= src.len(),
            ga == orig@,
            dst@ =~= ga + src@.take(i as int).filter(not_in(ga)),
        decreases src.len() - i,
    {
        proof {
            lemma_filter_step(src@, i as int, not_in(ga));
        }
        let x = src[i];
        if !contains_output(&orig, x) {
            dst.push(x);
        }
        i = i + 1;
    }
    assert(src@.take(src.len() as int) =~= src@);
}

/// Pushes onto `dst` each run type of `src` that it does not hold yet.
fn insert_run_types(dst: &mut Vec<RunType>, src: &Vec<RunType>)
    ensures
        final(dst)@ == push_absent_all(old(dst)@, src@),
{
    let ghost ra = dst@;
    let mut k: usize = 0;
    assert(src@.take(0) =~= Seq::<RunType>::empty());
    while k < src.len()
        invariant
            k <= src.len(),
            dst@ == push_absent_all(ra, src@.take(k as int)),
        decreases src.len() - k,
    {
        assert(src@.take(k + 1).drop_last() =~= src@.take(k as int));
        let ty = src[k];
        if !contains_run_type(dst, ty) {
            dst.push(ty);
        }
        k = k + 1;
    }
    assert(src@.take(src.len() as int) =~= src@);
}

/// Appends clones of all the strings of `src` to `dst`.
fn extend_strings(dst: &mut Vec<String>, src: &Vec<String>)
    ensures
        strs(final(dst)@) == strs(old(dst)@) + strs(src@),
{
    let mut m: usize = 0;
    let ghost ea = strs(dst@);
    while m < src.len()
        invariant
            m <= src.len(),
            strs(dst@) =~= ea + strs(src@).take(m as int),
        decreases src.len() - m,
    {
        let ghost o = strs(dst@);
        dst.push(src[m].clone());
        assert(strs(dst@) =~= o.push(strs(src@)[m as int]));
        m = m + 1;
    }
    assert(strs(src@).take(src.len() as int) =~= strs(src@));
}

impl Config {
    /// The configurations of a run: those read from a configuration file
    /// (`file_configs`, `None` where it could not be read), each with the
    /// command line's settings (`backup`) merged in; just the command line's
    /// where the file held none or could not be read.
    pub fn get_config_vec(file_configs: Option<Vec<Config>>, backup: Config) -> (res: Vec<Config>)
        requires
            file_configs matches Some(v) ==> forall|i: int| 0 <= i < v@.len() ==> (#[trigger] v@[i]).names_distinct(),
        ensures
            match file_configs {
                Some(v) => if v@.len() == 0 {
                    res@ == seq![backup]
                } else {
                    &&& res@.len() == v@.len()
                    &&& forall|i: int| 0 <= i < v@.len() ==> merged(v@[i], backup, #[trigger] res@[i])
                },
                None => res@ == seq![backup],
            },
    {
        match file_configs {
            Some(confs) => {
                if confs.len() == 0 {
                    let mut out: Vec<Config> = Vec::new();
                    out.push(backup);
                    assert(out@ =~= seq![backup]);
                    return out;
                }
                let ghost orig = confs@;
                let mut rest = confs;
                let mut out: Vec<Config> = Vec::new();
                while rest.len() > 0
                    invariant
                        out@.len() + rest@.len() == orig.len(),
                        rest@ == orig.skip(out@.len() as int),
                        forall|i: int| 0 <= i < orig.len() ==> (#[trigger] orig[i]).names_distinct(),
                        forall|i: int| 0 <= i < out@.len() ==> merged(orig[i], backup, #[trigger] out@[i]),
                    decreases rest.len(),
                {
                    let ghost k = out@.len() as int;
                    assert(rest@[0] == orig[k]);
                    let mut c = rest.remove(0);
                    c.merge(&backup);
                    out.push(c);
                    assert(rest@ =~= orig.skip(k + 1));
                }
                out
            },
            None => {
                let mut out: Vec<Config> = Vec::new();
                out.push(backup);
                assert(out@ =~= seq![backup]);
                out
            },
        }
    }
}

/// A copy of a vector of run types.
fn copy_run_types(v: &Vec<RunType>) -> (res: Vec<RunType>)
    ensures
        res@ == v@,
{
    let mut out: Vec<RunType> = Vec::new();
    let mut i: usize = 0;
    while i < v.len()
        invariant
            i <= v.len(),
            out@ =~= v@.take(i as int),
        decreases v.len() - i,
    {
        out.push(v[i]);
        i = i + 1;
    }
    assert(v@.take(v.len() as int) =~= v@);
    out
}

/// A copy of a vector of report formats.
fn copy_outputs(v: &Vec<OutputFile>) -> (res: Vec<OutputFile>)
    ensures
        res@ == v@,
{
    let mut out: Vec<OutputFile> = Vec::new();
    let mut i: usize = 0;
    while i < v.len()
        invariant
            i <= v.len(),
            out@ =~= v@.take(i as int),
        decreases v.len() - i,
    {
        out.push(v[i]);
        i = i + 1;
    }
    assert(v@.take(v.len() as int) =~= v@);
    out
}

} // verus!
