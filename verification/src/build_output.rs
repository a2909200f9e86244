//! What a cargo build hands back: the binaries it made, the paths its build
//! scripts add to the linker's search path, and its first error; and the
//! doctest binaries it left behind.
use vstd::prelude::*;
use crate::cargo::{doctest_folder, doctest_meta_spec, CargoOutput, DocTestBinaryMeta, TestBinary};
use crate::doctests::{entries_view, key_index};
use crate::paths::components;
use crate::config::types::{Mode, RunType};
use crate::errors::{RunError, RunErrorView};
use crate::paths::{parent_opt, parent_path, path_eq, same_path};
use crate::text::{opt_str, string_of, strs};
use crate::path_utils::unc_fixed;

verus! {

/// Whether a compiler diagnostic of level `level` (as cargo's messages name
/// it) is an error: an error or an internal compiler error.
pub fn diagnostic_is_error(level: &str) -> (res: bool)
    ensures
        res == (level@ == "error"@ || level@ == "error: internal compiler error"@),
{
    crate::text::str_eq(level, "error") || crate::text::str_eq(level, "error: internal compiler error")
}

/// A path a build script adds to the linker's search path, with whether it
/// names something that exists.
pub struct LinkedPath {
    pub path: String,
    pub exists: bool,
}

/// A message of a cargo build, as far as it matters here.
pub enum CargoMessage {
    /// A compiled artifact: its executable, if it is one, whether it was
    /// built with the test profile, and the id of its package
    Artifact { executable: Option<String>, test_profile: bool, package: String },
    /// A diagnostic of the compiler: whether it is an error (or an internal
    /// compiler error), its rendered text if any, the target it is about and
    /// its message
    Diagnostic { error: bool, rendered: Option<String>, target: String, message: String },
    /// A build script ran, adding these paths to the linker's search path
    BuildScript { linked_paths: Vec<LinkedPath> },
    /// Anything else, a message that could not be read among them
    Other,
}

/// What reading the messages of a build has found so far.
pub struct BuildScan {
    /// The paths of the test binaries, in order
    pub tests: Seq<Seq<char>>,
    /// The package of each test binary
    pub packages: Seq<Seq<char>>,
    /// The paths of the other executables
    pub binaries: Seq<Seq<char>>,
    /// The linker's search path
    pub paths: Seq<Seq<char>>,
    /// The first error
    pub error: Option<RunErrorView>,
}

/// What follows the first `c` in `s`, where `s` holds one.
pub open spec fn after_first(s: Seq<char>, c: char) -> Option<Seq<char>>
    decreases s.len(),
{
    if s.len() == 0 {
        None
    } else if s[0] == c {
        Some(s.drop_first())
    } else {
        after_first(s.drop_first(), c)
    }
}

/// The directory a linked path names: the path where it exists, else what
/// follows the `=` of a `kind=path` entry; none where there is no `=`.
pub open spec fn resolve_linked(path: Seq<char>, exists: bool) -> Option<Seq<char>> {
    if exists {
        Some(path)
    } else {
        after_first(path, '=')
    }
}

/// `paths` with `p` added at the end, where it names no path already there.
pub open spec fn add_path(paths: Seq<Seq<char>>, p: Seq<char>) -> Seq<Seq<char>> {
    if exists|j: int| 0 <= j < paths.len() && same_path(#[trigger] paths[j], p) {
        paths
    } else {
        paths.push(p)
    }
}

/// The linker's search path after the linked paths of a build script.
pub open spec fn add_linked(paths: Seq<Seq<char>>, linked: Seq<LinkedPath>) -> Seq<Seq<char>>
    decreases linked.len(),
{
    if linked.len() == 0 {
        paths
    } else {
        let before = add_linked(paths, linked.drop_last());
        match resolve_linked(linked.last().path@, linked.last().exists) {
            Some(p) => add_path(before, p),
            None => before,
        }
    }
}

/// No two paths of `ps` denote the same path.
pub open spec fn paths_distinct(ps: Seq<Seq<char>>) -> bool {
    forall|i: int, j: int| 0 <= i < j < ps.len() ==> !same_path(#[trigger] ps[i], #[trigger] ps[j])
}

/// The linker's search path names no directory twice, and names every
/// directory a build script added.
pub proof fn lemma_linked_paths(paths: Seq<Seq<char>>, linked: Seq<LinkedPath>)
    requires
        paths_distinct(paths),
    ensures
        paths_distinct(add_linked(paths, linked)),
        forall|k: int|
            0 <= k < linked.len() && (#[trigger] resolve_linked(linked[k].path@, linked[k].exists)) is Some ==> exists|
                j: int,
            |
                0 <= j < add_linked(paths, linked).len() && same_path(
                    #[trigger] add_linked(paths, linked)[j],
                    resolve_linked(linked[k].path@, linked[k].exists)->0,
                ),
    decreases linked.len(),
{
    if linked.len() > 0 {
        let init = linked.drop_last();
        lemma_linked_paths(paths, init);
        let before = add_linked(paths, init);
        let after = add_linked(paths, linked);
        match resolve_linked(linked.last().path@, linked.last().exists) {
            Some(p) => {
                if !(exists|j: int| 0 <= j < before.len() && same_path(#[trigger] before[j], p)) {
                    assert(after == before.push(p));
                    assert forall|i: int, j: int| 0 <= i < j < after.len() implies !same_path(
                        #[trigger] after[i],
                        #[trigger] after[j],
                    ) by {
                        if j == after.len() - 1 {
                            assert(after[i] == before[i]);
                            if same_path(after[i], after[j]) {
                                assert(same_path(before[i], p));
                            }
                        } else {
                            assert(after[i] == before[i] && after[j] == before[j]);
                        }
                    }
                }
                assert forall|k: int|
                    0 <= k < linked.len() && (#[trigger] resolve_linked(linked[k].path@, linked[k].exists)) is Some
                    implies exists|j: int|
                    0 <= j < after.len() && same_path(
                        #[trigger] after[j],
                        resolve_linked(linked[k].path@, linked[k].exists)->0,
                    ) by {
                    if k < linked.len() - 1 {
                        assert(init[k] == linked[k]);
                        let j = choose|j: int|
                            0 <= j < before.len() && same_path(
                                #[trigger] before[j],
                                resolve_linked(init[k].path@, init[k].exists)->0,
                            );
                        assert(after[j] == before[j]);
                    } else {
                        if exists|j: int| 0 <= j < before.len() && same_path(#[trigger] before[j], p) {
                            let j = choose|j: int| 0 <= j < before.len() && same_path(#[trigger] before[j], p);
                            assert(after[j] == before[j]);
                        } else {
                            assert(after[before.len() as int] == p);
                        }
                    }
                }
            },
            None => {
                assert forall|k: int|
                    0 <= k < linked.len() && (#[trigger] resolve_linked(linked[k].path@, linked[k].exists)) is Some
                    implies exists|j: int|
                    0 <= j < after.len() && same_path(
                        #[trigger] after[j],
                        resolve_linked(linked[k].path@, linked[k].exists)->0,
                    ) by {
                    assert(k < linked.len() - 1);
                    assert(init[k] == linked[k]);
                }
            },
        }
    }
}

/// The error of a failed compilation: the compiler's rendered text, else the
/// target and the message.
pub open spec fn compiler_failure(rendered: Option<Seq<char>>, target: Seq<char>, message: Seq<char>) -> RunErrorView {
    match rendered {
        Some(r) => RunErrorView::TestCompile(r),
        None => RunErrorView::TestCompile(target + ": "@ + message),
    }
}

/// Reading one message: an executable built with the test profile, or any
/// executable of a build that is not a test run, is a test binary; other
/// executables are kept apart; an error of the compiler ends the reading;
/// a build script's linked paths extend the search path.
pub open spec fn scan_step(st: BuildScan, m: CargoMessage, command: Mode) -> BuildScan {
    match m {
        CargoMessage::Artifact { executable, test_profile, package } => match executable {
            Some(p) => if !test_profile && command == Mode::Test {
                BuildScan { binaries: st.binaries.push(p@), ..st }
            } else {
                BuildScan { tests: st.tests.push(p@), packages: st.packages.push(package@), ..st }
            },
            None => st,
        },
        CargoMessage::Diagnostic { error, rendered, target, message } => if error {
            BuildScan { error: Some(compiler_failure(opt_str(rendered), target@, message@)), ..st }
        } else {
            st
        },
        CargoMessage::BuildScript { linked_paths } => BuildScan {
            paths: add_linked(st.paths, linked_paths@),
            ..st
        },
        CargoMessage::Other => st,
    }
}

/// Reading the messages of a build in turn, up to the first error, from
/// the linker's search path `paths`.
pub open spec fn scan_messages(msgs: Seq<CargoMessage>, command: Mode, paths: Seq<Seq<char>>) -> BuildScan
    decreases msgs.len(),
{
    if msgs.len() == 0 {
        BuildScan {
            tests: Seq::<Seq<char>>::empty(),
            packages: Seq::<Seq<char>>::empty(),
            binaries: Seq::<Seq<char>>::empty(),
            paths,
            error: None,
        }
    } else {
        let st = scan_messages(msgs.drop_last(), command, paths);
        if st.error is Some {
            st
        } else {
            scan_step(st, msgs.last(), command)
        }
    }
}

/// The view of an optional error.
pub open spec fn opt_error(e: Option<RunError>) -> Option<RunErrorView> {
    match e {
        Some(x) => Some(x@),
        None => None,
    }
}

/// A test binary that was just built: its path and kind, the linker's search
/// path of its build, and nothing else known yet.
pub open spec fn fresh_binary(b: TestBinary, path: Seq<char>, ty: Option<RunType>, paths: Seq<Seq<char>>, windows: bool) -> bool {
    &&& b.path@ == unc_fixed(path, windows)
    &&& b.ty == ty
    &&& b.cargo_dir is None
    &&& b.pkg_name is None
    &&& b.pkg_version is None
    &&& b.pkg_authors is None
    &&& !b.should_panic
    &&& strs(b.linker_paths@) == paths
}

fn after_first_exec(s: &Vec<char>, c: char) -> (res: Option<Vec<char>>)
    ensures
        match res {
            Some(r) => after_first(s@, c) == Some(r@),
            None => after_first(s@, c) is None,
        },
{
    assert(s@.skip(0) =~= s@);
    let mut i: usize = 0;
    while i < s.len()
        invariant
            i <= s.len(),
            after_first(s@, c) == after_first(s@.skip(i as int), c),
        decreases s.len() - i,
    {
        assert(s@.skip(i as int)[0] == s@[i as int]);
        if s[i] == c {
            let mut out: Vec<char> = Vec::new();
            let mut j: usize = i + 1;
            while j < s.len()
                invariant
                    i + 1 <= j <= s.len(),
                    out@ == s@.subrange(i + 1, j as int),
                decreases s.len() - j,
            {
                out.push(s[j]);
                assert(s@.subrange(i + 1, j + 1) =~= s@.subrange(i + 1, j as int).push(s@[j as int]));
                j = j + 1;
            }
            assert(out@ =~= s@.skip(i as int).drop_first());
            return Some(out);
        }
        assert(s@.skip(i as int).drop_first() =~= s@.skip(i + 1));
        i = i + 1;
    }
    None
}

/// Adds `p` to `paths` where it names no path already there.
fn add_path_exec(paths: &mut Vec<String>, p: String)
    ensures
        strs(final(paths)@) == add_path(strs(old(paths)@), p@),
{
    let ghost ps = strs(paths@);
    let mut j: usize = 0;
    while j < paths.len()
        invariant
            j <= paths.len(),
            ps == strs(paths@),
            ps == strs(old(paths)@),
            forall|k: int| 0 <= k < j ==> !same_path(#[trigger] ps[k], p@),
        decreases paths.len() - j,
    {
        if path_eq(paths[j].as_str(), p.as_str()) {
            assert(same_path(ps[j as int], p@));
            return;
        }
        j = j + 1;
    }
    paths.push(p);
    assert(strs(paths@) =~= ps.push(p@));
}

/// Extends the linker's search path by the linked paths of a build script.
fn add_linked_exec(paths: &mut Vec<String>, linked: &Vec<LinkedPath>)
    ensures
        strs(final(paths)@) == add_linked(strs(old(paths)@), linked@),
{
    let ghost start = strs(paths@);
    let mut i: usize = 0;
    assert(linked@.take(0) =~= Seq::<LinkedPath>::empty());
    while i < linked.len()
        invariant
            i <= linked.len(),
            start == strs(old(paths)@),
            strs(paths@) == add_linked(start, linked@.take(i as int)),
        decreases linked.len() - i,
    {
        assert(linked@.take(i + 1).drop_last() =~= linked@.take(i as int));
        assert(linked@.take(i + 1).last() == linked@[i as int]);
        let lp = &linked[i];
        let resolved: Option<String> = if lp.exists {
            Some(lp.path.clone())
        } else {
            match after_first_exec(&crate::text::chars_of(lp.path.as_str()), '=') {
                Some(r) => Some(string_of(&r)),
                None => None,
            }
        };
        match resolved {
            Some(p) => add_path_exec(paths, p),
            None => {},
        }
        i = i + 1;
    }
    assert(linked@.take(linked.len() as int) =~= linked@);
}

/// Reads the messages of a cargo build of targets of kind `ty`, where
/// `libdir` is the toolchain's library directory if it has one: the test
/// binaries are added to `result`, each with the linker's search path the
/// build ended with, and the other executables beside them. Gives the package
/// of each of `result`'s test binaries that the build made (none for those it
/// had before), and the first error of the compiler.
pub fn read_build_messages(
    result: &mut CargoOutput,
    messages: &Vec<CargoMessage>,
    command: Mode,
    ty: Option<RunType>,
    libdir: Option<String>,
    windows: bool,
) -> (res: (Vec<Option<String>>, Option<RunError>))
    ensures
        ({
            let scan = scan_messages(
                messages@,
                command,
                match libdir {
                    Some(l) => seq![l@],
                    None => Seq::<Seq<char>>::empty(),
                },
            );
            let before = old(result).test_binaries@.len();
            &&& opt_error(res.1) == scan.error
            &&& strs(final(result).binaries@) == strs(old(result).binaries@) + scan.binaries
            &&& final(result).test_binaries@.len() == before + scan.tests.len()
            &&& final(result).test_binaries@.take(before as int) == old(result).test_binaries@
            &&& forall|k: int|
                0 <= k < scan.tests.len() ==> fresh_binary(
                    #[trigger] final(result).test_binaries@[before + k],
                    scan.tests[k],
                    ty,
                    scan.paths,
                    windows,
                )
            &&& res.0@.len() == final(result).test_binaries@.len()
            &&& forall|k: int| 0 <= k < before ==> #[trigger] res.0@[k] is None
            &&& forall|k: int|
                0 <= k < scan.tests.len() ==> opt_str(#[trigger] res.0@[before + k]) == Some(scan.packages[k])
        }),
{
    let ghost paths0 = match &libdir {
        Some(l) => seq![l@],
        None => Seq::<Seq<char>>::empty(),
    };
    let mut paths: Vec<String> = Vec::new();
    match libdir {
        Some(l) => paths.push(l),
        None => {},
    }
    assert(strs(paths@) =~= paths0);
    let mut tests: Vec<String> = Vec::new();
    let mut packages: Vec<String> = Vec::new();
    let mut error: Option<RunError> = None;
    let ghost bins0 = strs(result.binaries@);
    let ghost tbs0 = result.test_binaries@;
    let mut i: usize = 0;
    assert(messages@.take(0) =~= Seq::<CargoMessage>::empty());
    while i < messages.len()
        invariant
            i <= messages.len(),
            tbs0 == old(result).test_binaries@,
            bins0 == strs(old(result).binaries@),
            result.test_binaries@ == tbs0,
            tests@.len() == packages@.len(),
            ({
                let st = scan_messages(messages@.take(i as int), command, paths0);
                &&& strs(tests@) == st.tests
                &&& strs(packages@) == st.packages
                &&& strs(result.binaries@) == bins0 + st.binaries
                &&& strs(paths@) == st.paths
                &&& opt_error(error) == st.error
            }),
        decreases messages.len() - i,
    {
        assert(messages@.take(i + 1).drop_last() =~= messages@.take(i as int));
        assert(messages@.take(i + 1).last() == messages@[i as int]);
        if error.is_none() {
            match &messages[i] {
                CargoMessage::Artifact { executable, test_profile, package } => {
                    match executable {
                        Some(p) => {
                            if !*test_profile && command == Mode::Test {
                                let ghost b = strs(result.binaries@);
                                result.binaries.push(p.clone());
                                assert(strs(result.binaries@) =~= b.push(p@));
                            } else {
                                let ghost t = strs(tests@);
                                let ghost q = strs(packages@);
                                tests.push(p.clone());
                                packages.push(package.clone());
                                assert(strs(tests@) =~= t.push(p@));
                                assert(strs(packages@) =~= q.push(package@));
                            }
                        },
                        None => {},
                    }
                },
                CargoMessage::Diagnostic { error: is_error, rendered, target, message } => {
                    if *is_error {
                        let text = match rendered {
                            Some(r) => r.clone(),
                            None => {
                                let mut t = target.clone();
                                t.append(": ");
                                t.append(message.as_str());
                                proof {
                                    reveal_strlit(": ");
                                }
                                t
                            },
                        };
                        error = Some(RunError::TestCompile(text));
                    }
                },
                CargoMessage::BuildScript { linked_paths } => {
                    add_linked_exec(&mut paths, linked_paths);
                },
                CargoMessage::Other => {},
            }
        }
        i = i + 1;
    }
    assert(messages@.take(messages.len() as int) =~= messages@);
    let ghost scan = scan_messages(messages@, command, paths0);
    let before = result.test_binaries.len();
    let mut ids: Vec<Option<String>> = Vec::new();
    let mut k: usize = 0;
    while k < before
        invariant
            k <= before,
            before == result.test_binaries@.len(),
            ids@.len() == k,
            forall|j: int| 0 <= j < k ==> #[trigger] ids@[j] is None,
        decreases before - k,
    {
        ids.push(None);
        k = k + 1;
    }
    let mut n: usize = 0;
    while n < tests.len()
        invariant
            n <= tests.len(),
            tests@.len() == packages@.len(),
            strs(tests@) == scan.tests,
            strs(packages@) == scan.packages,
            before == tbs0.len(),
            result.test_binaries@.len() == before + n,
            result.test_binaries@.take(before as int) == tbs0,
            ids@.len() == before + n,
            strs(paths@) == scan.paths,
            forall|j: int| 0 <= j < before ==> #[trigger] ids@[j] is None,
            forall|j: int|
                0 <= j < n ==> fresh_binary(#[trigger] result.test_binaries@[before + j], scan.tests[j], ty, scan.paths, windows),
            forall|j: int| 0 <= j < n ==> opt_str(#[trigger] ids@[before + j]) == Some(scan.packages[j]),
            strs(result.binaries@) == bins0 + scan.binaries,
            tbs0 == old(result).test_binaries@,
            bins0 == strs(old(result).binaries@),
        decreases tests.len() - n,
    {
        let mut tb = TestBinary::new(crate::path_utils::fix_unc_path(tests[n].as_str(), windows), ty);
        tb.linker_paths = crate::text::copy_strings(&paths);
        let ghost old_tbs = result.test_binaries@;
        result.test_binaries.push(tb);
        assert(result.test_binaries@.take(before as int) =~= old_tbs.take(before as int));
        ids.push(Some(packages[n].clone()));
        n = n + 1;
    }
    (ids, error)
}

/// What the project's metadata tells of a package.
pub struct PackageInfo {
    /// The package's id
    pub id: String,
    /// Where its manifest is
    pub manifest_path: String,
    pub name: String,
    pub version: String,
    pub authors: Vec<String>,
}

/// The first package of `pkgs` with the id `id`.
pub open spec fn package_of(pkgs: Seq<PackageInfo>, id: Seq<char>) -> Option<PackageInfo>
    decreases pkgs.len(),
{
    if pkgs.len() == 0 {
        None
    } else if pkgs[0].id@ == id {
        Some(pkgs[0])
    } else {
        package_of(pkgs.drop_first(), id)
    }
}

/// A binary with what the metadata tells of its package added: the
/// directory of the package's manifest, and its name, version and authors.
pub open spec fn with_package(b: TestBinary, after: TestBinary, p: PackageInfo, windows: bool) -> bool {
    &&& after.path == b.path
    &&& after.ty == b.ty
    &&& after.should_panic == b.should_panic
    &&& after.linker_paths == b.linker_paths
    &&& opt_str(after.cargo_dir) == match parent_opt(p.manifest_path@) {
        Some(d) => Some(unc_fixed(d, windows)),
        None => None,
    }
    &&& opt_str(after.pkg_name) == Some(p.name@)
    &&& opt_str(after.pkg_version) == Some(p.version@)
    &&& (after.pkg_authors matches Some(a) && strs(a@) == strs(p.authors@))
}

fn find_package(pkgs: &Vec<PackageInfo>, id: &String) -> (res: Option<usize>)
    ensures
        match res {
            Some(i) => i < pkgs.len() && package_of(pkgs@, id@) == Some(pkgs@[i as int]),
            None => package_of(pkgs@, id@) is None,
        },
{
    assert(pkgs@.skip(0) =~= pkgs@);
    let mut i: usize = 0;
    while i < pkgs.len()
        invariant
            i <= pkgs.len(),
            package_of(pkgs@, id@) == package_of(pkgs@.skip(i as int), id@),
        decreases pkgs.len() - i,
    {
        assert(pkgs@.skip(i as int)[0] == pkgs@[i as int]);
        if crate::text::string_eq(&pkgs[i].id, id) {
            return Some(i);
        }
        assert(pkgs@.skip(i as int).drop_first() =~= pkgs@.skip(i + 1));
        i = i + 1;
    }
    None
}

/// Adds what the metadata `packages` tells of their packages to the binaries
/// that `ids` gives a package for, pairing binaries and ids in order.
pub fn apply_packages(binaries: &mut Vec<TestBinary>, ids: &Vec<Option<String>>, packages: &Vec<PackageInfo>, windows: bool)
    requires
        forall|k: int|
            0 <= k < old(binaries)@.len() && k < ids@.len() && #[trigger] ids@[k] is Some ==> package_of(
                packages@,
                ids@[k]->0@,
            ) is Some,
    ensures
        final(binaries)@.len() == old(binaries)@.len(),
        forall|k: int|
            0 <= k < old(binaries)@.len() ==> match (if k < ids@.len() {
                ids@[k]
            } else {
                None
            }) {
                Some(id) => with_package(old(binaries)@[k], #[trigger] final(binaries)@[k], package_of(packages@, id@)->0, windows),
                None => final(binaries)@[k] == old(binaries)@[k],
            },
{
    let mut i: usize = 0;
    while i < binaries.len() && i < ids.len()
        invariant
            i <= binaries.len(),
            binaries@.len() == old(binaries)@.len(),
            forall|k: int|
                0 <= k < old(binaries)@.len() && k < ids@.len() && #[trigger] ids@[k] is Some ==> package_of(
                    packages@,
                    ids@[k]->0@,
                ) is Some,
            forall|k: int| i <= k < binaries@.len() ==> #[trigger] binaries@[k] == old(binaries)@[k],
            forall|k: int|
                0 <= k < i ==> match (if k < ids@.len() {
                    ids@[k]
                } else {
                    None
                }) {
                    Some(id) => with_package(old(binaries)@[k], #[trigger] binaries@[k], package_of(packages@, id@)->0, windows),
                    None => binaries@[k] == old(binaries)@[k],
                },
        decreases binaries.len() - i,
    {
        match &ids[i] {
            Some(id) => {
                match find_package(packages, id) {
                    Some(j) => {
                        let p = &packages[j];
                        let mut b = binaries.remove(i);
                        b.cargo_dir = match parent_path(p.manifest_path.as_str()) {
                            Some(d) => Some(crate::path_utils::fix_unc_path(d.as_str(), windows)),
                            None => None,
                        };
                        b.pkg_name = Some(p.name.clone());
                        b.pkg_version = Some(p.version.clone());
                        b.pkg_authors = Some(crate::text::copy_strings(&p.authors));
                        let ghost before_insert = binaries@;
                        binaries.insert(i, b);
                        assert(forall|k: int| 0 <= k < i ==> binaries@[k] == before_insert[k]);
                        assert(forall|k: int| i < k < binaries@.len() ==> binaries@[k] == before_insert[k - 1]);
                    },
                    None => {},
                }
            },
            None => {},
        }
        i = i + 1;
    }
}

/// A doctest binary that was found, with the nearest directory above it
/// that holds a manifest, where there is one.
pub struct DoctestEntry {
    pub path: String,
    pub cargo_dir: Option<String>,
}

/// The source prefix and line a doctest binary at `path` names, where its
/// folder's name can be read.
pub open spec fn doctest_meta_of(path: Seq<char>) -> Option<(Seq<char>, usize)> {
    match doctest_folder(components(path)) {
        Some(f) => doctest_meta_spec(f),
        None => None,
    }
}

/// Whether the entries for `prefix` hold `line`.
pub open spec fn listed(entries: Seq<(Seq<char>, Seq<usize>)>, prefix: Seq<char>, line: usize) -> bool {
    match key_index(entries, prefix) {
        Some(i) => entries[i].1.contains(line),
        None => false,
    }
}

/// A directory in the form the rest of the program uses; see `unc_fixed`.
pub open spec fn fixed_dir(d: Option<String>, windows: bool) -> Option<Seq<char>> {
    match d {
        Some(x) => Some(unc_fixed(x@, windows)),
        None => None,
    }
}

/// The doctest binaries to run, in order, each by its path, its manifest's
/// directory and whether it should panic: those whose source line is marked
/// `no_run` are left out, and those whose source line is marked
/// `should_panic` should panic. Paths are in the form `unc_fixed` gives.
pub open spec fn doctest_views(
    entries: Seq<DoctestEntry>,
    should_panics: Seq<(Seq<char>, Seq<usize>)>,
    no_runs: Seq<(Seq<char>, Seq<usize>)>,
    windows: bool,
) -> Seq<(Seq<char>, Option<Seq<char>>, bool)>
    decreases entries.len(),
{
    if entries.len() == 0 {
        Seq::<(Seq<char>, Option<Seq<char>>, bool)>::empty()
    } else {
        let rest = doctest_views(entries.drop_last(), should_panics, no_runs, windows);
        let e = entries.last();
        match doctest_meta_of(e.path@) {
            Some(m) => if listed(no_runs, m.0, m.1) {
                rest
            } else {
                rest.push((unc_fixed(e.path@, windows), fixed_dir(e.cargo_dir, windows), listed(should_panics, m.0, m.1)))
            },
            None => rest.push((unc_fixed(e.path@, windows), fixed_dir(e.cargo_dir, windows), false)),
        }
    }
}

fn listed_exec(entries: &Vec<(String, Vec<usize>)>, prefix: &String, line: usize) -> (res: bool)
    ensures
        res == listed(entries_view(entries@), prefix@, line),
{
    let ghost e = entries_view(entries@);
    let mut i: usize = entries.len();
    assert(e.take(i as int) =~= e);
    while i > 0
        invariant
            i <= entries.len(),
            e == entries_view(entries@),
            key_index(e, prefix@) == key_index(e.take(i as int), prefix@),
        decreases i,
    {
        if crate::text::string_eq(&entries[i - 1].0, prefix) {
            assert(e.take(i as int).last() == e[i - 1]);
            assert(key_index(e, prefix@) == Some((i - 1) as int));
            let ls = &entries[i - 1].1;
            let mut j: usize = 0;
            while j < ls.len()
                invariant
                    0 < i <= entries.len(),
                    e == entries_view(entries@),
                    key_index(e, prefix@) == Some((i - 1) as int),
                    ls@ == e[i - 1].1,
                    j <= ls.len(),
                    forall|k: int| 0 <= k < j ==> ls@[k] != line,
                decreases ls.len() - j,
            {
                if ls[j] == line {
                    assert(ls@[j as int] == line);
                    return true;
                }
                j = j + 1;
            }
            return false;
        }
        assert(e.take(i as int).drop_last() =~= e.take(i - 1));
        i = i - 1;
    }
    false
}

/// Adds the doctest binaries of `entries` to `result`, of kind `ty`, where
/// `should_panics` and `no_runs` give, by source prefix, the lines that
/// carry those markers: each binary gets its manifest's directory, and
/// should panic where its line is so marked; those marked `no_run` are left
/// out.
pub fn add_doctest_binaries(
    result: &mut CargoOutput,
    entries: &Vec<DoctestEntry>,
    ty: Option<RunType>,
    should_panics: &Vec<(String, Vec<usize>)>,
    no_runs: &Vec<(String, Vec<usize>)>,
    windows: bool,
)
    ensures
        ({
            let views = doctest_views(entries@, entries_view(should_panics@), entries_view(no_runs@), windows);
            let before = old(result).test_binaries@.len();
            &&& final(result).binaries == old(result).binaries
            &&& final(result).test_binaries@.len() == before + views.len()
            &&& final(result).test_binaries@.take(before as int) == old(result).test_binaries@
            &&& forall|k: int|
                0 <= k < views.len() ==> {
                    let b = #[trigger] final(result).test_binaries@[before + k];
                    &&& b.path@ == views[k].0
                    &&& b.ty == ty
                    &&& opt_str(b.cargo_dir) == views[k].1
                    &&& b.should_panic == views[k].2
                    &&& b.pkg_name is None
                    &&& b.pkg_version is None
                    &&& b.pkg_authors is None
                    &&& b.linker_paths@.len() == 0
                }
        }),
{
    let ghost sp = entries_view(should_panics@);
    let ghost nr = entries_view(no_runs@);
    let ghost tbs0 = result.test_binaries@;
    let before = result.test_binaries.len();
    let mut i: usize = 0;
    assert(entries@.take(0) =~= Seq::<DoctestEntry>::empty());
    while i < entries.len()
        invariant
            i <= entries.len(),
            sp == entries_view(should_panics@),
            nr == entries_view(no_runs@),
            tbs0 == old(result).test_binaries@,
            before == tbs0.len(),
            result.binaries == old(result).binaries,
            ({
                let views = doctest_views(entries@.take(i as int), sp, nr, windows);
                &&& result.test_binaries@.len() == before + views.len()
                &&& result.test_binaries@.take(before as int) == tbs0
                &&& forall|k: int|
                    0 <= k < views.len() ==> {
                        let b = #[trigger] result.test_binaries@[before + k];
                        &&& b.path@ == views[k].0
                        &&& b.ty == ty
                        &&& opt_str(b.cargo_dir) == views[k].1
                        &&& b.should_panic == views[k].2
                        &&& b.pkg_name is None
                        &&& b.pkg_version is None
                        &&& b.pkg_authors is None
                        &&& b.linker_paths@.len() == 0
                    }
            }),
        decreases entries.len() - i,
    {
        assert(entries@.take(i + 1).drop_last() =~= entries@.take(i as int));
        assert(entries@.take(i + 1).last() == entries@[i as int]);
        let e = &entries[i];
        let mut tb = TestBinary::new(crate::path_utils::fix_unc_path(e.path.as_str(), windows), ty);
        let mut keep = true;
        match DocTestBinaryMeta::new(e.path.as_str()) {
            Some(meta) => {
                if listed_exec(no_runs, &meta.prefix, meta.line) {
                    keep = false;
                } else {
                    tb.should_panic = listed_exec(should_panics, &meta.prefix, meta.line);
                }
            },
            None => {},
        }
        if keep {
            tb.cargo_dir = match &e.cargo_dir {
                Some(d) => Some(crate::path_utils::fix_unc_path(d.as_str(), windows)),
                None => None,
            };
            let ghost old_tbs = result.test_binaries@;
            result.test_binaries.push(tb);
            assert(result.test_binaries@.take(before as int) =~= old_tbs.take(before as int));
        }
        i = i + 1;
    }
    assert(entries@.take(entries.len() as int) =~= entries@);
}

} // verus!
