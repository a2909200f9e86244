//! Which files of a project count for coverage.
use vstd::prelude::*;
use crate::paths::{
    Comp, Component, comp_text, components, comps_view, is_absolute_spec, join_spec,
    path_components, is_absolute, path_starts_with, comps_strip_prefix, component_text, join_text,
    comps_start_with, render_components, render,
};
use crate::text::{chars_of, path_is_file, path_is_dir, string_of, str_eq};

verus! {

/// The start of a Windows extended-length (UNC) path.
pub open spec fn unc_prefix() -> Seq<char> {
    seq!['\\', '\\', '?']
}

/// The marker of an extended-length path, with its separator.
pub open spec fn unc_marker() -> Seq<char> {
    seq!['\\', '\\', '?', '\\']
}

/// `s` with every `\\?\` taken out, read from the left.
pub open spec fn without_marker(s: Seq<char>) -> Seq<char>
    decreases s.len(),
{
    if s.len() == 0 {
        s
    } else if unc_marker().is_prefix_of(s) {
        without_marker(s.skip(4))
    } else {
        seq![s[0]] + without_marker(s.skip(1))
    }
}

/// A path in the form the rest of the program uses: on Windows an
/// extended-length path loses every `\\?\`; otherwise the path itself.
pub open spec fn unc_fixed(p: Seq<char>, windows: bool) -> Seq<char> {
    if windows && unc_prefix().is_prefix_of(p) {
        without_marker(p)
    } else {
        p
    }
}

/// A path in the form the rest of the program uses, where `windows` tells
/// whether the program runs on Windows; see `unc_fixed`.
pub fn fix_unc_path(res: &str, windows: bool) -> (out: String)
    ensures
        out@ == unc_fixed(res@, windows),
{
    let cs = chars_of(res);
    if !(windows && cs.len() >= 3 && cs[0] == '\\' && cs[1] == '\\' && cs[2] == '?') {
        proof {
            if windows && unc_prefix().is_prefix_of(res@) {
                assert(res@[0] == unc_prefix()[0]);
                assert(res@[1] == unc_prefix()[1]);
                assert(res@[2] == unc_prefix()[2]);
            }
        }
        return res.to_string();
    }
    assert(unc_prefix().is_prefix_of(res@)) by {
        assert(res@.subrange(0, 3) =~= unc_prefix());
    }
    let mut out: Vec<char> = Vec::new();
    let mut i: usize = 0;
    assert(cs@.skip(0) =~= cs@);
    while i < cs.len()
        invariant
            i <= cs@.len(),
            cs@ == res@,
            out@ + without_marker(cs@.skip(i as int)) == without_marker(cs@),
        decreases cs@.len() - i,
    {
        let ghost t = cs@.skip(i as int);
        if cs.len() - i >= 4 && cs[i] == '\\' && cs[i + 1] == '\\' && cs[i + 2] == '?' && cs[i + 3] == '\\' {
            assert(t.subrange(0, 4) =~= unc_marker());
            assert(t.skip(4) =~= cs@.skip(i + 4));
            i = i + 4;
        } else {
            proof {
                if unc_marker().is_prefix_of(t) {
                    assert(t[0] == unc_marker()[0] && t[1] == unc_marker()[1]);
                    assert(t[2] == unc_marker()[2] && t[3] == unc_marker()[3]);
                    assert(false);
                }
                assert(t.skip(1) =~= cs@.skip(i + 1));
                assert(seq![t[0]] + without_marker(t.skip(1)) == without_marker(t));
            }
            let ghost before = out@;
            out.push(cs[i]);
            assert(out@ + without_marker(cs@.skip(i + 1)) =~= before + (seq![t[0]] + without_marker(t.skip(1))));
            i = i + 1;
        }
    }
    assert(cs@.skip(i as int) =~= Seq::<char>::empty());
    assert(out@ =~= without_marker(cs@));
    string_of(&out)
}

/// Whether some component of `cs`, as text, starts with a dot.
pub open spec fn has_dot_comp(cs: Seq<Comp>) -> bool {
    exists|i: int| 0 <= i < cs.len() && comp_text(#[trigger] cs[i]).len() > 0 && comp_text(cs[i])[0] == '.'
}

/// The components of `entry` below `root`, or all of them where it is not below `root`.
pub open spec fn below(entry: Seq<char>, root: Seq<char>) -> Seq<Comp> {
    if components(root).is_prefix_of(components(entry)) {
        components(entry).skip(components(root).len() as int)
    } else {
        components(entry)
    }
}

/// A file or folder is hidden when a component of its path below the root
/// starts with a dot.
pub open spec fn is_hidden_spec(entry: Seq<char>, root: Seq<char>) -> bool {
    has_dot_comp(below(entry, root))
}

fn any_dot_comp(cs: &Vec<Component>) -> (res: bool)
    ensures
        res == has_dot_comp(comps_view(cs@)),
{
    let mut i: usize = 0;
    while i < cs.len()
        invariant
            i <= cs.len(),
            forall|k: int| 0 <= k < i ==> !(comp_text(#[trigger] comps_view(cs@)[k]).len() > 0
                && comp_text(comps_view(cs@)[k])[0] == '.'),
        decreases cs.len() - i,
    {
        let t = component_text(&cs[i]);
        if t.len() > 0 && t[0] == '.' {
            assert(comp_text(comps_view(cs@)[i as int]) == t@);
            return true;
        }
        i = i + 1;
    }
    false
}

/// Returns true if the file or folder is hidden.
pub fn is_hidden(entry: &str, root: &str) -> (res: bool)
    ensures
        res == is_hidden_spec(entry@, root@),
{
    let e = path_components(entry);
    let r = path_components(root);
    match comps_strip_prefix(&e, &r) {
        Some(rest) => any_dot_comp(&rest),
        None => any_dot_comp(&e),
    }
}

/// Returns true if the entry lies in the target folder.
pub fn is_target_folder(entry: &str, target: &str) -> (res: bool)
    ensures
        res == components(target@).is_prefix_of(components(entry@)),
{
    path_starts_with(entry, target)
}

/// Whether the entry lies in cargo's home, `cargo_home` being the value of
/// `CARGO_HOME` where it is set: the home itself when it is absolute, else
/// the home taken from the root.
pub open spec fn is_cargo_home_spec(entry: Seq<char>, root: Seq<char>, cargo_home: Option<Seq<char>>) -> bool {
    match cargo_home {
        Some(h) => (is_absolute_spec(h) && components(h).is_prefix_of(components(entry)))
            || components(join_spec(root, h)).is_prefix_of(components(entry)),
        None => false,
    }
}

/// If cargo's home is known, whether the entry lies in it.
pub fn is_cargo_home(entry: &str, root: &str, cargo_home: Option<&str>) -> (res: bool)
    ensures
        res == is_cargo_home_spec(entry@, root@, match cargo_home {
            Some(h) => Some(h@),
            None => None,
        }),
{
    match cargo_home {
        Some(s) => {
            if is_absolute(s) && path_starts_with(entry, s) {
                true
            } else {
                let home = string_of(&join_text(&chars_of(root), &chars_of(s)));
                path_starts_with(entry, home.as_str())
            }
        },
        None => false,
    }
}

/// Whether the entry belongs to the project: below the root where both are
/// absolute; where only the root is absolute, whether a file exists at the
/// entry taken from the root (`on_disk`, what the file system answers); true
/// where both are relative.
pub open spec fn part_of_project_spec(e: Seq<char>, root: Seq<char>, on_disk: bool) -> bool {
    if is_absolute_spec(e) && is_absolute_spec(root) {
        components(root).is_prefix_of(components(e))
    } else if is_absolute_spec(root) {
        on_disk
    } else {
        true
    }
}

/// Whether the entry belongs to the project. Where only the root is
/// absolute, the file system decides, and the answer is whatever it gave.
pub fn is_part_of_project(e: &str, root: &str) -> (res: bool)
    ensures
        res == part_of_project_spec(e@, root@, true) || res == part_of_project_spec(e@, root@, false),
        !(is_absolute_spec(root@) && !is_absolute_spec(e@)) ==> res == part_of_project_spec(e@, root@, false),
{
    if is_absolute(e) && is_absolute(root) {
        path_starts_with(e, root)
    } else if is_absolute(root) {
        let joined = string_of(&join_text(&chars_of(root), &chars_of(e)));
        path_is_file(joined.as_str())
    } else {
        true
    }
}

/// Whether a file counts for coverage, leaving aside the file system: not
/// in the target folder, not hidden, not in cargo's home, and part of the
/// project (`on_disk` deciding where only the root is absolute).
pub open spec fn coverable_spec(path: Seq<char>, root: Seq<char>, target: Seq<char>, cargo_home: Option<Seq<char>>, on_disk: bool) -> bool {
    !(components(target).is_prefix_of(components(path)) || is_hidden_spec(path, root)
        || is_cargo_home_spec(path, root, cargo_home))
        && part_of_project_spec(path, root, on_disk)
}

/// Whether the file at `path` counts for coverage, given the project root,
/// the target folder and the value of `CARGO_HOME` where it is set.
pub fn is_coverable_file_path(path: &str, root: &str, target: &str, cargo_home: Option<&str>) -> (res: bool)
    ensures
        res == coverable_spec(path@, root@, target@, match cargo_home {
            Some(h) => Some(h@),
            None => None,
        }, true) || res == coverable_spec(path@, root@, target@, match cargo_home {
            Some(h) => Some(h@),
            None => None,
        }, false),
        !(is_absolute_spec(root@) && !is_absolute_spec(path@)) ==> res == coverable_spec(path@, root@, target@, match cargo_home {
            Some(h) => Some(h@),
            None => None,
        }, false),
{
    let ignorable_paths = !(is_target_folder(path, target) || is_hidden(path, root)
        || is_cargo_home(path, root, cargo_home));
    if !ignorable_paths {
        return false;
    }
    is_part_of_project(path, root)
}

/// The number of leading components, above `r`, up to and including the
/// deepest component of `cs` named `tests`.
pub open spec fn last_tests_index(cs: Seq<Comp>, r: int) -> Option<int>
    decreases cs.len(),
{
    if cs.len() == 0 || cs.len() <= r {
        None
    } else if cs.last() == Comp::Normal("tests"@) {
        Some(cs.len() as int)
    } else {
        last_tests_index(cs.drop_last(), r)
    }
}

/// The folder holding the deepest `tests` folder that `path` lies in below
/// `root`, if there is one.
pub open spec fn tests_package_spec(path: Seq<char>, root: Seq<char>) -> Option<Seq<char>> {
    let cs = components(path);
    let rc = components(root);
    if !rc.is_prefix_of(cs) {
        None
    } else {
        match last_tests_index(cs, rc.len() as int) {
            Some(k) => Some(render(cs.take(k - 1))),
            None => None,
        }
    }
}

/// The folder holding the deepest `tests` folder that `path` lies in below `root`.
pub fn tests_package_dir(root: &str, path: &str) -> (res: Option<String>)
    ensures
        res matches Some(d) ==> tests_package_spec(path@, root@) == Some(d@),
        res is None ==> tests_package_spec(path@, root@) is None,
{
    let cs = path_components(path);
    let rc = path_components(root);
    if !comps_start_with(&cs, &rc) {
        return None;
    }
    let ghost cv = comps_view(cs@);
    let ghost r = rc.len() as int;
    assert(comps_view(rc@).len() == rc@.len());
    assert(components(root@).is_prefix_of(components(path@)));
    let mut k: usize = cs.len();
    assert(cv.take(k as int) =~= cv);
    proof {
        reveal_strlit("tests");
    }
    while k > rc.len()
        invariant
            k <= cs.len(),
            cv == comps_view(cs@),
            cv == components(path@),
            r == components(root@).len(),
            components(root@).is_prefix_of(components(path@)),
            r == rc.len(),
            last_tests_index(cv, r) == last_tests_index(cv.take(k as int), r),
        decreases k,
    {
        assert(cv.take(k as int).last() == cs@[k - 1]@);
        let found = match &cs[k - 1] {
            Component::Normal(n) => {
                let t = string_of(n);
                str_eq(t.as_str(), "tests")
            },
            _ => false,
        };
        assert(found <==> cv.take(k as int).last() == Comp::Normal("tests"@));
        if found {
            assert(last_tests_index(cv.take(k as int), r) == Some(k as int));
            let mut pre: Vec<Component> = Vec::new();
            let mut i: usize = 0;
            while i + 1 < k
                invariant
                    i + 1 <= k <= cs.len(),
                    comps_view(pre@) =~= cv.take(i as int),
                    cv == comps_view(cs@),
                decreases k - i,
            {
                let c = crate::paths::copy_component(&cs[i]);
                let ghost o = comps_view(pre@);
                pre.push(c);
                assert(comps_view(pre@) =~= o.push(cv[i as int]));
                i = i + 1;
            }
            assert(cv.take(k as int).take(k - 1) =~= cv.take(k - 1));
            assert(tests_package_spec(path@, root@) == Some(render(cv.take(k - 1))));
            return Some(string_of(&render_components(&pre)));
        }
        assert(cv.take(k as int).drop_last() =~= cv.take(k - 1));
        k = k - 1;
    }
    None
}

/// Whether `path` lies in the `tests` folder of a package below `root`
/// whose folder has a `Cargo.toml` file (`m`) and a `src` folder (`d`).
pub open spec fn tests_folder_spec(path: Seq<char>, root: Seq<char>, m: bool, d: bool) -> bool {
    tests_package_spec(path, root) is Some && m && d
}

/// Whether `path` has the extension `ext` and is a regular file (`f`).
pub open spec fn file_with_extension(path: Seq<char>, ext: Seq<char>, f: bool) -> bool {
    extension_spec(path) == Some(ext) && f
}

/// Whether `path` lies in the `tests` folder of a package below `root`,
/// given whether the folder holding that `tests` folder has a `Cargo.toml`
/// file (`manifest_is_file`) and a `src` folder (`src_is_dir`).
pub fn tests_folder_answer(root: &str, path: &str, manifest_is_file: bool, src_is_dir: bool) -> (res: bool)
    ensures
        res == tests_folder_spec(path@, root@, manifest_is_file, src_is_dir),
{
    match tests_package_dir(root, path) {
        Some(_) => manifest_is_file && src_is_dir,
        None => false,
    }
}

/// Whether `path` lies in the `tests` folder of a package below `root`:
/// the folder holding that `tests` folder has a `Cargo.toml` file and a
/// `src` folder, as the file system answers (see `tests_folder_answer`).
pub fn is_tests_folder_package(root: &str, path: &str) -> (res: bool)
    ensures
        exists|m: bool, d: bool| res == tests_folder_spec(path@, root@, m, d),
{
    match tests_package_dir(root, path) {
        Some(pkg_dir) => {
            let d = chars_of(pkg_dir.as_str());
            let manifest = string_of(&join_text(&d, &chars_of("Cargo.toml")));
            let src = string_of(&join_text(&d, &chars_of("src")));
            let m = path_is_file(manifest.as_str());
            let s = path_is_dir(src.as_str());
            tests_folder_answer(root, path, m, s)
        },
        None => tests_folder_answer(root, path, false, false),
    }
}

/// The extension of the path's file name: what follows its last dot,
/// where the name has a dot that is not its first character.
pub open spec fn extension_spec(p: Seq<char>) -> Option<Seq<char>> {
    match crate::paths::file_name_spec(components(p)) {
        Some(n) => match crate::cargo::rfind_char(n, '.') {
            Some(i) => if i > 0 {
                Some(n.skip(i + 1))
            } else {
                None
            },
            None => None,
        },
        None => None,
    }
}

/// The extension of the path's file name; see `extension_spec`.
pub fn path_extension(p: &str) -> (res: Option<String>)
    ensures
        crate::text::opt_str(res) == extension_spec(p@),
{
    match crate::paths::path_file_name(p) {
        Some(n) => match crate::cargo::rfind_char_exec(&n, '.') {
            Some(i) => {
                if i > 0 {
                    let mut out: Vec<char> = Vec::new();
                    let mut k: usize = i + 1;
                    while k < n.len()
                        invariant
                            i + 1 <= k <= n@.len(),
                            out@ == n@.subrange(i + 1, k as int),
                        decreases n@.len() - k,
                    {
                        out.push(n[k]);
                        assert(out@ =~= n@.subrange(i + 1, k + 1));
                        k = k + 1;
                    }
                    assert(out@ =~= n@.skip(i + 1));
                    Some(string_of(&out))
                } else {
                    None
                }
            },
            None => None,
        },
        None => None,
    }
}

/// Whether `path`, a regular file where `is_file` says so, is a Rust
/// source file: a regular file with the extension `rs`.
pub fn source_file_answer(path: &str, is_file: bool) -> (res: bool)
    ensures
        res == file_with_extension(path@, "rs"@, is_file),
{
    let ext = path_extension(path);
    let rs = match &ext {
        Some(e) => str_eq(e.as_str(), "rs"),
        None => false,
    };
    rs && is_file
}

/// Whether `path` is a Rust source file: see `source_file_answer`, with the
/// file system answering whether it is a regular file.
pub fn is_source_file(path: &str) -> (res: bool)
    ensures
        exists|f: bool| res == file_with_extension(path@, "rs"@, f),
{
    let f = path_is_file(path);
    source_file_answer(path, f)
}

/// Whether `path`, a regular file where `is_file` says so, is an llvm
/// profile: a regular file with the extension `profraw`.
pub fn profraw_file_answer(path: &str, is_file: bool) -> (res: bool)
    ensures
        res == file_with_extension(path@, "profraw"@, is_file),
{
    let ext = path_extension(path);
    let pr = match &ext {
        Some(e) => str_eq(e.as_str(), "profraw"),
        None => false,
    };
    pr && is_file
}

/// Whether `path` is an llvm profile: see `profraw_file_answer`, with the
/// file system answering whether it is a regular file.
pub fn is_profraw_file(path: &str) -> (res: bool)
    ensures
        exists|f: bool| res == file_with_extension(path@, "profraw"@, f),
{
    let f = path_is_file(path);
    profraw_file_answer(path, f)
}

} // verus!
