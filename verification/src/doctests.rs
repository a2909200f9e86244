//! Which lines of the project's sources carry an attribute, for each source
//! file that doctests were built from: how doctests that should panic or
//! should not run are told apart.
use vstd::prelude::*;
use crate::cargo::{doctest_folder, doctest_meta_spec, is_prefix_match, prefix_spec, DocTestBinaryMeta};
use crate::config::{path_relative_from, relative_from};
use crate::paths::components;
use crate::text::{contains_string, find_str_in_lines, lines_holding, strs, text_lines};

verus! {

/// A source file of the project, with what could be read of it.
pub struct SourceFile {
    /// Where the file is
    pub path: String,
    /// Its contents, where they could be read
    pub contents: Option<String>,
}

/// The source prefix a doctest binary at `test` names, where its folder's
/// name can be read.
pub open spec fn doctest_prefix(test: Seq<char>) -> Option<Seq<char>> {
    match doctest_folder(components(test)) {
        Some(f) => match doctest_meta_spec(f) {
            Some(m) => Some(m.0),
            None => None,
        },
        None => None,
    }
}

/// The numbers of the lines of a file that hold `attribute`; none where the
/// file could not be read.
pub open spec fn file_lines(contents: Option<Seq<char>>, attribute: Seq<char>) -> Seq<usize> {
    match contents {
        Some(c) => lines_holding(text_lines(c), attribute),
        None => Seq::<usize>::empty(),
    }
}

/// The place of the entry for `key`, the last one where there are several.
pub open spec fn key_index(res: Seq<(Seq<char>, Seq<usize>)>, key: Seq<char>) -> Option<int>
    decreases res.len(),
{
    if res.len() == 0 {
        None
    } else if res.last().0 == key {
        Some(res.len() - 1)
    } else {
        key_index(res.drop_last(), key)
    }
}

/// The entries with `lines` added to those for `key`, or a new entry for
/// `key` where there is none.
pub open spec fn add_lines(res: Seq<(Seq<char>, Seq<usize>)>, key: Seq<char>, lines: Seq<usize>) -> Seq<
    (Seq<char>, Seq<usize>),
> {
    match key_index(res, key) {
        Some(i) => res.update(i, (key, res[i].1 + lines)),
        None => res.push((key, lines)),
    }
}

/// Looking at one source file for the doctests of `prefix`: a file of that
/// prefix that was not looked at before adds its lines.
pub open spec fn visit(
    state: (Seq<(Seq<char>, Seq<usize>)>, Set<Seq<char>>),
    prefix: Seq<char>,
    root: Seq<char>,
    file: (Seq<char>, Seq<usize>),
) -> (Seq<(Seq<char>, Seq<usize>)>, Set<Seq<char>>) {
    match relative_from(file.0, root) {
        Some(p) => if prefix_spec(p) == Some(prefix) && !state.1.contains(file.0) {
            (add_lines(state.0, prefix, file.1), state.1.insert(file.0))
        } else {
            state
        },
        None => state,
    }
}

/// Looking at each of `files` in turn for the doctests of `prefix`.
pub open spec fn scan_files(
    state: (Seq<(Seq<char>, Seq<usize>)>, Set<Seq<char>>),
    prefix: Seq<char>,
    root: Seq<char>,
    files: Seq<(Seq<char>, Seq<usize>)>,
) -> (Seq<(Seq<char>, Seq<usize>)>, Set<Seq<char>>)
    decreases files.len(),
{
    if files.len() == 0 {
        state
    } else {
        visit(scan_files(state, prefix, root, files.drop_last()), prefix, root, files.last())
    }
}

/// Looking at the files for each doctest binary in turn, skipping those
/// whose prefix cannot be read.
pub open spec fn scan_tests(
    tests: Seq<Seq<char>>,
    root: Seq<char>,
    files: Seq<(Seq<char>, Seq<usize>)>,
) -> (Seq<(Seq<char>, Seq<usize>)>, Set<Seq<char>>)
    decreases tests.len(),
{
    if tests.len() == 0 {
        (Seq::<(Seq<char>, Seq<usize>)>::empty(), Set::<Seq<char>>::empty())
    } else {
        let st = scan_tests(tests.drop_last(), root, files);
        match doctest_prefix(tests.last()) {
            Some(p) => scan_files(st, p, root, files),
            None => st,
        }
    }
}

/// The source files by path, each with the lines that hold `attribute`.
pub open spec fn files_with_lines(sources: Seq<SourceFile>, attribute: Seq<char>) -> Seq<(Seq<char>, Seq<usize>)> {
    sources.map_values(|f: SourceFile| (f.path@, file_lines(crate::text::opt_str(f.contents), attribute)))
}

/// The view of the entries.
pub open spec fn entries_view(v: Seq<(String, Vec<usize>)>) -> Seq<(Seq<char>, Seq<usize>)> {
    v.map_values(|e: (String, Vec<usize>)| (e.0@, e.1@))
}

fn copy_lines(v: &Vec<usize>) -> (res: Vec<usize>)
    ensures
        res@ == v@,
{
    let mut out: Vec<usize> = Vec::new();
    let mut i: usize = 0;
    while i < v.len()
        invariant
            i <= v.len(),
            out@ == v@.take(i as int),
        decreases v.len() - i,
    {
        out.push(v[i]);
        assert(v@.take(i + 1) =~= v@.take(i as int).push(v@[i as int]));
        i = i + 1;
    }
    assert(v@.take(v.len() as int) =~= v@);
    out
}

fn add_lines_exec(res: &mut Vec<(String, Vec<usize>)>, key: &String, lines: &Vec<usize>)
    ensures
        entries_view(final(res)@) == add_lines(entries_view(old(res)@), key@, lines@),
{
    let ghost e = entries_view(res@);
    let mut i: usize = res.len();
    assert(e.take(i as int) =~= e);
    while i > 0
        invariant
            i <= res.len(),
            e == entries_view(res@),
            e == entries_view(old(res)@),
            key_index(e, key@) == key_index(e.take(i as int), key@),
        decreases i,
    {
        if crate::text::string_eq(&res[i - 1].0, key) {
            assert(e.take(i as int).last() == e[i - 1]);
            assert(key_index(e, key@) == Some((i - 1) as int));
            let mut merged = copy_lines(&res[i - 1].1);
            let mut j: usize = 0;
            while j < lines.len()
                invariant
                    0 < i <= res.len(),
                    e == entries_view(res@),
                    key_index(e, key@) == Some((i - 1) as int),
                    j <= lines.len(),
                    merged@ == res@[i - 1].1@ + lines@.take(j as int),
                decreases lines.len() - j,
            {
                merged.push(lines[j]);
                assert(lines@.take(j + 1) =~= lines@.take(j as int).push(lines@[j as int]));
                j = j + 1;
            }
            assert(lines@.take(lines.len() as int) =~= lines@);
            let k = key.clone();
            res.set(i - 1, (k, merged));
            assert(entries_view(res@) =~= add_lines(e, key@, lines@));
            return;
        }
        assert(e.take(i as int).drop_last() =~= e.take(i - 1));
        i = i - 1;
    }
    assert(key_index(e.take(0), key@) is None);
    res.push((key.clone(), copy_lines(lines)));
    assert(entries_view(res@) =~= add_lines(e, key@, lines@));
}

/// For each source prefix of the doctest binaries at `tests`, the numbers
/// of the lines that hold `attribute` in the project's source files of that
/// prefix, where `root` is the project's directory; each file counts once,
/// for the first doctest that names it, and the prefixes come in the order
/// they were first found.
pub fn attribute_candidates(tests: &Vec<String>, root: &str, sources: &Vec<SourceFile>, attribute: &str) -> (res: Vec<
    (String, Vec<usize>),
>)
    ensures
        entries_view(res@) == scan_tests(strs(tests@), root@, files_with_lines(sources@, attribute@)).0,
{
    let ghost files = files_with_lines(sources@, attribute@);
    let mut lines: Vec<Vec<usize>> = Vec::new();
    let mut f: usize = 0;
    while f < sources.len()
        invariant
            f <= sources.len(),
            lines@.len() == f,
            files == files_with_lines(sources@, attribute@),
            forall|k: int| 0 <= k < f ==> #[trigger] lines@[k]@ == files[k].1,
        decreases sources.len() - f,
    {
        let found = match &sources[f].contents {
            Some(c) => find_str_in_lines(c.as_str(), attribute),
            None => Vec::new(),
        };
        lines.push(found);
        f = f + 1;
    }
    let mut result: Vec<(String, Vec<usize>)> = Vec::new();
    let mut checked: Vec<String> = Vec::new();
    let ghost ts = strs(tests@);
    let mut i: usize = 0;
    assert(ts.take(0) =~= Seq::<Seq<char>>::empty());
    while i < tests.len()
        invariant
            i <= tests.len(),
            ts == strs(tests@),
            files == files_with_lines(sources@, attribute@),
            lines@.len() == sources@.len(),
            forall|k: int| 0 <= k < sources@.len() ==> #[trigger] lines@[k]@ == files[k].1,
            (entries_view(result@), strs(checked@).to_set()) == scan_tests(ts.take(i as int), root@, files),
        decreases tests.len() - i,
    {
        assert(ts.take(i + 1).drop_last() =~= ts.take(i as int));
        assert(ts.take(i + 1).last() == tests@[i as int]@);
        match DocTestBinaryMeta::new(tests[i].as_str()) {
            Some(meta) => {
                let prefix = meta.prefix;
                let ghost start = (entries_view(result@), strs(checked@).to_set());
                let mut j: usize = 0;
                assert(files.take(0) =~= Seq::<(Seq<char>, Seq<usize>)>::empty());
                while j < sources.len()
                    invariant
                        j <= sources.len(),
                        files == files_with_lines(sources@, attribute@),
                        lines@.len() == sources@.len(),
                        forall|k: int| 0 <= k < sources@.len() ==> #[trigger] lines@[k]@ == files[k].1,
                        (entries_view(result@), strs(checked@).to_set()) == scan_files(start, prefix@, root@, files.take(j as int)),
                    decreases sources.len() - j,
                {
                    assert(files.take(j + 1).drop_last() =~= files.take(j as int));
                    assert(files.take(j + 1).last() == files[j as int]);
                    assert(files[j as int].0 == sources@[j as int].path@);
                    let path = &sources[j].path;
                    match path_relative_from(path.as_str(), root) {
                        Some(p) => {
                            if is_prefix_match(prefix.as_str(), p.as_str()) && !contains_string(&checked, path) {
                                let ghost old_checked = strs(checked@);
                                checked.push(path.clone());
                                assert(strs(checked@) =~= old_checked.push(path@));
                                proof {
                                    old_checked.lemma_push_to_set_commute(path@);
                                }
                                add_lines_exec(&mut result, &prefix, &lines[j]);
                            }
                        },
                        None => {},
                    }
                    j = j + 1;
                }
                assert(files.take(sources.len() as int) =~= files);
            },
            None => {},
        }
        i = i + 1;
    }
    assert(ts.take(tests.len() as int) =~= ts);
    result
}

} // verus!
