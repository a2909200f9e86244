//! The analysis of a project's source files taken together: the analysis
//! kept for each file, the modules whose files are left out entirely, and
//! the steps of analysing one file that decide without reading its items.
use vstd::prelude::*;
use crate::analysis::{LineAnalysis, Lines};
use crate::attributes::{
    attrs_keep, attrs_looked_at, check_attr_list, ctx_view, meta_wf, span_lines, AttrSyntax, CfgContext,
};
use crate::analysis::{ignorable_lines, single_lines};
use crate::config::types::RunType;
use crate::config::contains_run_type;
use crate::paths::{
    components, file_name_spec, join_spec, join_text, parent_opt, parent_path, path_eq, path_file_name,
    path_starts_with, same_path,
};
use crate::text::{chars_of, opt_str, path_is_dir, string_of};
use crate::file_syntax::FileSyntax;
use crate::syntax_walk::{env, ig, line_set, sv, w_file, walk_file, WalkConfig, WalkState};
use crate::attributes::ctx_view as cfg_view;
use crate::fn_lines::{module_file, module_file_path};
use crate::text::{lines_of, strs, text_lines};

verus! {

/// The syntax tree `syn::parse_file` reads from the text of a file, where
/// the text parses.
pub uninterp spec fn file_syntax(contents: Seq<char>) -> Option<FileSyntax>;

/// Parses the text of a Rust source file with `syn::parse_file`: `None`
/// where `syn` refuses it, else the tree, read into plain values (see
/// `syn_convert`). The parse depends on the text alone.
#[verifier::external_body]
pub fn parse_file_syntax(contents: &str) -> (res: Option<FileSyntax>)
    ensures
        res == file_syntax(contents@),
{
    syn::parse_file(contents).ok().map(|f| crate::syn_convert::file_of(&f))
}

/// The analysis of one file, with the file's path.
pub struct FileAnalysis {
    pub path: String,
    pub analysis: LineAnalysis,
}

/// The analysis of the source files of a project.
pub struct SourceAnalysis {
    /// The analysis of each file (no path twice).
    pub lines: Vec<FileAnalysis>,
    /// Directories whose files are all left out of coverage.
    pub ignored_modules: Vec<String>,
}

/// Whether some module of `modules` holds the file at `path`.
pub open spec fn under_some(modules: Seq<String>, path: Seq<char>) -> bool {
    exists|i: int| 0 <= i < modules.len() && components((#[trigger] modules[i])@).is_prefix_of(components(path))
}


/// Whether the text `s` starts with `prefix`.
pub fn text_starts_with(s: &str, prefix: &str) -> (res: bool)
    ensures
        res == prefix@.is_prefix_of(s@),
{
    let a = chars_of(s);
    let b = chars_of(prefix);
    if b.len() > a.len() {
        return false;
    }
    let mut i: usize = 0;
    while i < b.len()
        invariant
            i <= b@.len() <= a@.len(),
            a@ == s@,
            b@ == prefix@,
            forall|k: int| 0 <= k < i ==> a@[k] == b@[k],
        decreases b@.len() - i,
    {
        if a[i] != b[i] {
            return false;
        }
        i = i + 1;
    }
    assert(b@ =~= a@.subrange(0, b@.len() as int));
    true
}

/// Whether the file at `path` is left out before it is read: it lies in
/// the project's `tests` folder and tests do not count, or in its
/// `examples` folder and examples are not run.
pub open spec fn skipped_spec(path: Seq<char>, root: Seq<char>, include_tests: bool, run_types: Seq<RunType>) -> bool {
    (!include_tests && components(join_spec(root, "tests"@)).is_prefix_of(components(path)))
        || (components(join_spec(root, "examples"@)).is_prefix_of(components(path)) && !run_types.contains(
        RunType::Examples,
    ))
}

/// Whether the file at `path` is left out before it is read; see `skipped_spec`.
pub fn skipped_file(path: &str, root: &str, include_tests: bool, run_types: &Vec<RunType>) -> (res: bool)
    ensures
        res == skipped_spec(path@, root@, include_tests, run_types@),
{
    let r = chars_of(root);
    let tests = string_of(&join_text(&r, &chars_of("tests")));
    let examples = string_of(&join_text(&r, &chars_of("examples")));
    proof {
        reveal_strlit("tests");
        reveal_strlit("examples");
    }
    let skip_test = !include_tests && path_starts_with(path, tests.as_str());
    let skip_example = path_starts_with(path, examples.as_str()) && !contains_run_type(run_types, RunType::Examples);
    skip_test || skip_example
}

/// A file name with every trailing `.rs` taken off.
pub open spec fn trim_rs(n: Seq<char>) -> Seq<char>
    decreases n.len(),
{
    if n.len() >= 3 && n.subrange(n.len() - 3, n.len() as int) == ".rs"@ {
        trim_rs(n.subrange(0, n.len() - 3))
    } else {
        n
    }
}

/// `n` with every trailing `.rs` taken off.
fn trim_rs_exec(n: &Vec<char>) -> (res: Vec<char>)
    ensures
        res@ == trim_rs(n@),
{
    proof {
        reveal_strlit(".rs");
    }
    let mut end: usize = n.len();
    assert(n@.subrange(0, end as int) =~= n@);
    while end >= 3 && n[end - 3] == '.' && n[end - 2] == 'r' && n[end - 1] == 's'
        invariant
            end <= n@.len(),
            trim_rs(n@.subrange(0, end as int)) == trim_rs(n@),
        decreases end,
    {
        proof {
            reveal_strlit(".rs");
        }
        assert(n@.subrange(0, end as int).subrange(end - 3, end as int) =~= ".rs"@);
        assert(n@.subrange(0, end as int).subrange(0, end - 3) =~= n@.subrange(0, end - 3));
        end = end - 3;
    }
    let mut out: Vec<char> = Vec::new();
    let mut i: usize = 0;
    while i < end
        invariant
            i <= end <= n@.len(),
            out@ == n@.subrange(0, i as int),
        decreases end - i,
    {
        out.push(n[i]);
        assert(out@ =~= n@.subrange(0, i + 1));
        i = i + 1;
    }
    proof {
        reveal_strlit(".rs");
        let t = n@.subrange(0, end as int);
        if t.len() >= 3 {
            if t.subrange(t.len() - 3, t.len() as int) == ".rs"@ {
                assert(t.subrange(t.len() - 3, t.len() as int)[0] == '.');
                assert(t.subrange(t.len() - 3, t.len() as int)[1] == 'r');
                assert(t.subrange(t.len() - 3, t.len() as int)[2] == 's');
                assert(t[t.len() - 3] == '.' && t[t.len() - 2] == 'r' && t[t.len() - 1] == 's');
                assert(false);
            }
        }
    }
    out
}

/// The name of a module's entry file: `lib.rs` or `mod.rs`.
pub open spec fn is_module_root(n: Seq<char>) -> bool {
    n == "lib.rs"@ || n == "mod.rs"@
}

/// The directory a file left out of coverage takes with it, as far as the
/// path decides: for `lib.rs` and `mod.rs` the folder that holds it (known
/// to be one), for another file the folder named after it beside it (to be
/// one only where such a directory exists).
pub open spec fn module_candidate(path: Seq<char>) -> Option<(Seq<char>, bool)> {
    match (parent_opt(path), file_name_spec(components(path))) {
        (Some(p), Some(n)) => if is_module_root(n) {
            Some((p, true))
        } else {
            Some((join_spec(p, trim_rs(n)), false))
        },
        _ => None,
    }
}

/// The directory a file left out of coverage takes with it; see
/// `module_candidate`. Whether the folder named after a file exists is
/// read from the disk.
pub fn excluded_module(path: &str) -> (res: Option<String>)
    ensures
        module_candidate(path@) is None ==> res is None,
        module_candidate(path@) matches Some((d, true)) ==> opt_str(res) == Some(d),
        module_candidate(path@) matches Some((d, false)) ==> res is None || opt_str(res) == Some(d),
{
    proof {
        reveal_strlit("lib.rs");
        reveal_strlit("mod.rs");
    }
    match (parent_path(path), path_file_name(path)) {
        (Some(p), Some(n)) => {
            let name = string_of(&n);
            if crate::text::str_eq(name.as_str(), "lib.rs") || crate::text::str_eq(name.as_str(), "mod.rs") {
                Some(p)
            } else {
                let dir = string_of(&join_text(&chars_of(p.as_str()), &trim_rs_exec(&n)));
                if path_is_dir(dir.as_str()) {
                    Some(dir)
                } else {
                    None
                }
            }
        },
        _ => None,
    }
}

/// The lines from `start` to `end`, inclusive.
pub open spec fn span_set(start: int, end: int) -> Set<Lines> {
    Set::new(|l: Lines| l matches Lines::Line(i) && start <= i <= end)
}

/// Whether the first line of a file, `first`, is kept: it starts with
/// `pub` or `fn`.
pub open spec fn first_line_kept(first: Seq<char>) -> bool {
    "pub"@.is_prefix_of(first) || "fn"@.is_prefix_of(first)
}


/// The state of the analysis of the file at `p` before its syntax is
/// walked (see `WalkState`): that of its entry, or an empty one.
pub open spec fn entry_state(s: SourceAnalysis, p: Seq<char>, mods: Seq<String>) -> WalkState {
    if s.has_path(p) {
        sv(s.lines@[s.index_of(p)].analysis, mods)
    } else {
        (Set::empty(), Set::empty(), Map::empty(), strs(mods))
    }
}

/// What became of a file the analysis met.
#[derive(Debug, Copy, Clone, PartialEq, Eq, Structural)]
pub enum PackageStep {
    /// Left out before being read: all its lines are ignored
    Skipped,
    /// Its text could not be read
    Unread,
    /// Its text does not parse
    Unparsed,
    /// Its items were walked
    Analysed,
    /// Its attributes leave it out
    Rejected,
}

/// The first line of a text, where it has one.
pub open spec fn first_of(c: Seq<char>) -> Option<Seq<char>> {
    if text_lines(c).len() > 0 {
        Some(text_lines(c)[0])
    } else {
        None
    }
}

/// The files standing for the modules named `names`, declared in `file`:
/// each the entry named after the module or that name with `.rs` added.
pub open spec fn module_files(file: Seq<char>, names: Seq<Seq<char>>, files: Seq<Seq<char>>) -> bool {
    &&& files.len() == names.len()
    &&& forall|k: int|
        0 <= k < names.len() ==> #[trigger] files[k] == module_file(file, names[k], true) || files[k]
            == module_file(file, names[k], false)
}

impl SourceAnalysis {
    /// The place of the entry of the file at `p` (meaningful where it has one).
    pub open spec fn index_of(&self, p: Seq<char>) -> int {
        choose|i: int| 0 <= i < self.lines@.len() && same_path((#[trigger] self.lines@[i]).path@, p)
    }

    /// The lines left out of the file at `p`: none where it has no entry.
    pub open spec fn ignore_of(&self, p: Seq<char>) -> Set<Lines> {
        if self.has_path(p) {
            self.lines@[self.index_of(p)].analysis.ignore@.to_set()
        } else {
            Set::empty()
        }
    }

    /// Whether all lines of the file at `p` are left out by its entry.
    pub open spec fn all_ignored(&self, p: Seq<char>) -> bool {
        self.has_path(p) && self.lines@[self.index_of(p)].analysis.ignore@.contains(Lines::All)
    }

    /// Whether line `l` of the file at `p` is left out of coverage: its
    /// entry ignores it, or all lines, or the line lies past the file's end.
    pub open spec fn ignores_line(&self, p: Seq<char>, l: usize) -> bool {
        self.has_path(p) && {
            let a = self.lines@[self.index_of(p)].analysis;
            a.ignore@.contains(Lines::Line(l)) || a.ignore@.contains(Lines::All) || (a.max_line > 0 && a.max_line
                < l)
        }
    }

    /// The entry of a path is the one whose path is the same.
    pub proof fn lemma_index_of(&self, p: Seq<char>, i: int)
        requires
            self.wf(),
            0 <= i < self.lines@.len(),
            same_path(self.lines@[i].path@, p),
        ensures
            self.has_path(p),
            self.index_of(p) == i,
    {
        let k = self.index_of(p);
        assert(0 <= k < self.lines@.len() && same_path(self.lines@[k].path@, p));
        if k < i {
            assert(!same_path(self.lines@[k].path@, self.lines@[i].path@));
        } else if i < k {
            assert(!same_path(self.lines@[i].path@, self.lines@[k].path@));
        }
    }

    /// No path has two entries, and each file's analysis is well formed.
    pub open spec fn wf(&self) -> bool {
        &&& forall|i: int, j: int|
            #![trigger self.lines@[i], self.lines@[j]]
            0 <= i < j < self.lines@.len() ==> !same_path(self.lines@[i].path@, self.lines@[j].path@)
        &&& forall|i: int| 0 <= i < self.lines@.len() ==> (#[trigger] self.lines@[i]).analysis.wf()
    }

    /// Whether the file at `p` has an entry.
    pub open spec fn has_path(&self, p: Seq<char>) -> bool {
        exists|i: int| 0 <= i < self.lines@.len() && same_path((#[trigger] self.lines@[i]).path@, p)
    }

    /// An analysis with no files.
    pub fn new() -> (res: Self)
        ensures
            res.wf(),
            res.lines@.len() == 0,
            res.ignored_modules@.len() == 0,
    {
        SourceAnalysis { lines: Vec::new(), ignored_modules: Vec::new() }
    }

    /// The place of the entry of the file at `path`, if it has one.
    pub fn find(&self, path: &str) -> (res: Option<usize>)
        ensures
            res matches Some(i) ==> i < self.lines@.len() && same_path(self.lines@[i as int].path@, path@),
            res is None ==> !self.has_path(path@),
    {
        let mut i: usize = 0;
        while i < self.lines.len()
            invariant
                i <= self.lines@.len(),
                forall|k: int| 0 <= k < i ==> !same_path((#[trigger] self.lines@[k]).path@, path@),
            decreases self.lines@.len() - i,
        {
            if path_eq(self.lines[i].path.as_str(), path) {
                return Some(i);
            }
            i = i + 1;
        }
        None
    }

    /// The place of the entry of the file at `path`, made (for a file of
    /// `max_line` lines) where it has none.
    pub fn get_line_analysis(&mut self, path: &str, max_line: usize) -> (res: usize)
        requires
            old(self).wf(),
        ensures
            final(self).wf(),
            res < final(self).lines@.len(),
            same_path(final(self).lines@[res as int].path@, path@),
            final(self).ignored_modules@ == old(self).ignored_modules@,
            old(self).has_path(path@) ==> final(self).lines@ == old(self).lines@,
            !old(self).has_path(path@) ==> {
                &&& final(self).lines@.drop_last() == old(self).lines@
                &&& res == old(self).lines@.len()
                &&& final(self).lines@[res as int].path@ == path@
                &&& final(self).lines@[res as int].analysis.ignore@.len() == 0
                &&& final(self).lines@[res as int].analysis.cover@ == Set::<usize>::empty()
                &&& final(self).lines@[res as int].analysis.logical_lines@ == Map::<usize, usize>::empty()
                &&& final(self).lines@[res as int].analysis.max_line == max_line
            },
    {
        match self.find(path) {
            Some(i) => i,
            None => {
                let ghost old_lines = self.lines@;
                self.lines.push(FileAnalysis { path: path.to_string(), analysis: LineAnalysis::with_max_line(max_line) });
                assert(self.lines@.drop_last() =~= old_lines);
                assert forall|i: int, j: int|
                    #![trigger self.lines@[i], self.lines@[j]]
                    0 <= i < j < self.lines@.len() implies !same_path(self.lines@[i].path@, self.lines@[j].path@) by {
                    if j == old_lines.len() {
                        assert(self.lines@[i] == old_lines[i]);
                        assert(self.lines@[j].path@ == path@);
                    } else {
                        assert(self.lines@[i] == old_lines[i]);
                        assert(self.lines@[j] == old_lines[j]);
                    }
                }
                self.lines.len() - 1
            },
        }
    }

    /// Whether line `l` of the file at `path` is left out of coverage; no
    /// line of a file without an entry is.
    pub fn should_ignore(&self, path: &str, l: usize) -> (res: bool)
        requires
            self.wf(),
        ensures
            res == self.ignores_line(path@, l),
    {
        match self.find(path) {
            Some(i) => {
                proof {
                    self.lemma_index_of(path@, i as int);
                }
                self.lines[i].analysis.should_ignore(l)
            },
            None => false,
        }
    }

    /// The logical line that line `l` of the file at `path` counts as: the
    /// one its entry maps it to, else the line itself.
    pub fn normalise(&self, path: &str, l: usize) -> (res: usize)
        requires
            self.wf(),
        ensures
            res == (if self.has_path(path@) && self.lines@[self.index_of(
                path@,
            )].analysis.logical_lines@.dom().contains(l) {
                self.lines@[self.index_of(path@)].analysis.logical_lines@[l]
            } else {
                l
            }),
    {
        match self.find(path) {
            Some(i) => {
                proof {
                    self.lemma_index_of(path@, i as int);
                }
                self.lines[i].analysis.normalise(l)
            },
            None => l,
        }
    }

    /// Leaves out every line of the file at `path`: its entry is replaced by
    /// one that ignores all lines.
    pub fn ignore_file(&mut self, path: &str)
        requires
            old(self).wf(),
        ensures
            final(self).wf(),
            final(self).ignored_modules@ == old(self).ignored_modules@,
            final(self).has_path(path@),
            final(self).lines@[final(self).index_of(path@)].analysis.ignore@ == seq![Lines::All],
            final(self).lines@[final(self).index_of(path@)].analysis.cover@ == Set::<usize>::empty(),
            final(self).lines@[final(self).index_of(path@)].analysis.logical_lines@ == Map::<usize, usize>::empty(),
            final(self).lines@[final(self).index_of(path@)].analysis.max_line == 0,
            final(self).lines@.len() == old(self).lines@.len() + if old(self).has_path(path@) {
                0int
            } else {
                1int
            },
            forall|i: int|
                0 <= i < old(self).lines@.len() && !same_path(old(self).lines@[i].path@, path@)
                    ==> final(self).lines@[i] == #[trigger] old(self).lines@[i],
    {
        let mut fresh = LineAnalysis::new();
        fresh.ignore_all();
        match self.find(path) {
            Some(i) => {
                let key = crate::text::string_of(&crate::text::chars_of(self.lines[i].path.as_str()));
                let ghost old_lines = self.lines@;
                self.lines.set(i, FileAnalysis { path: key, analysis: fresh });
                assert forall|a: int, b: int|
                    #![trigger self.lines@[a], self.lines@[b]]
                    0 <= a < b < self.lines@.len() implies !same_path(self.lines@[a].path@, self.lines@[b].path@) by {
                    assert(self.lines@[a].path@ == old_lines[a].path@);
                    assert(self.lines@[b].path@ == old_lines[b].path@);
                    assert(old_lines[a] == old_lines[a]);
                    assert(old_lines[b] == old_lines[b]);
                }
                proof {
                    self.lemma_index_of(path@, i as int);
                }
            },
            None => {
                let ghost old_lines = self.lines@;
                self.lines.push(FileAnalysis { path: path.to_string(), analysis: fresh });
                assert forall|a: int, b: int|
                    #![trigger self.lines@[a], self.lines@[b]]
                    0 <= a < b < self.lines@.len() implies !same_path(self.lines@[a].path@, self.lines@[b].path@) by {
                    assert(self.lines@[a] == old_lines[a]);
                    if b < old_lines.len() {
                        assert(self.lines@[b] == old_lines[b]);
                    }
                }
                proof {
                    self.lemma_index_of(path@, old_lines.len() as int);
                }
            },
        }
    }

    /// Whether the file at `path` lies in a module left out entirely.
    pub fn is_ignored_module(&self, path: &str) -> (res: bool)
        ensures
            res == under_some(self.ignored_modules@, path@),
    {
        let mut i: usize = 0;
        while i < self.ignored_modules.len()
            invariant
                i <= self.ignored_modules@.len(),
                forall|k: int|
                    0 <= k < i ==> !components((#[trigger] self.ignored_modules@[k])@).is_prefix_of(components(path@)),
            decreases self.ignored_modules@.len() - i,
        {
            if path_starts_with(path, self.ignored_modules[i].as_str()) {
                return true;
            }
            i = i + 1;
        }
        false
    }

    /// Leaves out the directory `module` entirely: every file already
    /// analysed under it has all its lines ignored, and `module` joins the
    /// modules left out.
    pub fn exclude_module(&mut self, module: &str)
        requires
            old(self).wf(),
        ensures
            final(self).wf(),
            final(self).lines@.len() == old(self).lines@.len(),
            final(self).ignored_modules@.len() == old(self).ignored_modules@.len() + 1,
            forall|k: int|
                0 <= k < old(self).ignored_modules@.len() ==> #[trigger] final(self).ignored_modules@[k]
                    == old(self).ignored_modules@[k],
            final(self).ignored_modules@.last()@ == module@,
            forall|i: int|
                #![trigger final(self).lines@[i]]
                0 <= i < old(self).lines@.len() ==> {
                    let a = old(self).lines@[i];
                    let b = final(self).lines@[i];
                    if components(module@).is_prefix_of(components(a.path@)) {
                        &&& b.path == a.path
                        &&& b.analysis.ignore@ == seq![Lines::All]
                        &&& b.analysis.cover@ == Set::<usize>::empty()
                        &&& b.analysis.logical_lines@ == a.analysis.logical_lines@
                        &&& b.analysis.max_line == a.analysis.max_line
                    } else {
                        b == a
                    }
                },
    {
        let mut i: usize = 0;
        while i < self.lines.len()
            invariant
                i <= self.lines@.len(),
                self.lines@.len() == old(self).lines@.len(),
                self.ignored_modules@ == old(self).ignored_modules@,
                old(self).wf(),
                forall|k: int|
                    #![trigger self.lines@[k]]
                    i <= k < self.lines@.len() ==> self.lines@[k] == old(self).lines@[k],
                forall|k: int|
                    #![trigger self.lines@[k]]
                    0 <= k < i ==> {
                        let a = old(self).lines@[k];
                        let b = self.lines@[k];
                        if components(module@).is_prefix_of(components(a.path@)) {
                            &&& b.path == a.path
                            &&& b.analysis.wf()
                            &&& b.analysis.ignore@ == seq![Lines::All]
                            &&& b.analysis.cover@ == Set::<usize>::empty()
                            &&& b.analysis.logical_lines@ == a.analysis.logical_lines@
                            &&& b.analysis.max_line == a.analysis.max_line
                        } else {
                            b == a
                        }
                    },
            decreases self.lines@.len() - i,
        {
            if path_starts_with(self.lines[i].path.as_str(), module) {
                self.lines[i].analysis.ignore_all();
            }
            i = i + 1;
        }
        self.ignored_modules.push(module.to_string());
        assert forall|a: int, b: int|
            #![trigger self.lines@[a], self.lines@[b]]
            0 <= a < b < self.lines@.len() implies !same_path(self.lines@[a].path@, self.lines@[b].path@) by {
            assert(old(self).lines@[a] == old(self).lines@[a]);
            assert(old(self).lines@[b] == old(self).lines@[b]);
        }
        assert forall|a: int| 0 <= a < self.lines@.len() implies (#[trigger] self.lines@[a]).analysis.wf() by {
            assert(old(self).lines@[a].analysis.wf());
        }
    }

    /// Ignores line 1 of the file at `path` unless its first line, `first`
    /// (where the file could be read and has one), starts with `pub` or `fn`.
    pub fn ignore_first_line(&mut self, path: &str, first: Option<&str>)
        requires
            old(self).wf(),
        ensures
            final(self).wf(),
            final(self).ignored_modules@ == old(self).ignored_modules@,
            !(first matches Some(f) && !first_line_kept(f@)) ==> final(self).lines@ == old(self).lines@,
            first matches Some(f) && !first_line_kept(f@) ==> {
                &&& final(self).has_path(path@)
                &&& final(self).lines@.len() == old(self).lines@.len() + if old(self).has_path(path@) {
                    0int
                } else {
                    1int
                }
                &&& old(self).all_ignored(path@) ==> final(self).ignore_of(path@) == old(self).ignore_of(path@)
                &&& !old(self).all_ignored(path@) ==> final(self).ignore_of(path@) == old(self).ignore_of(
                    path@,
                ).insert(Lines::Line(1))
                &&& !old(self).has_path(path@) ==> final(self).lines@[final(self).index_of(path@)].analysis.max_line == 0
            },
            forall|i: int|
                0 <= i < old(self).lines@.len() && !same_path(old(self).lines@[i].path@, path@)
                    ==> final(self).lines@[i] == #[trigger] old(self).lines@[i],
    {
        proof {
            reveal_strlit("pub");
            reveal_strlit("fn");
        }
        let drop = match first {
            Some(f) => !(text_starts_with(f, "pub") || text_starts_with(f, "fn")),
            None => false,
        };
        if drop {
            let ghost had = self.has_path(path@);
            let ghost old_self_lines = self.lines@;
            proof {
                if had {
                    self.lemma_index_of(path@, self.index_of(path@));
                }
            }
            let idx = self.get_line_analysis(path, 0);
            proof {
                self.lemma_index_of(path@, idx as int);
            }
            let ghost mid = self.lines@;
            let one: Vec<usize> = vec![1];
            self.lines[idx as usize].analysis.add_to_ignore(&one);
            assert(single_lines(one@) =~= set![Lines::Line(1)]) by {
                assert forall|m: Lines| #[trigger] single_lines(one@).contains(m) <==> set![Lines::Line(1)].contains(m) by {
                    if m matches Lines::Line(k) && k == 1 {
                        assert(one@[0] == 1);
                    }
                }
            }
            assert forall|a: int, b: int|
                #![trigger self.lines@[a], self.lines@[b]]
                0 <= a < b < self.lines@.len() implies !same_path(self.lines@[a].path@, self.lines@[b].path@) by {
                assert(self.lines@[a].path == mid[a].path);
                assert(self.lines@[b].path == mid[b].path);
                assert(mid[a] == mid[a] && mid[b] == mid[b]);
            }
            assert forall|a: int| 0 <= a < self.lines@.len() implies (#[trigger] self.lines@[a]).analysis.wf() by {
                assert(mid[a].analysis.wf());
            }
            proof {
                self.lemma_index_of(path@, idx as int);
                if had {
                    assert(mid == old_self_lines);
                }
                assert forall|i: int|
                    0 <= i < old(self).lines@.len() && !same_path(old(self).lines@[i].path@, path@)
                        implies self.lines@[i] == #[trigger] old(self).lines@[i] by {
                    assert(mid[i] == old(self).lines@[i]);
                }
            }
        }
    }

    /// Decides, before the file at `path` is read, whether it is analysed:
    /// a file left out by `skipped_spec`, or lying in a module left out,
    /// has all its lines ignored instead.
    pub fn begin_file(&mut self, path: &str, root: &str, include_tests: bool, run_types: &Vec<RunType>) -> (res: bool)
        requires
            old(self).wf(),
        ensures
            final(self).wf(),
            final(self).ignored_modules@ == old(self).ignored_modules@,
            res == !(skipped_spec(path@, root@, include_tests, run_types@) || under_some(
                old(self).ignored_modules@,
                path@,
            )),
            res ==> final(self).lines@ == old(self).lines@,
            !res ==> {
                &&& final(self).has_path(path@)
                &&& final(self).lines@[final(self).index_of(path@)].analysis.ignore@ == seq![Lines::All]
                &&& final(self).lines@[final(self).index_of(path@)].analysis.cover@ == Set::<usize>::empty()
                &&& final(self).lines@.len() == old(self).lines@.len() + if old(self).has_path(path@) {
                    0int
                } else {
                    1int
                }
            },
            forall|i: int|
                0 <= i < old(self).lines@.len() && !same_path(old(self).lines@[i].path@, path@)
                    ==> final(self).lines@[i] == #[trigger] old(self).lines@[i],
    {
        if skipped_file(path, root, include_tests, run_types) || self.is_ignored_module(path) {
            self.ignore_file(path);
            false
        } else {
            true
        }
    }

    /// Reads the attributes of the file at `path` (of `max_line` lines, with
    /// text `contents`), ignoring the lines of each looked at, as
    /// `check_attr_list` does; where none leaves the file out, also ignores
    /// its lines with nothing to cover. Whether the file is analysed further.
    pub fn check_file(
        &mut self,
        path: &str,
        max_line: usize,
        attrs: &Vec<AttrSyntax>,
        ctx: &CfgContext,
        contents: &str,
    ) -> (res: bool)
        requires
            old(self).wf(),
            forall|i: int| 0 <= i < attrs@.len() ==> meta_wf(#[trigger] attrs@[i].meta),
        ensures
            final(self).wf(),
            final(self).ignored_modules@ == old(self).ignored_modules@,
            res == attrs_keep(attrs@, ctx_view(ctx)),
            final(self).has_path(path@),
            final(self).lines@.len() == old(self).lines@.len() + if old(self).has_path(path@) {
                0int
            } else {
                1int
            },
            old(self).all_ignored(path@) ==> final(self).ignore_of(path@) == old(self).ignore_of(path@),
            !old(self).all_ignored(path@) ==> final(self).ignore_of(path@) == old(self).ignore_of(path@) + span_lines(
                attrs@,
                attrs_looked_at(attrs@, ctx_view(ctx)),
            ) + if res {
                single_lines(ignorable_lines(contents@))
            } else {
                Set::<Lines>::empty()
            },
            !old(self).has_path(path@) ==> final(self).lines@[final(self).index_of(path@)].analysis.max_line == max_line,
            forall|i: int|
                0 <= i < old(self).lines@.len() && !same_path(old(self).lines@[i].path@, path@)
                    ==> final(self).lines@[i] == #[trigger] old(self).lines@[i],
    {
        let ghost had = self.has_path(path@);
        proof {
            if had {
                self.lemma_index_of(path@, self.index_of(path@));
            }
        }
        let idx = self.get_line_analysis(path, max_line);
        proof {
            self.lemma_index_of(path@, idx as int);
        }
        let ghost mid = self.lines@;
        proof {
            if !had {
                assert(mid[idx as int].analysis.ignore@.to_set() =~= Set::<Lines>::empty());
            }
            assert(old(self).all_ignored(path@) == mid[idx as int].analysis.ignore@.contains(Lines::All));
            assert(old(self).ignore_of(path@) == mid[idx as int].analysis.ignore@.to_set());
        }
        let keep = check_attr_list(&mut self.lines[idx].analysis, attrs, ctx);
        let ghost s1 = self.lines@[idx as int].analysis.ignore@.to_set();
        proof {
            if !mid[idx as int].analysis.ignore@.contains(Lines::All) {
                if self.lines@[idx as int].analysis.ignore@.contains(Lines::All) {
                    assert(s1.contains(Lines::All));
                    assert(!span_lines(attrs@, attrs_looked_at(attrs@, ctx_view(ctx))).contains(Lines::All));
                    assert(false);
                }
            }
        }
        if keep {
            self.lines[idx].analysis.find_ignorable_lines(contents);
        } else {
            assert(s1 + Set::<Lines>::empty() =~= s1);
        }
        assert forall|a: int, b: int|
            #![trigger self.lines@[a], self.lines@[b]]
            0 <= a < b < self.lines@.len() implies !same_path(self.lines@[a].path@, self.lines@[b].path@) by {
            assert(self.lines@[a].path == mid[a].path);
            assert(self.lines@[b].path == mid[b].path);
            assert(mid[a] == mid[a] && mid[b] == mid[b]);
        }
        assert forall|a: int| 0 <= a < self.lines@.len() implies (#[trigger] self.lines@[a]).analysis.wf() by {
            assert(mid[a].analysis.wf());
        }
        proof {
            self.lemma_index_of(path@, idx as int);
            assert forall|i: int|
                0 <= i < old(self).lines@.len() && !same_path(old(self).lines@[i].path@, path@)
                    implies self.lines@[i] == #[trigger] old(self).lines@[i] by {
                assert(mid[i] == old(self).lines@[i]);
            }
        }
        keep
    }

    /// Handles the file at `path` (of `max_line` lines, spanning lines
    /// `start` to `end`) that its attributes leave out: the directory it
    /// takes with it (see `excluded_module`) is left out entirely, and the
    /// file's own lines are ignored.
    pub fn reject_file(&mut self, path: &str, max_line: usize, start: usize, end: usize)
        requires
            old(self).wf(),
        ensures
            final(self).wf(),
            module_candidate(path@) is None ==> final(self).ignored_modules@ == old(self).ignored_modules@,
            module_candidate(path@) matches Some((d, true)) ==> crate::text::strs(final(self).ignored_modules@)
                == crate::text::strs(old(self).ignored_modules@).push(d),
            module_candidate(path@) matches Some((d, false)) ==> final(self).ignored_modules@ == old(
                self,
            ).ignored_modules@ || crate::text::strs(final(self).ignored_modules@) == crate::text::strs(
                old(self).ignored_modules@,
            ).push(d),
            final(self).has_path(path@),
            final(self).lines@.len() == old(self).lines@.len() + if old(self).has_path(path@) {
                0int
            } else {
                1int
            },
            forall|i: int|
                #![trigger final(self).lines@[i]]
                0 <= i < old(self).lines@.len() && !same_path(old(self).lines@[i].path@, path@) ==> {
                    let a = old(self).lines@[i];
                    let b = final(self).lines@[i];
                    if final(self).ignored_modules@.len() > old(self).ignored_modules@.len() && components(
                        final(self).ignored_modules@.last()@,
                    ).is_prefix_of(components(a.path@)) {
                        &&& b.path == a.path
                        &&& b.analysis.ignore@ == seq![Lines::All]
                        &&& b.analysis.cover@ == Set::<usize>::empty()
                        &&& b.analysis.logical_lines@ == a.analysis.logical_lines@
                        &&& b.analysis.max_line == a.analysis.max_line
                    } else {
                        b == a
                    }
                },
            ({
                ||| old(self).all_ignored(path@)
                ||| (old(self).has_path(path@) && final(self).ignored_modules@.len() > old(
                    self,
                ).ignored_modules@.len() && components(final(self).ignored_modules@.last()@).is_prefix_of(
                    components(path@),
                ))
            }) ==> final(self).all_ignored(path@),
            !({
                ||| old(self).all_ignored(path@)
                ||| (old(self).has_path(path@) && final(self).ignored_modules@.len() > old(
                    self,
                ).ignored_modules@.len() && components(final(self).ignored_modules@.last()@).is_prefix_of(
                    components(path@),
                ))
            }) ==> final(self).ignore_of(path@) == old(self).ignore_of(path@) + span_set(start as int, end as int),
            !old(self).has_path(path@) ==> final(self).lines@[final(self).index_of(path@)].analysis.max_line == max_line,
    {
        let ghost had = self.has_path(path@);
        proof {
            if had {
                self.lemma_index_of(path@, self.index_of(path@));
            }
        }
        let ghost i0 = self.index_of(path@);
        match excluded_module(path) {
            Some(m) => {
                self.exclude_module(m.as_str());
                proof {
                    assert(crate::text::strs(self.ignored_modules@) =~= crate::text::strs(old(self).ignored_modules@).push(
                        m@,
                    ));
                }
            },
            None => {},
        }
        let ghost s1 = *self;
        proof {
            if had {
                s1.lemma_index_of(path@, i0);
            }
            assert forall|i: int| 0 <= i < s1.lines@.len() && same_path(s1.lines@[i].path@, path@) implies had by {
                if !had {
                    assert(same_path(old(self).lines@[i].path@, path@));
                }
            }
        }
        let idx = self.get_line_analysis(path, max_line);
        proof {
            self.lemma_index_of(path@, idx as int);
            if !had {
                assert(self.lines@[idx as int].analysis.ignore@.to_set() =~= Set::<Lines>::empty());
            }
        }
        let ghost mid = self.lines@;
        self.lines[idx].analysis.ignore_span(start, end);
        assert forall|a: int, b: int|
            #![trigger self.lines@[a], self.lines@[b]]
            0 <= a < b < self.lines@.len() implies !same_path(self.lines@[a].path@, self.lines@[b].path@) by {
            assert(self.lines@[a].path == mid[a].path);
            assert(self.lines@[b].path == mid[b].path);
            assert(mid[a] == mid[a] && mid[b] == mid[b]);
        }
        assert forall|a: int| 0 <= a < self.lines@.len() implies (#[trigger] self.lines@[a]).analysis.wf() by {
            assert(mid[a].analysis.wf());
        }
        proof {
            self.lemma_index_of(path@, idx as int);
            let excl = s1.ignored_modules@.len() > old(self).ignored_modules@.len();
            assert(!excl ==> s1.lines@ == old(self).lines@);
            assert forall|i: int|
                0 <= i < old(self).lines@.len() && !same_path(old(self).lines@[i].path@, path@)
                    implies #[trigger] self.lines@[i] == s1.lines@[i] by {
                if had {
                    assert(i != idx);
                } else {
                    assert(i < idx);
                    assert(mid.drop_last()[i] == mid[i]);
                }
                assert(mid[i] == s1.lines@[i]);
            }
            if had {
                assert(idx == i0);
                assert(mid[i0] == s1.lines@[i0]);
                let a0 = old(self).lines@[i0];
                let b0 = s1.lines@[i0];
                if excl && components(s1.ignored_modules@.last()@).is_prefix_of(components(a0.path@)) {
                    assert(b0.analysis.ignore@ == seq![Lines::All]);
                    assert(b0.analysis.ignore@.contains(Lines::All)) by {
                        assert(b0.analysis.ignore@[0] == Lines::All);
                    }
                } else {
                    assert(b0 == a0);
                }
                assert(components(a0.path@) == components(path@));
            }
        }
    }

    /// Walks the syntax `syntax` of the file at `path` (see `w_file`): the
    /// entry of the file, made where it has none, ends as the walk says,
    /// starting from its state before; the names of the modules the walk
    /// leaves out are added to `mods`. Whether the file's attributes keep
    /// it.
    pub fn analyse_syntax(&mut self, path: &str, syntax: &FileSyntax, w: &WalkConfig, mods: &mut Vec<String>) -> (res: bool)
        requires
            old(self).wf(),
        ensures
            final(self).wf(),
            final(self).ignored_modules@ == old(self).ignored_modules@,
            final(self).has_path(path@),
            final(self).lines@.len() == old(self).lines@.len() + if old(self).has_path(path@) {
                0int
            } else {
                1int
            },
            (sv(final(self).lines@[final(self).index_of(path@)].analysis, final(mods)@), res) == w_file(
                entry_state(*old(self), path@, old(mods)@),
                *syntax,
                env(w),
            ),
            forall|i: int|
                0 <= i < old(self).lines@.len() && !same_path(old(self).lines@[i].path@, path@)
                    ==> final(self).lines@[i] == #[trigger] old(self).lines@[i],
    {
        let ghost had = self.has_path(path@);
        proof {
            if had {
                self.lemma_index_of(path@, self.index_of(path@));
            }
        }
        let idx = self.get_line_analysis(path, 0);
        proof {
            self.lemma_index_of(path@, idx as int);
            if !had {
                assert(self.lines@[idx as int].analysis.ignore@.to_set() =~= Set::<Lines>::empty());
            }
        }
        let ghost mid = self.lines@;
        assert(sv(mid[idx as int].analysis, mods@) == entry_state(*old(self), path@, mods@));
        let keep = walk_file(&mut self.lines[idx].analysis, mods, syntax, w);
        assert forall|a: int, b: int|
            #![trigger self.lines@[a], self.lines@[b]]
            0 <= a < b < self.lines@.len() implies !same_path(self.lines@[a].path@, self.lines@[b].path@) by {
            assert(self.lines@[a].path == mid[a].path);
            assert(self.lines@[b].path == mid[b].path);
            assert(mid[a] == mid[a] && mid[b] == mid[b]);
        }
        assert forall|a: int| 0 <= a < self.lines@.len() implies (#[trigger] self.lines@[a]).analysis.wf() by {
            assert(mid[a].analysis.wf());
        }
        proof {
            self.lemma_index_of(path@, idx as int);
            assert forall|i: int|
                0 <= i < old(self).lines@.len() && !same_path(old(self).lines@[i].path@, path@)
                    implies self.lines@[i] == #[trigger] old(self).lines@[i] by {
                assert(mid[i] == old(self).lines@[i]);
            }
        }
        keep
    }

    /// Adds line 1 to the ignored lines of the entry at `idx`, unless all
    /// its lines are ignored already.
    fn ignore_line_one(&mut self, idx: usize, Ghost(ms): Ghost<Seq<String>>)
        requires
            old(self).wf(),
            idx < old(self).lines@.len(),
        ensures
            final(self).wf(),
            final(self).ignored_modules@ == old(self).ignored_modules@,
            final(self).lines@.len() == old(self).lines@.len(),
            final(self).lines@[idx as int].path == old(self).lines@[idx as int].path,
            sv(final(self).lines@[idx as int].analysis, ms) == ig(
                sv(old(self).lines@[idx as int].analysis, ms),
                line_set(set![1usize]),
            ),
            forall|i: int| 0 <= i < old(self).lines@.len() && i != idx ==> final(self).lines@[i] == #[trigger] old(self).lines@[i],
    {
        let ghost s0 = sv(self.lines@[idx as int].analysis, ms);
        let ghost mid = self.lines@;
        let one: Vec<usize> = vec![1];
        self.lines[idx].analysis.add_to_ignore(&one);
        proof {
            if !s0.0.contains(Lines::All) {
                assert(one@.contains(1usize)) by {
                    assert(one@[0] == 1usize);
                }
                assert forall|i: usize| one@.contains(i) <==> set![1usize].contains(i) by {
                    if one@.contains(i) {
                        let j = choose|j: int| 0 <= j < one@.len() && one@[j] == i;
                        assert(j == 0);
                    }
                }
                assert(single_lines(one@) =~= line_set(set![1usize]));
                assert(sv(self.lines@[idx as int].analysis, ms).0 =~= ig(s0, line_set(set![1usize])).0);
                assert(sv(self.lines@[idx as int].analysis, ms).1 =~= ig(s0, line_set(set![1usize])).1);
            }
        }
        assert forall|a: int, b: int|
            #![trigger self.lines@[a], self.lines@[b]]
            0 <= a < b < self.lines@.len() implies !same_path(self.lines@[a].path@, self.lines@[b].path@) by {
            assert(self.lines@[a].path == mid[a].path);
            assert(self.lines@[b].path == mid[b].path);
            assert(mid[a] == mid[a] && mid[b] == mid[b]);
        }
        assert forall|a: int| 0 <= a < self.lines@.len() implies (#[trigger] self.lines@[a]).analysis.wf() by {
            assert(mid[a].analysis.wf());
        }
    }

    /// Analyses the file at `path` of the project at `root`, whose text is
    /// `contents` (none where it could not be read). A file left out before
    /// reading (see `begin_file`) has all its lines ignored. A file read
    /// and parsed has its syntax walked (see `analyse_syntax`, with an entry
    /// made for it where it has none): where its attributes keep it, the
    /// files of the modules the walk leaves out are added to `filtered`,
    /// and its first line is ignored unless it starts with `pub` or `fn`;
    /// where they leave it out, it is rejected (see `reject_file`) over its
    /// whole span. A file not read or not parsed is left as it is.
    pub fn analyse_package(
        &mut self,
        path: &str,
        root: &str,
        contents: Option<&str>,
        ctx: &CfgContext,
        run_types: &Vec<RunType>,
        run_ignored: bool,
        ignore_panics: bool,
        filtered: &mut Vec<String>,
    ) -> (res: PackageStep)
        requires
            old(self).wf(),
        ensures
            final(self).wf(),
            (res == PackageStep::Skipped) == (skipped_spec(path@, root@, ctx.include_tests, run_types@) || under_some(
                old(self).ignored_modules@,
                path@,
            )),
            res == PackageStep::Skipped ==> {
                &&& final(self).ignored_modules@ == old(self).ignored_modules@
                &&& final(self).has_path(path@)
                &&& final(self).lines@[final(self).index_of(path@)].analysis.ignore@ == seq![Lines::All]
                &&& final(self).lines@[final(self).index_of(path@)].analysis.cover@ == Set::<usize>::empty()
                &&& final(filtered)@ == old(filtered)@
            },
            res != PackageStep::Skipped ==> ((res == PackageStep::Unread) == (contents is None)),
            contents matches Some(c) ==> (res != PackageStep::Skipped ==> ((res == PackageStep::Unparsed) == (file_syntax(
                c@,
            ) is None))),
            res == PackageStep::Unread || res == PackageStep::Unparsed ==> {
                &&& final(self).lines@ == old(self).lines@
                &&& final(self).ignored_modules@ == old(self).ignored_modules@
                &&& final(filtered)@ == old(filtered)@
            },
            contents matches Some(c) ==> (file_syntax(c@) matches Some(f) ==> (res != PackageStep::Skipped ==> {
                let r = w_file(entry_state(*old(self), path@, Seq::empty()), f, (c@, cfg_view(ctx), run_ignored, ignore_panics));
                &&& (res == PackageStep::Analysed) == r.1
                &&& (res == PackageStep::Rejected) == !r.1
                &&& final(self).has_path(path@)
                &&& r.1 ==> {
                    &&& final(self).ignored_modules@ == old(self).ignored_modules@
                    &&& ({
                        let t = if first_of(c@) matches Some(fl) && !first_line_kept(fl) {
                            ig(r.0, line_set(set![1usize]))
                        } else {
                            r.0
                        };
                        let a = final(self).lines@[final(self).index_of(path@)].analysis;
                        a.ignore@.to_set() == t.0 && a.cover@ == t.1 && a.logical_lines@ == t.2
                    })
                    &&& final(filtered)@.len() == old(filtered)@.len() + r.0.3.len()
                    &&& forall|k: int| 0 <= k < old(filtered)@.len() ==> #[trigger] final(filtered)@[k] == old(filtered)@[k]
                    &&& forall|k: int|
                        0 <= k < r.0.3.len() ==> #[trigger] final(filtered)@[old(filtered)@.len() + k]@ == module_file(
                            path@,
                            r.0.3[k],
                            true,
                        ) || final(filtered)@[old(filtered)@.len() + k]@ == module_file(path@, r.0.3[k], false)
                }
                &&& !r.1 ==> {
                    &&& final(filtered)@ == old(filtered)@
                    &&& module_candidate(path@) is None ==> final(self).ignored_modules@ == old(self).ignored_modules@
                    &&& final(self).all_ignored(path@) || final(self).ignore_of(path@) == r.0.0 + span_set(
                        f.start_line as int,
                        f.end_line as int,
                    )
                }
            })),
            forall|i: int|
                0 <= i < old(self).lines@.len() && !same_path(old(self).lines@[i].path@, path@) && !(
                final(self).ignored_modules@.len() > old(self).ignored_modules@.len() && components(
                    final(self).ignored_modules@.last()@,
                ).is_prefix_of(components(old(self).lines@[i].path@))) ==> final(self).lines@[i] == #[trigger] old(
                    self,
                ).lines@[i],
    {
        if !self.begin_file(path, root, ctx.include_tests, run_types) {
            return PackageStep::Skipped;
        }
        let c = match contents {
            None => return PackageStep::Unread,
            Some(c) => c,
        };
        let syntax = match parse_file_syntax(c) {
            None => return PackageStep::Unparsed,
            Some(f) => f,
        };
        let w = WalkConfig { contents: c, ctx, run_ignored, ignore_panics };
        assert(env(&w) == (c@, cfg_view(ctx), run_ignored, ignore_panics));
        let mut names: Vec<String> = Vec::new();
        assert(names@ =~= Seq::<String>::empty());
        let ghost s_before = *self;
        assert(entry_state(s_before, path@, Seq::empty()) == entry_state(*old(self), path@, Seq::empty()));
        let keep = self.analyse_syntax(path, &syntax, &w, &mut names);
        let ghost r = w_file(entry_state(s_before, path@, Seq::empty()), syntax, env(&w));
        if keep {
            let mut k: usize = 0;
            let ghost f0 = filtered@;
            while k < names.len()
                invariant
                    k <= names@.len(),
                    filtered@.len() == f0.len() + k,
                    forall|j: int| 0 <= j < f0.len() ==> #[trigger] filtered@[j] == f0[j],
                    forall|j: int|
                        0 <= j < k ==> #[trigger] filtered@[f0.len() + j]@ == module_file(path@, names@[j]@, true)
                            || filtered@[f0.len() + j]@ == module_file(path@, names@[j]@, false),
                decreases names@.len() - k,
            {
                let f = module_file_path(path, names[k].as_str());
                filtered.push(f);
                k = k + 1;
            }
            let ls = lines_of(c);
            proof {
                assert(ls@.map_values(|v: Vec<char>| v@) == text_lines(c@));
            }
            if ls.len() > 0 {
                let first = string_of(&ls[0]);
                assert(first@ == text_lines(c@)[0]);
                proof {
                    reveal_strlit("pub");
                    reveal_strlit("fn");
                }
                let kept = text_starts_with(first.as_str(), "pub") || text_starts_with(first.as_str(), "fn");
                if !kept {
                    let idx = match self.find(path) {
                        Some(i) => i,
                        None => {
                            assert(false);
                            0
                        },
                    };
                    proof {
                        self.lemma_index_of(path@, idx as int);
                    }
                    self.ignore_line_one(idx, Ghost(names@));
                    proof {
                        self.lemma_index_of(path@, idx as int);
                    }
                }
            }
            PackageStep::Analysed
        } else {
            self.reject_file(path, 0, syntax.start_line, syntax.end_line);
            PackageStep::Rejected
        }
    }

    /// Where the file at `path` is among `ignored`, the files of modules left
    /// out that the walk has still to meet: all its lines are ignored, it is
    /// taken out of `ignored`, and the result is `true`; else nothing changes.
    pub fn take_ignored(&mut self, ignored: &mut Vec<String>, path: &str) -> (res: bool)
        requires
            old(self).wf(),
        ensures
            final(self).wf(),
            final(self).ignored_modules@ == old(self).ignored_modules@,
            res == exists|k: int| 0 <= k < old(ignored)@.len() && same_path((#[trigger] old(ignored)@[k])@, path@),
            !res ==> final(self).lines@ == old(self).lines@ && final(ignored)@ == old(ignored)@,
            res ==> {
                &&& crate::text::strs(final(ignored)@) == crate::text::strs(old(ignored)@).filter(
                    |t: Seq<char>| !same_path(t, path@),
                )
                &&& final(self).has_path(path@)
                &&& final(self).lines@[final(self).index_of(path@)].analysis.ignore@ == seq![Lines::All]
                &&& final(self).lines@[final(self).index_of(path@)].analysis.cover@ == Set::<usize>::empty()
                &&& final(self).lines@.len() == old(self).lines@.len() + if old(self).has_path(path@) {
                    0int
                } else {
                    1int
                }
            },
            forall|i: int|
                0 <= i < old(self).lines@.len() && !same_path(old(self).lines@[i].path@, path@)
                    ==> final(self).lines@[i] == #[trigger] old(self).lines@[i],
    {
        let mut found = false;
        let mut rest: Vec<String> = Vec::new();
        let mut i: usize = 0;
        while i < ignored.len()
            invariant
                i <= ignored@.len(),
                found == exists|k: int| 0 <= k < i && same_path((#[trigger] ignored@[k])@, path@),
                crate::text::strs(rest@) == crate::text::strs(ignored@.take(i as int)).filter(
                    |t: Seq<char>| !same_path(t, path@),
                ),
            decreases ignored@.len() - i,
        {
            proof {
                assert(crate::text::strs(ignored@.take(i + 1)) =~= crate::text::strs(ignored@.take(i as int)).push(
                    ignored@[i as int]@,
                ));
                crate::analysis::lemma_filter_push(
                    crate::text::strs(ignored@.take(i as int)),
                    ignored@[i as int]@,
                    |t: Seq<char>| !same_path(t, path@),
                );
            }
            if path_eq(ignored[i].as_str(), path) {
                found = true;
            } else {
                let ghost before = rest@;
                rest.push(string_of(&chars_of(ignored[i].as_str())));
                assert(crate::text::strs(rest@) =~= crate::text::strs(before).push(ignored@[i as int]@));
            }
            i = i + 1;
        }
        assert(ignored@.take(ignored@.len() as int) =~= ignored@);
        if found {
            self.ignore_file(path);
            *ignored = rest;
        }
        found
    }

    /// Ignores all lines of each file of `ignored`, the files of modules left
    /// out that the walk did not meet.
    pub fn ignore_remaining(&mut self, ignored: &Vec<String>)
        requires
            old(self).wf(),
        ensures
            final(self).wf(),
            final(self).ignored_modules@ == old(self).ignored_modules@,
            final(self).lines@.len() >= old(self).lines@.len(),
            forall|k: int|
                0 <= k < ignored@.len() ==> final(self).has_path((#[trigger] ignored@[k])@)
                    && final(self).lines@[final(self).index_of(ignored@[k]@)].analysis.ignore@ == seq![Lines::All],
            forall|i: int|
                0 <= i < old(self).lines@.len() && (forall|k: int|
                    0 <= k < ignored@.len() ==> !same_path(old(self).lines@[i].path@, (#[trigger] ignored@[k])@))
                    ==> final(self).lines@[i] == #[trigger] old(self).lines@[i],
    {
        let mut j: usize = 0;
        while j < ignored.len()
            invariant
                j <= ignored@.len(),
                self.wf(),
                self.ignored_modules@ == old(self).ignored_modules@,
                self.lines@.len() >= old(self).lines@.len(),
                forall|k: int|
                    0 <= k < j ==> self.has_path((#[trigger] ignored@[k])@) && self.lines@[self.index_of(
                        ignored@[k]@,
                    )].analysis.ignore@ == seq![Lines::All],
                forall|i: int|
                    0 <= i < old(self).lines@.len() && (forall|k: int|
                        0 <= k < j ==> !same_path(old(self).lines@[i].path@, (#[trigger] ignored@[k])@))
                        ==> self.lines@[i] == #[trigger] old(self).lines@[i],
            decreases ignored@.len() - j,
        {
            let ghost before = *self;
            let p = ignored[j].as_str();
            self.ignore_file(p);
            proof {
                assert forall|k: int| 0 <= k < j + 1 implies self.has_path((#[trigger] ignored@[k])@)
                    && self.lines@[self.index_of(ignored@[k]@)].analysis.ignore@ == seq![Lines::All] by {
                    if k < j && !same_path(ignored@[k]@, p@) {
                        let q = before.index_of(ignored@[k]@);
                        before.lemma_index_of(ignored@[k]@, q);
                        assert(!same_path(before.lines@[q].path@, p@));
                        assert(self.lines@[q] == before.lines@[q]);
                        self.lemma_index_of(ignored@[k]@, q);
                    } else if k < j {
                        let q = self.index_of(p@);
                        self.lemma_index_of(p@, q);
                        self.lemma_index_of(ignored@[k]@, q);
                    }
                }
                assert forall|i: int|
                    0 <= i < old(self).lines@.len() && (forall|k: int|
                        0 <= k < j + 1 ==> !same_path(old(self).lines@[i].path@, (#[trigger] ignored@[k])@))
                        implies self.lines@[i] == #[trigger] old(self).lines@[i] by {
                    assert(!same_path(old(self).lines@[i].path@, ignored@[j as int]@));
                    assert(before.lines@[i] == old(self).lines@[i]);
                }
            }
            j = j + 1;
        }
    }
}

/// A file whose entry ignores all lines has every line left out of
/// coverage, whatever the line.
pub proof fn lemma_ignored_file_every_line(s: SourceAnalysis, p: Seq<char>, l: usize)
    requires
        s.wf(),
        s.all_ignored(p),
    ensures
        s.ignores_line(p, l),
{
}

/// Once a module is left out, every file under it lies in a module left
/// out, so each such file met later has all its lines ignored
/// (`begin_file`); and leaving out more modules keeps those left out.
pub proof fn lemma_excluded_module_stays_out(modules: Seq<String>, more: Seq<String>, path: Seq<char>)
    requires
        under_some(modules, path),
    ensures
        under_some(modules + more, path),
{
    let i = choose|i: int| 0 <= i < modules.len() && components((#[trigger] modules[i])@).is_prefix_of(components(path));
    assert((modules + more)[i] == modules[i]);
}

/// A module just left out holds every file under it.
pub proof fn lemma_new_module_holds_its_files(modules: Seq<String>, path: Seq<char>)
    requires
        modules.len() > 0,
        components(modules.last()@).is_prefix_of(components(path)),
    ensures
        under_some(modules, path),
{
    assert(components((modules[modules.len() - 1])@).is_prefix_of(components(path)));
}

} // verus!
