//! Building the test binaries with cargo: the toolchain's abilities, the
//! binaries found, the arguments and flags handed to cargo.
use vstd::prelude::*;
use crate::config::Config;
use crate::config::types::{RunType, Mode, TraceEngine, color_lower_name};
use crate::paths::{Comp, components, file_name_spec, path_components, comps_view};
use crate::paths::Component;
use crate::patterns::{
    char_ws, is_whitespace, regex_replace_all, regex_replaced, regex_valid, regex_captures,
    regex_captured, groups_view,
};
use crate::text::{
    decimal, usize_text, push_str, contains_text, str_contains, joined, join_strings, strs,
    opt_str, string_of, parse_usize, parse_usize_spec,
};

verus! {

/// The release channel of a toolchain.
#[derive(Copy, Clone, Debug, PartialEq, Eq, Structural)]
pub enum Channel {
    Stable,
    Beta,
    Nightly,
}

/// The version of cargo in use.
#[derive(Copy, Clone, Debug, PartialEq, Eq, Structural)]
pub struct CargoVersionInfo {
    pub major: usize,
    pub minor: usize,
    pub channel: Channel,
}

/// A toolchain supports llvm coverage from 1.50 on nightly and from 1.60 on any channel.
pub open spec fn supports_llvm_cov_spec(v: CargoVersionInfo) -> bool {
    (v.minor >= 50 && v.channel == Channel::Nightly) || v.minor >= 60
}

impl CargoVersionInfo {
    /// Whether this toolchain can instrument code for llvm coverage.
    pub fn supports_llvm_cov(&self) -> (res: bool)
        ensures
            res == supports_llvm_cov_spec(*self),
    {
        (self.minor >= 50 && self.channel == Channel::Nightly) || self.minor >= 60
    }
}

/// The channel a version suffix names: `-nightly`, `-beta`, else stable.
pub open spec fn channel_of(g: Option<Seq<char>>) -> Channel {
    if g == Some("-nightly"@) {
        Channel::Nightly
    } else if g == Some("-beta"@) {
        Channel::Beta
    } else {
        Channel::Stable
    }
}

/// The version that the groups of a match of the version pattern give: the
/// major and minor numbers and the channel suffix.
pub open spec fn version_from_groups(g: Seq<Option<Seq<char>>>) -> Option<CargoVersionInfo> {
    if g.len() >= 4 && g[1] is Some && g[2] is Some {
        match (parse_usize_spec(g[1]->0), parse_usize_spec(g[2]->0)) {
            (Some(major), Some(minor)) => Some(CargoVersionInfo { major, minor, channel: channel_of(g[3]) }),
            _ => None,
        }
    } else {
        None
    }
}

/// The version that the groups of a match of the version pattern give.
pub fn version_info_from_groups(groups: &Vec<Option<String>>) -> (res: Option<CargoVersionInfo>)
    ensures
        res == version_from_groups(groups_view(groups@)),
{
    let ghost g = groups_view(groups@);
    if groups.len() < 4 {
        return None;
    }
    assert(g[1] == match groups@[1] { Some(s) => Some(s@), None => None::<Seq<char>> });
    assert(g[2] == match groups@[2] { Some(s) => Some(s@), None => None::<Seq<char>> });
    assert(g[3] == match groups@[3] { Some(s) => Some(s@), None => None::<Seq<char>> });
    let major = match &groups[1] {
        Some(s) => parse_usize(&crate::text::chars_of(s.as_str())),
        None => {
            return None;
        },
    };
    let minor = match &groups[2] {
        Some(s) => parse_usize(&crate::text::chars_of(s.as_str())),
        None => {
            return None;
        },
    };
    let channel = match &groups[3] {
        Some(s) => {
            if crate::text::str_eq(s.as_str(), "-nightly") {
                Channel::Nightly
            } else if crate::text::str_eq(s.as_str(), "-beta") {
                Channel::Beta
            } else {
                Channel::Stable
            }
        },
        None => Channel::Stable,
    };
    match (major, minor) {
        (Some(major), Some(minor)) => Some(CargoVersionInfo { major, minor, channel }),
        _ => None,
    }
}

/// The pattern of the first line `cargo --version` prints.
pub open spec fn version_pattern() -> Seq<char> {
    "cargo (\\d)\\.(\\d+)\\.\\d+([\\-betanightly]*)(\\.[[:alnum:]]+)?"@
}

/// Reads the version of cargo from what `cargo --version` printed.
pub fn parse_cargo_version(output: &str) -> (res: Option<CargoVersionInfo>)
    ensures
        regex_valid(version_pattern()) ==> res == match regex_captured(version_pattern(), output@) {
            Some(g) => version_from_groups(g),
            None => None,
        },
        !regex_valid(version_pattern()) ==> res is None,
{
    let pattern = "cargo (\\d)\\.(\\d+)\\.\\d+([\\-betanightly]*)(\\.[[:alnum:]]+)?";
    match regex_captures(pattern, output) {
        Some(groups) => version_info_from_groups(&groups),
        None => None,
    }
}

/// Whether the toolchain whose version is known (if it is) is a nightly one.
pub fn is_nightly(version: &Option<CargoVersionInfo>) -> (res: bool)
    ensures
        res == (version matches Some(v) && v.channel == Channel::Nightly),
{
    match version {
        Some(v) => v.channel == Channel::Nightly,
        None => false,
    }
}

/// Whether the toolchain whose version is known (if it is) supports llvm coverage.
pub fn supports_llvm_coverage(version: &Option<CargoVersionInfo>) -> (res: bool)
    ensures
        res == (version matches Some(v) && supports_llvm_cov_spec(*v)),
{
    match version {
        Some(v) => v.supports_llvm_cov(),
        None => false,
    }
}

/// The flag that turns llvm coverage on: stable from 1.60, unstable before.
pub open spec fn llvm_flag_spec(version: Option<CargoVersionInfo>) -> Seq<char> {
    if version matches Some(v) && v.minor >= 60 {
        " -Cinstrument-coverage "@
    } else {
        " -Zinstrument-coverage "@
    }
}

/// The rust flag that turns llvm coverage on for the toolchain in use.
pub fn llvm_coverage_rustflag(version: &Option<CargoVersionInfo>) -> (res: &'static str)
    ensures
        res@ == llvm_flag_spec(*version),
{
    match version {
        Some(v) if v.minor >= 60 => " -Cinstrument-coverage ",
        _ => " -Zinstrument-coverage ",
    }
}

/// The text of a file name, empty where the path has none.
pub open spec fn file_name_text(path: Seq<char>) -> Seq<char> {
    match file_name_spec(components(path)) {
        Some(n) => n,
        None => Seq::<char>::empty(),
    }
}

/// A test executable that cargo built, with what is known of its package.
pub struct TestBinary {
    pub path: String,
    pub ty: Option<RunType>,
    pub cargo_dir: Option<String>,
    pub pkg_name: Option<String>,
    pub pkg_version: Option<String>,
    pub pkg_authors: Option<Vec<String>>,
    pub should_panic: bool,
    /// Linker paths used when linking the binary.
    pub linker_paths: Vec<String>,
}

/// The library search path of a binary: its linker paths joined by `:`,
/// followed by the value the environment already had, if any.
pub open spec fn ld_path_spec(linker_paths: Seq<Seq<char>>, env: Option<Seq<char>>) -> Seq<char> {
    match env {
        Some(e) => joined(linker_paths, ":"@) + ":"@ + e,
        None => joined(linker_paths, ":"@),
    }
}

impl TestBinary {
    /// A binary at `path` of the given kind, with nothing known of its package.
    pub fn new(path: String, ty: Option<RunType>) -> (res: Self)
        ensures
            res.path@ == path@,
            res.ty == ty,
            res.cargo_dir is None,
            res.pkg_name is None,
            res.pkg_version is None,
            res.pkg_authors is None,
            !res.should_panic,
            res.linker_paths@.len() == 0,
    {
        TestBinary {
            path,
            ty,
            pkg_name: None,
            pkg_version: None,
            pkg_authors: None,
            cargo_dir: None,
            should_panic: false,
            linker_paths: Vec::new(),
        }
    }

    pub fn path(&self) -> (res: &String)
        ensures
            res@ == self.path@,
    {
        &self.path
    }

    pub fn run_type(&self) -> (res: Option<RunType>)
        ensures
            res == self.ty,
    {
        self.ty
    }

    pub fn manifest_dir(&self) -> (res: &Option<String>)
        ensures
            opt_str(*res) == opt_str(self.cargo_dir),
    {
        &self.cargo_dir
    }

    pub fn pkg_name(&self) -> (res: &Option<String>)
        ensures
            opt_str(*res) == opt_str(self.pkg_name),
    {
        &self.pkg_name
    }

    pub fn pkg_version(&self) -> (res: &Option<String>)
        ensures
            opt_str(*res) == opt_str(self.pkg_version),
    {
        &self.pkg_version
    }

    pub fn pkg_authors(&self) -> (res: &Option<Vec<String>>)
        ensures
            *res == self.pkg_authors,
    {
        &self.pkg_authors
    }

    /// Whether any linker path was recorded for the binary.
    pub fn has_linker_paths(&self) -> (res: bool)
        ensures
            res == (self.linker_paths@.len() > 0),
    {
        self.linker_paths.len() > 0
    }

    /// Whether the binary runs tests: no kind was given, or the kind is tests.
    pub fn is_test_type(&self) -> (res: bool)
        ensures
            res == (self.ty is None || self.ty == Some(RunType::Tests)),
    {
        match self.ty {
            None => true,
            Some(RunType::Tests) => true,
            _ => false,
        }
    }

    /// The linker paths as a library search path, with `env_value`, the
    /// search path the environment holds (if it holds one), after them.
    pub fn ld_library_path(&self, env_value: Option<&str>) -> (res: String)
        ensures
            res@ == ld_path_spec(strs(self.linker_paths@), match env_value {
                Some(e) => Some(e@),
                None => None,
            }),
    {
        let mut new_vals = join_strings(&self.linker_paths, ":");
        match env_value {
            Some(ld) => {
                new_vals.append(":");
                new_vals.append(ld);
            },
            None => {},
        }
        new_vals
    }

    /// Whether the test is expected to panic.
    pub fn should_panic(&self) -> (res: bool)
        ensures
            res == self.should_panic,
    {
        self.should_panic
    }

    /// The file name of the binary, empty where the path has none.
    pub fn file_name(&self) -> (res: String)
        ensures
            res@ == file_name_text(self.path@),
    {
        match crate::paths::path_file_name(self.path.as_str()) {
            Some(n) => string_of(&n),
            None => String::new(),
        }
    }
}

/// What building the tests produced.
pub struct CargoOutput {
    /// The binaries to run to collect coverage from.
    pub test_binaries: Vec<TestBinary>,
    /// Binaries that are not run directly but may be called while tracing others.
    pub binaries: Vec<String>,
}

/// The names of the named components, in order.
pub open spec fn normal_names(cs: Seq<Comp>) -> Seq<Seq<char>>
    decreases cs.len(),
{
    if cs.len() == 0 {
        Seq::<Seq<char>>::empty()
    } else {
        match cs.last() {
            Comp::Normal(n) => normal_names(cs.drop_last()).push(n),
            _ => normal_names(cs.drop_last()),
        }
    }
}

/// A name with its dots and dashes turned into underscores.
pub open spec fn underscored(n: Seq<char>) -> Seq<char> {
    n.map_values(|c: char| if c == '.' || c == '-' { '_' } else { c })
}

/// The prefix that doctest binaries of the file at `p` are named by: the
/// names on the path, each underscored, joined by underscores.
pub open spec fn prefix_spec(p: Seq<char>) -> Option<Seq<char>> {
    let names = normal_names(components(p));
    if names.len() == 0 {
        None
    } else {
        Some(joined(names.map_values(|n: Seq<char>| underscored(n)), "_"@))
    }
}

/// A copy of a name with its dots and dashes turned into underscores.
fn underscore_name(n: &Vec<char>) -> (res: String)
    ensures
        res@ == underscored(n@),
{
    let mut out: Vec<char> = Vec::new();
    let mut i: usize = 0;
    while i < n.len()
        invariant
            i <= n.len(),
            out@ =~= underscored(n@).take(i as int),
        decreases n.len() - i,
    {
        let c = n[i];
        if c == '.' || c == '-' {
            out.push('_');
        } else {
            out.push(c);
        }
        i = i + 1;
    }
    string_of(&out)
}

/// Converts the path of a source file to the prefix its doctest binaries carry.
pub fn convert_to_prefix(p: &str) -> (res: Option<String>)
    ensures
        res matches Some(r) ==> prefix_spec(p@) == Some(r@),
        res is None ==> prefix_spec(p@) is None,
{
    let cs = path_components(p);
    let ghost cv = comps_view(cs@);
    let mut buffer: Vec<String> = Vec::new();
    let mut i: usize = 0;
    assert(cv.take(0) =~= Seq::<Comp>::empty());
    while i < cs.len()
        invariant
            i <= cs.len(),
            cv == comps_view(cs@),
            strs(buffer@) =~= normal_names(cv.take(i as int)).map_values(|n: Seq<char>| underscored(n)),
        decreases cs.len() - i,
    {
        assert(cv.take(i + 1).drop_last() =~= cv.take(i as int));
        assert(cv.take(i + 1).last() == cs@[i as int]@);
        match &cs[i] {
            Component::Normal(n) => {
                let ghost o = strs(buffer@);
                buffer.push(underscore_name(n));
                assert(strs(buffer@) =~= o.push(underscored(n@)));
            },
            _ => {},
        }
        i = i + 1;
    }
    assert(cv.take(cs.len() as int) =~= cv);
    if buffer.len() == 0 {
        None
    } else {
        Some(join_strings(&buffer, "_"))
    }
}

/// Whether the doctest prefix of the file at `entry` is `prefix`.
pub fn is_prefix_match(prefix: &str, entry: &str) -> (res: bool)
    ensures
        res == (prefix_spec(entry@) == Some(prefix@)),
{
    match convert_to_prefix(entry) {
        Some(p) => crate::text::str_eq(p.as_str(), prefix),
        None => false,
    }
}

/// The last place at which `s` holds `a` directly followed by `b`.
pub open spec fn rfind_pair(s: Seq<char>, a: char, b: char) -> Option<int>
    decreases s.len(),
{
    if s.len() < 2 {
        None
    } else if s[s.len() - 2] == a && s.last() == b {
        Some(s.len() - 2)
    } else {
        rfind_pair(s.drop_last(), a, b)
    }
}

/// The last place at which `s` holds `c`.
pub open spec fn rfind_char(s: Seq<char>, c: char) -> Option<int>
    decreases s.len(),
{
    if s.len() == 0 {
        None
    } else if s.last() == c {
        Some(s.len() - 1)
    } else {
        rfind_char(s.drop_last(), c)
    }
}

/// Where a doctest binary came from: the prefix of its source file and the
/// line of the test in it.
pub struct DocTestBinaryMeta {
    pub prefix: String,
    pub line: usize,
}

/// The meaning of the name of the folder a doctest binary sits in:
/// `{prefix}rs_{line}_{number}`.
pub open spec fn doctest_meta_spec(folder: Seq<char>) -> Option<(Seq<char>, usize)> {
    match (rfind_pair(folder, 'r', 's'), rfind_char(folder, '_')) {
        (Some(r), Some(end)) => {
            let file_end = r + 2;
            if end > file_end && end - file_end > 1 {
                match parse_usize_spec(folder.subrange(file_end + 1, end)) {
                    Some(line) => Some((folder.take(file_end), line)),
                    None => None,
                }
            } else {
                None
            }
        },
        _ => None,
    }
}

/// The folder a doctest binary sits in: the component before the last, when it is named.
pub open spec fn doctest_folder(cs: Seq<Comp>) -> Option<Seq<char>> {
    if cs.len() >= 2 && cs[cs.len() - 2] is Normal {
        Some(cs[cs.len() - 2]->Normal_0)
    } else {
        None
    }
}

fn rfind_pair_exec(s: &Vec<char>, a: char, b: char) -> (res: Option<usize>)
    ensures
        res matches Some(r) ==> rfind_pair(s@, a, b) == Some(r as int) && r + 2 <= s.len(),
        res is None ==> rfind_pair(s@, a, b) is None,
{
    let mut k: usize = s.len();
    assert(s@.take(k as int) =~= s@);
    while k >= 2
        invariant
            k <= s.len(),
            rfind_pair(s@, a, b) == rfind_pair(s@.take(k as int), a, b),
        decreases k,
    {
        assert(s@.take(k as int)[k - 2] == s@[k - 2]);
        assert(s@.take(k as int).last() == s@[k - 1]);
        if s[k - 2] == a && s[k - 1] == b {
            return Some(k - 2);
        }
        assert(s@.take(k as int).drop_last() =~= s@.take(k - 1));
        k = k - 1;
    }
    None
}

pub(crate) fn rfind_char_exec(s: &Vec<char>, c: char) -> (res: Option<usize>)
    ensures
        res matches Some(r) ==> rfind_char(s@, c) == Some(r as int) && r < s.len(),
        res is None ==> rfind_char(s@, c) is None,
{
    let mut k: usize = s.len();
    assert(s@.take(k as int) =~= s@);
    while k >= 1
        invariant
            k <= s.len(),
            rfind_char(s@, c) == rfind_char(s@.take(k as int), c),
        decreases k,
    {
        assert(s@.take(k as int).last() == s@[k - 1]);
        if s[k - 1] == c {
            return Some(k - 1);
        }
        assert(s@.take(k as int).drop_last() =~= s@.take(k - 1));
        k = k - 1;
    }
    None
}

/// The characters of `s` from `from` up to `to`.
pub(crate) fn slice_chars(s: &Vec<char>, from: usize, to: usize) -> (res: Vec<char>)
    requires
        from <= to <= s.len(),
    ensures
        res@ == s@.subrange(from as int, to as int),
{
    let mut out: Vec<char> = Vec::new();
    let mut i: usize = from;
    while i < to
        invariant
            from <= i <= to <= s.len(),
            out@ =~= s@.subrange(from as int, i as int),
        decreases to - i,
    {
        out.push(s[i]);
        i = i + 1;
    }
    out
}

impl DocTestBinaryMeta {
    /// Reads the source prefix and line of a doctest binary from its path.
    pub fn new(test: &str) -> (res: Option<Self>)
        ensures
            res matches Some(m) ==> (doctest_folder(components(test@)) matches Some(f)
                && doctest_meta_spec(f) == Some((m.prefix@, m.line))),
            res is None ==> (doctest_folder(components(test@)) matches Some(f) ==> doctest_meta_spec(f) is None),
    {
        let cs = path_components(test);
        if cs.len() < 2 {
            return None;
        }
        let folder = match &cs[cs.len() - 2] {
            Component::Normal(n) => n,
            _ => {
                return None;
            },
        };
        let r = match rfind_pair_exec(folder, 'r', 's') {
            Some(r) => r,
            None => {
                return None;
            },
        };
        let file_end = r + 2;
        let end = match rfind_char_exec(folder, '_') {
            Some(e) => e,
            None => {
                return None;
            },
        };
        if end > file_end && end - file_end > 1 {
            let digits = slice_chars(folder, file_end + 1, end);
            match parse_usize(&digits) {
                Some(line) => {
                    let prefix = slice_chars(folder, 0, file_end);
                    assert(prefix@ =~= folder@.take(file_end as int));
                    Some(DocTestBinaryMeta { prefix: string_of(&prefix), line })
                },
                None => None,
            }
        } else {
            None
        }
    }
}

/// The words of `s`: its longest runs of characters that are not white space.
pub open spec fn ws_words(s: Seq<char>) -> Seq<Seq<char>>
    decreases s.len(),
{
    if s.len() == 0 {
        Seq::<Seq<char>>::empty()
    } else {
        let w = ws_words(s.drop_last());
        if char_ws(s.last()) {
            w
        } else if s.len() > 1 && !char_ws(s[s.len() - 2]) {
            w.update(w.len() - 1, w.last().push(s.last()))
        } else {
            w.push(seq![s.last()])
        }
    }
}

/// What a flag is told apart by: a `--cfg` flag by all of it, another flag by
/// what comes before its first `=`.
pub open spec fn flag_key(w: Seq<char>) -> Seq<char> {
    if w.len() >= 5 && w.take(5) == "--cfg"@ {
        w
    } else {
        match first_index(w, '=') {
            Some(i) => w.take(i),
            None => w,
        }
    }
}

/// The first place at which `s` holds `c`.
pub open spec fn first_index(s: Seq<char>, c: char) -> Option<int>
    decreases s.len(),
{
    if s.len() == 0 {
        None
    } else {
        match first_index(s.drop_last(), c) {
            Some(i) => Some(i),
            None => if s.last() == c { Some(s.len() - 1) } else { None },
        }
    }
}

/// Whether some flag of `ws` has the key `k`.
pub open spec fn has_key(ws: Seq<Seq<char>>, k: Seq<char>) -> bool {
    exists|i: int| 0 <= i < ws.len() && flag_key(#[trigger] ws[i]) == k
}

/// The flags of `ws` whose key no earlier flag has.
pub open spec fn first_flags(ws: Seq<Seq<char>>) -> Seq<Seq<char>>
    decreases ws.len(),
{
    if ws.len() == 0 {
        Seq::<Seq<char>>::empty()
    } else {
        let r = first_flags(ws.drop_last());
        if has_key(ws.drop_last(), flag_key(ws.last())) {
            r
        } else {
            r.push(ws.last())
        }
    }
}

/// Of the flags kept, no two share a key; each is a flag given, and every
/// key given is kept.
pub proof fn lemma_first_flags(ws: Seq<Seq<char>>)
    ensures
        forall|a: int, b: int| 0 <= a < b < first_flags(ws).len()
            ==> flag_key(#[trigger] first_flags(ws)[a]) != flag_key(#[trigger] first_flags(ws)[b]),
        forall|a: int| 0 <= a < first_flags(ws).len() ==> ws.contains(#[trigger] first_flags(ws)[a]),
        forall|i: int| 0 <= i < ws.len() ==> has_key(first_flags(ws), flag_key(#[trigger] ws[i])),
    decreases ws.len(),
{
    if ws.len() > 0 {
        let pre = ws.drop_last();
        lemma_first_flags(pre);
        let r = first_flags(pre);
        let v = ws.last();
        assert forall|a: int| 0 <= a < r.len() implies ws.contains(#[trigger] r[a]) by {
            let k = choose|k: int| 0 <= k < pre.len() && pre[k] == r[a];
            assert(ws[k] == r[a]);
        }
        if has_key(pre, flag_key(v)) {
            assert forall|i: int| 0 <= i < ws.len() implies has_key(first_flags(ws), flag_key(#[trigger] ws[i])) by {
                if i < pre.len() {
                    assert(pre[i] == ws[i]);
                } else {
                    let j = choose|j: int| 0 <= j < pre.len() && flag_key(#[trigger] pre[j]) == flag_key(v);
                    assert(has_key(r, flag_key(pre[j])));
                }
            }
        } else {
            let n = r.push(v);
            assert forall|a: int| 0 <= a < r.len() implies flag_key(#[trigger] r[a]) != flag_key(v) by {
                let k = choose|k: int| 0 <= k < pre.len() && pre[k] == r[a];
                assert(flag_key(pre[k]) == flag_key(r[a]));
            }
            assert forall|a: int, b: int| 0 <= a < b < n.len() implies flag_key(#[trigger] n[a]) != flag_key(#[trigger] n[b]) by {
                if b == r.len() {
                    assert(n[a] == r[a]);
                } else {
                    assert(n[a] == r[a] && n[b] == r[b]);
                }
            }
            assert forall|a: int| 0 <= a < n.len() implies ws.contains(#[trigger] n[a]) by {
                if a == r.len() {
                    assert(ws[ws.len() - 1] == v);
                } else {
                    assert(n[a] == r[a]);
                }
            }
            assert forall|i: int| 0 <= i < ws.len() implies has_key(n, flag_key(#[trigger] ws[i])) by {
                if i < pre.len() {
                    assert(pre[i] == ws[i]);
                    let j = choose|j: int| 0 <= j < r.len() && flag_key(#[trigger] r[j]) == flag_key(pre[i]);
                    assert(n[j] == r[j]);
                } else {
                    assert(n[r.len() as int] == v);
                }
            }
        }
    }
}

/// The flags of `s`, each kept where no earlier one has its key, joined by spaces.
pub open spec fn dedup_words_spec(s: Seq<char>) -> Seq<char> {
    joined(first_flags(ws_words(s)), " "@)
}

/// A word: some characters, none of them white space.
pub open spec fn is_word(w: Seq<char>) -> bool {
    w.len() > 0 && forall|i: int| 0 <= i < w.len() ==> !char_ws(#[trigger] w[i])
}

/// Every word `ws_words` gives is a word, and a text ending in a character
/// that is not white space has a word.
proof fn lemma_ws_words_are_words(s: Seq<char>)
    ensures
        forall|i: int| 0 <= i < ws_words(s).len() ==> is_word(#[trigger] ws_words(s)[i]),
        s.len() > 0 && !char_ws(s.last()) ==> ws_words(s).len() > 0,
    decreases s.len(),
{
    if s.len() > 0 {
        let w = ws_words(s.drop_last());
        lemma_ws_words_are_words(s.drop_last());
        let r = ws_words(s);
        if char_ws(s.last()) {
        } else if s.len() > 1 && !char_ws(s[s.len() - 2]) {
            assert(s.drop_last().last() == s[s.len() - 2]);
            assert(w.len() > 0);
            assert(r == w.update(w.len() - 1, w.last().push(s.last())));
            assert forall|i: int| 0 <= i < r.len() implies is_word(#[trigger] r[i]) by {
                if i == w.len() - 1 {
                    let x = w.last().push(s.last());
                    assert(is_word(w[w.len() - 1]));
                    assert(r[i] == x);
                    assert forall|j: int| 0 <= j < x.len() implies !char_ws(#[trigger] x[j]) by {
                        if j < w.last().len() {
                            assert(x[j] == w[w.len() - 1][j]);
                        }
                    }
                } else {
                    assert(r[i] == w[i]);
                }
            }
        } else {
            assert(r == w.push(seq![s.last()]));
            assert forall|i: int| 0 <= i < r.len() implies is_word(#[trigger] r[i]) by {
                if i < w.len() {
                    assert(r[i] == w[i]);
                }
            }
        }
    }
}

/// A word after white space ends the words of the text with itself.
proof fn lemma_ws_words_after_space(t: Seq<char>, w: Seq<char>)
    requires
        is_word(w),
    ensures
        ws_words(t + seq![' '] + w) == ws_words(t).push(w),
    decreases w.len(),
{
    let s = t + seq![' '] + w;
    assert(char_ws(' '));
    assert(!char_ws(w[w.len() - 1]));
    if w.len() == 1 {
        let ts = t + seq![' '];
        assert(s.drop_last() =~= ts);
        assert(ts.drop_last() =~= t);
        assert(ts.last() == ' ');
        assert(ws_words(ts) == ws_words(t));
        assert(s[s.len() - 2] == ' ');
        assert(s.last() == w[0]);
        assert(w =~= seq![w[0]]);
        assert(ws_words(s) == ws_words(s.drop_last()).push(seq![s.last()]));
    } else {
        let v = w.drop_last();
        assert forall|i: int| 0 <= i < v.len() implies !char_ws(#[trigger] v[i]) by {
            assert(v[i] == w[i]);
        }
        lemma_ws_words_after_space(t, v);
        assert(s.drop_last() =~= t + seq![' '] + v);
        assert(s[s.len() - 2] == w[w.len() - 2]);
        assert(!char_ws(w[w.len() - 2]));
        assert(ws_words(t).push(v).last().push(s.last()) =~= w);
        let pv = ws_words(s.drop_last());
        assert(pv == ws_words(t).push(v));
        assert(ws_words(s) == pv.update(pv.len() - 1, pv.last().push(s.last())));
        assert(ws_words(t).push(v).update(ws_words(t).len() as int, w) =~= ws_words(t).push(w));
    }
}

/// A lone word is the only word of its text.
proof fn lemma_ws_words_word(w: Seq<char>)
    requires
        is_word(w),
    ensures
        ws_words(w) == seq![w],
    decreases w.len(),
{
    assert(!char_ws(w[w.len() - 1]));
    if w.len() == 1 {
        assert(w.drop_last() =~= Seq::<char>::empty());
        assert(ws_words(w.drop_last()) == Seq::<Seq<char>>::empty());
        assert(w =~= seq![w[0]]);
        assert(ws_words(w) == ws_words(w.drop_last()).push(seq![w.last()]));
        assert(Seq::<Seq<char>>::empty().push(seq![w.last()]) =~= seq![w]);
    } else {
        let v = w.drop_last();
        assert forall|i: int| 0 <= i < v.len() implies !char_ws(#[trigger] v[i]) by {
            assert(v[i] == w[i]);
        }
        lemma_ws_words_word(v);
        assert(w.drop_last() == v);
        assert(!char_ws(w[w.len() - 2]));
        assert(ws_words(w) == seq![v].update(0, seq![v].last().push(w.last())));
        assert(v.push(w.last()) =~= w);
        assert(seq![v].update(0, w) =~= seq![w]);
    }
}

/// Words joined by single spaces split back into the same words.
proof fn lemma_ws_words_joined(ws: Seq<Seq<char>>)
    requires
        forall|i: int| 0 <= i < ws.len() ==> is_word(#[trigger] ws[i]),
    ensures
        ws_words(joined(ws, " "@)) == ws,
    decreases ws.len(),
{
    reveal_strlit(" ");
    if ws.len() == 0 {
        assert(ws_words(Seq::<char>::empty()) =~= ws);
    } else if ws.len() == 1 {
        assert(is_word(ws[0]));
        lemma_ws_words_word(ws[0]);
        assert(seq![ws[0]] =~= ws);
    } else {
        let pre = ws.drop_last();
        assert forall|i: int| 0 <= i < pre.len() implies is_word(#[trigger] pre[i]) by {
            assert(pre[i] == ws[i]);
        }
        lemma_ws_words_joined(pre);
        assert(is_word(ws[ws.len() - 1]));
        assert(" "@ =~= seq![' ']);
        lemma_ws_words_after_space(joined(pre, " "@), ws.last());
        assert(pre.push(ws.last()) =~= ws);
    }
}

/// Flags whose keys are all different are kept as they are.
proof fn lemma_first_flags_distinct(ws: Seq<Seq<char>>)
    requires
        forall|a: int, b: int| 0 <= a < b < ws.len() ==> flag_key(#[trigger] ws[a]) != flag_key(#[trigger] ws[b]),
    ensures
        first_flags(ws) == ws,
    decreases ws.len(),
{
    if ws.len() > 0 {
        let pre = ws.drop_last();
        assert forall|a: int, b: int| 0 <= a < b < pre.len() implies flag_key(#[trigger] pre[a]) != flag_key(
            #[trigger] pre[b],
        ) by {
            assert(pre[a] == ws[a] && pre[b] == ws[b]);
        }
        lemma_first_flags_distinct(pre);
        if has_key(pre, flag_key(ws.last())) {
            let j = choose|j: int| 0 <= j < pre.len() && flag_key(#[trigger] pre[j]) == flag_key(ws.last());
            assert(pre[j] == ws[j]);
            assert(flag_key(ws[j]) != flag_key(ws[ws.len() - 1]));
        }
        assert(pre.push(ws.last()) =~= ws);
    }
}

/// Removing repeated flags twice is removing them once: the flags kept are
/// words joined by single spaces, no two with the same key.
pub proof fn lemma_dedup_words_idempotent(s: Seq<char>)
    ensures
        dedup_words_spec(dedup_words_spec(s)) == dedup_words_spec(s),
{
    let ws = ws_words(s);
    let f = first_flags(ws);
    lemma_first_flags(ws);
    lemma_ws_words_are_words(s);
    assert forall|i: int| 0 <= i < f.len() implies is_word(#[trigger] f[i]) by {
        let k = choose|k: int| 0 <= k < ws.len() && ws[k] == f[i];
        assert(is_word(ws[k]));
    }
    lemma_ws_words_joined(f);
    lemma_first_flags_distinct(f);
}

/// The words of `s`.
fn split_ws(s: &str) -> (res: Vec<Vec<char>>)
    ensures
        res@.map_values(|v: Vec<char>| v@) == ws_words(s@),
{
    let cs = crate::text::chars_of(s);
    let mut out: Vec<Vec<char>> = Vec::new();
    let mut i: usize = 0;
    let mut in_word = false;
    while i < cs.len()
        invariant
            i <= cs.len(),
            cs@ == s@,
            out@.map_values(|v: Vec<char>| v@) =~= ws_words(cs@.take(i as int)),
            in_word == (i > 0 && !char_ws(cs@[i - 1])),
            in_word ==> out@.len() > 0,
        decreases cs.len() - i,
    {
        let ghost prev = out@.map_values(|v: Vec<char>| v@);
        let c = cs[i];
        assert(cs@.take(i + 1).drop_last() =~= cs@.take(i as int));
        assert(cs@.take(i + 1).last() == c);
        if is_whitespace(c) {
            in_word = false;
        } else if in_word {
            let last = out.len() - 1;
            let mut w = out.remove(last);
            w.push(c);
            out.push(w);
            assert(out@.map_values(|v: Vec<char>| v@) =~= prev.update(prev.len() - 1, prev.last().push(c)));
        } else {
            let mut w: Vec<char> = Vec::new();
            w.push(c);
            out.push(w);
            assert(out@.map_values(|v: Vec<char>| v@) =~= prev.push(seq![c]));
            in_word = true;
        }
        i = i + 1;
    }
    assert(cs@.take(cs.len() as int) =~= cs@);
    out
}

/// The key of a flag.
fn flag_key_exec(w: &Vec<char>) -> (res: Vec<char>)
    ensures
        res@ == flag_key(w@),
{
    if w.len() >= 5 && w[0] == '-' && w[1] == '-' && w[2] == 'c' && w[3] == 'f' && w[4] == 'g' {
        assert(w@.take(5) =~= "--cfg"@) by {
            reveal_strlit("--cfg");
        }
        return slice_chars(w, 0, w.len());
    }
    proof {
        reveal_strlit("--cfg");
        if w@.len() >= 5 && w@.take(5) == "--cfg"@ {
            assert(w@.take(5)[0] == w@[0]);
            assert(w@.take(5)[1] == w@[1]);
            assert(w@.take(5)[2] == w@[2]);
            assert(w@.take(5)[3] == w@[3]);
            assert(w@.take(5)[4] == w@[4]);
        }
    }
    let ghost not_cfg = !(w@.len() >= 5 && w@.take(5) == "--cfg"@);
    assert(not_cfg);
    let mut i: usize = 0;
    assert(w@.take(0) =~= Seq::<char>::empty());
    while i < w.len()
        invariant
            i <= w.len(),
            not_cfg == !(w@.len() >= 5 && w@.take(5) == "--cfg"@),
            not_cfg,
            first_index(w@.take(i as int), '=') is None,
        decreases w.len() - i,
    {
        assert(w@.take(i + 1).drop_last() =~= w@.take(i as int));
        if w[i] == '=' {
            assert(w@.take(i + 1).last() == '=');
            assert(first_index(w@.take(i + 1), '=') == Some(i as int));
            proof {
                lemma_first_index_prefix(w@, i as int + 1, '=');
            }
            assert(!(w@.len() >= 5 && w@.take(5) == "--cfg"@));
            return slice_chars(w, 0, i);
        }
        i = i + 1;
    }
    assert(w@.take(w.len() as int) =~= w@);
    slice_chars(w, 0, w.len())
}

proof fn lemma_first_index_prefix(s: Seq<char>, k: int, c: char)
    requires
        0 < k <= s.len(),
        first_index(s.take(k), c) is Some,
    ensures
        first_index(s, c) == first_index(s.take(k), c),
    decreases s.len() - k,
{
    if k < s.len() {
        assert(s.take(k + 1).drop_last() =~= s.take(k));
        lemma_first_index_prefix(s, k + 1, c);
    } else {
        assert(s.take(k) =~= s);
    }
}

/// Whether `v` holds a sequence equal to `x`.
fn contains_chars(v: &Vec<Vec<char>>, x: &Vec<char>) -> (res: bool)
    ensures
        res == (exists|i: int| 0 <= i < v@.len() && #[trigger] v@[i]@ == x@),
{
    let mut i: usize = 0;
    while i < v.len()
        invariant
            i <= v.len(),
            forall|k: int| 0 <= k < i ==> v@[k]@ != x@,
        decreases v.len() - i,
    {
        if crate::paths::chars_eq(&v[i], x) {
            return true;
        }
        i = i + 1;
    }
    false
}

/// Keeps of the flags in `flags` the first of each key, and joins them by spaces.
pub fn dedup_flag_words(flags: &str) -> (res: String)
    ensures
        res@ == dedup_words_spec(flags@),
{
    let words = split_ws(flags);
    let ghost ws = words@.map_values(|v: Vec<char>| v@);
    let mut keys: Vec<Vec<char>> = Vec::new();
    let mut kept: Vec<String> = Vec::new();
    let mut i: usize = 0;
    assert(ws.take(0) =~= Seq::<Seq<char>>::empty());
    while i < words.len()
        invariant
            i <= words.len(),
            ws == words@.map_values(|v: Vec<char>| v@),
            keys@.len() == i,
            forall|k: int| 0 <= k < i ==> #[trigger] keys@[k]@ == flag_key(ws[k]),
            strs(kept@) =~= first_flags(ws.take(i as int)),
        decreases words.len() - i,
    {
        let key = flag_key_exec(&words[i]);
        let seen = contains_chars(&keys, &key);
        assert(ws.take(i + 1).drop_last() =~= ws.take(i as int));
        assert(ws.take(i + 1).last() == ws[i as int]);
        assert(seen == has_key(ws.take(i as int), flag_key(ws[i as int]))) by {
            if seen {
                let k = choose|k: int| 0 <= k < keys@.len() && #[trigger] keys@[k]@ == key@;
                assert(ws.take(i as int)[k] == ws[k]);
            }
            if has_key(ws.take(i as int), flag_key(ws[i as int])) {
                let k = choose|k: int| 0 <= k < ws.take(i as int).len() && flag_key(#[trigger] ws.take(i as int)[k]) == flag_key(ws[i as int]);
                assert(keys@[k]@ == key@);
            }
        }
        if !seen {
            let ghost o = strs(kept@);
            kept.push(string_of(&words[i]));
            assert(strs(kept@) =~= o.push(ws[i as int]));
        }
        keys.push(key);
        i = i + 1;
    }
    assert(ws.take(words.len() as int) =~= ws);
    join_strings(&kept, " ")
}

/// One pass of a fixed replacement over the flags: the replaced text where
/// the pattern is accepted, the text itself where it is not.
pub open spec fn replaced_or_kept(pattern: Seq<char>, text: Seq<char>, rep: Seq<char>) -> Seq<char> {
    if regex_valid(pattern) {
        regex_replaced(pattern, text, rep)
    } else {
        text
    }
}

/// The flags with the space after `--cfg`, `-C`, `-Z`, `-W`, `-A` and `-D` taken out.
pub open spec fn squeezed_flags(flags: Seq<char>) -> Seq<char> {
    let a = replaced_or_kept("\\--cfg\\s+"@, flags, "--cfg="@);
    let b = replaced_or_kept("\\-C\\s+"@, a, "-C"@);
    let c = replaced_or_kept("\\-Z\\s+"@, b, "-Z"@);
    let d = replaced_or_kept("\\-W\\s+"@, c, "-W"@);
    let e = replaced_or_kept("\\-A\\s+"@, d, "-A"@);
    replaced_or_kept("\\-D\\s+"@, e, "-D"@)
}

/// Removes repeated flags: spaces after flag letters are squeezed out, then
/// only the first flag of each key is kept.
pub fn deduplicate_flags(flags: &str) -> (res: String)
    ensures
        res@ == dedup_words_spec(squeezed_flags(flags@)),
{
    let res = regex_replace_all("\\--cfg\\s+", flags, "--cfg=");
    let res = regex_replace_all("\\-C\\s+", res.as_str(), "-C");
    let res = regex_replace_all("\\-Z\\s+", res.as_str(), "-Z");
    let res = regex_replace_all("\\-W\\s+", res.as_str(), "-W");
    let res = regex_replace_all("\\-A\\s+", res.as_str(), "-A");
    let res = regex_replace_all("\\-D\\s+", res.as_str(), "-D");
    dedup_flag_words(res.as_str())
}

/// One flag where the condition holds, none otherwise.
pub open spec fn flag_if(b: bool, f: Seq<char>) -> Seq<Seq<char>> {
    if b { seq![f] } else { Seq::<Seq<char>>::empty() }
}

/// A flag followed by its value, where there is a value.
pub open spec fn opt_pair(flag: Seq<char>, v: Option<Seq<char>>) -> Seq<Seq<char>> {
    match v {
        Some(x) => seq![flag, x],
        None => Seq::<Seq<char>>::empty(),
    }
}

/// The flag put before each of the values.
pub open spec fn each_with(flag: Seq<char>, xs: Seq<Seq<char>>) -> Seq<Seq<char>>
    decreases xs.len(),
{
    if xs.len() == 0 {
        Seq::<Seq<char>>::empty()
    } else {
        each_with(flag, xs.drop_last()) + seq![flag, xs.last()]
    }
}

/// Each value with `prefix` in front of it.
pub open spec fn prefixed(prefix: Seq<char>, xs: Seq<Seq<char>>) -> Seq<Seq<char>> {
    xs.map_values(|x: Seq<char>| prefix + x)
}

/// The verbosity, locking and selection arguments of a cargo command.
pub open spec fn head_args_spec(c: Config) -> Seq<Seq<char>> {
    (if c.debug { seq!["-vvv"@] } else if c.verbose { seq!["-v"@] } else { Seq::<Seq<char>>::empty() })
        + flag_if(c.locked, "--locked"@)
        + flag_if(c.frozen, "--frozen"@)
        + flag_if(c.no_fail_fast, "--no-fail-fast"@)
        + opt_pair("--profile"@, opt_str(c.profile))
        + opt_pair("--jobs"@, match c.jobs { Some(j) => Some(decimal(j as nat)), None => None })
        + opt_pair("--features"@, opt_str(c.features))
        + flag_if(c.all_features, "--all-features"@)
        + flag_if(c.no_default_features, "--no-default-features"@)
        + flag_if(c.all, "--workspace"@)
        + flag_if(c.release, "--release"@)
}

/// The package, color and target arguments of a cargo command.
pub open spec fn middle_args_spec(c: Config, target_dir: Seq<char>) -> Seq<Seq<char>> {
    each_with("--package"@, strs(c.packages@))
        + each_with("--exclude"@, strs(c.exclude@))
        + seq!["--color"@, color_lower_name(c.color)]
        + opt_pair("--target"@, opt_str(c.target))
        + seq!["--target-dir"@, target_dir]
        + flag_if(c.offline, "--offline"@)
}

/// The unstable features and the arguments handed on to the tests.
pub open spec fn tail_args_spec(c: Config) -> Seq<Seq<char>> {
    prefixed("-Z"@, strs(c.unstable_features@))
        + (if c.command == Mode::Test && c.varargs@.len() > 0 {
            seq!["--"@] + strs(c.varargs@)
        } else {
            Seq::<Seq<char>>::empty()
        })
}

/// The arguments that every cargo command of a run carries.
pub open spec fn init_args_spec(c: Config, target_dir: Seq<char>) -> Seq<Seq<char>> {
    head_args_spec(c) + middle_args_spec(c, target_dir) + tail_args_spec(c)
}

/// Appends copies of the strings of `w` to `v`.
pub(crate) fn append_strs(v: &mut Vec<String>, w: &Vec<String>)
    ensures
        strs(final(v)@) == strs(old(v)@) + strs(w@),
{
    let ghost before = strs(v@);
    let mut i: usize = 0;
    while i < w.len()
        invariant
            i <= w.len(),
            strs(v@) =~= before + strs(w@).take(i as int),
        decreases w.len() - i,
    {
        push_str(v, w[i].as_str());
        assert(strs(w@).take(i + 1) =~= strs(w@).take(i as int).push(w@[i as int]@));
        i = i + 1;
    }
    assert(strs(w@).take(w.len() as int) =~= strs(w@));
}

/// Pushes `flag` and then `x` onto `v`, for each `x` of `xs`.
fn push_each_with(v: &mut Vec<String>, flag: &str, xs: &Vec<String>)
    ensures
        strs(final(v)@) == strs(old(v)@) + each_with(flag@, strs(xs@)),
{
    let ghost start = strs(v@);
    let ghost xv = strs(xs@);
    let mut i: usize = 0;
    assert(xv.take(0) =~= Seq::<Seq<char>>::empty());
    while i < xs.len()
        invariant
            i <= xs.len(),
            xv == strs(xs@),
            strs(v@) =~= start + each_with(flag@, xv.take(i as int)),
        decreases xs.len() - i,
    {
        assert(xv.take(i + 1).drop_last() =~= xv.take(i as int));
        assert(xv.take(i + 1).last() == xv[i as int]);
        push_str(v, flag);
        push_str(v, xs[i].as_str());
        i = i + 1;
    }
    assert(xv.take(xs.len() as int) =~= xv);
}

/// Pushes a flag onto `v` where the condition holds.
fn push_flag_if(v: &mut Vec<String>, b: bool, f: &str)
    ensures
        strs(final(v)@) == strs(old(v)@) + flag_if(b, f@),
{
    if b {
        push_str(v, f);
    }
    assert(strs(v@) =~= strs(old(v)@) + flag_if(b, f@));
}

/// Pushes a flag and its value onto `v` where there is a value.
fn push_opt_pair(v: &mut Vec<String>, flag: &str, x: &Option<String>)
    ensures
        strs(final(v)@) == strs(old(v)@) + opt_pair(flag@, opt_str(*x)),
{
    match x {
        Some(s) => {
            push_str(v, flag);
            push_str(v, s.as_str());
        },
        None => {},
    }
    assert(strs(v@) =~= strs(old(v)@) + opt_pair(flag@, opt_str(*x)));
}

fn head_args(config: &Config) -> (res: Vec<String>)
    ensures
        strs(res@) == head_args_spec(*config),
{
    let mut v: Vec<String> = Vec::new();
    if config.debug {
        push_str(&mut v, "-vvv");
    } else if config.verbose {
        push_str(&mut v, "-v");
    }
    assert(strs(v@) =~= (if config.debug { seq!["-vvv"@] } else if config.verbose { seq!["-v"@] } else { Seq::<Seq<char>>::empty() }));
    push_flag_if(&mut v, config.locked, "--locked");
    push_flag_if(&mut v, config.frozen, "--frozen");
    push_flag_if(&mut v, config.no_fail_fast, "--no-fail-fast");
    push_opt_pair(&mut v, "--profile", &config.profile);
    let jobs = match config.jobs {
        Some(j) => Some(usize_text(j)),
        None => None,
    };
    push_opt_pair(&mut v, "--jobs", &jobs);
    push_opt_pair(&mut v, "--features", &config.features);
    push_flag_if(&mut v, config.all_features, "--all-features");
    push_flag_if(&mut v, config.no_default_features, "--no-default-features");
    push_flag_if(&mut v, config.all, "--workspace");
    push_flag_if(&mut v, config.release, "--release");
    v
}

fn middle_args(config: &Config, target_dir: &str) -> (res: Vec<String>)
    ensures
        strs(res@) == middle_args_spec(*config, target_dir@),
{
    let mut v: Vec<String> = Vec::new();
    push_each_with(&mut v, "--package", &config.packages);
    assert(strs(v@) =~= each_with("--package"@, strs(config.packages@)));
    push_each_with(&mut v, "--exclude", &config.exclude);
    let ghost a = strs(v@);
    push_str(&mut v, "--color");
    push_str(&mut v, config.color.lower_name());
    assert(strs(v@) =~= a + seq!["--color"@, color_lower_name(config.color)]);
    push_opt_pair(&mut v, "--target", &config.target);
    let ghost b = strs(v@);
    push_str(&mut v, "--target-dir");
    push_str(&mut v, target_dir);
    assert(strs(v@) =~= b + seq!["--target-dir"@, target_dir@]);
    push_flag_if(&mut v, config.offline, "--offline");
    v
}

fn tail_args(config: &Config) -> (res: Vec<String>)
    ensures
        strs(res@) == tail_args_spec(*config),
{
    let mut v: Vec<String> = Vec::new();
    let ghost feats = strs(config.unstable_features@);
    let mut i: usize = 0;
    while i < config.unstable_features.len()
        invariant
            i <= config.unstable_features.len(),
            feats == strs(config.unstable_features@),
            strs(v@) =~= prefixed("-Z"@, feats.take(i as int)),
        decreases config.unstable_features.len() - i,
    {
        let mut f = String::from_str("-Z");
        f.append(config.unstable_features[i].as_str());
        let ghost o = strs(v@);
        v.push(f);
        assert(strs(v@) =~= o.push("-Z"@ + feats[i as int]));
        assert(prefixed("-Z"@, feats.take(i + 1)) =~= prefixed("-Z"@, feats.take(i as int)).push("-Z"@ + feats[i as int]));
        i = i + 1;
    }
    assert(feats.take(config.unstable_features.len() as int) =~= feats);
    let ghost zs = strs(v@);
    if config.command == Mode::Test && config.varargs.len() > 0 {
        push_str(&mut v, "--");
        append_strs(&mut v, &config.varargs);
        assert(strs(v@) =~= zs + (seq!["--"@] + strs(config.varargs@)));
    } else {
        assert(strs(v@) =~= zs + Seq::<Seq<char>>::empty());
    }
    v
}

/// Each value comes right after the flag: the `2j`th entry is the flag and
/// the next one the `j`th value.
pub proof fn lemma_each_with(flag: Seq<char>, xs: Seq<Seq<char>>)
    ensures
        each_with(flag, xs).len() == 2 * xs.len(),
        forall|k: int|
            0 <= k < each_with(flag, xs).len() ==> #[trigger] each_with(flag, xs)[k] == if k % 2 == 0 {
                flag
            } else {
                xs[k / 2]
            },
{
    lemma_each_with_len(flag, xs);
    assert forall|k: int| 0 <= k < each_with(flag, xs).len() implies #[trigger] each_with(flag, xs)[k] == if k % 2
        == 0 {
        flag
    } else {
        xs[k / 2]
    } by {
        let j = k / 2;
        assert(k == 2 * j || k == 2 * j + 1);
        lemma_each_with_at(flag, xs, j);
    }
}

proof fn lemma_each_with_len(flag: Seq<char>, xs: Seq<Seq<char>>)
    ensures
        each_with(flag, xs).len() == 2 * xs.len(),
    decreases xs.len(),
{
    if xs.len() > 0 {
        lemma_each_with_len(flag, xs.drop_last());
    }
}

proof fn lemma_each_with_at(flag: Seq<char>, xs: Seq<Seq<char>>, j: int)
    requires
        0 <= j < xs.len(),
    ensures
        each_with(flag, xs)[2 * j] == flag,
        each_with(flag, xs)[2 * j + 1] == xs[j],
    decreases xs.len(),
{
    let pre = xs.drop_last();
    lemma_each_with_len(flag, pre);
    let pw = each_with(flag, pre);
    let w = each_with(flag, xs);
    assert(w == pw + seq![flag, xs.last()]);
    if j < xs.len() - 1 {
        lemma_each_with_at(flag, pre, j);
        assert(pre[j] == xs[j]);
        assert(w[2 * j] == pw[2 * j]);
        assert(w[2 * j + 1] == pw[2 * j + 1]);
    } else {
        assert(2 * j == pw.len());
        assert(w[2 * j] == seq![flag, xs.last()][0]);
        assert(w[2 * j + 1] == seq![flag, xs.last()][1]);
    }
}

/// In the arguments every cargo command carries, after the verbosity,
/// locking and selection arguments, each package selected comes right after
/// `--package`, then each package excluded right after `--exclude`, in
/// order, and then `--color`.
pub proof fn lemma_init_args_packages(c: Config, target_dir: Seq<char>)
    ensures
        ({
            let a = init_args_spec(c, target_dir);
            let h = head_args_spec(c).len() as int;
            let p = c.packages@.len() as int;
            let x = c.exclude@.len() as int;
            &&& forall|j: int| 0 <= j < p ==> #[trigger] a[h + 2 * j] == "--package"@ && a[h + 2 * j + 1] == c.packages@[j]@
            &&& forall|j: int|
                0 <= j < x ==> #[trigger] a[h + 2 * p + 2 * j] == "--exclude"@ && a[h + 2 * p + 2 * j + 1] == c.exclude@[j]@
            &&& a[h + 2 * p + 2 * x] == "--color"@
        }),
{
    let ps = strs(c.packages@);
    let xs = strs(c.exclude@);
    lemma_each_with("--package"@, ps);
    lemma_each_with("--exclude"@, xs);
    let a = init_args_spec(c, target_dir);
    let hd = head_args_spec(c);
    let m = middle_args_spec(c, target_dir);
    let h = hd.len() as int;
    let p = c.packages@.len() as int;
    let x = c.exclude@.len() as int;
    let pk = each_with("--package"@, ps);
    let ex = each_with("--exclude"@, xs);
    assert(a == hd + m + tail_args_spec(c));
    assert forall|j: int| 0 <= j < p implies #[trigger] a[h + 2 * j] == "--package"@ && a[h + 2 * j + 1] == c.packages@[j]@ by {
        assert(ps[j] == c.packages@[j]@);
        assert((2 * j) % 2 == 0 && (2 * j + 1) % 2 == 1 && (2 * j + 1) / 2 == j);
        assert(pk[2 * j] == "--package"@ && pk[2 * j + 1] == ps[j]);
        assert(m[2 * j] == pk[2 * j]);
        assert(m[2 * j + 1] == pk[2 * j + 1]);
    }
    assert forall|j: int|
        0 <= j < x implies #[trigger] a[h + 2 * p + 2 * j] == "--exclude"@ && a[h + 2 * p + 2 * j + 1] == c.exclude@[j]@ by {
        assert(xs[j] == c.exclude@[j]@);
        assert((2 * j) % 2 == 0 && (2 * j + 1) % 2 == 1 && (2 * j + 1) / 2 == j);
        assert(ex[2 * j] == "--exclude"@ && ex[2 * j + 1] == xs[j]);
        assert(m[2 * p + 2 * j] == ex[2 * j]);
        assert(m[2 * p + 2 * j + 1] == ex[2 * j + 1]);
    }
    assert(m[2 * p + 2 * x] == "--color"@);
}

/// The arguments that every cargo command of a run carries, `target_dir`
/// being the directory that build artifacts go to.
pub fn init_args(config: &Config, target_dir: &str) -> (res: Vec<String>)
    ensures
        strs(res@) == init_args_spec(*config, target_dir@),
{
    let mut v = head_args(config);
    let m = middle_args(config, target_dir);
    append_strs(&mut v, &m);
    let t = tail_args(config);
    append_strs(&mut v, &t);
    v
}

/// The cargo flag that selects the targets of a kind.
pub open spec fn run_type_flag(t: RunType) -> Seq<char> {
    match t {
        RunType::Tests => "--tests"@,
        RunType::Doctests => "--doc"@,
        RunType::Benchmarks => "--benches"@,
        RunType::Examples => "--examples"@,
        RunType::AllTargets => "--all-targets"@,
        RunType::Lib => "--lib"@,
        RunType::Bins => "--bins"@,
    }
}

fn run_type_flag_exec(t: RunType) -> (res: &'static str)
    ensures
        res@ == run_type_flag(t),
{
    match t {
        RunType::Tests => "--tests",
        RunType::Doctests => "--doc",
        RunType::Benchmarks => "--benches",
        RunType::Examples => "--examples",
        RunType::AllTargets => "--all-targets",
        RunType::Lib => "--lib",
        RunType::Bins => "--bins",
    }
}

/// The arguments of the cargo command that builds the tests of the given kind
/// (or the named ones where no kind is given), after the toolchain choice.
pub open spec fn command_args_spec(manifest: Seq<char>, c: Config, ty: Option<RunType>, target_dir: Seq<char>) -> Seq<Seq<char>> {
    (if ty == Some(RunType::Doctests) {
        seq!["test"@]
    } else if c.command == Mode::Test {
        seq!["test"@, "--no-run"@]
    } else {
        seq!["build"@]
    })
        + seq!["--message-format"@, "json"@, "--manifest-path"@, manifest]
        + match ty {
            Some(t) => seq![run_type_flag(t)],
            None => each_with("--test"@, strs(c.test_names@))
                + each_with("--bin"@, strs(c.bin_names@))
                + each_with("--example"@, strs(c.example_names@))
                + each_with("--bench"@, strs(c.bench_names@)),
        }
        + init_args_spec(c, target_dir)
}

/// The arguments of the cargo command that builds the tests of the given
/// kind, or the named tests, binaries, examples and benches where no kind is given.
pub fn create_command_args(manifest_path: &str, config: &Config, ty: Option<RunType>, target_dir: &str) -> (res: Vec<String>)
    ensures
        strs(res@) == command_args_spec(manifest_path@, *config, ty, target_dir@),
{
    let mut v: Vec<String> = Vec::new();
    if ty == Some(RunType::Doctests) {
        push_str(&mut v, "test");
    } else if config.command == Mode::Test {
        push_str(&mut v, "test");
        push_str(&mut v, "--no-run");
    } else {
        push_str(&mut v, "build");
    }
    push_str(&mut v, "--message-format");
    push_str(&mut v, "json");
    push_str(&mut v, "--manifest-path");
    push_str(&mut v, manifest_path);
    match ty {
        Some(t) => {
            push_str(&mut v, run_type_flag_exec(t));
        },
        None => {
            push_each_with(&mut v, "--test", &config.test_names);
            push_each_with(&mut v, "--bin", &config.bin_names);
            push_each_with(&mut v, "--example", &config.example_names);
            push_each_with(&mut v, "--bench", &config.bench_names);
        },
    }
    let rest = init_args(config, target_dir);
    append_strs(&mut v, &rest);
    v
}

/// The flags that the coverage backend in use asks for: the llvm coverage
/// flag for llvm, else dead code kept unless that was turned off.
pub open spec fn llvm_flags_spec(engine: TraceEngine, no_dead_code: bool, version: Option<CargoVersionInfo>) -> Seq<char> {
    if engine == TraceEngine::Llvm {
        llvm_flag_spec(version)
    } else if !no_dead_code {
        " -Clink-dead-code "@
    } else {
        Seq::<char>::empty()
    }
}

/// Appends to `value` the flags that the coverage backend in use asks for.
pub fn handle_llvm_flags(value: &mut String, config: &Config, engine: TraceEngine, version: &Option<CargoVersionInfo>)
    ensures
        final(value)@ == old(value)@ + llvm_flags_spec(engine, config.no_dead_code, *version),
{
    if engine == TraceEngine::Llvm {
        value.append(llvm_coverage_rustflag(version));
    } else if !config.no_dead_code {
        value.append(" -Clink-dead-code ");
    } else {
        assert(value@ =~= value@ + Seq::<char>::empty());
    }
}

/// The rust flags before those taken from the environment or cargo's configuration.
pub open spec fn base_rustflags(c: Config, engine: TraceEngine, version: Option<CargoVersionInfo>) -> Seq<char> {
    (match opt_str(c.rustflags) { Some(f) => f, None => Seq::<char>::empty() })
        + " -Cdebuginfo=2 "@
        + "-Cstrip=none "@
        + (if !c.avoid_cfg_tarpaulin { "--cfg=tarpaulin "@ } else { Seq::<char>::empty() })
        + (if c.release { "-Cdebug-assertions=off "@ } else { Seq::<char>::empty() })
        + llvm_flags_spec(engine, c.no_dead_code, version)
}

/// The rust flags of the build: the base flags, then the user's flags from
/// `RUSTFLAGS` (`env_flags`) or else from cargo's configuration
/// (`config_flags`), with their debug info settings taken out (and dead code
/// settings too where dead code is not wanted), all without repeats.
pub open spec fn rust_flags_spec(c: Config, engine: TraceEngine, version: Option<CargoVersionInfo>, env_flags: Option<Seq<char>>, config_flags: Seq<char>) -> Seq<char> {
    let extra = match env_flags {
        Some(v) => {
            let t = replaced_or_kept("\\-C\\s*debuginfo=\\d"@, v, " "@);
            if c.no_dead_code {
                replaced_or_kept("\\-C\\s*link-dead-code"@, t, " "@)
            } else {
                t
            }
        },
        None => replaced_or_kept("\\-C\\s*debuginfo=\\d"@, config_flags, " "@),
    };
    dedup_words_spec(squeezed_flags(base_rustflags(c, engine, version) + extra))
}

/// The rust flags to build the tests with; `env_flags` is the value of
/// `RUSTFLAGS` where it is set, `config_flags` the `build.rustflags` of
/// cargo's configuration files.
pub fn rust_flags(config: &Config, engine: TraceEngine, version: &Option<CargoVersionInfo>, env_flags: Option<&str>, config_flags: &str) -> (res: String)
    ensures
        res@ == rust_flags_spec(*config, engine, *version, match env_flags {
            Some(v) => Some(v@),
            None => None,
        }, config_flags@),
{
    let mut value = match &config.rustflags {
        Some(f) => f.clone(),
        None => String::new(),
    };
    value.append(" -Cdebuginfo=2 ");
    value.append("-Cstrip=none ");
    if !config.avoid_cfg_tarpaulin {
        value.append("--cfg=tarpaulin ");
    } else {
        assert(value@ =~= value@ + Seq::<char>::empty());
    }
    if config.release {
        value.append("-Cdebug-assertions=off ");
    } else {
        assert(value@ =~= value@ + Seq::<char>::empty());
    }
    handle_llvm_flags(&mut value, config, engine, version);
    assert(value@ == base_rustflags(*config, engine, *version));
    match env_flags {
        Some(vtemp) => {
            let temp = regex_replace_all("\\-C\\s*debuginfo=\\d", vtemp, " ");
            if config.no_dead_code {
                let t2 = regex_replace_all("\\-C\\s*link-dead-code", temp.as_str(), " ");
                value.append(t2.as_str());
            } else {
                value.append(temp.as_str());
            }
        },
        None => {
            let t = regex_replace_all("\\-C\\s*debuginfo=\\d", config_flags, " ");
            value.append(t.as_str());
        },
    }
    deduplicate_flags(value.as_str())
}

/// The rustdoc flags of the build: the common flags and where doctests are
/// kept, then the user's flags from `RUSTDOCFLAGS` (`env_flags`, unless they
/// choose where doctests are kept themselves) or else from cargo's
/// configuration (`config_flags`), then the backend's flags, all without repeats.
pub open spec fn rustdoc_flags_spec(c: Config, engine: TraceEngine, version: Option<CargoVersionInfo>, doctest_dir: Seq<char>, env_flags: Option<Seq<char>>, config_flags: Seq<char>) -> Seq<char> {
    let base = " -Cdebuginfo=2 --cfg=tarpaulin -Cstrip=none "@ + " --persist-doctests "@ + doctest_dir + " -Zunstable-options "@;
    let extra = match env_flags {
        Some(v) => if contains_text(v, "--persist-doctests"@) { Seq::<char>::empty() } else { v },
        None => config_flags,
    };
    dedup_words_spec(squeezed_flags(base + extra + llvm_flags_spec(engine, c.no_dead_code, version)))
}

/// The rustdoc flags to build doctests with; `env_flags` is the value of
/// `RUSTDOCFLAGS` where it is set, `config_flags` the `build.rustdocflags` of
/// cargo's configuration files.
pub fn rustdoc_flags(config: &Config, engine: TraceEngine, version: &Option<CargoVersionInfo>, doctest_dir: &str, env_flags: Option<&str>, config_flags: &str) -> (res: String)
    ensures
        res@ == rustdoc_flags_spec(*config, engine, *version, doctest_dir@, match env_flags {
            Some(v) => Some(v@),
            None => None,
        }, config_flags@),
{
    let mut value = String::from_str(" -Cdebuginfo=2 --cfg=tarpaulin -Cstrip=none ");
    value.append(" --persist-doctests ");
    value.append(doctest_dir);
    value.append(" -Zunstable-options ");
    match env_flags {
        Some(vtemp) => {
            if !str_contains(vtemp, "--persist-doctests") {
                value.append(vtemp);
            } else {
                assert(value@ =~= value@ + Seq::<char>::empty());
            }
        },
        None => {
            value.append(config_flags);
        },
    }
    handle_llvm_flags(&mut value, config, engine, version);
    deduplicate_flags(value.as_str())
}

/// The toolchain argument of a cargo command: for doctests, the toolchain
/// that `RUSTUP_TOOLCHAIN` names where it is a nightly one (or any where
/// `RUSTC_BOOTSTRAP` is set), else nightly unless bootstrapping or already
/// on nightly; for other builds, the toolchain `RUSTUP_TOOLCHAIN` names.
pub open spec fn toolchain_args_spec(ty: Option<RunType>, toolchain: Option<Seq<char>>, bootstrap: bool, nightly: bool) -> Seq<Seq<char>> {
    if ty == Some(RunType::Doctests) {
        match toolchain {
            Some(t) if (t.len() >= 7 && t.take(7) == "nightly"@) || bootstrap => seq!["+"@ + t],
            _ => if !bootstrap && !nightly { seq!["+nightly"@] } else { Seq::<Seq<char>>::empty() },
        }
    } else {
        match toolchain {
            Some(t) => seq!["+"@ + t],
            None => Seq::<Seq<char>>::empty(),
        }
    }
}

/// Whether `s` starts with `p`.
fn starts_with_text(s: &str, p: &str) -> (res: bool)
    ensures
        res == (p@.len() <= s@.len() && s@.take(p@.len() as int) == p@),
{
    let a = crate::text::chars_of(s);
    let b = crate::text::chars_of(p);
    if b.len() > a.len() {
        return false;
    }
    let mut i: usize = 0;
    while i < b.len()
        invariant
            i <= b.len() <= a.len(),
            a@ == s@,
            b@ == p@,
            forall|k: int| 0 <= k < i ==> a@[k] == b@[k],
        decreases b.len() - i,
    {
        if a[i] != b[i] {
            assert(s@.take(p@.len() as int)[i as int] != p@[i as int]);
            return false;
        }
        i = i + 1;
    }
    assert(s@.take(p@.len() as int) =~= p@);
    true
}

/// The toolchain argument of a cargo command for targets of kind `ty`;
/// `toolchain` is the value of `RUSTUP_TOOLCHAIN` where it is set,
/// `bootstrap` whether `RUSTC_BOOTSTRAP` is `1`, `nightly` whether cargo is
/// a nightly one.
pub fn toolchain_args(ty: Option<RunType>, toolchain: Option<&str>, bootstrap: bool, nightly: bool) -> (res: Vec<String>)
    ensures
        strs(res@) == toolchain_args_spec(ty, match toolchain {
            Some(t) => Some(t@),
            None => None,
        }, bootstrap, nightly),
{
    let mut v: Vec<String> = Vec::new();
    proof {
        reveal_strlit("nightly");
    }
    if ty == Some(RunType::Doctests) {
        let chosen = match toolchain {
            Some(t) => {
                if starts_with_text(t, "nightly") || bootstrap {
                    Some(t)
                } else {
                    None
                }
            },
            None => None,
        };
        match chosen {
            Some(t) => {
                let mut a = String::from_str("+");
                a.append(t);
                v.push(a);
            },
            None => {
                if !bootstrap && !nightly {
                    v.push(String::from_str("+nightly"));
                }
            },
        }
    } else {
        match toolchain {
            Some(t) => {
                let mut a = String::from_str("+");
                a.append(t);
                v.push(a);
            },
            None => {},
        }
    }
    assert(strs(v@) =~= toolchain_args_spec(ty, match toolchain {
        Some(t) => Some(t@),
        None => None,
    }, bootstrap, nightly));
    v
}

/// The cargo builds of a run, each by the kind of targets it builds: one
/// for each kind chosen; then one for the named targets where any are
/// named, or else, where no kind was chosen, the tests (or everything, for a
/// plain build).
pub open spec fn cargo_runs_spec(c: Config) -> Seq<Option<RunType>> {
    c.run_types@.map_values(|t: RunType| Some(t))
        + if c.test_names@.len() > 0 || c.bin_names@.len() > 0 || c.example_names@.len() > 0 || c.bench_names@.len() > 0 {
            seq![None::<RunType>]
        } else if c.run_types@.len() == 0 {
            seq![if c.command == Mode::Test { Some(RunType::Tests) } else { None }]
        } else {
            Seq::<Option<RunType>>::empty()
        }
}

/// The cargo builds of a run, in order.
pub fn cargo_runs(config: &Config) -> (res: Vec<Option<RunType>>)
    ensures
        res@ == cargo_runs_spec(*config),
{
    let mut v: Vec<Option<RunType>> = Vec::new();
    let mut i: usize = 0;
    while i < config.run_types.len()
        invariant
            i <= config.run_types.len(),
            v@ =~= config.run_types@.take(i as int).map_values(|t: RunType| Some(t)),
        decreases config.run_types.len() - i,
    {
        v.push(Some(config.run_types[i]));
        assert(config.run_types@.take(i + 1) =~= config.run_types@.take(i as int).push(config.run_types@[i as int]));
        i = i + 1;
    }
    assert(config.run_types@.take(config.run_types.len() as int) =~= config.run_types@);
    let ghost head = v@;
    if config.has_named_tests() {
        v.push(None);
    } else if config.run_types.len() == 0 {
        let ty = if config.command == Mode::Test { Some(RunType::Tests) } else { None };
        v.push(ty);
    }
    assert(v@ =~= cargo_runs_spec(*config));
    v
}

/// The file name of the coverage profile the build scripts write.
pub open spec fn build_profraw() -> Seq<char> {
    "build_rs_cov.profraw"@
}

/// The environment of a cargo build: where build scripts write their
/// profile, the marker of a coverage run, the rust and rustdoc flags, and
/// `RUSTC_BOOTSTRAP` handed on where it is set.
pub open spec fn cargo_env_spec(root: Seq<char>, rustflags: Seq<char>, rustdocflags: Seq<char>, bootstrap: Option<Seq<char>>) -> Seq<(Seq<char>, Seq<char>)> {
    seq![
        ("LLVM_PROFILE_FILE"@, crate::paths::join_spec(root, build_profraw())),
        ("TARPAULIN"@, "1"@),
        ("RUSTFLAGS"@, rustflags),
        ("RUSTDOCFLAGS"@, rustdocflags),
    ] + match bootstrap {
        Some(b) => seq![("RUSTC_BOOTSTRAP"@, b)],
        None => Seq::<(Seq<char>, Seq<char>)>::empty(),
    }
}

/// The view of pairs of strings.
pub open spec fn pairs_view(v: Seq<(String, String)>) -> Seq<(Seq<char>, Seq<char>)> {
    v.map_values(|p: (String, String)| (p.0@, p.1@))
}

/// The environment variables of a cargo build; `bootstrap` is the value of
/// `RUSTC_BOOTSTRAP` where it is set.
pub fn cargo_env(root: &str, rustflags: &str, rustdocflags: &str, bootstrap: Option<&str>) -> (res: Vec<(String, String)>)
    ensures
        pairs_view(res@) == cargo_env_spec(root@, rustflags@, rustdocflags@, match bootstrap {
            Some(b) => Some(b@),
            None => None,
        }),
{
    let mut v: Vec<(String, String)> = Vec::new();
    let profile = string_of(&crate::paths::join_text(&crate::text::chars_of(root), &crate::text::chars_of("build_rs_cov.profraw")));
    v.push((String::from_str("LLVM_PROFILE_FILE"), profile));
    v.push((String::from_str("TARPAULIN"), String::from_str("1")));
    v.push((String::from_str("RUSTFLAGS"), rustflags.to_string()));
    v.push((String::from_str("RUSTDOCFLAGS"), rustdocflags.to_string()));
    match bootstrap {
        Some(b) => {
            v.push((String::from_str("RUSTC_BOOTSTRAP"), b.to_string()));
        },
        None => {},
    }
    assert(pairs_view(v@) =~= cargo_env_spec(root@, rustflags@, rustdocflags@, match bootstrap {
        Some(b) => Some(b@),
        None => None,
    }));
    v
}

/// The extension of a file name: what follows its last dot, where something
/// comes before that dot.
pub open spec fn extension_of(name: Seq<char>) -> Option<Seq<char>> {
    match rfind_char(name, '.') {
        Some(i) => if i > 0 { Some(name.skip(i + 1)) } else { None },
        None => None,
    }
}

/// Whether a file found where doctests are kept can be a doctest binary:
/// it is no debug database, source file or library archive, and no part of
/// its path names a debug symbol bundle.
pub open spec fn doctest_candidate_spec(path: Seq<char>) -> bool {
    let cs = components(path);
    let ext = match file_name_spec(cs) {
        Some(n) => extension_of(n),
        None => None,
    };
    &&& ext != Some("pdb"@)
    &&& ext != Some("rs"@)
    &&& ext != Some("rlib"@)
    &&& !(exists|i: int| 0 <= i < cs.len() && contains_text(crate::paths::comp_text(#[trigger] cs[i]), "dSYM"@))
}

/// Whether a file found where doctests are kept can be a doctest binary.
pub fn is_doctest_candidate(path: &str) -> (res: bool)
    ensures
        res == doctest_candidate_spec(path@),
{
    let cs = path_components(path);
    let ext: Option<String> = match crate::paths::path_file_name(path) {
        Some(n) => match rfind_char_exec(&n, '.') {
            Some(i) => if i > 0 {
                Some(string_of(&slice_chars(&n, i + 1, n.len())))
            } else {
                None
            },
            None => None,
        },
        None => None,
    };
    let ghost e = ext;
    let bad_ext = match &ext {
        Some(x) => crate::text::str_eq(x.as_str(), "pdb") || crate::text::str_eq(x.as_str(), "rs")
            || crate::text::str_eq(x.as_str(), "rlib"),
        None => false,
    };
    assert(opt_str(ext) == match file_name_spec(components(path@)) {
        Some(n) => extension_of(n),
        None => None,
    });
    if bad_ext {
        return false;
    }
    let mut i: usize = 0;
    while i < cs.len()
        invariant
            i <= cs.len(),
            comps_view(cs@) == components(path@),
            forall|k: int| 0 <= k < i ==> !contains_text(crate::paths::comp_text(#[trigger] comps_view(cs@)[k]), "dSYM"@),
        decreases cs.len() - i,
    {
        let t = string_of(&crate::paths::component_text(&cs[i]));
        if str_contains(t.as_str(), "dSYM") {
            assert(comps_view(cs@)[i as int] == cs@[i as int]@);
            return false;
        }
        i = i + 1;
    }
    true
}

} // verus!
