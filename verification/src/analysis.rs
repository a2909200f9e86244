//! What the analysis of a source file keeps: the lines to leave out of
//! coverage, the lines to count though no instrumentation marks them, and
//! how physical lines map to logical ones.
use vstd::prelude::*;
use std::collections::{HashMap, HashSet};
use crate::patterns::{char_ws, is_whitespace, regex_is_match, regex_matches, regex_valid};
use crate::text::{contains_text, lines_of, str_contains, string_of, text_lines};

verus! {

broadcast use vstd::std_specs::hash::group_hash_axioms;

/// Which lines to ignore.
#[derive(Copy, Clone, Debug, PartialEq, Eq, Hash, Structural)]
pub enum Lines {
    /// Ignore all lines in the file
    All,
    /// A single line to ignore in the file
    Line(usize),
}

/// The results of the analysis of a single file.
pub struct LineAnalysis {
    /// Lines to leave out of coverage though the debug tables may mark them
    /// (a set: each entry once).
    pub ignore: Vec<Lines>,
    /// Lines to count though they may be left out.
    pub cover: HashSet<usize>,
    /// The logical line of each physical line that belongs to a longer one.
    pub logical_lines: HashMap<usize, usize>,
    /// The number of lines of the file (0 where unknown).
    pub max_line: usize,
}

impl LineAnalysis {
    /// The ignored entries hold no repeats, and no covered line is also
    /// ignored as a single line.
    pub open spec fn wf(&self) -> bool {
        &&& self.ignore@.no_duplicates()
        &&& forall|i: usize| #[trigger] self.cover@.contains(i) ==> !self.ignore@.contains(Lines::Line(i))
    }

    /// An analysis that keeps nothing.
    pub fn new() -> (res: Self)
        ensures
            res.wf(),
            res.ignore@.len() == 0,
            res.cover@ == Set::<usize>::empty(),
            res.logical_lines@ == Map::<usize, usize>::empty(),
            res.max_line == 0,
    {
        LineAnalysis {
            ignore: Vec::new(),
            cover: HashSet::new(),
            logical_lines: HashMap::new(),
            max_line: 0,
        }
    }

    /// An analysis that keeps nothing yet, of a file of `max_line` lines.
    pub fn with_max_line(max_line: usize) -> (res: Self)
        ensures
            res.wf(),
            res.ignore@.len() == 0,
            res.cover@ == Set::<usize>::empty(),
            res.logical_lines@ == Map::<usize, usize>::empty(),
            res.max_line == max_line,
    {
        LineAnalysis {
            ignore: Vec::new(),
            cover: HashSet::new(),
            logical_lines: HashMap::new(),
            max_line,
        }
    }

    /// Ignore all lines in the file.
    pub fn ignore_all(&mut self)
        ensures
            final(self).wf(),
            final(self).ignore@ == seq![Lines::All],
            final(self).cover@ == Set::<usize>::empty(),
            final(self).logical_lines@ == old(self).logical_lines@,
            final(self).max_line == old(self).max_line,
    {
        self.ignore.clear();
        self.cover.clear();
        self.ignore.push(Lines::All);
        assert(self.ignore@ =~= seq![Lines::All]);
    }

    /// Adds the lines of a span, from `start` to `end` inclusive, to the
    /// ignored lines (and takes them out of the covered ones), unless all
    /// lines are ignored already.
    pub fn ignore_span(&mut self, start: usize, end: usize)
        requires
            old(self).wf(),
        ensures
            final(self).wf(),
            old(self).ignore@.contains(Lines::All) ==> final(self).ignore@ == old(self).ignore@
                && final(self).cover@ == old(self).cover@,
            !old(self).ignore@.contains(Lines::All) ==> {
                &&& final(self).ignore@.to_set() == old(self).ignore@.to_set()
                    + Set::new(|l: Lines| l matches Lines::Line(i) && start <= i <= end)
                &&& final(self).cover@ == old(self).cover@.filter(|i: usize| !(start <= i <= end))
            },
            forall|i: usize| start <= i <= end ==> #[trigger] final(self).ignore@.contains(Lines::Line(i))
                || final(self).ignore@.contains(Lines::All),
            forall|i: usize| start <= i <= end ==> !#[trigger] final(self).cover@.contains(i)
                || old(self).ignore@.contains(Lines::All),
            final(self).logical_lines@ == old(self).logical_lines@,
            final(self).max_line == old(self).max_line,
    {
        if contains_lines(&self.ignore, Lines::All) {
            return;
        }
        if start > end {
            assert(self.ignore@.to_set() =~= self.ignore@.to_set()
                + Set::new(|l: Lines| l matches Lines::Line(i) && start <= i <= end));
            assert(self.cover@ =~= self.cover@.filter(|i: usize| !(start <= i <= end)));
            return;
        }
        let ghost ig0 = self.ignore@.to_set();
        let ghost cv0 = self.cover@;
        let mut i: usize = start;
        loop
            invariant_except_break
                start <= i <= end,
                self.ignore@.to_set() == ig0 + Set::new(|l: Lines| l matches Lines::Line(k) && start <= k < i),
                self.cover@ == cv0.filter(|k: usize| !(start <= k < i)),
            invariant
                self.ignore@.no_duplicates(),
                self.logical_lines@ == old(self).logical_lines@,
                self.max_line == old(self).max_line,
            ensures
                self.ignore@.to_set() == ig0 + Set::new(|l: Lines| l matches Lines::Line(k) && start <= k <= end),
                self.cover@ == cv0.filter(|k: usize| !(start <= k <= end)),
            decreases end - i,
        {
            let ghost before = self.ignore@.to_set();
            insert_lines(&mut self.ignore, Lines::Line(i));
            self.cover.remove(&i);
            assert(self.ignore@.to_set() =~= ig0 + Set::new(|l: Lines| l matches Lines::Line(k) && start <= k <= i));
            assert(self.cover@ =~= cv0.filter(|k: usize| !(start <= k <= i)));
            if i == end {
                break;
            }
            i = i + 1;
            assert(Set::new(|l: Lines| l matches Lines::Line(k) && start <= k < i)
                =~= Set::new(|l: Lines| l matches Lines::Line(k) && start <= k <= i - 1));
            assert(cv0.filter(|k: usize| !(start <= k < i)) =~= cv0.filter(|k: usize| !(start <= k <= i - 1)));
        }
        proof {
            assert forall|k: usize| start <= k <= end implies #[trigger] self.ignore@.contains(Lines::Line(k)) by {
                assert(self.ignore@.to_set().contains(Lines::Line(k)));
            }
            assert forall|k: usize| #[trigger] self.cover@.contains(k) implies !self.ignore@.contains(Lines::Line(k)) by {
                assert(cv0.contains(k));
                assert(!old(self).ignore@.contains(Lines::Line(k)));
                assert(!ig0.contains(Lines::Line(k)));
                assert(!self.ignore@.to_set().contains(Lines::Line(k)));
            }
        }
    }

    /// Adds to the covered lines those of a span, from `start` to `end`,
    /// that are worth covering in `contents` and are not ignored.
    pub fn cover_span(&mut self, start: usize, end: usize, contents: Option<&str>)
        requires
            contents is Some ==> 1 <= start <= end,
        ensures
            final(self).cover@ == old(self).cover@ + Set::new(|i: usize|
                useful_lines(match contents {
                    Some(c) => Some(c@),
                    None => None,
                }, start as int, end as int).contains(i as int)
                    && !old(self).ignore@.contains(Lines::Line(i))),
            final(self).ignore@ == old(self).ignore@,
            final(self).logical_lines@ == old(self).logical_lines@,
            final(self).max_line == old(self).max_line,
    {
        let ghost cv = match contents {
            Some(c) => Some(c@),
            None => None,
        };
        let ghost u = useful_lines(cv, start as int, end as int);
        let mut flags: Vec<bool> = Vec::new();
        let ghost mut w: Seq<Seq<char>> = Seq::<Seq<char>>::empty();
        match contents {
            Some(c) => {
                let ls = lines_of(c);
                let ghost lv = ls@.map_values(|v: Vec<char>| v@);
                let first = start - 1;
                let len = end - start;
                let stop = if first >= ls.len() {
                    first
                } else if ls.len() - first < len {
                    ls.len()
                } else {
                    first + len
                };
                proof {
                    w = window(lv, first as int, len as int);
                }
                let mut is_comment = false;
                let mut j: usize = first;
                while j < stop
                    invariant
                        first <= j <= stop,
                        stop <= ls.len() || stop == first,
                        stop - first == w.len(),
                        lv == ls@.map_values(|v: Vec<char>| v@),
                        w == window(lv, first as int, len as int),
                        flags@.len() == j - first,
                        is_comment == comment_open(w, (j - first) as int),
                        forall|k: int| 0 <= k < flags@.len() ==> #[trigger] flags@[k] == is_code_line(w, k),
                    decreases stop - j,
                {
                    let k = j - first;
                    assert(w[k as int] == ls@[j as int]@);
                    let line = string_of(&ls[j]);
                    let opens = str_contains(line.as_str(), "/*");
                    let closes = str_contains(line.as_str(), "*/");
                    let is_code = if opens {
                        if !closes {
                            is_comment = true;
                        }
                        false
                    } else if is_comment {
                        if closes {
                            is_comment = false;
                        }
                        false
                    } else {
                        true
                    };
                    let single = regex_is_match("\\s*//", line.as_str());
                    flags.push(is_code && !single);
                    j = j + 1;
                }
            },
            None => {},
        }
        assert(forall|k: int| 0 <= k < flags@.len() ==> #[trigger] flags@[k] == is_code_line(w, k));
        assert(contents is Some ==> w == window(text_lines(cv->0), start - 1, end - start));
        let ghost c0 = self.cover@;
        // The lines from `start` to `end`, each added where it is worth covering.
        let mut i: usize = start;
        if start <= end {
            loop
                invariant_except_break
                    start <= i <= end,
                    self.cover@ == c0 + Set::new(|x: usize| start <= x < i && u.contains(x as int) && !self.ignore@.contains(Lines::Line(x))),
                invariant
                    self.ignore@ == old(self).ignore@,
                    self.logical_lines@ == old(self).logical_lines@,
                    self.max_line == old(self).max_line,
                    flags@.len() == w.len(),
                    forall|k: int| 0 <= k < flags@.len() ==> #[trigger] flags@[k] == is_code_line(w, k),
                    contents is Some ==> u == Set::new(|x: int| start <= x && x - start < w.len() && is_code_line(w, x - start)),
                    contents is None ==> u == Set::<int>::empty() && flags@.len() == 0,
                ensures
                    self.cover@ == c0 + Set::new(|x: usize| start <= x <= end && u.contains(x as int) && !self.ignore@.contains(Lines::Line(x))),
                decreases end - i,
            {
                let worth = i - start < flags.len() && flags[i - start];
                if worth && !contains_lines(&self.ignore, Lines::Line(i)) {
                    self.cover.insert(i);
                }
                assert(self.cover@ =~= c0 + Set::new(|x: usize| start <= x <= i && u.contains(x as int) && !self.ignore@.contains(Lines::Line(x))));
                if i == end {
                    break;
                }
                i = i + 1;
            }
        }
        assert(self.cover@ =~= c0 + Set::new(|x: usize| u.contains(x as int) && !self.ignore@.contains(Lines::Line(x))));
    }

    /// The covered lines, each once, in no particular order.
    pub fn cover_lines(&self) -> (res: Vec<usize>)
        ensures
            res@.to_set() == self.cover@,
            res@.no_duplicates(),
    {
        broadcast use vstd::std_specs::hash::axiom_spec_hash_keys_iter;
        let mut v: Vec<usize> = Vec::new();
        let iter = self.cover.iter();
        let ghost all = vstd::std_specs::iter::IteratorSpec::remaining(&iter).unref();
        assert(all.to_set() == self.cover@ && all.no_duplicates());
        for x in it: iter
            invariant
                all == it.seq().unref(),
                v@ == it.seq().unref().take(it.index() as int),
        {
            v.push(*x);
            assert(v@ =~= it.seq().unref().take(it.index() + 1));
        }
        assert(v@ =~= all);
        v
    }

    /// Whether the line is left out of coverage: it is ignored, all lines
    /// are, or it lies beyond the known end of the file.
    pub fn should_ignore(&self, line: usize) -> (res: bool)
        ensures
            res == (self.ignore@.contains(Lines::Line(line)) || self.ignore@.contains(Lines::All)
                || (self.max_line > 0 && self.max_line < line)),
    {
        contains_lines(&self.ignore, Lines::Line(line)) || contains_lines(&self.ignore, Lines::All)
            || (self.max_line > 0 && self.max_line < line)
    }

    /// Ignores the lines of `contents`, the text of the file, that have
    /// nothing to cover: comments, lines of nothing but brackets and
    /// punctuation, and `} else {` lines.
    pub fn find_ignorable_lines(&mut self, contents: &str)
        requires
            old(self).wf(),
        ensures
            final(self).wf(),
            old(self).ignore@.contains(Lines::All) ==> final(self).ignore@ == old(self).ignore@
                && final(self).cover@ == old(self).cover@,
            !old(self).ignore@.contains(Lines::All) ==> {
                &&& final(self).ignore@.to_set() == old(self).ignore@.to_set() + single_lines(ignorable_lines(contents@))
                &&& final(self).cover@ == old(self).cover@.filter(|i: usize| !ignorable_lines(contents@).contains(i))
            },
            final(self).logical_lines@ == old(self).logical_lines@,
            final(self).max_line == old(self).max_line,
    {
        let lines = lines_of(contents);
        let ghost ls = lines@.map_values(|v: Vec<char>| v@);
        let pattern = "^((\\s*//)|([\\[\\]\\{\\}\\(\\)\\s;\\?,/]*$))";
        let mut matched: Vec<usize> = Vec::new();
        let mut elses: Vec<usize> = Vec::new();
        let mut i: usize = 0;
        assert(ls.take(0) =~= Seq::<Seq<char>>::empty());
        while i < lines.len()
            invariant
                i <= lines.len(),
                ls == lines@.map_values(|v: Vec<char>| v@),
                ls == text_lines(contents@),
                pattern@ == ignorable_pattern(),
                matched@ == numbered_where(ls.take(i as int), |l: Seq<char>| ignorable(l)),
                elses@ == numbered_where(ls.take(i as int), |l: Seq<char>| without_ws(l) == "}else{"@),
            decreases lines.len() - i,
        {
            assert(ls.take(i + 1).drop_last() =~= ls.take(i as int));
            assert(ls.take(i + 1).last() == lines@[i as int]@);
            let text = string_of(&lines[i]);
            if regex_is_match(pattern, text.as_str()) {
                matched.push(i + 1);
            }
            let squeezed = without_whitespace(&lines[i]);
            if crate::text::str_eq(squeezed.as_str(), "}else{") {
                elses.push(i + 1);
            }
            i = i + 1;
        }
        assert(ls.take(lines.len() as int) =~= ls);
        let ghost before = *self;
        self.add_to_ignore(&matched);
        let ghost mid = *self;
        self.add_to_ignore(&elses);
        proof {
            let all = ignorable_lines(contents@);
            assert(all == matched@ + elses@);
            if !before.ignore@.contains(Lines::All) {
                assert(!mid.ignore@.contains(Lines::All)) by {
                    if mid.ignore@.contains(Lines::All) {
                        assert(mid.ignore@.to_set().contains(Lines::All));
                    }
                }
                assert(single_lines(all) =~= single_lines(matched@) + single_lines(elses@)) by {
                    assert forall|m: Lines| single_lines(all).contains(m) <==> (single_lines(matched@)
                        + single_lines(elses@)).contains(m) by {
                        lemma_line_in_concat(m, matched@, elses@);
                    }
                }
                assert forall|k: usize| self.cover@.contains(k) <==> before.cover@.filter(
                    |k: usize| !all.contains(k),
                ).contains(k) by {
                    lemma_line_in_concat(Lines::Line(k), matched@, elses@);
                }
                assert(self.cover@ =~= before.cover@.filter(|k: usize| !all.contains(k)));
            }
        }
    }

    /// The logical line that line `l` counts as in the statistics: the one
    /// the analysis maps it to, else the line itself.
    pub fn normalise(&self, l: usize) -> (res: usize)
        ensures
            res == (if self.logical_lines@.dom().contains(l) {
                self.logical_lines@[l]
            } else {
                l
            }),
    {
        match self.logical_lines.get(&l) {
            Some(o) => *o,
            None => l,
        }
    }

    /// Counts line `l` again: it is no longer ignored as a single line.
    pub fn unignore_line(&mut self, l: usize)
        requires
            old(self).wf(),
        ensures
            final(self).wf(),
            final(self).ignore@.to_set() == old(self).ignore@.to_set().remove(Lines::Line(l)),
            final(self).ignore@.contains(Lines::All) == old(self).ignore@.contains(Lines::All),
            final(self).cover@ == old(self).cover@,
            final(self).logical_lines@ == old(self).logical_lines@,
            final(self).max_line == old(self).max_line,
    {
        let ghost old_ig = self.ignore@;
        let mut kept: Vec<Lines> = Vec::new();
        let mut i: usize = 0;
        while i < self.ignore.len()
            invariant
                i <= self.ignore@.len(),
                self.ignore@ == old_ig,
                old_ig.no_duplicates(),
                kept@.no_duplicates(),
                forall|x: Lines| kept@.contains(x) <==> (old_ig.take(i as int).contains(x) && x != Lines::Line(l)),
            decreases self.ignore@.len() - i,
        {
            let x = self.ignore[i];
            let ghost k0 = kept@;
            proof {
                assert(old_ig.take(i + 1) =~= old_ig.take(i as int).push(old_ig[i as int]));
                assert forall|y: Lines| old_ig.take(i + 1).contains(y) <==> (old_ig.take(i as int).contains(y) || y == x) by {
                    if old_ig.take(i + 1).contains(y) {
                        let k = choose|k: int| 0 <= k < i + 1 && #[trigger] old_ig.take(i + 1)[k] == y;
                        if k < i {
                            assert(old_ig.take(i as int)[k] == y);
                        }
                    }
                    if old_ig.take(i as int).contains(y) {
                        let k = choose|k: int| 0 <= k < i && #[trigger] old_ig.take(i as int)[k] == y;
                        assert(old_ig.take(i + 1)[k] == y);
                    }
                    if y == x {
                        assert(old_ig.take(i + 1)[i as int] == y);
                    }
                }
                assert(!old_ig.take(i as int).contains(x)) by {
                    if old_ig.take(i as int).contains(x) {
                        let k = choose|k: int| 0 <= k < i && #[trigger] old_ig.take(i as int)[k] == x;
                        assert(old_ig[k] == old_ig[i as int]);
                    }
                }
            }
            if x != Lines::Line(l) {
                let ghost before = kept@;
                kept.push(x);
                proof {
                    assert forall|a: int, b: int| 0 <= a < b < kept@.len() implies kept@[a] != kept@[b] by {
                        if b == before.len() {
                            assert(before.contains(kept@[a]));
                        }
                    }
                    assert forall|y: Lines| kept@.contains(y) <==> (before.contains(y) || y == x) by {
                        if kept@.contains(y) {
                            let k = choose|k: int| 0 <= k < kept@.len() && #[trigger] kept@[k] == y;
                            if k < before.len() {
                                assert(before[k] == y);
                            }
                        }
                        if before.contains(y) {
                            let k = choose|k: int| 0 <= k < before.len() && #[trigger] before[k] == y;
                            assert(kept@[k] == y);
                        }
                        if y == x {
                            assert(kept@[before.len() as int] == y);
                        }
                    }
                }
            }
            assert forall|y: Lines| kept@.contains(y) <==> (old_ig.take(i + 1).contains(y) && y != Lines::Line(l)) by {
                assert(old_ig.take(i + 1).contains(y) <==> (old_ig.take(i as int).contains(y) || y == x));
                assert(k0.contains(y) <==> (old_ig.take(i as int).contains(y) && y != Lines::Line(l)));
                if x != Lines::Line(l) {
                    assert(kept@ == k0.push(x));
                    if kept@.contains(y) {
                        let k = choose|k: int| 0 <= k < kept@.len() && #[trigger] kept@[k] == y;
                        if k < k0.len() {
                            assert(k0[k] == y);
                        }
                    }
                    if k0.contains(y) {
                        let k = choose|k: int| 0 <= k < k0.len() && #[trigger] k0[k] == y;
                        assert(kept@[k] == y);
                    }
                    if y == x {
                        assert(kept@[k0.len() as int] == y);
                    }
                } else {
                    assert(kept@ == k0);
                }
            }
            i = i + 1;
        }
        assert(old_ig.take(old_ig.len() as int) =~= old_ig);
        self.ignore = kept;
        proof {
            assert forall|x: Lines| self.ignore@.to_set().contains(x) <==> old_ig.to_set().remove(Lines::Line(l)).contains(x) by {}
            assert(self.ignore@.to_set() =~= old_ig.to_set().remove(Lines::Line(l)));
        }
    }

    /// Adds the given lines to the ignored ones (taking them out of the
    /// covered ones), unless all lines are ignored already.
    #[verifier::spinoff_prover]
    pub fn add_to_ignore(&mut self, lines: &Vec<usize>)
        requires
            old(self).wf(),
        ensures
            final(self).wf(),
            old(self).ignore@.contains(Lines::All) ==> final(self).ignore@ == old(self).ignore@
                && final(self).cover@ == old(self).cover@,
            !old(self).ignore@.contains(Lines::All) ==> {
                &&& final(self).ignore@.to_set() == old(self).ignore@.to_set() + single_lines(lines@)
                &&& final(self).cover@ == old(self).cover@.filter(|i: usize| !lines@.contains(i))
            },
            final(self).logical_lines@ == old(self).logical_lines@,
            final(self).max_line == old(self).max_line,
    {
        if contains_lines(&self.ignore, Lines::All) {
            return;
        }
        let ghost ig0 = self.ignore@.to_set();
        let ghost cv0 = self.cover@;
        let mut j: usize = 0;
        while j < lines.len()
            invariant
                j <= lines.len(),
                self.ignore@.no_duplicates(),
                self.ignore@.to_set() == ig0 + single_lines(lines@.take(j as int)),
                self.cover@ == cv0.filter(|k: usize| !lines@.take(j as int).contains(k)),
                self.logical_lines@ == old(self).logical_lines@,
                self.max_line == old(self).max_line,
            decreases lines.len() - j,
        {
            let l = lines[j];
            insert_lines(&mut self.ignore, Lines::Line(l));
            self.cover.remove(&l);
            assert(lines@.take(j + 1) =~= lines@.take(j as int).push(l));
            assert forall|k: usize| lines@.take(j + 1).contains(k) <==> (lines@.take(j as int).contains(k) || k == l) by {
                if lines@.take(j + 1).contains(k) {
                    let w = choose|w: int| 0 <= w < j + 1 && #[trigger] lines@.take(j + 1)[w] == k;
                    if w < j {
                        assert(lines@.take(j as int)[w] == k);
                    }
                }
                if lines@.take(j as int).contains(k) {
                    let w = choose|w: int| 0 <= w < j && #[trigger] lines@.take(j as int)[w] == k;
                    assert(lines@.take(j + 1)[w] == k);
                }
                if k == l {
                    assert(lines@.take(j + 1)[j as int] == k);
                }
            }
            assert(single_lines(lines@.take(j + 1)) =~= single_lines(lines@.take(j as int)).insert(Lines::Line(l))) by {
                assert forall|m: Lines| #[trigger] line_in(m, lines@.take(j + 1))
                    <==> (line_in(m, lines@.take(j as int)) || m == Lines::Line(l)) by {
                    match m {
                        Lines::Line(k) => {
                            assert(lines@.take(j + 1).contains(k) <==> (lines@.take(j as int).contains(k) || k == l));
                        },
                        Lines::All => {},
                    }
                }
            }
            assert(self.ignore@.to_set() =~= ig0 + single_lines(lines@.take(j + 1)));
            assert(self.cover@ =~= cv0.filter(|k: usize| !lines@.take(j + 1).contains(k)));
            j = j + 1;
        }
        assert(lines@.take(lines.len() as int) =~= lines@);
        assert forall|k: usize| #[trigger] self.cover@.contains(k) implies !self.ignore@.contains(Lines::Line(k)) by {
            assert(cv0.contains(k) && !lines@.contains(k));
            assert(!old(self).ignore@.contains(Lines::Line(k)));
            assert(!ig0.contains(Lines::Line(k)));
            assert(!line_in(Lines::Line(k), lines@));
            assert(!self.ignore@.to_set().contains(Lines::Line(k)));
        }
    }
}

/// Whether a block comment is open before line `k` of `ls`, reading from
/// the first line with none open.
pub open spec fn comment_open(ls: Seq<Seq<char>>, k: int) -> bool
    decreases k,
{
    if k <= 0 {
        false
    } else {
        let st = comment_open(ls, k - 1);
        let l = ls[k - 1];
        if contains_text(l, "/*"@) {
            if !contains_text(l, "*/"@) { true } else { st }
        } else if st {
            !contains_text(l, "*/"@)
        } else {
            false
        }
    }
}

/// The pattern of a line comment.
pub open spec fn line_comment_pattern() -> Seq<char> {
    "\\s*//"@
}

/// Whether line `k` of `ls` is code: it opens no block comment, lies in
/// none, and the line comment pattern does not match it.
pub open spec fn is_code_line(ls: Seq<Seq<char>>, k: int) -> bool {
    &&& !contains_text(ls[k], "/*"@)
    &&& !comment_open(ls, k)
    &&& !(regex_valid(line_comment_pattern()) && regex_matches(line_comment_pattern(), ls[k]))
}

/// The lines of `ls` from `first` on, at most `len` of them.
pub open spec fn window(ls: Seq<Seq<char>>, first: int, len: int) -> Seq<Seq<char>> {
    if first >= ls.len() {
        Seq::<Seq<char>>::empty()
    } else if ls.len() - first < len {
        ls.subrange(first, ls.len() as int)
    } else {
        ls.subrange(first, first + len)
    }
}

/// The lines of a span from `start` to `end` worth covering: the code lines
/// among the lines from `start` up to, not including, `end` of the text.
pub open spec fn useful_lines(contents: Option<Seq<char>>, start: int, end: int) -> Set<int> {
    match contents {
        Some(c) => {
            let w = window(text_lines(c), start - 1, end - start);
            Set::new(|i: int| start <= i && i - start < w.len() && is_code_line(w, i - start))
        },
        None => Set::<int>::empty(),
    }
}

/// Whether `m` is a single line that `s` holds.
pub open spec fn line_in(m: Lines, s: Seq<usize>) -> bool {
    m matches Lines::Line(k) && s.contains(k)
}

/// The pattern of a line with nothing to cover: a comment, or nothing but
/// brackets, braces, parentheses, white space and punctuation.
pub open spec fn ignorable_pattern() -> Seq<char> {
    "^((\\s*//)|([\\[\\]\\{\\}\\(\\)\\s;\\?,/]*$))"@
}

/// Whether a line has nothing to cover, by the pattern.
pub open spec fn ignorable(line: Seq<char>) -> bool {
    regex_valid(ignorable_pattern()) && regex_matches(ignorable_pattern(), line)
}

/// A line without its white space.
pub open spec fn without_ws(line: Seq<char>) -> Seq<char> {
    line.filter(|c: char| !char_ws(c))
}

/// The numbers (counted from one) of the lines that `keep` holds of.
pub open spec fn numbered_where(ls: Seq<Seq<char>>, keep: spec_fn(Seq<char>) -> bool) -> Seq<usize>
    decreases ls.len(),
{
    if ls.len() == 0 {
        Seq::empty()
    } else {
        let r = numbered_where(ls.drop_last(), keep);
        if keep(ls.last()) {
            r.push(ls.len() as usize)
        } else {
            r
        }
    }
}

/// The lines of `contents` with nothing to cover: those the pattern
/// matches, and those that are `}else{` once white space is taken out.
pub open spec fn ignorable_lines(contents: Seq<char>) -> Seq<usize> {
    numbered_where(text_lines(contents), |l: Seq<char>| ignorable(l)) + numbered_where(
        text_lines(contents),
        |l: Seq<char>| without_ws(l) == "}else{"@,
    )
}

/// The single lines that `s` holds.
pub open spec fn single_lines(s: Seq<usize>) -> Set<Lines> {
    Set::new(|m: Lines| line_in(m, s))
}

/// Whether `v` holds `x`.
pub fn contains_lines(v: &Vec<Lines>, x: Lines) -> (res: bool)
    ensures
        res == v@.contains(x),
{
    let mut i: usize = 0;
    while i < v.len()
        invariant
            i <= v.len(),
            forall|k: int| 0 <= k < i ==> v@[k] != x,
        decreases v.len() - i,
    {
        if v[i] == x {
            return true;
        }
        i = i + 1;
    }
    false
}

/// Puts `x` into the set `v` (a vector without repeats).
fn insert_lines(v: &mut Vec<Lines>, x: Lines)
    requires
        old(v)@.no_duplicates(),
    ensures
        final(v)@.no_duplicates(),
        final(v)@.to_set() == old(v)@.to_set().insert(x),
{
    if !contains_lines(v, x) {
        let ghost o = v@;
        v.push(x);
        proof {
            Seq::lemma_to_set_insert_commutes(o, x);
            assert(o + seq![x] =~= o.push(x));
        }
    } else {
        assert(v@.to_set() =~= v@.to_set().insert(x));
    }
}

/// Whether an expression can be reached.
#[derive(Copy, Clone, Debug, Eq, PartialEq, Hash, Structural)]
pub enum SubResult {
    /// Expression should be a reachable one (or we don't care to check further)
    Reachable,
    /// Expression definitely reachable - reserved for early returns from
    /// functions to stop unreachable expressions wiping them out
    Definite,
    /// Unreachable expression i.e. unreachable!()
    Unreachable,
}

/// Combining two results: definite wins over anything, then unreachable.
pub open spec fn sub_add(a: SubResult, b: SubResult) -> SubResult {
    if a == SubResult::Definite || b == SubResult::Definite {
        SubResult::Definite
    } else if a == SubResult::Unreachable || b == SubResult::Unreachable {
        SubResult::Unreachable
    } else {
        SubResult::Reachable
    }
}

impl SubResult {
    /// Combines `other` into this result.
    pub fn add_assign(&mut self, other: Self)
        ensures
            *final(self) == sub_add(*old(self), other),
    {
        if *self == SubResult::Definite || other == SubResult::Definite {
            *self = SubResult::Definite;
        } else if *self == SubResult::Unreachable || other == SubResult::Unreachable {
            *self = SubResult::Unreachable;
        } else {
            *self = SubResult::Reachable;
        }
    }

    /// The combination of two results.
    pub fn add(self, rhs: Self) -> (res: Self)
        ensures
            res == sub_add(self, rhs),
    {
        let mut s = self;
        s.add_assign(rhs);
        s
    }

    /// Whether the expression may be reached.
    pub fn is_reachable(&self) -> (res: bool)
        ensures
            res == (*self != SubResult::Unreachable),
    {
        *self != SubResult::Unreachable
    }

    /// Whether the expression cannot be reached.
    pub fn is_unreachable(&self) -> (res: bool)
        ensures
            res == (*self == SubResult::Unreachable),
    {
        !self.is_reachable()
    }
}

/// Combining results does not depend on their order.
pub proof fn lemma_sub_add_commutative(a: SubResult, b: SubResult)
    ensures
        sub_add(a, b) == sub_add(b, a),
{
}

/// Combining results does not depend on how they are grouped.
pub proof fn lemma_sub_add_associative(a: SubResult, b: SubResult, c: SubResult)
    ensures
        sub_add(sub_add(a, b), c) == sub_add(a, sub_add(b, c)),
{
}

/// A reachable result changes nothing it is combined with, and a result
/// combined with itself stays as it is.
pub proof fn lemma_sub_add_identity(a: SubResult)
    ensures
        sub_add(a, SubResult::Reachable) == a,
        sub_add(a, a) == a,
{
}

proof fn lemma_line_in_concat(m: Lines, a: Seq<usize>, b: Seq<usize>)
    ensures
        line_in(m, a + b) <==> (line_in(m, a) || line_in(m, b)),
{
    if let Lines::Line(k) = m {
        if (a + b).contains(k) {
            let w = choose|w: int| 0 <= w < (a + b).len() && (a + b)[w] == k;
            if w < a.len() {
                assert(a[w] == k);
            } else {
                assert(b[w - a.len()] == k);
            }
        }
        if a.contains(k) {
            let w = choose|w: int| 0 <= w < a.len() && a[w] == k;
            assert((a + b)[w] == k);
        }
        if b.contains(k) {
            let w = choose|w: int| 0 <= w < b.len() && b[w] == k;
            assert((a + b)[w + a.len()] == k);
        }
    }
}

/// A line without its white space.
fn without_whitespace(line: &Vec<char>) -> (res: String)
    ensures
        res@ == without_ws(line@),
{
    let mut out: Vec<char> = Vec::new();
    let mut i: usize = 0;
    assert(line@.take(0).filter(|c: char| !char_ws(c)) =~= Seq::<char>::empty());
    while i < line.len()
        invariant
            i <= line.len(),
            out@ == line@.take(i as int).filter(|c: char| !char_ws(c)),
        decreases line.len() - i,
    {
        proof {
            lemma_filter_push(line@.take(i as int), line@[i as int], |c: char| !char_ws(c));
        }
        assert(line@.take(i + 1) =~= line@.take(i as int).push(line@[i as int]));
        if !is_whitespace(line[i]) {
            out.push(line[i]);
        }
        i = i + 1;
    }
    assert(line@.take(line.len() as int) =~= line@);
    string_of(&out)
}

pub(crate) proof fn lemma_filter_push<A>(s: Seq<A>, x: A, p: spec_fn(A) -> bool)
    ensures
        s.push(x).filter(p) == (if p(x) { s.filter(p).push(x) } else { s.filter(p) }),
{
    reveal(Seq::filter);
    assert(s.push(x).drop_last() =~= s);
}

/// Whatever the calls that reached it, a well-formed analysis never both
/// covers a line and ignores it as a single line.
pub proof fn lemma_covered_not_ignored(a: &LineAnalysis, l: usize)
    requires
        a.wf(),
        a.cover@.contains(l),
    ensures
        !a.ignore@.contains(Lines::Line(l)),
{
}

} // verus!
