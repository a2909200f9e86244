//! How the source analysis treats macro calls and runs of statements: which
//! lines of a macro call count, which macros take their code out of
//! coverage, and whether a run of statements can be reached. Tokens are read
//! as plain values: the lines each spans, and whether it is a literal or a
//! punctuation mark.
use vstd::prelude::*;
use crate::analysis::{sub_add, LineAnalysis, Lines, SubResult};
use crate::text::str_eq;

verus! {

/// A token of the source, by the lines it spans.
#[derive(Debug, Copy, Clone, PartialEq, Eq, Structural)]
pub struct TokenSpan {
    pub start_line: usize,
    pub end_line: usize,
    /// Whether it is a literal or a punctuation mark
    pub literal_or_punct: bool,
}

/// Whether a run of statements can be reached, from the results of its
/// statements: a definitely reached statement makes it definitely reached;
/// else an unreachable one makes it unreachable; else it is reached.
pub open spec fn statements_spec(rs: Seq<SubResult>) -> SubResult {
    if exists|i: int| 0 <= i < rs.len() && rs[i] == SubResult::Definite {
        SubResult::Definite
    } else if exists|i: int| 0 <= i < rs.len() && rs[i] == SubResult::Unreachable {
        SubResult::Unreachable
    } else {
        SubResult::Reachable
    }
}

/// Whether a run of statements can be reached; see `statements_spec`.
pub fn statements_result(rs: &Vec<SubResult>) -> (res: SubResult)
    ensures
        res == statements_spec(rs@),
{
    let mut unreachable = false;
    let mut definite = false;
    let mut i: usize = 0;
    while i < rs.len()
        invariant
            i <= rs.len(),
            unreachable == exists|k: int| 0 <= k < i && rs@[k] == SubResult::Unreachable,
            definite == exists|k: int| 0 <= k < i && rs@[k] == SubResult::Definite,
        decreases rs.len() - i,
    {
        let r = rs[i];
        if r == SubResult::Unreachable {
            unreachable = true;
        }
        if r == SubResult::Definite {
            definite = true;
        }
        i = i + 1;
    }
    if unreachable && !definite {
        SubResult::Unreachable
    } else if definite {
        SubResult::Definite
    } else {
        SubResult::Reachable
    }
}

/// The lines a run of tokens spans, as a range from the first line to one
/// past the last; empty where there are no tokens.
pub open spec fn line_range_spec(ts: Seq<TokenSpan>) -> (int, int)
    decreases ts.len(),
{
    if ts.len() == 0 {
        (0, 0)
    } else if ts.len() == 1 {
        (ts[0].start_line as int, ts[0].end_line + 1)
    } else {
        let (s, e) = line_range_spec(ts.drop_last());
        let t = ts.last();
        (if t.start_line < s {
            t.start_line as int
        } else {
            s
        }, if t.end_line + 1 > e {
            t.end_line + 1
        } else {
            e
        })
    }
}

/// The lines a run of tokens spans; see `line_range_spec`.
pub fn get_line_range(ts: &Vec<TokenSpan>) -> (res: (usize, usize))
    requires
        forall|i: int| 0 <= i < ts@.len() ==> #[trigger] ts@[i].end_line < usize::MAX,
    ensures
        (res.0 as int, res.1 as int) == line_range_spec(ts@),
{
    let mut start: Option<usize> = None;
    let mut end: usize = 0;
    let mut i: usize = 0;
    while i < ts.len()
        invariant
            i <= ts.len(),
            forall|k: int| 0 <= k < ts@.len() ==> #[trigger] ts@[k].end_line < usize::MAX,
            match start {
                Some(s) => i > 0 && (s as int, end as int) == line_range_spec(ts@.take(i as int)),
                None => i == 0,
            },
        decreases ts.len() - i,
    {
        assert(ts@.take(i + 1).drop_last() =~= ts@.take(i as int));
        assert(ts@.take(i + 1).last() == ts@[i as int]);
        let t = ts[i];
        match start {
            Some(s) => {
                start = Some(if t.start_line < s { t.start_line } else { s });
                end = if t.end_line + 1 > end { t.end_line + 1 } else { end };
            },
            None => {
                start = Some(t.start_line);
                end = t.end_line + 1;
            },
        }
        i = i + 1;
    }
    assert(ts@.take(ts.len() as int) =~= ts@);
    match start {
        Some(s) => (s, end),
        None => (0, 0),
    }
}

/// Whether some token that is neither a literal nor a punctuation mark
/// spans line `l`: the lines of a macro's arguments that hold code.
pub open spec fn arg_line(ts: Seq<TokenSpan>, l: int) -> bool {
    exists|i: int|
        0 <= i < ts.len() && !(#[trigger] ts[i]).literal_or_punct && ts[i].start_line <= l <= ts[i].end_line
}

/// The lines of a macro call to ignore: from the line after its first to
/// the end of its range, except those where its arguments hold code.
pub open spec fn macro_ignored_lines(first_line: int, range_end: int, args: Seq<TokenSpan>) -> Set<int> {
    Set::new(|l: int| first_line + 1 <= l < range_end && !arg_line(args, l))
}

/// What a macro of name `name` does to the code it stands in: `unreachable`
/// makes it unreachable; it, `unimplemented`, `include`, `cfg`, `todo`, and
/// `panic` where panics are ignored, are left out of coverage (the second
/// part).
pub open spec fn macro_name_spec(name: Seq<char>, ignore_panics: bool) -> (SubResult, bool) {
    let unreachable = name == "unreachable"@;
    let standard = name == "unimplemented"@ || name == "include"@ || name == "cfg"@ || name == "todo"@;
    let panic = ignore_panics && name == "panic"@;
    (if unreachable {
        SubResult::Unreachable
    } else {
        SubResult::Reachable
    }, unreachable || standard || panic)
}

/// What a macro of name `name` does; see `macro_name_spec`.
pub fn macro_name_outcome(name: &str, ignore_panics: bool) -> (res: (SubResult, bool))
    ensures
        res == macro_name_spec(name@, ignore_panics),
{
    let unreachable = str_eq(name, "unreachable");
    let standard = str_eq(name, "unimplemented") || str_eq(name, "include") || str_eq(name, "cfg") || str_eq(
        name,
        "todo",
    );
    let panic = ignore_panics && str_eq(name, "panic");
    (if unreachable {
        SubResult::Unreachable
    } else {
        SubResult::Reachable
    }, unreachable || standard || panic)
}

/// Whether some token of `ts` that holds code spans line `l`.
fn spans_code(ts: &Vec<TokenSpan>, l: usize) -> (res: bool)
    ensures
        res == arg_line(ts@, l as int),
{
    let mut i: usize = 0;
    while i < ts.len()
        invariant
            i <= ts.len(),
            forall|k: int|
                0 <= k < i ==> !(!(#[trigger] ts@[k]).literal_or_punct && ts@[k].start_line <= l <= ts@[k].end_line),
        decreases ts.len() - i,
    {
        let t = ts[i];
        if !t.literal_or_punct && t.start_line <= l && l <= t.end_line {
            assert(!ts@[i as int].literal_or_punct && ts@[i as int].start_line <= l <= ts@[i as int].end_line);
            return true;
        }
        i = i + 1;
    }
    false
}

/// Handles a call of the macro named `name` (where its path has a last
/// segment): a macro that takes its code out of coverage has each of its
/// tokens' lines ignored; any other has the lines after its first ignored,
/// but those where its arguments hold code. `first_line` is the line it
/// starts on, `tokens` its tokens and `args` the tokens of its arguments.
/// Gives whether the code it stands in can be reached.
pub fn visit_macro_call(
    analysis: &mut LineAnalysis,
    name: Option<&str>,
    ignore_panics: bool,
    first_line: usize,
    tokens: &Vec<TokenSpan>,
    args: &Vec<TokenSpan>,
) -> (res: SubResult)
    requires
        old(analysis).wf(),
        first_line < usize::MAX,
        forall|i: int| 0 <= i < tokens@.len() ==> #[trigger] tokens@[i].end_line < usize::MAX,
    ensures
        final(analysis).wf(),
        res == match name {
            Some(n) => macro_name_spec(n@, ignore_panics).0,
            None => SubResult::Reachable,
        },
        final(analysis).logical_lines@ == old(analysis).logical_lines@,
        final(analysis).max_line == old(analysis).max_line,
        !old(analysis).ignore@.contains(Lines::All) ==> {
            let skipped = match name {
                Some(n) => macro_name_spec(n@, ignore_panics).1,
                None => false,
            };
            final(analysis).ignore@.to_set() == old(analysis).ignore@.to_set() + if skipped {
                Set::new(
                    |m: Lines|
                        exists|i: int|
                            0 <= i < tokens@.len() && (m matches Lines::Line(k) && (#[trigger] tokens@[i]).start_line
                                <= k <= tokens@[i].end_line),
                )
            } else {
                Set::new(
                    |m: Lines|
                        m matches Lines::Line(k) && macro_ignored_lines(
                            first_line as int,
                            line_range_spec(tokens@).1,
                            args@,
                        ).contains(k as int),
                )
            }
        },
        old(analysis).ignore@.contains(Lines::All) ==> final(analysis).ignore@ == old(analysis).ignore@,
{
    let (sub, skipped) = match name {
        Some(n) => macro_name_outcome(n, ignore_panics),
        None => (SubResult::Reachable, false),
    };
    let ghost all0 = analysis.ignore@.contains(Lines::All);
    let ghost ig0 = analysis.ignore@.to_set();
    if skipped {
        let mut i: usize = 0;
        while i < tokens.len()
            invariant
                i <= tokens.len(),
                analysis.wf(),
                all0 == old(analysis).ignore@.contains(Lines::All),
                ig0 == old(analysis).ignore@.to_set(),
                all0 ==> analysis.ignore@ == old(analysis).ignore@,
                !all0 ==> !analysis.ignore@.contains(Lines::All),
                !all0 ==> analysis.ignore@.to_set() == ig0 + Set::new(
                    |m: Lines|
                        exists|k: int|
                            0 <= k < i && (m matches Lines::Line(l) && (#[trigger] tokens@[k]).start_line <= l
                                <= tokens@[k].end_line),
                ),
                analysis.logical_lines@ == old(analysis).logical_lines@,
                analysis.max_line == old(analysis).max_line,
            decreases tokens.len() - i,
        {
            let t = tokens[i];
            analysis.ignore_span(t.start_line, t.end_line);
            proof {
                if !all0 {
                    assert(analysis.ignore@.to_set() =~= ig0 + Set::new(
                        |m: Lines|
                            exists|k: int|
                                0 <= k < i + 1 && (m matches Lines::Line(l) && (#[trigger] tokens@[k]).start_line <= l
                                    <= tokens@[k].end_line),
                    )) by {
                        assert forall|m: Lines|
                            analysis.ignore@.to_set().contains(m) <==> (ig0 + Set::new(
                                |m: Lines|
                                    exists|k: int|
                                        0 <= k < i + 1 && (m matches Lines::Line(l) && (
                                        #[trigger] tokens@[k]).start_line <= l <= tokens@[k].end_line),
                            )).contains(m) by {
                            if m matches Lines::Line(l) && t.start_line <= l <= t.end_line {
                                assert(tokens@[i as int] == t);
                            }
                        }
                    }
                    assert(!analysis.ignore@.contains(Lines::All)) by {
                        if analysis.ignore@.contains(Lines::All) {
                            assert(analysis.ignore@.to_set().contains(Lines::All));
                        }
                    }
                }
            }
            i = i + 1;
        }
    } else {
        let (_, range_end) = get_line_range(tokens);
        let mut lines: Vec<usize> = Vec::new();
        let mut l: usize = first_line + 1;
        while l < range_end
            invariant
                first_line + 1 <= l,
                range_end as int == line_range_spec(tokens@).1,
                forall|j: int|
                    0 <= j < lines@.len() ==> first_line + 1 <= #[trigger] lines@[j] < l && lines@[j] < range_end
                        && !arg_line(
                        args@,
                        lines@[j] as int,
                    ),
                forall|x: usize|
                    first_line + 1 <= x < l && !arg_line(args@, x as int) ==> #[trigger] lines@.contains(x),
            decreases range_end - l,
        {
            let ghost before = lines@;
            let code = spans_code(args, l);
            if !code {
                lines.push(l);
            }
            proof {
                if !code {
                    assert(lines@ == before.push(l));
                } else {
                    assert(lines@ == before);
                }
                assert forall|x: usize|
                    first_line + 1 <= x < l + 1 && !arg_line(args@, x as int) implies #[trigger] lines@.contains(
                    x,
                ) by {
                    if x < l {
                        assert(before.contains(x));
                        let w = choose|w: int| 0 <= w < before.len() && before[w] == x;
                        assert(lines@[w] == x);
                    } else {
                        assert(lines@[before.len() as int] == x);
                    }
                }
            }
            l = l + 1;
        }
        analysis.add_to_ignore(&lines);
        proof {
            if !all0 {
                let target = Set::new(
                    |m: Lines|
                        m matches Lines::Line(k) && macro_ignored_lines(
                            first_line as int,
                            line_range_spec(tokens@).1,
                            args@,
                        ).contains(k as int),
                );
                assert forall|m: Lines|
                    #[trigger] crate::analysis::single_lines(lines@).contains(m) <==> target.contains(m) by {
                    if let Lines::Line(k) = m {
                        if lines@.contains(k) {
                            let w = choose|w: int| 0 <= w < lines@.len() && lines@[w] == k;
                            assert(first_line + 1 <= lines@[w] < range_end);
                        }
                        if target.contains(m) {
                            assert(first_line + 1 <= k < l && !arg_line(args@, k as int));
                            assert(lines@.contains(k));
                        }
                    }
                }
                assert(crate::analysis::single_lines(lines@) =~= target);
            }
        }
    }
    sub
}

} // verus!
