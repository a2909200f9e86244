//! The decisions of a coverage run: how the results of the tests add up,
//! and which configurations report.
use vstd::prelude::*;
use crate::config::Config;
use crate::errors::{RunError, RunErrorView};
use crate::text::{contains_string, strs};
use crate::traces::{TraceMap, merge_entries};

verus! {

/// The name a configuration is shown by: its name, or `<anonymous>`.
pub open spec fn config_name_spec(name: Seq<char>) -> Seq<char> {
    if name.len() == 0 {
        "<anonymous>"@
    } else {
        name
    }
}

/// The name a configuration is shown by.
pub fn config_name(config: &Config) -> (res: String)
    ensures
        res@ == config_name_spec(config.name@),
{
    if config.name.as_str().is_empty() {
        String::from_str("<anonymous>")
    } else {
        config.name.clone()
    }
}

/// What the exit code of a test binary counts for: for a test expected to
/// panic, failure is success and success failure.
pub open spec fn test_code_spec(should_panic: bool, code: i32) -> i32 {
    if should_panic {
        if code == 0 { 1 } else { 0 }
    } else {
        code
    }
}

/// What the exit code of a test binary counts for.
pub fn test_return_code(should_panic: bool, code: i32) -> (res: i32)
    ensures
        res == test_code_spec(should_panic, code),
{
    if should_panic {
        if code == 0 { 1 } else { 0 }
    } else {
        code
    }
}

/// Adds the coverage of one run of a test binary, where it gave any, to the
/// results: its traces are merged in and its exit code (as
/// `test_return_code` counts it) is or-ed into the return code.
pub fn add_test_result(result: &mut TraceMap, return_code: &mut i32, coverage: Option<(TraceMap, i32)>, should_panic: bool)
    requires
        old(result).wf(),
        coverage matches Some((t, _)) ==> t.wf(),
    ensures
        final(result).wf(),
        match coverage {
            Some((t, code)) => {
                &&& final(result)@ == merge_entries(old(result)@, t@)
                &&& *final(return_code) == (*old(return_code) | test_code_spec(should_panic, code))
            },
            None => final(result)@ == old(result)@ && *final(return_code) == *old(return_code),
        },
{
    match coverage {
        Some((t, code)) => {
            result.merge(&t);
            *return_code = *return_code | test_return_code(should_panic, code);
        },
        None => {},
    }
}

/// The configurations that report, by index: those named `report` that do
/// not skip running; where there is none, the first, unless it skips running.
pub open spec fn report_targets_spec(cs: Seq<(Seq<char>, bool)>) -> Seq<int> {
    let named = report_named(cs);
    if named.len() == 0 && cs.len() > 0 && !cs[0].1 {
        seq![0int]
    } else {
        named
    }
}

/// The indexes of the configurations named `report` that do not skip running.
pub open spec fn report_named(cs: Seq<(Seq<char>, bool)>) -> Seq<int>
    decreases cs.len(),
{
    if cs.len() == 0 {
        Seq::<int>::empty()
    } else {
        let r = report_named(cs.drop_last());
        if !cs.last().1 && cs.last().0 == "report"@ {
            r.push(cs.len() - 1)
        } else {
            r
        }
    }
}

/// The name and the choice to skip running of each configuration.
pub open spec fn names_and_no_run(cs: Seq<Config>) -> Seq<(Seq<char>, bool)> {
    cs.map_values(|c: Config| (c.name@, c.no_run))
}

/// The configurations that report the coverage, by index.
pub fn report_targets(configs: &Vec<Config>) -> (res: Vec<usize>)
    ensures
        res@.map_values(|i: usize| i as int) == report_targets_spec(names_and_no_run(configs@)),
{
    let ghost cs = names_and_no_run(configs@);
    let mut out: Vec<usize> = Vec::new();
    let mut i: usize = 0;
    assert(cs.take(0) =~= Seq::<(Seq<char>, bool)>::empty());
    while i < configs.len()
        invariant
            i <= configs.len(),
            cs == names_and_no_run(configs@),
            out@.map_values(|k: usize| k as int) == report_named(cs.take(i as int)),
        decreases configs.len() - i,
    {
        assert(cs.take(i + 1).drop_last() =~= cs.take(i as int));
        assert(cs.take(i + 1).last() == (configs@[i as int].name@, configs@[i as int].no_run));
        let c = &configs[i];
        if !c.no_run && crate::text::str_eq(c.name.as_str(), "report") {
            let ghost o = out@.map_values(|k: usize| k as int);
            out.push(i);
            assert(out@.map_values(|k: usize| k as int) =~= o.push(i as int));
        }
        i = i + 1;
    }
    assert(cs.take(configs.len() as int) =~= cs);
    if out.len() == 0 && configs.len() > 0 && !configs[0].no_run {
        let mut first: Vec<usize> = Vec::new();
        first.push(0);
        assert(first@.map_values(|k: usize| k as int) =~= seq![0int]);
        return first;
    }
    out
}

/// How a run of all configurations ends: with the failure of the coverage
/// threshold where it was missed; else, where every test passed, with the
/// first error a configuration met, if any; else with the failure of the
/// tests.
pub open spec fn trace_result_spec(ret: i32, first_error: Option<RunErrorView>, threshold_error: Option<
    RunErrorView,
>) -> Option<RunErrorView> {
    if threshold_error is Some {
        threshold_error
    } else if ret == 0 {
        first_error
    } else {
        Some(RunErrorView::TestFailed)
    }
}

/// How a run of all configurations ends, where `ret` is the or of the
/// tests' return codes, `first_error` the first error a configuration met
/// and `threshold_error` the failure of the coverage threshold, if any.
pub fn trace_result(ret: i32, first_error: Option<RunError>, threshold_error: Option<RunError>) -> (res: Result<
    (),
    RunError,
>)
    ensures
        trace_result_spec(
            ret,
            match first_error {
                Some(e) => Some(e@),
                None => None,
            },
            match threshold_error {
                Some(e) => Some(e@),
                None => None,
            },
        ) == match res {
            Ok(_) => None,
            Err(e) => Some(e@),
        },
{
    match threshold_error {
        Some(e) => Err(e),
        None => if ret == 0 {
            match first_error {
                Some(e) => Err(e),
                None => Ok(()),
            }
        } else {
            Err(RunError::TestFailed)
        },
    }
}

/// The distinct flags of the configurations, each named with its flags, in
/// the order they first come; the `report` configuration does not build and
/// is left out.
pub open spec fn distinct_flags(cs: Seq<(Seq<char>, Seq<char>)>) -> Seq<Seq<char>>
    decreases cs.len(),
{
    if cs.len() == 0 {
        Seq::<Seq<char>>::empty()
    } else {
        let d = distinct_flags(cs.drop_last());
        let c = cs.last();
        if c.0 == "report"@ || d.contains(c.1) {
            d
        } else {
            d.push(c.1)
        }
    }
}

/// Each value of the flags is shown once, and every configuration but the
/// `report` one has its flags shown.
pub proof fn lemma_distinct_flags(cs: Seq<(Seq<char>, Seq<char>)>)
    ensures
        distinct_flags(cs).no_duplicates(),
        forall|i: int| 0 <= i < cs.len() && cs[i].0 != "report"@ ==> distinct_flags(cs).contains(#[trigger] cs[i].1),
    decreases cs.len(),
{
    if cs.len() > 0 {
        let init = cs.drop_last();
        lemma_distinct_flags(init);
        let d = distinct_flags(init);
        assert forall|i: int| 0 <= i < cs.len() && cs[i].0 != "report"@ implies distinct_flags(cs).contains(
            #[trigger] cs[i].1,
        ) by {
            if i < cs.len() - 1 {
                assert(init[i] == cs[i]);
                assert(d.contains(init[i].1));
                if !(cs.last().0 == "report"@ || d.contains(cs.last().1)) {
                    let k = choose|k: int| 0 <= k < d.len() && d[k] == cs[i].1;
                    assert(d.push(cs.last().1)[k] == cs[i].1);
                }
            } else {
                if !d.contains(cs.last().1) {
                    assert(d.push(cs.last().1)[d.len() as int] == cs.last().1);
                }
            }
        }
    }
}

/// The line that shows one value of the flags.
pub open spec fn flag_line(prefix: Seq<char>, flags: Seq<char>) -> Seq<char> {
    prefix + "=\""@ + flags + "\""@
}

/// The lines that show the flags of the configurations: one for each
/// distinct value, or, where no configuration builds, the default value.
pub open spec fn flag_lines_spec(cs: Seq<(Seq<char>, Seq<char>)>, prefix: Seq<char>, default_flags: Seq<char>) -> Seq<
    Seq<char>,
> {
    let d = distinct_flags(cs);
    if d.len() == 0 {
        seq![prefix + "="@ + default_flags]
    } else {
        d.map_values(|f: Seq<char>| flag_line(prefix, f))
    }
}

/// The lines that show the flags of the configurations, each given by its
/// name and its flags; `default_flags` are those of the default
/// configuration.
pub fn flag_lines(configs: &Vec<(String, String)>, prefix: &str, default_flags: &str) -> (res: Vec<String>)
    ensures
        strs(res@) == flag_lines_spec(crate::cargo::pairs_view(configs@), prefix@, default_flags@),
{
    let ghost cs = crate::cargo::pairs_view(configs@);
    let mut seen: Vec<String> = Vec::new();
    let mut i: usize = 0;
    assert(cs.take(0) =~= Seq::<(Seq<char>, Seq<char>)>::empty());
    while i < configs.len()
        invariant
            i <= configs.len(),
            cs == crate::cargo::pairs_view(configs@),
            strs(seen@) == distinct_flags(cs.take(i as int)),
        decreases configs.len() - i,
    {
        assert(cs.take(i + 1).drop_last() =~= cs.take(i as int));
        assert(cs.take(i + 1).last() == cs[i as int]);
        let report = crate::text::str_eq(configs[i].0.as_str(), "report");
        proof {
            reveal_strlit("report");
        }
        if !report && !contains_string(&seen, &configs[i].1) {
            let ghost before = strs(seen@);
            seen.push(configs[i].1.clone());
            assert(strs(seen@) =~= before.push(cs[i as int].1));
        }
        i = i + 1;
    }
    assert(cs.take(configs.len() as int) =~= cs);
    let mut out: Vec<String> = Vec::new();
    if seen.len() == 0 {
        let mut line = prefix.to_string();
        line.append("=");
        line.append(default_flags);
        out.push(line);
        proof {
            reveal_strlit("=");
        }
        assert(strs(out@) =~= seq![prefix@ + "="@ + default_flags@]);
    } else {
        let mut k: usize = 0;
        while k < seen.len()
            invariant
                k <= seen.len(),
                strs(out@) == strs(seen@).take(k as int).map_values(|f: Seq<char>| flag_line(prefix@, f)),
            decreases seen.len() - k,
        {
            let mut line = prefix.to_string();
            line.append("=\"");
            line.append(seen[k].as_str());
            line.append("\"");
            proof {
                reveal_strlit("=\"");
                reveal_strlit("\"");
            }
            let ghost before = strs(out@);
            out.push(line);
            assert(strs(out@) =~= before.push(flag_line(prefix@, strs(seen@)[k as int])));
            assert(strs(seen@).take(k + 1) =~= strs(seen@).take(k as int).push(strs(seen@)[k as int]));
            assert(strs(out@) =~= strs(seen@).take(k + 1).map_values(|f: Seq<char>| flag_line(prefix@, f)));
            k = k + 1;
        }
        assert(strs(seen@).take(seen.len() as int) =~= strs(seen@));
    }
    out
}

} // verus!
