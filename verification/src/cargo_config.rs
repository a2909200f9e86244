//! What is taken from cargo's own configuration: the values of its `[env]`
//! table and the host a toolchain builds for.
use vstd::prelude::*;
use crate::paths::join_spec;
use crate::text::{chars_of, lines_of, string_of, text_lines};

verus! {

/// A value of the `[env]` table of cargo's configuration.
pub struct EnvConfigValue {
    /// The value as written
    pub value: String,
    /// Whether it overrides a variable the environment already sets
    pub force: bool,
    /// Whether it is a path relative to the project's directory
    pub relative: bool,
}

/// The value a test gets for a variable of the `[env]` table: none where the
/// environment already sets the variable and the table does not force it;
/// otherwise the value, pushed onto the project's directory where it is
/// relative.
pub open spec fn resolve_spec(root: Seq<char>, value: Seq<char>, force: bool, relative: bool, already_set: bool) -> Option<
    Seq<char>,
> {
    if force || !already_set {
        if relative {
            Some(join_spec(root, value))
        } else {
            Some(value)
        }
    } else {
        None
    }
}

/// The value a test gets for a variable of the `[env]` table, where `root`
/// is the project's directory and `already_set` whether the environment
/// sets the variable.
pub fn resolve_value(root: &str, value: &EnvConfigValue, already_set: bool) -> (res: Option<String>)
    ensures
        match res {
            Some(r) => resolve_spec(root@, value.value@, value.force, value.relative, already_set) == Some(r@),
            None => resolve_spec(root@, value.value@, value.force, value.relative, already_set) is None,
        },
{
    if value.force || !already_set {
        if value.relative {
            let joined = crate::paths::join_text(&chars_of(root), &chars_of(value.value.as_str()));
            Some(string_of(&joined))
        } else {
            Some(value.value.clone())
        }
    } else {
        None
    }
}

/// The prefix of the line that names the host in `rustc -vV`'s report.
pub open spec fn host_prefix() -> Seq<char> {
    "host: "@
}

/// The rest of the first of `lines` that starts with the host prefix.
pub open spec fn first_host(lines: Seq<Seq<char>>) -> Option<Seq<char>>
    decreases lines.len(),
{
    if lines.len() == 0 {
        None
    } else if lines[0].len() >= host_prefix().len() && lines[0].take(host_prefix().len() as int) == host_prefix() {
        Some(lines[0].skip(host_prefix().len() as int))
    } else {
        first_host(lines.drop_first())
    }
}

/// The host a toolchain builds for, from the report `rustc -vV` prints: the
/// rest of its first line that starts with `host: `.
pub fn host_from_version_output(output: &str) -> (res: Option<String>)
    ensures
        match res {
            Some(r) => first_host(text_lines(output@)) == Some(r@),
            None => first_host(text_lines(output@)) is None,
        },
{
    let lines = lines_of(output);
    let ghost ls = lines@.map_values(|v: Vec<char>| v@);
    let prefix = chars_of("host: ");
    proof {
        reveal_strlit("host: ");
    }
    assert(ls.skip(0) =~= ls);
    let mut i: usize = 0;
    while i < lines.len()
        invariant
            i <= lines.len(),
            ls == lines@.map_values(|v: Vec<char>| v@),
            ls == text_lines(output@),
            prefix@ == host_prefix(),
            first_host(ls) == first_host(ls.skip(i as int)),
        decreases lines.len() - i,
    {
        let line = &lines[i];
        assert(ls.skip(i as int)[0] == line@);
        let mut matches = line.len() >= prefix.len();
        let mut k: usize = 0;
        while matches && k < prefix.len()
            invariant
                k <= prefix.len(),
                matches ==> line.len() >= prefix.len(),
                matches ==> forall|j: int| 0 <= j < k ==> line@[j] == prefix@[j],
                !matches ==> !(line@.len() >= prefix@.len() && line@.take(prefix@.len() as int) == prefix@),
            decreases prefix.len() - k,
        {
            if line[k] != prefix[k] {
                assert(line@.take(prefix@.len() as int)[k as int] != prefix@[k as int]);
                matches = false;
                k = prefix.len();
            } else {
                k = k + 1;
            }
        }
        if matches {
            assert(line@.take(prefix@.len() as int) =~= prefix@);
            let mut rest: Vec<char> = Vec::new();
            let mut j: usize = prefix.len();
            while j < line.len()
                invariant
                    prefix.len() <= j <= line.len(),
                    rest@ == line@.subrange(prefix.len() as int, j as int),
                decreases line.len() - j,
            {
                rest.push(line[j]);
                assert(line@.subrange(prefix.len() as int, j + 1) =~= line@.subrange(
                    prefix.len() as int,
                    j as int,
                ).push(line@[j as int]));
                j = j + 1;
            }
            assert(rest@ =~= line@.skip(prefix.len() as int));
            return Some(string_of(&rest));
        }
        assert(ls.skip(i as int).drop_first() =~= ls.skip(i + 1));
        i = i + 1;
    }
    None
}

} // verus!
