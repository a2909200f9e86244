//! The environment and the arguments a test binary is launched with.
use vstd::prelude::*;
use crate::cargo::{ld_path_spec, pairs_view, TestBinary};
use crate::config::types::Color;
use crate::config::Config;
use crate::text::{contains_text, decimal, joined, opt_str, str_contains, str_eq, strs};

verus! {

/// The variable that holds the dynamic linker's search path.
pub open spec fn ld_path_var() -> Seq<char> {
    "LD_LIBRARY_PATH"@
}

/// The value of the first variable named `key` in `env`.
pub open spec fn lookup(env: Seq<(Seq<char>, Seq<char>)>, key: Seq<char>) -> Option<Seq<char>>
    decreases env.len(),
{
    if env.len() == 0 {
        None
    } else if env[0].0 == key {
        Some(env[0].1)
    } else {
        lookup(env.drop_first(), key)
    }
}

/// Whether a variable of the launching environment is left out, as the test
/// gets its own value of it: the flags always, the linker's search path where
/// the binary has linker paths of its own.
pub open spec fn replaced_var(key: Seq<char>, linker: bool) -> bool {
    (key == ld_path_var() && linker) || key == "RUSTFLAGS"@
}

/// The variables of the launching environment the test inherits, in order.
pub open spec fn kept_vars(env: Seq<(Seq<char>, Seq<char>)>, linker: bool) -> Seq<(Seq<char>, Seq<char>)>
    decreases env.len(),
{
    if env.len() == 0 {
        Seq::<(Seq<char>, Seq<char>)>::empty()
    } else {
        let rest = kept_vars(env.drop_last(), linker);
        if replaced_var(env.last().0, linker) {
            rest
        } else {
            rest.push(env.last())
        }
    }
}

/// A variable where the value is given.
pub open spec fn opt_var(key: Seq<char>, v: Option<Seq<char>>) -> Seq<(Seq<char>, Seq<char>)> {
    match v {
        Some(x) => seq![(key, x)],
        None => Seq::<(Seq<char>, Seq<char>)>::empty(),
    }
}

/// The package's authors, as cargo hands them to a build: joined by colons.
pub open spec fn authors_text(a: Option<Vec<String>>) -> Option<Seq<char>> {
    match a {
        Some(v) => Some(joined(strs(v@), ":"@)),
        None => None,
    }
}

/// The environment of a test: the inherited variables; the backtrace switch
/// where the run is verbose; the package's name, version, authors and
/// directory where they are known; the linker's search path, the binary's
/// own paths before the inherited one, where it has linker paths; and the
/// flags; and the number of test threads where the launching environment
/// sets it.
pub open spec fn test_env_spec(
    env: Seq<(Seq<char>, Seq<char>)>,
    t: TestBinary,
    verbose: bool,
    rustflags: Seq<char>,
    test_threads: Option<Seq<char>>,
) -> Seq<(Seq<char>, Seq<char>)> {
    let linker = t.linker_paths@.len() > 0;
    kept_vars(env, linker) + (if verbose {
        seq![("RUST_BACKTRACE"@, "1"@)]
    } else {
        Seq::<(Seq<char>, Seq<char>)>::empty()
    }) + opt_var("CARGO_PKG_NAME"@, opt_str(t.pkg_name)) + opt_var(
        "CARGO_PKG_VERSION"@,
        opt_str(t.pkg_version),
    ) + opt_var("CARGO_PKG_AUTHORS"@, authors_text(t.pkg_authors)) + opt_var(
        "CARGO_MANIFEST_DIR"@,
        opt_str(t.cargo_dir),
    ) + (if linker {
        seq![(ld_path_var(), ld_path_spec(strs(t.linker_paths@), lookup(env, ld_path_var())))]
    } else {
        Seq::<(Seq<char>, Seq<char>)>::empty()
    }) + seq![("RUSTFLAGS"@, rustflags)] + opt_var("RUST_TEST_THREADS"@, test_threads)
}

fn copy_pair(p: &(String, String)) -> (res: (String, String))
    ensures
        res.0@ == p.0@,
        res.1@ == p.1@,
{
    (p.0.clone(), p.1.clone())
}

/// The value of the first variable named `key` in `env`.
fn find_var(env: &Vec<(String, String)>, key: &str) -> (res: Option<String>)
    ensures
        opt_str(res) == lookup(pairs_view(env@), key@),
{
    let ghost e = pairs_view(env@);
    assert(e.skip(0) =~= e);
    let mut i: usize = 0;
    while i < env.len()
        invariant
            i <= env.len(),
            e == pairs_view(env@),
            lookup(e, key@) == lookup(e.skip(i as int), key@),
        decreases env.len() - i,
    {
        assert(e.skip(i as int)[0] == e[i as int]);
        if str_eq(env[i].0.as_str(), key) {
            return Some(env[i].1.clone());
        }
        assert(e.skip(i as int).drop_first() =~= e.skip(i + 1));
        i = i + 1;
    }
    assert(e.skip(i as int).len() == 0);
    None
}

fn push_opt_var(v: &mut Vec<(String, String)>, key: &str, value: &Option<String>)
    ensures
        pairs_view(final(v)@) == pairs_view(old(v)@) + opt_var(key@, opt_str(*value)),
{
    match value {
        Some(x) => {
            v.push((key.to_string(), x.clone()));
        },
        None => {},
    }
    assert(pairs_view(v@) =~= pairs_view(old(v)@) + opt_var(key@, opt_str(*value)));
}

/// The environment a test is launched with, where `env` is the environment
/// of the launching process, `rustflags` the flags of the build and
/// `test_threads` the value of `RUST_TEST_THREADS` where it is set.
pub fn test_env_vars(
    env: &Vec<(String, String)>,
    test: &TestBinary,
    config: &Config,
    rustflags: &str,
    test_threads: Option<&str>,
) -> (res: Vec<(String, String)>)
    ensures
        pairs_view(res@) == test_env_spec(
            pairs_view(env@),
            *test,
            config.verbose,
            rustflags@,
            match test_threads {
                Some(t) => Some(t@),
                None => None,
            },
        ),
{
    let ghost e = pairs_view(env@);
    let linker = test.has_linker_paths();
    let mut envars: Vec<(String, String)> = Vec::new();
    let mut i: usize = 0;
    while i < env.len()
        invariant
            i <= env.len(),
            e == pairs_view(env@),
            linker == (test.linker_paths@.len() > 0),
            pairs_view(envars@) == kept_vars(e.take(i as int), linker),
        decreases env.len() - i,
    {
        assert(e.take(i + 1).drop_last() =~= e.take(i as int));
        let key = env[i].0.as_str();
        let skip = (str_eq(key, "LD_LIBRARY_PATH") && linker) || str_eq(key, "RUSTFLAGS");
        proof {
            reveal_strlit("LD_LIBRARY_PATH");
            reveal_strlit("RUSTFLAGS");
        }
        if !skip {
            envars.push(copy_pair(&env[i]));
            assert(pairs_view(envars@) =~= kept_vars(e.take(i as int), linker).push(e[i as int]));
        }
        i = i + 1;
    }
    assert(e.take(env.len() as int) =~= e);
    let ghost kept = pairs_view(envars@);
    if config.verbose {
        envars.push((String::from_str("RUST_BACKTRACE"), String::from_str("1")));
    }
    let ghost after_bt = pairs_view(envars@);
    assert(after_bt =~= kept + (if config.verbose {
        seq![("RUST_BACKTRACE"@, "1"@)]
    } else {
        Seq::<(Seq<char>, Seq<char>)>::empty()
    }));
    push_opt_var(&mut envars, "CARGO_PKG_NAME", test.pkg_name());
    push_opt_var(&mut envars, "CARGO_PKG_VERSION", test.pkg_version());
    let authors: Option<String> = match test.pkg_authors() {
        Some(a) => Some(crate::text::join_strings(a, ":")),
        None => None,
    };
    push_opt_var(&mut envars, "CARGO_PKG_AUTHORS", &authors);
    push_opt_var(&mut envars, "CARGO_MANIFEST_DIR", test.manifest_dir());
    let ghost before_ld = pairs_view(envars@);
    if linker {
        let outer = find_var(env, "LD_LIBRARY_PATH");
        let path = match &outer {
            Some(o) => test.ld_library_path(Some(o.as_str())),
            None => test.ld_library_path(None),
        };
        envars.push((String::from_str("LD_LIBRARY_PATH"), path));
    }
    let ghost after_ld = pairs_view(envars@);
    assert(after_ld =~= before_ld + (if linker {
        seq![(ld_path_var(), ld_path_spec(strs(test.linker_paths@), lookup(e, ld_path_var())))]
    } else {
        Seq::<(Seq<char>, Seq<char>)>::empty()
    }));
    envars.push((String::from_str("RUSTFLAGS"), rustflags.to_string()));
    let ghost after_flags = pairs_view(envars@);
    assert(after_flags =~= after_ld + seq![("RUSTFLAGS"@, rustflags@)]);
    match test_threads {
        Some(t) => {
            envars.push((String::from_str("RUST_TEST_THREADS"), t.to_string()));
        },
        None => {},
    }
    assert(pairs_view(envars@) =~= after_flags + opt_var("RUST_TEST_THREADS"@, match test_threads {
        Some(t) => Some(t@),
        None => None,
    }));
    envars
}

/// The arguments that set the test harness's colouring.
pub open spec fn color_args(c: Color) -> Seq<Seq<char>> {
    match c {
        Color::Auto => Seq::<Seq<char>>::empty(),
        Color::Always => seq!["--color"@, "always"@],
        Color::Never => seq!["--color"@, "never"@],
    }
}

/// Whether some argument already sets the number of test threads.
pub open spec fn names_test_threads(args: Seq<Seq<char>>) -> bool {
    exists|i: int| 0 <= i < args.len() && contains_text(#[trigger] args[i], "--test-threads"@)
}

/// The arguments of a test: the ignored tests where they are asked for, the
/// arguments handed on to the tests, the colouring where it is not left to
/// the harness, and, for a test harness, the number of threads where neither
/// the environment nor those arguments set it and the harness's own choice
/// is not asked for.
pub open spec fn test_args_spec(
    ignored: bool,
    varargs: Seq<Seq<char>>,
    color: Color,
    env_sets_threads: bool,
    is_test: bool,
    implicit_test_threads: bool,
    num_threads: Option<usize>,
) -> Seq<Seq<char>> {
    (if ignored {
        seq!["--ignored"@]
    } else {
        Seq::<Seq<char>>::empty()
    }) + varargs + color_args(color) + (if !env_sets_threads && is_test && !implicit_test_threads
        && !names_test_threads(varargs) {
        match num_threads {
            Some(n) => seq!["--test-threads"@, decimal(n as nat)],
            None => Seq::<Seq<char>>::empty(),
        }
    } else {
        Seq::<Seq<char>>::empty()
    })
}

/// The arguments a test binary is launched with, after the program's own
/// name; `env_sets_threads` tells whether `RUST_TEST_THREADS` is set, and
/// `num_threads` the number of threads to ask for.
pub fn test_args(
    test: &TestBinary,
    config: &Config,
    ignored: bool,
    env_sets_threads: bool,
    implicit_test_threads: bool,
    num_threads: Option<usize>,
) -> (res: Vec<String>)
    ensures
        strs(res@) == test_args_spec(
            ignored,
            strs(config.varargs@),
            config.color,
            env_sets_threads,
            test.ty is None || test.ty == Some(crate::config::types::RunType::Tests),
            implicit_test_threads,
            num_threads,
        ),
{
    let ghost va = strs(config.varargs@);
    let mut argv: Vec<String> = Vec::new();
    if ignored {
        argv.push(String::from_str("--ignored"));
    }
    let ghost first = strs(argv@);
    assert(first =~= if ignored {
        seq!["--ignored"@]
    } else {
        Seq::<Seq<char>>::empty()
    });
    let mut i: usize = 0;
    let mut names_threads = false;
    while i < config.varargs.len()
        invariant
            i <= config.varargs.len(),
            va == strs(config.varargs@),
            strs(argv@) == first + va.take(i as int),
            names_threads == exists|k: int| 0 <= k < i && contains_text(#[trigger] va[k], "--test-threads"@),
        decreases config.varargs.len() - i,
    {
        let a = &config.varargs[i];
        if str_contains(a.as_str(), "--test-threads") {
            proof {
                reveal_strlit("--test-threads");
            }
            names_threads = true;
        }
        let c = a.clone();
        assert(c@ == va[i as int]);
        let ghost before = strs(argv@);
        argv.push(c);
        assert(strs(argv@) =~= before.push(va[i as int]));
        assert(va.take(i + 1) =~= va.take(i as int).push(va[i as int]));
        assert(strs(argv@) =~= first + va.take(i + 1));
        i = i + 1;
    }
    assert(va.take(config.varargs.len() as int) =~= va);
    let ghost mid = strs(argv@);
    match config.color {
        Color::Auto => {},
        Color::Always => {
            argv.push(String::from_str("--color"));
            argv.push(String::from_str("always"));
        },
        Color::Never => {
            argv.push(String::from_str("--color"));
            argv.push(String::from_str("never"));
        },
    }
    let ghost after_color = strs(argv@);
    assert(after_color =~= mid + color_args(config.color));
    assert(names_threads == names_test_threads(va));
    if !env_sets_threads && test.is_test_type() && !implicit_test_threads && !names_threads {
        match num_threads {
            Some(n) => {
                argv.push(String::from_str("--test-threads"));
                argv.push(crate::text::usize_text(n));
            },
            None => {},
        }
    }
    assert(strs(argv@) =~= test_args_spec(
        ignored,
        va,
        config.color,
        env_sets_threads,
        test.ty is None || test.ty == Some(crate::config::types::RunType::Tests),
        implicit_test_threads,
        num_threads,
    ));
    argv
}

} // verus!
