use cargo_tarpaulin::traces::{CoverageStat, LogicState, Trace, TraceMap};
use std::collections::HashSet;

#[test]
fn stat_addition() {
    let x = CoverageStat::Line(0);
    let y = CoverageStat::Line(5);
    let z = CoverageStat::Line(7);
    let xy = x.clone().add(y.clone());
    let yx = y.clone().add(x);
    let yy = y.clone().add(y.clone());
    let zy = z.add(y);
    assert_eq!(&xy, &CoverageStat::Line(5));
    assert_eq!(&yx, &xy);
    assert_eq!(&yy, &CoverageStat::Line(10));
    assert_eq!(&zy, &CoverageStat::Line(12));

    let tf = LogicState {
        been_true: true,
        been_false: true,
    };
    let t = LogicState {
        been_true: true,
        been_false: false,
    };
    let f = LogicState {
        been_true: false,
        been_false: true,
    };
    let n = LogicState {
        been_true: false,
        been_false: false,
    };

    assert_eq!(t.add(&f), tf);
    assert_eq!(t.add(&t), t);
    assert_eq!(tf.add(&f), tf);
    assert_eq!(tf.add(&t), tf);
    assert_eq!(t.add(&n), t);
    assert_eq!(n.add(&f), f);
    assert_eq!(n.add(&n), n);
}

#[test]
fn multiple_traces_per_line() {
    let mut t1 = TraceMap::new();
    let mut address = HashSet::new();
    address.insert(0);
    address.insert(128);
    let trace_1 = Trace {
        line: 1,
        address,
        length: 0,
        stats: CoverageStat::Line(1),
        fn_name: Some(String::from("f")),
    };
    t1.add_trace("file.rs", trace_1);

    let coverable = t1.total_coverable();
    assert_eq!(coverable, 1);
    let total_covered = t1.total_covered();
    assert_eq!(total_covered, 1);
}

#[test]
fn merge_address_mismatch_and_dedup() {
    let mut t1 = TraceMap::new();
    let mut t2 = TraceMap::new();

    let mut address = HashSet::new();
    address.insert(5);
    let a_trace = Trace {
        line: 1,
        address,
        length: 0,
        stats: CoverageStat::Line(1),
        fn_name: Some(String::from("f")),
    };
    t1.add_trace("file.rs", a_trace.clone());
    t2.add_trace(
        "file.rs",
        Trace {
            line: 1,
            address: HashSet::new(),
            length: 0,
            stats: CoverageStat::Line(2),
            fn_name: Some(String::from("f")),
        },
    );

    t1.merge(&t2);
    assert_eq!(t1.all_traces().len(), 2);
    assert_eq!(t1.get_trace(5), Some(&a_trace));
    t1.dedup();
    let all = t1.all_traces();
    assert_eq!(all.len(), 1);
    assert_eq!(all[0].stats, CoverageStat::Line(3));
}

#[test]
fn no_merge_dedup_needed() {
    let mut t1 = TraceMap::new();
    let mut t2 = TraceMap::new();

    let mut address = HashSet::new();
    address.insert(5);
    let a_trace = Trace {
        line: 1,
        address,
        length: 0,
        stats: CoverageStat::Line(1),
        fn_name: Some(String::from("f1")),
    };
    t1.add_trace("file.rs", a_trace.clone());
    t2.add_trace(
        "file.rs",
        Trace {
            line: 2,
            address: HashSet::new(),
            length: 0,
            stats: CoverageStat::Line(2),
            fn_name: Some(String::from("f2")),
        },
    );

    t1.merge(&t2);
    assert_eq!(t1.all_traces().len(), 2);
    assert_eq!(t1.get_trace(5), Some(&a_trace));
    t1.dedup();
    let all = t1.all_traces();
    assert_eq!(all.len(), 2);
}

#[test]
fn merge_needed() {
    let mut t1 = TraceMap::new();
    let mut t2 = TraceMap::new();

    let mut address = HashSet::new();
    address.insert(1);
    t1.add_trace(
        "file.rs",
        Trace {
            line: 2,
            address: address.clone(),
            length: 0,
            stats: CoverageStat::Line(5),
            fn_name: Some(String::from("f")),
        },
    );
    t2.add_trace(
        "file.rs",
        Trace {
            line: 2,
            address: address.clone(),
            length: 0,
            stats: CoverageStat::Line(2),
            fn_name: Some(String::from("f")),
        },
    );
    t1.merge(&t2);
    assert_eq!(t1.all_traces().len(), 1);
    assert_eq!(
        t1.get_trace(1),
        Some(&Trace {
            line: 2,
            address: address.clone(),
            length: 0,
            stats: CoverageStat::Line(7),
            fn_name: Some(String::from("f")),
        })
    );
    // Deduplicating should have no effect.
    t1.dedup();
    assert_eq!(t1.all_traces().len(), 1);
    assert_eq!(
        t1.get_trace(1),
        Some(&Trace {
            line: 2,
            address,
            length: 0,
            stats: CoverageStat::Line(7),
            fn_name: Some(String::from("f")),
        })
    );
}

fn line_trace(line: u64, hits: u64) -> Trace {
    let mut t = Trace::new_stub(line);
    t.stats = CoverageStat::Line(hits);
    t
}

#[test]
fn logic_state_addition_is_commutative_and_idempotent() {
    let a = LogicState { been_true: true, been_false: false };
    let b = LogicState { been_true: false, been_false: true };
    assert_eq!(a.add(&b), b.add(&a));
    assert_eq!(a.add(&a), a);
    let n = LogicState { been_true: false, been_false: false };
    assert_eq!(b.add(&n), b);
}

#[test]
fn line_stat_addition_wraps() {
    let a = CoverageStat::Line(u64::MAX);
    let b = CoverageStat::Line(2);
    assert_eq!(a.add(b), CoverageStat::Line(1));
}

#[test]
fn stats_of_different_kinds_keep_the_left() {
    let a = CoverageStat::Line(3);
    let b = CoverageStat::Branch(LogicState { been_true: true, been_false: false });
    assert_eq!(a.add(b), CoverageStat::Line(3));
}

#[test]
fn merge_into_empty_gives_the_other() {
    let mut other = TraceMap::new();
    other.add_trace("src/b.rs", line_trace(3, 1));
    other.add_trace("src/a.rs", line_trace(1, 0));
    other.add_trace("src/a.rs", line_trace(2, 4));
    let mut empty = TraceMap::new();
    empty.merge(&other);
    assert_eq!(empty.files(), other.files());
    assert_eq!(empty.all_traces(), other.all_traces());
    assert_eq!(empty.total_coverable(), 3);
    assert_eq!(empty.total_covered(), 2);
}

#[test]
fn merge_holds_every_file() {
    let mut a = TraceMap::new();
    a.add_trace("x.rs", line_trace(1, 1));
    let mut b = TraceMap::new();
    b.add_trace("y.rs", line_trace(1, 1));
    a.merge(&b);
    assert!(a.contains_file("x.rs"));
    assert!(a.contains_file("y.rs"));
    assert_eq!(a.files(), vec!["x.rs", "y.rs"]);
}

#[test]
fn dedup_twice_is_dedup_once() {
    let mut t = TraceMap::new();
    t.add_trace("f.rs", line_trace(4, 1));
    t.add_trace("f.rs", line_trace(4, 2));
    t.add_trace("f.rs", line_trace(5, 0));
    t.dedup();
    let once: Vec<Trace> = t.all_traces().into_iter().cloned().collect();
    t.dedup();
    let twice: Vec<Trace> = t.all_traces().into_iter().cloned().collect();
    assert_eq!(once, twice);
    assert_eq!(once.len(), 2);
    assert_eq!(once[0].stats, CoverageStat::Line(3));
}

#[test]
fn added_trace_is_found() {
    let mut t = TraceMap::new();
    assert!(!t.contains_location("a.rs", 7));
    t.add_trace("a.rs", line_trace(7, 0));
    assert!(t.contains_location("a.rs", 7));
    assert!(t.contains_location("./a.rs", 7) == t.contains_file("./a.rs"));
    assert!(!t.contains_location("a.rs", 8));
}

#[test]
fn add_file_twice_is_add_file_once() {
    let mut t = TraceMap::new();
    t.add_file("a.rs");
    t.add_file("a.rs");
    assert_eq!(t.files().len(), 1);
    assert!(t.contains_file("a.rs"));
    assert!(t.is_empty());
    t.add_trace("a.rs", Trace::new_stub(3));
    assert!(!t.is_empty());
}

#[test]
fn increment_hit_counts_line_hits() {
    let mut t = TraceMap::new();
    let mut address = HashSet::new();
    address.insert(42);
    t.add_trace("a.rs", Trace::new(3, address, 0, None));
    t.increment_hit(42);
    t.increment_hit(42);
    assert_eq!(t.get_trace(42).unwrap().stats, CoverageStat::Line(2));
    assert_eq!(t.covered_in_path("a.rs"), 1);
    assert_eq!(t.coverable_in_path("a.rs"), 1);
}

#[test]
fn child_traces_are_below_the_root() {
    let mut t = TraceMap::new();
    t.add_trace("/p/src/a.rs", line_trace(1, 1));
    t.add_trace("/p/src/sub/b.rs", line_trace(1, 0));
    t.add_trace("/q/c.rs", line_trace(1, 0));
    assert_eq!(t.get_child_traces("/p/src").len(), 2);
    assert_eq!(t.get_dir_traces("/p/src").len(), 1);
    assert_eq!(t.coverable_in_path("/p"), 2);
    assert_eq!(t.covered_in_path("/p"), 1);
}

#[test]
fn traces_change_in_place() {
    let mut map = TraceMap::new();
    let mut address = HashSet::new();
    address.insert(2);
    map.add_trace("a.rs", Trace::new(3, address, 1, None));
    map.add_trace("a.rs", Trace::new_stub(5));
    if let Some(t) = map.get_trace_mut(2) {
        t.stats = CoverageStat::Line(7);
    } else {
        panic!("the trace at address 2 is found");
    }
    assert_eq!(map.get_trace(2).map(|t| t.stats.clone()), Some(CoverageStat::Line(7)));
    assert!(map.get_trace_mut(99).is_none());
    assert_eq!(map.total_coverable(), 2);
}

#[test]
fn merge_leaves_files_absent_from_the_other() {
    let mut a = TraceMap::new();
    a.add_trace("x.rs", line_trace(1, 1));
    a.add_trace("x.rs", line_trace(2, 0));
    let before: Vec<Trace> = a.all_traces().into_iter().cloned().collect();
    let mut b = TraceMap::new();
    b.add_trace("y.rs", line_trace(7, 3));
    a.merge(&b);
    let after: Vec<Trace> = a.all_traces().into_iter().cloned().collect();
    assert_eq!(after.len(), 3);
    assert_eq!(&after[..2], &before[..]);
    assert_eq!(after[2].line, 7);
}
