use cargo_tarpaulin::breakpoint_set::{BreakpointSet, MemoryError, Placement};
use cargo_tarpaulin::errors::RunError;

#[test]
fn placing_arms_the_trap() {
    let mut s = BreakpointSet::new(0x1000);
    match s.place(7, 0x10, Ok(0x1122_3344_5566_7788), Ok(0x1122_3344_5566_7788)) {
        Ok(Placement::Write { address, word }) => {
            assert_eq!(address, 0x1010);
            assert_eq!(word, 0x1122_3344_5566_77CC);
        }
        _ => panic!("expected a write"),
    }
    assert_eq!(s.len(), 1);
    assert_eq!(s.find(0x1010), Some(0));
    assert_eq!(s.offset(), 0x1000);
}

#[test]
fn a_trap_already_there_clashes_and_takes_out_its_word() {
    let mut s = BreakpointSet::new(0);
    assert!(matches!(s.place(1, 0x21, Ok(0), Ok(0)), Ok(Placement::Write { .. })));
    assert!(matches!(s.place(1, 0x40, Ok(0), Ok(0)), Ok(Placement::Write { .. })));
    match s.place(1, 0x22, Ok(0xCC_0000), Ok(0xCC_0000)) {
        Ok(Placement::Clash(removed)) => {
            assert_eq!(removed.len(), 1);
            assert_eq!(removed[0].get_pc(), 0x21);
        }
        _ => panic!("expected a clash"),
    }
    assert_eq!(s.len(), 1);
    assert!(s.skips(0x27));
    assert!(matches!(s.place(1, 0x23, Ok(0), Ok(0)), Ok(Placement::Skipped)));
    assert_eq!(s.find(0x40), Some(0));
}

#[test]
fn failed_reads_fail_the_placement() {
    let mut s = BreakpointSet::new(0);
    match s.place(1, 0x10, Err(MemoryError::NotMapped), Ok(0)) {
        Err(RunError::TestRuntime(m)) => {
            assert_eq!(m, "Tarpaulin cannot find code addresses check your linker settings.")
        }
        _ => panic!("expected an error"),
    }
    match s.place(1, 0x10, Ok(0), Err(MemoryError::Other)) {
        Err(RunError::TestRuntime(m)) => assert_eq!(m, "Failed to instrument test executable"),
        _ => panic!("expected an error"),
    }
    assert_eq!(s.len(), 0);
}
