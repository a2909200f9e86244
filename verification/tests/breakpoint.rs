use cargo_tarpaulin::breakpoint::{align_address, Breakpoint, MemoryStep, BREAKPOINT_INSTRUCTION};
use cargo_tarpaulin::ptrace_decisions::{signaled_outcome, ProcessInfo};
use cargo_tarpaulin::errors::RunError;
use cargo_tarpaulin::statemachine::TracerAction;

const WORD: u64 = 0x1122_3344_5566_7788;

#[test]
fn addresses_align_down_to_words() {
    assert_eq!(align_address(0x1003), 0x1000);
    assert_eq!(align_address(0x1008), 0x1008);
    assert_eq!(align_address(0x100f), 0x1008);
    assert_eq!(align_address(7), 0);
}

#[test]
fn enabling_puts_the_trap_at_the_right_byte() {
    let mut bp = Breakpoint::new(0x1001, WORD);
    assert_eq!(bp.pc, 0x1001);
    assert_eq!(bp.aligned_address(), 0x1000);
    let armed = bp.enable(42, WORD).unwrap();
    assert_eq!(armed, 0x1122_3344_5566_CC88);
    assert_eq!((armed >> 8) & 0xFF, BREAKPOINT_INSTRUCTION);
    let bp0 = Breakpoint::new(0x2000, WORD);
    assert_eq!(bp0.trap_word(WORD), Some(0x1122_3344_5566_77CC));
    let bp7 = Breakpoint::new(0x2007, WORD);
    assert_eq!(bp7.trap_word(WORD), Some(0xCC22_3344_5566_7788));
}

#[test]
fn disabling_undoes_enabling() {
    let mut bp = Breakpoint::new(0x1003, WORD);
    let armed = bp.enable(1, WORD).unwrap();
    assert_ne!(armed, WORD);
    assert_eq!(bp.disable(armed), WORD);
    // Other bytes changed in between are kept.
    let changed = armed ^ 0xFF00_0000_0000_0000;
    assert_eq!(bp.disable(changed), WORD ^ 0xFF00_0000_0000_0000);
}

#[test]
fn enabling_twice_is_refused() {
    let mut bp = Breakpoint::new(0x1002, WORD);
    let armed = bp.enable(1, WORD).unwrap();
    assert_eq!(bp.enable(1, armed), None);
    assert_eq!(bp.trap_word(armed), None);
}

#[test]
fn processing_steps_over_then_continues() {
    let mut bp = Breakpoint::new(0x4000, WORD);
    let info = ProcessInfo { pid: 7, signal: None };
    let (hit, action, steps) = bp.process(7, true);
    assert!(hit);
    assert_eq!(action, TracerAction::Step(info));
    assert_eq!(steps, vec![MemoryStep::TryEnable, MemoryStep::Disable, MemoryStep::JumpTo]);
    let (hit, action, steps) = bp.process(7, true);
    assert!(!hit);
    assert_eq!(action, TracerAction::Continue(info));
    assert_eq!(steps, vec![MemoryStep::Disable, MemoryStep::Enable]);
    let (hit, _, _) = bp.process(7, false);
    assert!(hit);
    let (hit, _, steps) = bp.process(7, false);
    assert!(!hit);
    assert_eq!(steps, vec![MemoryStep::Disable]);
}

#[test]
fn threads_are_followed_apart() {
    let mut bp = Breakpoint::new(0x4000, WORD);
    assert!(bp.process(1, true).0);
    assert!(bp.process(2, true).0);
    assert!(!bp.process(1, true).0);
    bp.thread_killed(2);
    assert!(bp.process(2, true).0);
}

#[test]
fn signalled_processes() {
    let none = |pid| ProcessInfo { pid, signal: None };
    assert_eq!(signaled_outcome(10, 9, None, false).unwrap(), TracerAction::Detach(none(10)));
    assert_eq!(signaled_outcome(10, 5, Some(true), true).unwrap(), TracerAction::Continue(none(10)));
    assert_eq!(signaled_outcome(10, 17, None, false).unwrap(), TracerAction::Continue(none(10)));
    assert_eq!(
        signaled_outcome(10, 15, None, false).unwrap(),
        TracerAction::TryContinue(ProcessInfo { pid: 10, signal: Some(15) })
    );
    assert_eq!(
        signaled_outcome(10, 11, Some(false), false).unwrap(),
        TracerAction::TryContinue(ProcessInfo { pid: 10, signal: Some(11) })
    );
    match signaled_outcome(10, 5, None, false) {
        Err(RunError::StateMachine(m)) => assert_eq!(m, "Unexpected stop"),
        _ => panic!("a trap the tracer did not cause is not expected"),
    }
    assert!(matches!(signaled_outcome(3, 11, Some(true), false), Err(RunError::StateMachine(_))));
}
