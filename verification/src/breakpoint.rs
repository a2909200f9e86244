//! Software breakpoints: where in a word of a traced process's memory the
//! trap instruction goes, which bytes it replaces, and for each thread
//! whether the breakpoint is armed or being stepped over.
//!
//! The words are those of an x86-64 process, where the trap is the one byte
//! `INT3` instruction. Reading and writing the traced process's memory is
//! left to the caller: the functions here take the word that was read and
//! give the word to write.
use vstd::prelude::*;
use std::collections::HashMap;
use crate::ptrace_decisions::ProcessInfo;
use crate::statemachine::TracerAction;

verus! {

broadcast use vstd::std_specs::hash::group_hash_axioms;

/// The trap instruction (`INT3`).
pub const BREAKPOINT_INSTRUCTION: u64 = 0xCC;

/// The size of the trap instruction in bytes.
pub const BREAKPOINT_INSTRUCTION_SIZE: u64 = 1;

/// How far the program counter has moved past the breakpoint's address when
/// the trap is reported.
pub const BREAKPOINT_PC_OFFSET: u64 = 1;

/// The bits of the trap instruction.
pub const BREAKPOINT_MASK: u64 = 0xFF;

/// The word-aligned address that holds `addr`.
pub open spec fn aligned(addr: u64) -> u64 {
    addr & !7u64
}

/// The bit position of the byte at `pc` in the word that holds it.
pub open spec fn shift_of(pc: u64) -> u64 {
    ((pc & 7u64) * 8) as u64
}

/// The bytes of `word` that the trap replaces when it sits at bit `shift`.
pub open spec fn saved_bytes(word: u64, shift: u64) -> u64 {
    (word >> shift) & BREAKPOINT_MASK
}

/// `word` with the trap put at bit `shift`.
pub open spec fn armed_word(word: u64, shift: u64) -> u64 {
    (word & !(BREAKPOINT_MASK << shift)) | (BREAKPOINT_INSTRUCTION << shift)
}

/// `word` with the bytes `saved` put back at bit `shift`.
pub open spec fn restored_word(word: u64, shift: u64, saved: u64) -> u64 {
    (word & !(BREAKPOINT_MASK << shift)) | (saved << shift)
}

/// The word-aligned address that holds `addr`: at most `addr`, less than a
/// word below it, and a multiple of eight.
pub fn align_address(addr: u64) -> (res: u64)
    ensures
        res == aligned(addr),
        res <= addr,
        addr - res < 8,
        res % 8 == 0,
{
    let res = addr & !7u64;
    assert(res <= addr && addr - res < 8 && res % 8 == 0 && addr - res == (addr & 7u64)) by (bit_vector)
        requires
            res == addr & !7u64,
    ;
    res
}

/// Putting back the bytes a trap replaced gives the word as it was: taking a
/// breakpoint out undoes putting it in.
pub proof fn lemma_restore_undoes_arm(word: u64, shift: u64)
    requires
        shift < 64,
    ensures
        restored_word(armed_word(word, shift), shift, saved_bytes(word, shift)) == word,
{
    assert(((((word & !(0xFFu64 << shift)) | (0xCCu64 << shift)) & !(0xFFu64 << shift)) | (((word >> shift)
        & 0xFFu64) << shift)) == word) by (bit_vector)
        requires
            shift < 64,
    ;
}

/// Putting in a trap where one already is leaves the word as it is.
pub proof fn lemma_arm_idempotent(word: u64, shift: u64)
    requires
        shift < 64,
    ensures
        armed_word(armed_word(word, shift), shift) == armed_word(word, shift),
{
    assert((((((word & !(0xFFu64 << shift)) | (0xCCu64 << shift)) & !(0xFFu64 << shift)) | (0xCCu64
        << shift))) == ((word & !(0xFFu64 << shift)) | (0xCCu64 << shift))) by (bit_vector)
        requires
            shift < 64,
    ;
}

/// A word with the trap put in at a byte boundary holds the trap there, and
/// every other byte of it is the word's own.
pub proof fn lemma_arm_places_trap(word: u64, shift: u64)
    requires
        shift <= 56,
    ensures
        saved_bytes(armed_word(word, shift), shift) == BREAKPOINT_INSTRUCTION,
        armed_word(word, shift) & !(BREAKPOINT_MASK << shift) == word & !(BREAKPOINT_MASK << shift),
{
    assert(((((word & !(0xFFu64 << shift)) | (0xCCu64 << shift)) >> shift) & 0xFFu64) == 0xCCu64)
        by (bit_vector)
        requires
            shift <= 56,
    ;
    assert((((word & !(0xFFu64 << shift)) | (0xCCu64 << shift)) & !(0xFFu64 << shift)) == (word & !(
    0xFFu64 << shift))) by (bit_vector)
        requires
            shift <= 56,
    ;
}

/// Whether a breakpoint is armed for a thread: as `running` records it, and
/// armed for a thread it has no record of.
pub open spec fn armed_for(running: Map<i32, bool>, pid: i32) -> bool {
    if running.dom().contains(pid) {
        running[pid]
    } else {
        true
    }
}

/// One access to the traced process that handling a breakpoint asks for.
#[derive(Debug, Copy, Clone, PartialEq, Eq, Structural)]
pub enum MemoryStep {
    /// Read the word and write back the word with the trap in; a failure is
    /// of no consequence.
    TryEnable,
    /// Read the word and write back the word with the trap in.
    Enable,
    /// Read the word and write back the word with the replaced bytes put back.
    Disable,
    /// Set the thread's instruction pointer to the breakpoint's address.
    JumpTo,
}

/// What handling a hit of a breakpoint does: for a thread for which it is
/// armed, put the trap in (to be sure), take it out again, move the thread
/// back onto the instruction and step over it, the breakpoint then no longer
/// armed for the thread; for a thread that has just stepped over it, take it
/// out and, where asked to, put it back in, then let the thread continue
/// with the breakpoint armed again. The flag tells whether the hit counts.
pub open spec fn process_spec(running: Map<i32, bool>, pid: i32, reenable: bool) -> (bool, TracerAction<
    ProcessInfo,
>, Seq<MemoryStep>, Map<i32, bool>) {
    let info = ProcessInfo { pid, signal: None };
    if armed_for(running, pid) {
        (
            true,
            TracerAction::Step(info),
            seq![MemoryStep::TryEnable, MemoryStep::Disable, MemoryStep::JumpTo],
            running.insert(pid, false),
        )
    } else {
        (
            false,
            TracerAction::Continue(info),
            if reenable {
                seq![MemoryStep::Disable, MemoryStep::Enable]
            } else {
                seq![MemoryStep::Disable]
            },
            running.insert(pid, true),
        )
    }
}

/// A breakpoint at an address of a traced program.
pub struct Breakpoint {
    /// The address of the instruction the trap replaces
    pub pc: u64,
    /// The bytes the trap replaces
    data: u64,
    /// The bit position of those bytes in their word
    shift: u64,
    /// For each thread, whether the breakpoint is armed for it
    is_running: HashMap<i32, bool>,
}

impl Breakpoint {
    /// The address of the instruction the trap replaces.
    pub closed spec fn address(&self) -> u64 {
        self.pc
    }

    /// The bytes the trap replaces.
    pub closed spec fn saved(&self) -> u64 {
        self.data
    }

    /// The bit position of the replaced bytes in their word.
    pub closed spec fn shift(&self) -> u64 {
        self.shift
    }

    /// For each thread, whether the breakpoint is armed for it.
    pub closed spec fn running(&self) -> Map<i32, bool> {
        self.is_running@
    }

    /// The breakpoint is well formed: the replaced bytes sit at the byte of
    /// its address within its word, and are one byte.
    pub closed spec fn wf(&self) -> bool {
        &&& self.shift == shift_of(self.pc)
        &&& self.shift <= 56
        &&& self.data <= BREAKPOINT_MASK
    }

    /// The breakpoint at `pc`, where `word` is the word read from the traced
    /// process at the aligned address of `pc`; it is armed for no thread yet.
    pub fn new(pc: u64, word: u64) -> (res: Breakpoint)
        ensures
            res.wf(),
            res.address() == pc,
            res.shift() == shift_of(pc),
            res.saved() == saved_bytes(word, shift_of(pc)),
            res.running() == Map::<i32, bool>::empty(),
    {
        let aligned_pc = align_address(pc);
        let shift = 8 * (pc - aligned_pc);
        assert(shift == shift_of(pc) && shift <= 56) by (bit_vector)
            requires
                aligned_pc == pc & !7u64,
                shift == 8 * (pc - aligned_pc),
        ;
        let data = (word >> shift) & BREAKPOINT_MASK;
        assert(data <= 0xFFu64) by (bit_vector)
            requires
                data == (word >> shift) & 0xFFu64,
        ;
        Breakpoint { pc, data, shift, is_running: HashMap::new() }
    }

    /// The address of the instruction the trap replaces.
    pub fn get_pc(&self) -> (res: u64)
        ensures
            res == self.address(),
    {
        self.pc
    }

    /// The word-aligned address that holds the breakpoint's instruction.
    pub fn aligned_address(&self) -> (res: u64)
        ensures
            res == aligned(self.address()),
    {
        align_address(self.pc)
    }

    /// The word to write to put the trap in, where `word` was read at the
    /// aligned address; none where the trap is in already.
    pub fn trap_word(&self, word: u64) -> (res: Option<u64>)
        requires
            self.wf(),
        ensures
            res == if armed_word(word, self.shift()) == word {
                None
            } else {
                Some(armed_word(word, self.shift()))
            },
    {
        proof {
            assert(self.shift < 64);
        }
        let mut intdata = word & !(BREAKPOINT_MASK << self.shift);
        intdata = intdata | (BREAKPOINT_INSTRUCTION << self.shift);
        if intdata == word {
            None
        } else {
            Some(intdata)
        }
    }

    /// Arms the breakpoint for thread `pid`: records it as armed and gives
    /// the word to write, where `word` was read at the aligned address; none
    /// where the trap is in already.
    pub fn enable(&mut self, pid: i32, word: u64) -> (res: Option<u64>)
        requires
            old(self).wf(),
        ensures
            final(self).wf(),
            final(self).address() == old(self).address(),
            final(self).saved() == old(self).saved(),
            final(self).shift() == old(self).shift(),
            final(self).running() == old(self).running().insert(pid, true),
            res == if armed_word(word, old(self).shift()) == word {
                None
            } else {
                Some(armed_word(word, old(self).shift()))
            },
    {
        self.is_running.insert(pid, true);
        self.trap_word(word)
    }

    /// The word to write to take the trap out, where `word` was read at the
    /// aligned address: the replaced bytes put back.
    pub fn disable(&self, word: u64) -> (res: u64)
        requires
            self.wf(),
        ensures
            res == restored_word(word, self.shift(), self.saved()),
    {
        proof {
            assert(self.shift < 64);
        }
        let mut orgdata = word & !(BREAKPOINT_MASK << self.shift);
        orgdata = orgdata | (self.data << self.shift);
        orgdata
    }

    /// Handles a hit of the breakpoint by thread `pid`: whether the hit
    /// counts, what the thread does next, and the accesses to carry out
    /// first, in order; the breakpoint records the state they leave it in.
    pub fn process(&mut self, pid: i32, reenable: bool) -> (res: (bool, TracerAction<ProcessInfo>, Vec<MemoryStep>))
        requires
            old(self).wf(),
        ensures
            final(self).wf(),
            final(self).address() == old(self).address(),
            final(self).saved() == old(self).saved(),
            final(self).shift() == old(self).shift(),
            (res.0, res.1, res.2@, final(self).running()) == process_spec(old(self).running(), pid, reenable),
    {
        let is_running = match self.is_running.get(&pid) {
            Some(r) => *r,
            None => true,
        };
        let info = ProcessInfo { pid, signal: None };
        if is_running {
            self.is_running.insert(pid, false);
            let steps = vec![MemoryStep::TryEnable, MemoryStep::Disable, MemoryStep::JumpTo];
            (true, TracerAction::Step(info), steps)
        } else {
            self.is_running.insert(pid, true);
            let mut steps = vec![MemoryStep::Disable];
            if reenable {
                steps.push(MemoryStep::Enable);
            }
            (false, TracerAction::Continue(info), steps)
        }
    }

    /// Forgets thread `pid`, which was killed.
    pub fn thread_killed(&mut self, pid: i32)
        requires
            old(self).wf(),
        ensures
            final(self).wf(),
            final(self).address() == old(self).address(),
            final(self).saved() == old(self).saved(),
            final(self).shift() == old(self).shift(),
            final(self).running() == old(self).running().remove(pid),
    {
        self.is_running.remove(&pid);
    }
}

/// Handling two hits of a breakpoint by one thread in a row: the first steps
/// over it where it was armed and the second lets the thread continue with
/// it armed again, or the other way round; either way the thread ends where
/// it began.
pub proof fn lemma_process_alternates(running: Map<i32, bool>, pid: i32, first: bool, second: bool)
    ensures
        ({
            let a = process_spec(running, pid, first);
            let b = process_spec(a.3, pid, second);
            &&& a.0 == armed_for(running, pid)
            &&& b.0 == !a.0
            &&& armed_for(b.3, pid) == armed_for(running, pid)
            &&& forall|q: i32| q != pid ==> armed_for(b.3, q) == armed_for(running, q)
        }),
{
}

/// A thread that was killed and is handled again later finds the breakpoint
/// armed.
pub proof fn lemma_killed_thread_rearms(running: Map<i32, bool>, pid: i32, reenable: bool)
    ensures
        process_spec(running.remove(pid), pid, reenable).0,
{
}

} // verus!
