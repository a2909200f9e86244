//! The breakpoints placed in one traced process, by address, and the words
//! of its memory where placing one clashed with a trap already there: no
//! breakpoint is kept, nor placed later, in such a word.
//!
//! Reading and writing the process's memory is left to the caller, who
//! hands in what the reads gave and carries out the writes asked for.
use vstd::prelude::*;
use crate::breakpoint::{aligned, align_address, armed_word, saved_bytes, shift_of, Breakpoint};
use crate::errors::{RunError, RunErrorView};

verus! {

/// Why a read or write of a traced process's memory failed.
#[derive(Debug, Copy, Clone, PartialEq, Eq, Structural)]
pub enum MemoryError {
    /// The address is not mapped in the process
    NotMapped,
    /// Any other failure
    Other,
}

/// The error that a failed access while placing breakpoints gives.
pub open spec fn placement_error_spec(e: MemoryError) -> RunErrorView {
    match e {
        MemoryError::NotMapped => RunErrorView::TestRuntime(
            "Tarpaulin cannot find code addresses check your linker settings."@,
        ),
        MemoryError::Other => RunErrorView::TestRuntime("Failed to instrument test executable"@),
    }
}

/// The error that a failed access while placing breakpoints gives.
pub fn placement_error(e: MemoryError) -> (res: RunError)
    ensures
        res@ == placement_error_spec(e),
{
    match e {
        MemoryError::NotMapped => RunError::TestRuntime(
            "Tarpaulin cannot find code addresses check your linker settings.".to_string(),
        ),
        MemoryError::Other => RunError::TestRuntime("Failed to instrument test executable".to_string()),
    }
}

/// What placing a breakpoint asks of the caller.
pub enum Placement {
    /// The address lies in a word where an earlier placement clashed:
    /// nothing to do
    Skipped,
    /// Write `word` at `address` to arm the new breakpoint
    Write { address: u64, word: u64 },
    /// The trap was in the word already: the breakpoints taken out again,
    /// each to disable
    Clash(Vec<Breakpoint>),
}

/// Whether the breakpoint at `pc` (with the load offset `offset`) lies in
/// the word of the program address `addr`.
pub open spec fn same_word(pc: u64, offset: u64, addr: u64) -> bool {
    aligned((pc - offset) as u64) == aligned(addr)
}

/// The breakpoints of one traced process.
pub struct BreakpointSet {
    /// Where the program is loaded: a program address plus the offset is
    /// the address in the process
    offset: u64,
    /// The breakpoints, no two at one address
    breakpoints: Vec<Breakpoint>,
    /// The aligned program addresses of the words where a placement clashed
    clashes: Vec<u64>,
}

impl BreakpointSet {
    /// Where the program is loaded.
    pub closed spec fn load_offset(&self) -> u64 {
        self.offset
    }

    /// Where the program is loaded.
    pub fn offset(&self) -> (res: u64)
        ensures
            res == self.load_offset(),
    {
        self.offset
    }

    /// The breakpoints, in the order they were placed.
    pub closed spec fn points(&self) -> Seq<Breakpoint> {
        self.breakpoints@
    }

    /// The words where a placement clashed.
    pub closed spec fn clashed(&self) -> Seq<u64> {
        self.clashes@
    }

    /// No two breakpoints share an address; each is well formed, lies past
    /// the offset, and lies in no word where a placement clashed.
    pub open spec fn wf(&self) -> bool {
        &&& forall|i: int, j: int|
            #![trigger self.points()[i], self.points()[j]]
            0 <= i < j < self.points().len() ==> self.points()[i].address() != self.points()[j].address()
        &&& forall|i: int|
            #![trigger self.points()[i]]
            0 <= i < self.points().len() ==> {
                &&& self.points()[i].wf()
                &&& self.points()[i].address() >= self.load_offset()
                &&& !exists|k: int|
                    0 <= k < self.clashed().len() && aligned(
                        (#[trigger] self.points()[i].address() - self.load_offset()) as u64,
                    ) == self.clashed()[k]
            }
    }

    /// No breakpoints yet, for a program loaded at `offset`.
    pub fn new(offset: u64) -> (res: Self)
        ensures
            res.wf(),
            res.load_offset() == offset,
            res.points().len() == 0,
            res.clashed().len() == 0,
    {
        BreakpointSet { offset, breakpoints: Vec::new(), clashes: Vec::new() }
    }

    /// The number of breakpoints.
    pub fn len(&self) -> (res: usize)
        ensures
            res == self.points().len(),
    {
        self.breakpoints.len()
    }

    /// The place of the breakpoint at address `pc`, if there is one.
    pub fn find(&self, pc: u64) -> (res: Option<usize>)
        ensures
            res matches Some(i) ==> i < self.points().len() && self.points()[i as int].address() == pc,
            res is None ==> forall|i: int| 0 <= i < self.points().len() ==> (#[trigger] self.points()[i]).address() != pc,
    {
        let mut i: usize = 0;
        while i < self.breakpoints.len()
            invariant
                i <= self.breakpoints@.len(),
                forall|k: int| 0 <= k < i ==> (#[trigger] self.breakpoints@[k]).address() != pc,
            decreases self.breakpoints@.len() - i,
        {
            if self.breakpoints[i].get_pc() == pc {
                return Some(i);
            }
            i = i + 1;
        }
        None
    }

    /// Whether a placement clashed in the word of program address `addr`.
    pub fn skips(&self, addr: u64) -> (res: bool)
        ensures
            res == self.clashed().contains(aligned(addr)),
    {
        let a = align_address(addr);
        let mut i: usize = 0;
        while i < self.clashes.len()
            invariant
                i <= self.clashes@.len(),
                a == aligned(addr),
                forall|k: int| 0 <= k < i ==> self.clashes@[k] != a,
            decreases self.clashes@.len() - i,
        {
            if self.clashes[i] == a {
                assert(self.clashes@[i as int] == a);
                return true;
            }
            i = i + 1;
        }
        false
    }

    /// Places a breakpoint at program address `addr`, from the words read at
    /// the aligned address of `addr` plus the offset: `first_read` to learn
    /// the bytes the trap replaces, `second_read` to arm it. Where a
    /// placement clashed in the word of `addr` before, nothing is done.
    /// Where the trap is in the word already, the placement clashes: the
    /// word is recorded, and the breakpoints in it are taken out and handed
    /// back to be disabled. Otherwise the breakpoint is kept, armed for
    /// thread `pid` (replacing one at the same address), and the word to
    /// write is handed back. A failed read fails the placement.
    pub fn place(
        &mut self,
        pid: i32,
        addr: u64,
        first_read: Result<u64, MemoryError>,
        second_read: Result<u64, MemoryError>,
    ) -> (res: Result<Placement, RunError>)
        requires
            old(self).wf(),
            addr + old(self).load_offset() <= u64::MAX,
        ensures
            final(self).wf(),
            final(self).load_offset() == old(self).load_offset(),
            old(self).clashed().contains(aligned(addr)) ==> {
                &&& res matches Ok(Placement::Skipped)
                &&& final(self).points() == old(self).points()
                &&& final(self).clashed() == old(self).clashed()
            },
            !old(self).clashed().contains(aligned(addr)) ==> match (first_read, second_read) {
                (Err(e), _) => {
                    &&& res matches Err(err) && err@ == placement_error_spec(e)
                    &&& final(self).points() == old(self).points()
                    &&& final(self).clashed() == old(self).clashed()
                },
                (Ok(_), Err(e)) => {
                    &&& res matches Err(err) && err@ == placement_error_spec(e)
                    &&& final(self).points() == old(self).points()
                    &&& final(self).clashed() == old(self).clashed()
                },
                (Ok(w1), Ok(w2)) => {
                    let pc = (addr + old(self).load_offset()) as u64;
                    let sh = shift_of(pc);
                    if armed_word(w2, sh) != w2 {
                        &&& res matches Ok(Placement::Write { address, word }) && address == aligned(pc) && word
                            == armed_word(w2, sh)
                        &&& final(self).clashed() == old(self).clashed()
                        &&& final(self).points().len() == old(self).points().len() + if exists|i: int|
                            0 <= i < old(self).points().len() && (#[trigger] old(self).points()[i]).address() == pc {
                            0int
                        } else {
                            1int
                        }
                        &&& forall|i: int|
                            0 <= i < old(self).points().len() && (#[trigger] old(self).points()[i]).address() != pc
                                ==> final(self).points()[i] == old(self).points()[i]
                        &&& exists|k: int| 0 <= k < final(self).points().len() && (#[trigger] final(self).points()[k]).address() == pc
                        &&& forall|k: int|
                            0 <= k < final(self).points().len() && (#[trigger] final(self).points()[k]).address() == pc ==> {
                                &&& final(self).points()[k].saved() == saved_bytes(w1, sh)
                                &&& final(self).points()[k].shift() == sh
                                &&& final(self).points()[k].running() == Map::<i32, bool>::empty().insert(pid, true)
                            }
                    } else {
                        &&& final(self).clashed() == old(self).clashed().push(aligned(addr))
                        &&& final(self).points() == old(self).points().filter(
                            |b: Breakpoint| !same_word(b.address(), old(self).load_offset(), addr),
                        )
                        &&& res matches Ok(Placement::Clash(v)) && v@ == old(self).points().filter(
                            |b: Breakpoint| same_word(b.address(), old(self).load_offset(), addr),
                        )
                    }
                },
            },
    {
        if self.skips(addr) {
            return Ok(Placement::Skipped);
        }
        let w1 = match first_read {
            Ok(w) => w,
            Err(e) => {
                return Err(placement_error(e));
            },
        };
        let w2 = match second_read {
            Ok(w) => w,
            Err(e) => {
                return Err(placement_error(e));
            },
        };
        let pc = addr + self.offset;
        let mut bp = Breakpoint::new(pc, w1);
        match bp.enable(pid, w2) {
            Some(word) => {
                let address = bp.aligned_address();
                let ghost old_points = self.breakpoints@;
                let ghost nb = bp;
                match self.find(pc) {
                    Some(i) => {
                        self.breakpoints.set(i, bp);
                        proof {
                            assert(exists|q: int| 0 <= q < old_points.len() && (#[trigger] old_points[q]).address() == pc) by {
                                assert(old_points[i as int].address() == pc);
                            }
                            assert forall|k: int|
                                0 <= k < self.breakpoints@.len() && (#[trigger] self.breakpoints@[k]).address() == pc
                                    implies k == i by {
                                if k != i {
                                    assert(old_points[k].address() != old_points[i as int].address()) by {
                                        if k < i {
                                            assert(old_points[k].address() != old_points[i as int].address());
                                        } else {
                                            assert(old_points[i as int].address() != old_points[k].address());
                                        }
                                    }
                                }
                            }
                            assert(self.breakpoints@[i as int] == nb);
                        }
                    },
                    None => {
                        self.breakpoints.push(bp);
                        proof {
                            assert(self.breakpoints@[old_points.len() as int] == nb);
                        }
                    },
                }
                proof {
                    assert(!self.clashes@.contains(aligned(addr)));
                    assert((pc - self.offset) as u64 == addr);
                }
                Ok(Placement::Write { address, word })
            },
            None => {
                let a = align_address(addr);
                self.clashes.push(a);
                let ghost old_points = self.breakpoints@;
                let ghost off = self.offset;
                let ghost keep = |b: Breakpoint| !same_word(b.address(), off, addr);
                let ghost drop = |b: Breakpoint| same_word(b.address(), off, addr);
                let mut removed: Vec<Breakpoint> = Vec::new();
                let mut i: usize = 0;
                let mut j: usize = 0;
                assert(old_points.take(0).filter(keep) =~= Seq::<Breakpoint>::empty()) by {
                    reveal(Seq::filter);
                }
                assert(old_points.take(0).filter(drop) =~= Seq::<Breakpoint>::empty()) by {
                    reveal(Seq::filter);
                }
                assert(old_points.skip(0) =~= old_points);
                let n = self.breakpoints.len();
                while j < n
                    invariant
                        n == old_points.len(),
                        j <= old_points.len(),
                        self.offset == off,
                        a == aligned(addr),
                        self.clashes@ == old(self).clashes@.push(a),
                        old_points == old(self).breakpoints@,
                        off == old(self).offset,
                        old(self).wf(),
                        i == old_points.take(j as int).filter(keep).len(),
                        self.breakpoints@ == old_points.take(j as int).filter(keep) + old_points.skip(j as int),
                        removed@ == old_points.take(j as int).filter(drop),
                        keep == (|b: Breakpoint| !same_word(b.address(), off, addr)),
                        drop == (|b: Breakpoint| same_word(b.address(), off, addr)),
                    decreases n - j,
                {
                    proof {
                        assert(old_points.take(j + 1) =~= old_points.take(j as int).push(old_points[j as int]));
                        crate::analysis::lemma_filter_push(old_points.take(j as int), old_points[j as int], keep);
                        crate::analysis::lemma_filter_push(old_points.take(j as int), old_points[j as int], drop);
                        assert(self.breakpoints@[i as int] == old_points[j as int]);
                    }
                    proof {
                        assert(old(self).points()[j as int] == old_points[j as int]);
                    }
                    let ghost prev = self.breakpoints@;
                    let pcj = self.breakpoints[i].get_pc();
                    if align_address(pcj - self.offset) == a {
                        assert(drop(old_points[j as int]));
                        assert(!keep(old_points[j as int]));
                        let b = self.breakpoints.remove(i);
                        removed.push(b);
                        proof {
                            assert(old_points.skip(j as int) =~= seq![old_points[j as int]] + old_points.skip(j + 1));
                            assert(self.breakpoints@ =~= old_points.take(j + 1).filter(keep) + old_points.skip(j + 1));
                        }
                    } else {
                        assert(keep(old_points[j as int]));
                        proof {
                            assert(self.breakpoints@ =~= old_points.take(j + 1).filter(keep) + old_points.skip(j + 1));
                        }
                        i = i + 1;
                    }
                    j = j + 1;
                }
                proof {
                    assert(old_points.take(old_points.len() as int) =~= old_points);
                    assert(self.breakpoints@ =~= old_points.filter(keep));
                    assert forall|x: int, y: int|
                        #![trigger self.points()[x], self.points()[y]]
                        0 <= x < y < self.points().len() implies self.points()[x].address() != self.points()[y].address() by {
                        lemma_filter_distinct(old_points, keep, x, y);
                    }
                    assert forall|x: int| #![trigger self.points()[x]] 0 <= x < self.points().len() implies {
                        &&& self.points()[x].wf()
                        &&& self.points()[x].address() >= self.load_offset()
                        &&& !exists|k: int|
                            0 <= k < self.clashed().len() && aligned(
                                (#[trigger] self.points()[x].address() - self.load_offset()) as u64,
                            ) == self.clashed()[k]
                    } by {
                        lemma_filter_member(old_points, keep, x);
                        let q = choose|q: int| 0 <= q < old_points.len() && old_points[q] == old_points.filter(keep)[x];
                        assert(old(self).points()[q] == self.points()[x]);
                        assert(keep(self.points()[x]));
                        if exists|k: int|
                            0 <= k < self.clashed().len() && aligned(
                                (#[trigger] self.points()[x].address() - self.load_offset()) as u64,
                            ) == self.clashed()[k] {
                            let k = choose|k: int|
                                0 <= k < self.clashed().len() && aligned(
                                    (#[trigger] self.points()[x].address() - self.load_offset()) as u64,
                                ) == self.clashed()[k];
                            if k < old(self).clashed().len() {
                                assert(old(self).clashed()[k] == self.clashed()[k]);
                            }
                        }
                    }
                }
                Ok(Placement::Clash(removed))
            },
        }
    }
}

/// An element of a filtered sequence is one of the sequence that passes.
proof fn lemma_filter_member(s: Seq<Breakpoint>, p: spec_fn(Breakpoint) -> bool, x: int)
    requires
        0 <= x < s.filter(p).len(),
    ensures
        exists|i: int| 0 <= i < s.len() && s[i] == s.filter(p)[x],
        p(s.filter(p)[x]),
    decreases s.len(),
{
    reveal(Seq::filter);
    if s.len() > 0 {
        let init = s.drop_last();
        if p(s.last()) {
            assert(s.filter(p) == init.filter(p).push(s.last()));
            if x < init.filter(p).len() {
                lemma_filter_member(init, p, x);
                let i = choose|i: int| 0 <= i < init.len() && init[i] == init.filter(p)[x];
                assert(s[i] == init[i]);
            } else {
                assert(s[s.len() - 1] == s.filter(p)[x]);
            }
        } else {
            assert(s.filter(p) == init.filter(p));
            lemma_filter_member(init, p, x);
            let i = choose|i: int| 0 <= i < init.len() && init[i] == init.filter(p)[x];
            assert(s[i] == init[i]);
        }
    }
}

/// Filtering keeps elements apart where the sequence did: two places of the
/// result come from two places of the sequence, in order.
proof fn lemma_filter_distinct(s: Seq<Breakpoint>, p: spec_fn(Breakpoint) -> bool, x: int, y: int)
    requires
        0 <= x < y < s.filter(p).len(),
        forall|i: int, j: int| #![trigger s[i], s[j]] 0 <= i < j < s.len() ==> s[i].address() != s[j].address(),
    ensures
        s.filter(p)[x].address() != s.filter(p)[y].address(),
    decreases s.len(),
{
    reveal(Seq::filter);
    if s.len() > 0 {
        let init = s.drop_last();
        assert forall|i: int, j: int| #![trigger init[i], init[j]] 0 <= i < j < init.len() implies init[i].address()
            != init[j].address() by {
            assert(s[i] == init[i] && s[j] == init[j]);
        }
        if p(s.last()) {
            assert(s.filter(p) == init.filter(p).push(s.last()));
            if y < init.filter(p).len() {
                lemma_filter_distinct(init, p, x, y);
            } else {
                lemma_filter_member(init, p, x);
                let i = choose|i: int| 0 <= i < init.len() && init[i] == init.filter(p)[x];
                assert(s[i] == init[i]);
                assert(s[i].address() != s[s.len() - 1].address());
            }
        } else {
            assert(s.filter(p) == init.filter(p));
            lemma_filter_distinct(init, p, x, y);
        }
    }
}

} // verus!
