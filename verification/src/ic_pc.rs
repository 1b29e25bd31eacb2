//! From instruction counters to program counters.

use std::collections::HashMap;
use vstd::prelude::*;

verus! {

broadcast use vstd::std_specs::hash::group_hash_axioms;

/// How many bytes of immediate data follow the opcode `op`: the push opcodes `0x60` to `0x7f`
/// carry one to thirty-two bytes.
pub open spec fn push_size(op: u8) -> nat {
    if 0x60 <= op <= 0x7f {
        (op - 0x60 + 1) as nat
    } else {
        0
    }
}

/// `done` and the program counters of the instructions from `pc` on.
pub open spec fn starts_from(code: Seq<u8>, pc: nat, done: Seq<nat>) -> Seq<nat>
    decreases (if pc < code.len() { code.len() - pc } else { 0 }),
{
    if pc >= code.len() {
        done
    } else {
        starts_from(code, pc + 1 + push_size(code[pc as int]), done.push(pc))
    }
}

/// The program counters at which the instructions of `code` start, in order.
pub open spec fn instruction_starts(code: Seq<u8>) -> Seq<nat> {
    starts_from(code, 0, Seq::empty())
}

/// From the number of each instruction to its program counter.
pub open spec fn ic_to_pc(starts: Seq<nat>) -> Map<usize, usize> {
    Map::new(|ic: usize| ic < starts.len(), |ic: usize| starts[ic as int] as usize)
}

/// From the program counter of each instruction to its number.
pub open spec fn is_pc_to_ic(m: Map<usize, usize>, starts: Seq<nat>) -> bool {
    &&& forall|pc: usize| m.dom().contains(pc) <==> starts.contains(pc as nat)
    &&& forall|pc: usize| #[trigger]
        m.dom().contains(pc) ==> m[pc] < starts.len() && starts[m[pc] as int] == pc
}

/// Each instruction starts behind the one before it, and inside the code.
pub proof fn lemma_starts_increase(code: Seq<u8>, pc: nat, done: Seq<nat>)
    requires
        forall|i: int, j: int| 0 <= i < j < done.len() ==> done[i] < done[j],
        forall|i: int| 0 <= i < done.len() ==> #[trigger] done[i] < pc,
        forall|i: int| 0 <= i < done.len() ==> #[trigger] done[i] < code.len(),
    ensures
        ({
            let s = starts_from(code, pc, done);
            &&& done.len() <= s.len()
            &&& s.len() <= done.len() + code.len()
            &&& forall|i: int| 0 <= i < done.len() ==> s[i] == done[i]
            &&& forall|i: int, j: int| 0 <= i < j < s.len() ==> s[i] < s[j]
            &&& forall|i: int| 0 <= i < s.len() ==> #[trigger] s[i] < code.len()
            &&& pc < code.len() ==> s.len() > done.len() && s.len() <= done.len() + code.len() - pc
            &&& pc >= code.len() ==> s == done
        }),
    decreases (if pc < code.len() { code.len() - pc } else { 0 }),
{
    if pc < code.len() {
        let next = pc + 1 + push_size(code[pc as int]);
        let longer = done.push(pc);
        lemma_starts_increase(code, next, longer);
        let s = starts_from(code, pc, done);
        assert forall|i: int| 0 <= i < done.len() implies s[i] == done[i] by {
            assert(longer[i] == done[i]);
        }
    }
}

/// Maps the instructions of `code` from instruction counter to program counter, or from
/// program counter to instruction counter where `PC_FIRST` is set.
pub fn make_map<const PC_FIRST: bool>(code: &[u8]) -> (r: HashMap<usize, usize>)
    ensures
        !PC_FIRST ==> r@ == ic_to_pc(instruction_starts(code@)),
        PC_FIRST ==> is_pc_to_ic(r@, instruction_starts(code@)),
{
    let mut map: HashMap<usize, usize> = HashMap::new();
    let ghost mut done: Seq<nat> = Seq::empty();
    let len: usize = code.len();
    let mut pc: usize = 0;
    let mut ic: usize = 0;
    assert(ic_to_pc(done) =~= Map::<usize, usize>::empty());
    assert(!PC_FIRST ==> map@ =~= ic_to_pc(done));
    while pc < len
        invariant
            len == code@.len(),
            ic <= pc <= len,
            ic == done.len(),
            forall|i: int, j: int| 0 <= i < j < done.len() ==> done[i] < done[j],
            forall|i: int| 0 <= i < done.len() ==> #[trigger] done[i] < pc,
            forall|i: int| 0 <= i < done.len() ==> #[trigger] done[i] < len,
            instruction_starts(code@) == starts_from(code@, pc as nat, done),
            !PC_FIRST ==> map@ == ic_to_pc(done),
            PC_FIRST ==> is_pc_to_ic(map@, done),
        decreases len - pc,
    {
        let ghost before = done;
        let ghost map_before = map@;
        if PC_FIRST {
            map.insert(pc, ic);
        } else {
            map.insert(ic, pc);
        }
        proof {
            done = done.push(pc as nat);
            if PC_FIRST {
                assert forall|k: usize| map@.dom().contains(k) <==> done.contains(k as nat) by {
                    if k == pc {
                        assert(done[before.len() as int] == pc as nat);
                    } else {
                        assert(map@.dom().contains(k) <==> before.contains(k as nat));
                        if before.contains(k as nat) {
                            let i = choose|i: int| 0 <= i < before.len() && before[i] == k as nat;
                            assert(done[i] == k as nat);
                        }
                        if done.contains(k as nat) {
                            let i = choose|i: int| 0 <= i < done.len() && done[i] == k as nat;
                            assert(before[i] == k as nat);
                        }
                    }
                }
                assert forall|k: usize| #[trigger]
                    map@.dom().contains(k) implies map@[k] < done.len() && done[map@[k] as int]
                    == k by {
                    if k != pc {
                        assert(map_before.dom().contains(k));
                    }
                }
            } else {
                assert(map@ =~= ic_to_pc(done));
            }
        }
        let op: u8 = code[pc];
        let mut step: usize = 1;
        if op >= 0x60 && op <= 0x7f {
            step = 1 + (op - 0x60 + 1) as usize;
        }
        proof {
            if pc + step > len {
                // behind the end there is nothing more to map
                assert(starts_from(code@, (pc + step) as nat, done) == done);
            }
        }
        if step > len - pc {
            pc = len;
        } else {
            pc = pc + step;
        }
        ic = ic + 1;
    }
    map
}

/// Maps from instruction counter to program counter.
#[derive(Debug)]
pub struct IcPcMap {
    pub inner: HashMap<usize, usize>,
}

impl IcPcMap {
    /// Creates a new `IcPcMap` for the given code.
    pub fn new(code: &[u8]) -> (r: IcPcMap)
        ensures
            r.inner@ == ic_to_pc(instruction_starts(code@)),
    {
        IcPcMap { inner: make_map::<false>(code) }
    }

    /// Returns the program counter for the given instruction counter.
    pub fn get(&self, ic: usize) -> (r: Option<usize>)
        ensures
            r == (if self.inner@.dom().contains(ic) {
                Some(self.inner@[ic])
            } else {
                None
            }),
    {
        match self.inner.get(&ic) {
            Some(pc) => Some(*pc),
            None => None,
        }
    }
}

/// Going from the number of an instruction to its program counter and back gives the number:
/// the two maps of one code undo each other.
pub proof fn law_maps_are_inverse(code: Seq<u8>, by_pc: Map<usize, usize>, ic: usize)
    requires
        is_pc_to_ic(by_pc, instruction_starts(code)),
        ic_to_pc(instruction_starts(code)).dom().contains(ic),
        code.len() <= usize::MAX,
    ensures
        by_pc.dom().contains(ic_to_pc(instruction_starts(code))[ic]),
        by_pc[ic_to_pc(instruction_starts(code))[ic]] == ic,
{
    let s = instruction_starts(code);
    lemma_starts_increase(code, 0, Seq::empty());
    let pc = ic_to_pc(s)[ic];
    assert(s[ic as int] < code.len());
    assert(s[ic as int] == pc as nat);
    assert(s.contains(pc as nat));
    let back = by_pc[pc];
    if back < ic {
        assert(s[back as int] < s[ic as int]);
    } else if ic < back {
        assert(s[ic as int] < s[back as int]);
    }
}

/// Program counters grow with the number of the instruction, and lie inside the code.
pub proof fn law_program_counters_increase(code: Seq<u8>, a: usize, b: usize)
    requires
        ic_to_pc(instruction_starts(code)).dom().contains(a),
        ic_to_pc(instruction_starts(code)).dom().contains(b),
        code.len() <= usize::MAX,
    ensures
        a < b <==> ic_to_pc(instruction_starts(code))[a] < ic_to_pc(instruction_starts(code))[b],
        ic_to_pc(instruction_starts(code))[a] < code.len(),
{
    lemma_starts_increase(code, 0, Seq::empty());
    let s = instruction_starts(code);
    assert(s[a as int] < code.len() && s[b as int] < code.len());
    if a < b {
        assert(s[a as int] < s[b as int]);
    } else if b < a {
        assert(s[b as int] < s[a as int]);
    }
}

} // verus!
