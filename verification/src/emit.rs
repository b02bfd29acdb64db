//! What both code generators share: lines of assembly, the string table,
//! and the homes that register allocation gives temporaries.
use vstd::prelude::*;
use crate::ir::{Temp, IrInstruction, InstrV};
use crate::ir;
use crate::optimize;
use crate::regalloc::{Home, RegAllocResult};
use crate::text;

verus! {

broadcast use vstd::std_specs::hash::group_hash_axioms;

/// An indented line.
pub open spec fn ln(s: Seq<char>) -> Seq<char> {
    "    "@ + s + "\n"@
}

pub open spec fn local_label(fname: Seq<char>, l: Seq<char>) -> Seq<char> {
    ".L"@ + fname + "_"@ + l
}

/// The home given to `t`.
pub(crate) fn home_of(alloc: &RegAllocResult, t: Temp) -> (h: Home)
    requires
        alloc.home@.contains_key(t.0),
    ensures
        h == alloc.home@[t.0],
{
    *alloc.home.get(&t.0).unwrap()
}

/// The string table after interning `s`, and the index of `s` in it.
pub open spec fn intern(strs: Seq<Seq<char>>, s: Seq<char>) -> (int, Seq<Seq<char>>) {
    if exists|i: int| 0 <= i < strs.len() && strs[i] == s {
        (choose|i: int| 0 <= i < strs.len() && strs[i] == s && forall|j: int| 0 <= j < i ==> strs[j] != s, strs)
    } else {
        (strs.len() as int, strs.push(s))
    }
}

/// The homes that an allocation with `num_registers` registers may give.
pub open spec fn homes_bounded(homes: Map<u32, Home>, nspill: usize, num_registers: usize) -> bool {
    forall|x: u32|
        #![trigger homes[x]]
        homes.contains_key(x) ==> match homes[x] {
            Home::Reg(k) => k < num_registers,
            Home::Spill(k) => k < nspill,
        }
}

pub open spec fn strs_view(v: Seq<String>) -> Seq<Seq<char>> {
    Seq::new(v.len(), |i: int| v[i]@)
}

/// A frame size rounded up to a multiple of 16.
pub open spec fn round16(n: int) -> int {
    (n + 15) / 16 * 16
}

/// The labelled string constants `strs[0..n]`.
pub open spec fn string_entries(strs: Seq<Seq<char>>) -> Seq<char>
    decreases strs.len(),
{
    if strs.len() == 0 {
        Seq::empty()
    } else {
        string_entries(strs.drop_last()) + ".Lstr"@ + text::decimal((strs.len() - 1) as nat) + ":\n    .asciz "@
            + text::debug_str(strs.last()) + "\n"@
    }
}

/// The read-only data section, present when there are strings.
pub open spec fn rodata_text(strs: Seq<Seq<char>>) -> Seq<char> {
    if strs.len() == 0 {
        Seq::empty()
    } else {
        "\n    .section .rodata\n"@ + string_entries(strs)
    }
}

pub(crate) fn homed(alloc: &RegAllocResult, t: Temp) -> (b: bool)
    ensures
        b == alloc.home@.contains_key(t.0),
{
    alloc.home.contains_key(&t.0)
}

/// Whether every temporary an instruction reads has a home.
pub(crate) fn uses_homed(alloc: &RegAllocResult, instr: &IrInstruction) -> (b: bool)
    ensures
        b == forall|x: u32| #[trigger] optimize::uses(ir::instr_view(*instr), x) ==> alloc.home@.contains_key(x),
{
    let ghost iv = ir::instr_view(*instr);
    match instr {
        IrInstruction::BinaryOp { left, right, .. } => {
            assert(optimize::uses(iv, left.0) && optimize::uses(iv, right.0));
            homed(alloc, *left) && homed(alloc, *right)
        },
        IrInstruction::StoreMem { src, .. } => {
            assert(optimize::uses(iv, src.0));
            homed(alloc, *src)
        },
        IrInstruction::LoadIndexed { index, .. } => {
            assert(optimize::uses(iv, index.0));
            homed(alloc, *index)
        },
        IrInstruction::StoreIndexed { index, src, .. } => {
            assert(optimize::uses(iv, index.0) && optimize::uses(iv, src.0));
            homed(alloc, *index) && homed(alloc, *src)
        },
        IrInstruction::LoadIndexedPtr { base, index, .. } => {
            assert(optimize::uses(iv, base.0) && optimize::uses(iv, index.0));
            homed(alloc, *base) && homed(alloc, *index)
        },
        IrInstruction::StoreIndexedPtr { base, index, src, .. } => {
            assert(optimize::uses(iv, base.0) && optimize::uses(iv, index.0) && optimize::uses(iv, src.0));
            homed(alloc, *base) && homed(alloc, *index) && homed(alloc, *src)
        },
        IrInstruction::Call { args, .. } => {
            let mut k: usize = 0;
            while k < args.len()
                invariant
                    k <= args@.len(),
                    iv == ir::instr_view(*instr),
                    iv matches InstrV::Call { args: a, .. } && a == args@,
                    forall|q: int| 0 <= q < k ==> alloc.home@.contains_key((#[trigger] args@[q]).0),
                decreases args@.len() - k,
            {
                if !homed(alloc, args[k]) {
                    assert(optimize::uses(iv, args@[k as int].0));
                    return false;
                }
                k = k + 1;
            }
            true
        },
        IrInstruction::JumpIfZero { cond, .. } => {
            assert(optimize::uses(iv, cond.0));
            homed(alloc, *cond)
        },
        IrInstruction::JumpIfNotZero { cond, .. } => {
            assert(optimize::uses(iv, cond.0));
            homed(alloc, *cond)
        },
        IrInstruction::Return(Some(v)) => {
            assert(optimize::uses(iv, v.0));
            homed(alloc, *v)
        },
        _ => true,
    }
}

} // verus!
