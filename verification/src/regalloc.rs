//! Linear-scan register allocation, independent of the target. Temporaries
//! live only in callee-saved registers, whose number the caller gives; when
//! more are live at once than there are registers, the one whose interval
//! ends last goes to a stack slot of its own.
use vstd::prelude::*;
use std::collections::HashMap;
use std::collections::HashSet;
use crate::ir::{Temp, IrInstruction, IrFunction, InstrV};
use crate::ir;
use crate::optimize;

verus! {

broadcast use vstd::std_specs::hash::group_hash_axioms;

/// Where a temporary lives.
#[derive(Debug, Clone, Copy, PartialEq, Eq, Structural)]
pub enum Home {
    /// The index in the target's pool of callee-saved registers.
    Reg(usize),
    /// The index of an extra stack slot.
    Spill(usize),
}

/// The home of every temporary of a function, and how many extra stack
/// slots they need.
pub struct RegAllocResult {
    pub home: HashMap<u32, Home>,
    pub num_spill_slots: usize,
}

/// The live range of a temporary: from the instruction that first defines
/// it to the last one that reads it (or its definition, if none does).
#[derive(Clone, Copy)]
struct Interval {
    temp: Temp,
    start: usize,
    end: usize,
}

/// The temporary an instruction defines.
pub open spec fn defines(i: InstrV) -> Option<Temp> {
    match i {
        InstrV::LoadParam { dst, .. } => Some(dst),
        InstrV::LoadImm { dst, .. } => Some(dst),
        InstrV::LoadMem { dst, .. } => Some(dst),
        InstrV::LoadIndexed { dst, .. } => Some(dst),
        InstrV::LoadAddr { dst, .. } => Some(dst),
        InstrV::LoadIndexedPtr { dst, .. } => Some(dst),
        InstrV::BinaryOp { dst, .. } => Some(dst),
        InstrV::Call { dst, .. } => dst,
        _ => None,
    }
}

/// The index of the first instruction that defines temporary `x`.
pub open spec fn first_def(s: Seq<InstrV>, x: u32) -> Option<int>
    decreases s.len(),
{
    if s.len() == 0 {
        None
    } else {
        match first_def(s.drop_last(), x) {
            Some(k) => Some(k),
            None => if defines(s.last()) == Some(Temp(x)) {
                Some(s.len() - 1)
            } else {
                None
            },
        }
    }
}

/// Whether some instruction of `s` defines temporary `x`.
pub open spec fn defined_in(s: Seq<InstrV>, x: u32) -> bool {
    exists|j: int| 0 <= j < s.len() && #[trigger] defines(s[j]) == Some(Temp(x))
}

/// A temporary has a first definition exactly when some instruction defines
/// it, and the first definition is one of them.
pub proof fn lemma_first_def_defined(s: Seq<InstrV>, x: u32)
    ensures
        first_def(s, x) is Some <==> defined_in(s, x),
        first_def(s, x) matches Some(k) ==> 0 <= k < s.len() && defines(s[k]) == Some(Temp(x)),
    decreases s.len(),
{
    if s.len() > 0 {
        let t = s.drop_last();
        lemma_first_def_defined(t, x);
        if defined_in(s, x) {
            let j = choose|j: int| 0 <= j < s.len() && #[trigger] defines(s[j]) == Some(Temp(x));
            if j < s.len() - 1 {
                assert(defines(t[j]) == Some(Temp(x)));
            }
        }
        if defined_in(t, x) {
            let j = choose|j: int| 0 <= j < t.len() && #[trigger] defines(t[j]) == Some(Temp(x));
            assert(defines(s[j]) == Some(Temp(x)));
        }
        match first_def(t, x) {
            Some(k) => {
                assert(s[k] == t[k]);
            },
            None => {},
        }
    }
}

/// The index of the last instruction that reads temporary `x`.
pub open spec fn last_use(s: Seq<InstrV>, x: u32) -> Option<int>
    decreases s.len(),
{
    if s.len() == 0 {
        None
    } else if optimize::uses(s.last(), x) {
        Some(s.len() - 1)
    } else {
        last_use(s.drop_last(), x)
    }
}

/// Where the live range of a defined temporary ends.
pub open spec fn live_end(s: Seq<InstrV>, x: u32) -> int {
    let start = first_def(s, x)->Some_0;
    match last_use(s, x) {
        Some(u) => if u > start {
            u
        } else {
            start
        },
        None => start,
    }
}

/// Whether the live ranges of two defined temporaries share an instruction.
pub open spec fn overlap(s: Seq<InstrV>, x: u32, y: u32) -> bool {
    let (a, b) = (first_def(s, x)->Some_0, live_end(s, x));
    let (c, d) = (first_def(s, y)->Some_0, live_end(s, y));
    !(b < c || d < a)
}

/// The intervals of a function, in the order of their starts.
pub open spec fn intervals_ok(s: Seq<InstrV>, ivs: Seq<(u32, int, int)>) -> bool {
    &&& forall|j: int|
        0 <= j < ivs.len() ==> {
            &&& first_def(s, (#[trigger] ivs[j]).0) == Some(ivs[j].1)
            &&& ivs[j].2 == live_end(s, ivs[j].0)
        }
    &&& forall|j: int, k: int| 0 <= j < k < ivs.len() ==> (#[trigger] ivs[j]).1 < (#[trigger] ivs[k]).1
    &&& forall|x: u32| (#[trigger] first_def(s, x) is Some) ==> exists|j: int| 0 <= j < ivs.len() && (#[trigger] ivs[j]).0 == x
}

proof fn lemma_intervals_prefix(s: Seq<InstrV>, a: Seq<(u32, int, int)>, b: Seq<(u32, int, int)>, j: int)
    requires
        intervals_ok(s, a),
        intervals_ok(s, b),
        0 <= j <= a.len(),
        j <= b.len(),
    ensures
        forall|k: int| 0 <= k < j ==> a[k] == b[k],
    decreases j,
{
    if j > 0 {
        let i = j - 1;
        lemma_intervals_prefix(s, a, b, i);
        assert(first_def(s, a[i].0) == Some(a[i].1));
        let m = choose|m: int| 0 <= m < b.len() && (#[trigger] b[m]).0 == a[i].0;
        assert(first_def(s, b[m].0) == Some(b[m].1));
        assert(b[m] == a[i]);
        assert(first_def(s, b[i].0) == Some(b[i].1));
        let m2 = choose|m: int| 0 <= m < a.len() && (#[trigger] a[m]).0 == b[i].0;
        assert(first_def(s, a[m2].0) == Some(a[m2].1));
        assert(a[m2] == b[i]);
        if m < i {
            assert(a[m] == b[m]);
            assert(a[m].1 < a[i].1);
        }
        if m2 < i {
            assert(a[m2] == b[m2]);
            assert(b[m2].1 < b[i].1);
        }
        if m > i {
            assert(b[i].1 < b[m].1);
            if m2 > i {
                assert(a[i].1 < a[m2].1);
            }
        }
    }
}

/// The intervals of a function are determined by it: two sequences that
/// both list its live ranges in order of start are the same.
pub proof fn lemma_intervals_unique(s: Seq<InstrV>, a: Seq<(u32, int, int)>, b: Seq<(u32, int, int)>)
    requires
        intervals_ok(s, a),
        intervals_ok(s, b),
    ensures
        a == b,
{
    if a.len() <= b.len() {
        lemma_intervals_prefix(s, a, b, a.len() as int);
        if a.len() < b.len() {
            let l = a.len() as int;
            assert(first_def(s, b[l].0) == Some(b[l].1));
            let m = choose|m: int| 0 <= m < a.len() && (#[trigger] a[m]).0 == b[l].0;
            assert(first_def(s, a[m].0) == Some(a[m].1));
            assert(a[m] == b[m]);
            assert(b[m].1 < b[l].1);
        }
    } else {
        lemma_intervals_prefix(s, a, b, b.len() as int);
        let l = b.len() as int;
        assert(first_def(s, a[l].0) == Some(a[l].1));
        let m = choose|m: int| 0 <= m < b.len() && (#[trigger] b[m]).0 == a[l].0;
        assert(first_def(s, b[m].0) == Some(b[m].1));
        assert(a[m] == b[m]);
        assert(a[m].1 < a[l].1);
    }
    assert(a =~= b);
}

spec fn iv_view(v: Seq<Interval>) -> Seq<(u32, int, int)> {
    Seq::new(v.len(), |j: int| (v[j].temp.0, v[j].start as int, v[j].end as int))
}

proof fn lemma_first_def_prefix(s: Seq<InstrV>, i: int, x: u32)
    requires
        0 <= i < s.len(),
    ensures
        first_def(s.take(i + 1), x) == match first_def(s.take(i), x) {
            Some(k) => Some(k),
            None => if defines(s[i]) == Some(Temp(x)) {
                Some(i)
            } else {
                None
            },
        },
        first_def(s.take(i), x) matches Some(k) ==> 0 <= k < i,
{
    assert(s.take(i + 1).drop_last() =~= s.take(i));
    lemma_first_def_range(s.take(i), x);
}

proof fn lemma_first_def_range(s: Seq<InstrV>, x: u32)
    ensures
        first_def(s, x) matches Some(k) ==> 0 <= k < s.len(),
    decreases s.len(),
{
    if s.len() > 0 {
        lemma_first_def_range(s.drop_last(), x);
    }
}

proof fn lemma_last_use_prefix(s: Seq<InstrV>, i: int, x: u32)
    requires
        0 <= i < s.len(),
    ensures
        last_use(s.take(i + 1), x) == if optimize::uses(s[i], x) {
            Some(i)
        } else {
            last_use(s.take(i), x)
        },
{
    assert(s.take(i + 1).drop_last() =~= s.take(i));
}

fn note_def(defined: &mut HashSet<u32>, starts: &mut Vec<(Temp, usize)>, t: Temp, i: usize)
    ensures
        final(defined)@ == old(defined)@.insert(t.0),
        final(starts)@ == if old(defined)@.contains(t.0) {
            old(starts)@
        } else {
            old(starts)@.push((t, i))
        },
{
    if !defined.contains(&t.0) {
        defined.insert(t.0);
        starts.push((t, i));
    }
}

/// The temporary an instruction defines.
fn def_of(ins: &IrInstruction) -> (r: Option<Temp>)
    ensures
        r == defines(ir::instr_view(*ins)),
{
    match ins {
        IrInstruction::LoadParam { dst, .. } => Some(*dst),
        IrInstruction::LoadImm { dst, .. } => Some(*dst),
        IrInstruction::LoadMem { dst, .. } => Some(*dst),
        IrInstruction::LoadIndexed { dst, .. } => Some(*dst),
        IrInstruction::LoadAddr { dst, .. } => Some(*dst),
        IrInstruction::LoadIndexedPtr { dst, .. } => Some(*dst),
        IrInstruction::BinaryOp { dst, .. } => Some(*dst),
        IrInstruction::Call { dst, .. } => *dst,
        _ => None,
    }
}

/// Records, for each temporary an instruction reads, that index `i` reads it.
fn note_uses(last: &mut HashMap<u32, usize>, ins: &IrInstruction, i: usize)
    ensures
        forall|x: u32|
            #![trigger final(last)@.contains_key(x)]
            if optimize::uses(ir::instr_view(*ins), x) {
                final(last)@.contains_key(x) && final(last)@[x] == i
            } else {
                final(last)@.contains_key(x) == old(last)@.contains_key(x) && (old(last)@.contains_key(x)
                    ==> final(last)@[x] == old(last)@[x])
            },
{
    let ghost iv = ir::instr_view(*ins);
    let mut ts: Vec<Temp> = Vec::new();
    match ins {
        IrInstruction::BinaryOp { left, right, .. } => {
            ts.push(*left);
            ts.push(*right);
        },
        IrInstruction::StoreMem { src, .. } => {
            ts.push(*src);
        },
        IrInstruction::LoadIndexed { index, .. } => {
            ts.push(*index);
        },
        IrInstruction::StoreIndexed { index, src, .. } => {
            ts.push(*index);
            ts.push(*src);
        },
        IrInstruction::LoadIndexedPtr { base, index, .. } => {
            ts.push(*base);
            ts.push(*index);
        },
        IrInstruction::StoreIndexedPtr { base, index, src, .. } => {
            ts.push(*base);
            ts.push(*index);
            ts.push(*src);
        },
        IrInstruction::Call { dst: _, func: _, args } => {
            ts = ir::temps_clone(args);
            proof {
                assert forall|x: u32| optimize::uses(iv, x) <==> exists|k: int| 0 <= k < ts@.len() && (#[trigger] ts@[k]).0
                    == x by {
                    let av = iv->Call_args;
                    assert(av == args@);
                }
            }
        },
        IrInstruction::JumpIfZero { cond, .. } => {
            ts.push(*cond);
        },
        IrInstruction::JumpIfNotZero { cond, .. } => {
            ts.push(*cond);
        },
        IrInstruction::Return(Some(v)) => {
            ts.push(*v);
        },
        _ => {},
    }
    assert forall|x: u32| optimize::uses(iv, x) <==> exists|k: int| 0 <= k < ts@.len() && (#[trigger] ts@[k]).0 == x by {
        if optimize::uses(iv, x) && !(iv is Call) {
            if ts@.len() > 0 && ts@[0].0 == x {
            } else if ts@.len() > 1 && ts@[1].0 == x {
            } else {
                assert(ts@.len() > 2 && ts@[2].0 == x);
            }
        }
    }
    let ghost l0 = last@;
    let ghost mut seen: Set<u32> = Set::empty();
    let mut k: usize = 0;
    while k < ts.len()
        invariant
            k <= ts@.len(),
            forall|x: u32| #[trigger] seen.contains(x) <==> exists|j: int| 0 <= j < k && (#[trigger] ts@[j]).0 == x,
            forall|x: u32|
                #![trigger last@.contains_key(x)]
                if seen.contains(x) {
                    last@.contains_key(x) && last@[x] == i
                } else {
                    last@.contains_key(x) == l0.contains_key(x) && (l0.contains_key(x) ==> last@[x] == l0[x])
                },
        decreases ts@.len() - k,
    {
        let a = ts[k];
        last.insert(a.0, i);
        proof {
            let old_seen = seen;
            seen = seen.insert(a.0);
            assert forall|x: u32| #[trigger] seen.contains(x) <==> exists|j: int| 0 <= j < k + 1 && (#[trigger] ts@[j]).0 == x by {
                if x == a.0 {
                    assert(ts@[k as int].0 == x);
                }
                if exists|j: int| 0 <= j < k + 1 && (#[trigger] ts@[j]).0 == x {
                    let j = choose|j: int| 0 <= j < k + 1 && (#[trigger] ts@[j]).0 == x;
                    if j < k {
                        assert(old_seen.contains(x));
                    }
                }
            }
        }
        k = k + 1;
    }
}

/// The live ranges of the temporaries a function defines, in the order of
/// their starts.
fn compute_intervals(func: &IrFunction) -> (r: Vec<Interval>)
    ensures
        intervals_ok(optimize::body(*func), iv_view(r@)),
        forall|j: int| 0 <= j < r@.len() ==> (#[trigger] r@[j]).start <= r@[j].end,
        r@.len() <= optimize::body(*func).len(),
{
    let ghost s = optimize::body(*func);
    let n = func.instructions.len();
    let mut defined: HashSet<u32> = HashSet::new();
    let mut starts: Vec<(Temp, usize)> = Vec::new();
    let mut last: HashMap<u32, usize> = HashMap::new();
    let mut i: usize = 0;
    while i < n
        invariant
            n == s.len(),
            s == optimize::body(*func),
            i <= n,
            forall|x: u32| #[trigger] defined@.contains(x) <==> first_def(s.take(i as int), x) is Some,
            forall|j: int|
                0 <= j < starts@.len() ==> first_def(s.take(i as int), (#[trigger] starts@[j]).0.0) == Some(
                    starts@[j].1 as int,
                ),
            forall|j: int, k: int| 0 <= j < k < starts@.len() ==> (#[trigger] starts@[j]).1 < (#[trigger] starts@[k]).1,
            forall|x: u32|
                (#[trigger] first_def(s.take(i as int), x) is Some) ==> exists|j: int|
                    0 <= j < starts@.len() && (#[trigger] starts@[j]).0.0 == x,
            forall|j: int| 0 <= j < starts@.len() ==> (#[trigger] starts@[j]).1 < i,
            starts@.len() <= i,
            forall|x: u32|
                #![trigger last@.contains_key(x)]
                (last@.contains_key(x) <==> last_use(s.take(i as int), x) is Some) && (last@.contains_key(x)
                    ==> last_use(s.take(i as int), x) == Some(last@[x] as int)),
        decreases n - i,
    {
        let ghost before_starts = starts@;
        let ghost before_defined = defined@;
        let ins = &func.instructions[i];
        match def_of(ins) {
            Some(t) => {
                note_def(&mut defined, &mut starts, t, i);
            },
            None => {},
        }
        note_uses(&mut last, ins, i);
        proof {
            assert forall|x: u32| #[trigger] defined@.contains(x) <==> first_def(s.take(i as int + 1), x) is Some by {
                lemma_first_def_prefix(s, i as int, x);
            }
            assert forall|j: int| 0 <= j < starts@.len() implies first_def(
                s.take(i as int + 1),
                (#[trigger] starts@[j]).0.0,
            ) == Some(starts@[j].1 as int) by {
                lemma_first_def_prefix(s, i as int, starts@[j].0.0);
                if j == before_starts.len() {
                    assert(!before_defined.contains(starts@[j].0.0));
                }
            }
            assert forall|x: u32| (#[trigger] first_def(s.take(i as int + 1), x) is Some) implies exists|j: int|
                0 <= j < starts@.len() && (#[trigger] starts@[j]).0.0 == x by {
                lemma_first_def_prefix(s, i as int, x);
                if first_def(s.take(i as int), x) is Some {
                    let j = choose|j: int| 0 <= j < before_starts.len() && (#[trigger] before_starts[j]).0.0 == x;
                    assert(starts@[j] == before_starts[j]);
                } else {
                    assert(starts@[before_starts.len() as int].0.0 == x);
                }
            }
            assert forall|x: u32|
                #![trigger last@.contains_key(x)]
                (last@.contains_key(x) <==> last_use(s.take(i as int + 1), x) is Some) && (last@.contains_key(x)
                    ==> last_use(s.take(i as int + 1), x) == Some(last@[x] as int)) by {
                lemma_last_use_prefix(s, i as int, x);
            }
        }
        i = i + 1;
    }
    proof {
        assert(s.take(n as int) =~= s);
    }
    let mut r: Vec<Interval> = Vec::new();
    let mut j: usize = 0;
    while j < starts.len()
        invariant
            j <= starts@.len(),
            starts@.len() <= s.len(),
            r@.len() == j,
            s.take(n as int) == s,
            forall|q: int|
                0 <= q < starts@.len() ==> first_def(s, (#[trigger] starts@[q]).0.0) == Some(starts@[q].1 as int),
            forall|x: u32|
                #![trigger last@.contains_key(x)]
                (last@.contains_key(x) <==> last_use(s, x) is Some) && (last@.contains_key(x) ==> last_use(s, x)
                    == Some(last@[x] as int)),
            forall|q: int|
                0 <= q < j ==> {
                    &&& (#[trigger] r@[q]).temp == starts@[q].0
                    &&& r@[q].start == starts@[q].1
                    &&& r@[q].end as int == live_end(s, starts@[q].0.0)
                    &&& r@[q].start <= r@[q].end
                },
        decreases starts@.len() - j,
    {
        let (t, start) = starts[j];
        let end = match last.get(&t.0) {
            Some(u) => if *u > start {
                *u
            } else {
                start
            },
            None => start,
        };
        r.push(Interval { temp: t, start, end });
        j = j + 1;
    }
    proof {
        let v = iv_view(r@);
        assert forall|x: u32| (#[trigger] first_def(s, x) is Some) implies exists|q: int| 0 <= q < v.len() && (#[trigger] v[q]).0 == x by {
            let q = choose|q: int| 0 <= q < starts@.len() && (#[trigger] starts@[q]).0.0 == x;
            assert(v[q].0 == x);
        }
        assert forall|a: int, b: int| 0 <= a < b < v.len() implies (#[trigger] v[a]).1 < (#[trigger] v[b]).1 by {
            assert(starts@[a].1 < starts@[b].1);
        }
    }
    r
}

/// The homes that linear scan gives the temporaries of a function.
pub open spec fn homes_ok(s: Seq<InstrV>, r: RegAllocResult, num_registers: usize) -> bool {
    &&& forall|x: u32| #[trigger] r.home@.contains_key(x) <==> first_def(s, x) is Some
    &&& forall|x: u32|
        #![trigger r.home@[x]]
        r.home@.contains_key(x) ==> match r.home@[x] {
            Home::Reg(k) => k < num_registers,
            Home::Spill(k) => k < r.num_spill_slots,
        }
    &&& forall|x: u32, y: u32|
        #![trigger r.home@[x], r.home@[y]]
        r.home@.contains_key(x) && r.home@.contains_key(y) && x != y && r.home@[x] is Spill ==> r.home@[x] != r.home@[y]
}

/// The state of linear scan: the homes given, the free registers (the
/// last is taken next), the active ranges ordered by end (end, temporary,
/// register), and the stack slots used.
pub struct ScanV {
    pub home: Map<u32, Home>,
    pub free: Seq<usize>,
    pub active: Seq<(usize, Temp, usize)>,
    pub nspill: int,
}

/// The active ranges split into those still live at `start` and the
/// registers of those that ended before it, both in order.
pub open spec fn expire(a: Seq<(usize, Temp, usize)>, start: int) -> (Seq<(usize, Temp, usize)>, Seq<usize>)
    decreases a.len(),
{
    if a.len() == 0 {
        (Seq::empty(), Seq::empty())
    } else {
        let (k, f) = expire(a.drop_last(), start);
        if a.last().0 < start {
            (k, f.push(a.last().2))
        } else {
            (k.push(a.last()), f)
        }
    }
}

/// Inserting `e` after the ranges that end no later than it.
pub open spec fn insert_sorted(a: Seq<(usize, Temp, usize)>, e: (usize, Temp, usize)) -> Seq<(usize, Temp, usize)>
    decreases a.len(),
{
    if a.len() == 0 {
        seq![e]
    } else if a[0].0 <= e.0 {
        seq![a[0]] + insert_sorted(a.drop_first(), e)
    } else {
        seq![e] + a
    }
}

/// One interval of linear scan.
pub open spec fn scan_step(st: ScanV, iv: (u32, int, int)) -> ScanV {
    let (kept, freed) = expire(st.active, iv.1);
    let free = st.free + freed;
    if free.len() > 0 {
        let reg = free.last();
        ScanV {
            home: st.home.insert(iv.0, Home::Reg(reg)),
            free: free.drop_last(),
            active: insert_sorted(kept, (iv.2 as usize, Temp(iv.0), reg)),
            nspill: st.nspill,
        }
    } else if kept.len() > 0 && kept.last().0 > iv.2 {
        let (_, ft, reg) = kept.last();
        ScanV {
            home: st.home.insert(ft.0, Home::Spill(st.nspill as usize)).insert(iv.0, Home::Reg(reg)),
            free,
            active: insert_sorted(kept.drop_last(), (iv.2 as usize, Temp(iv.0), reg)),
            nspill: st.nspill + 1,
        }
    } else {
        ScanV { home: st.home.insert(iv.0, Home::Spill(st.nspill as usize)), free, active: kept, nspill: st.nspill + 1 }
    }
}

/// Linear scan over the first `i` intervals with `n` registers.
pub open spec fn scan(ivs: Seq<(u32, int, int)>, n: nat, i: nat) -> ScanV
    decreases i,
{
    if i == 0 {
        ScanV {
            home: Map::empty(),
            free: Seq::new(n, |q: int| (n - 1 - q) as usize),
            active: Seq::empty(),
            nspill: 0,
        }
    } else {
        scan_step(scan(ivs, n, (i - 1) as nat), ivs[i - 1])
    }
}

proof fn lemma_insert_sorted_at(a: Seq<(usize, Temp, usize)>, e: (usize, Temp, usize), p: int)
    requires
        0 <= p <= a.len(),
        forall|q: int| 0 <= q < p ==> (#[trigger] a[q]).0 <= e.0,
        p < a.len() ==> a[p].0 > e.0,
    ensures
        insert_sorted(a, e) == a.insert(p, e),
    decreases p,
{
    if p == 0 {
        assert(seq![e] + a =~= a.insert(0, e));
    } else {
        let t = a.drop_first();
        assert forall|q: int| 0 <= q < p - 1 implies (#[trigger] t[q]).0 <= e.0 by {
            assert(t[q] == a[q + 1]);
        }
        lemma_insert_sorted_at(t, e, p - 1);
        assert(seq![a[0]] + t.insert(p - 1, e) =~= a.insert(p, e));
    }
}

/// The first position whose range ends after `e`'s (or the end).
fn insert_pos(active: &Vec<(usize, Temp, usize)>, e: (usize, Temp, usize)) -> (p: usize)
    ensures
        p <= active@.len(),
        forall|q: int| 0 <= q < p ==> (#[trigger] active@[q]).0 <= e.0,
        p < active@.len() ==> active@[p as int].0 > e.0,
{
    let mut p: usize = 0;
    while p < active.len() && active[p].0 <= e.0
        invariant
            p <= active@.len(),
            forall|q: int| 0 <= q < p ==> (#[trigger] active@[q]).0 <= e.0,
        decreases active@.len() - p,
    {
        p = p + 1;
    }
    p
}

/// Inserts an active interval after those that end no later.
#[verifier::rlimit(60)]
#[verifier::spinoff_prover]
fn insert_active(active: &mut Vec<(usize, Temp, usize)>, e: (usize, Temp, usize))
    requires
        forall|q: int, p: int|
            0 <= q < p < old(active)@.len() ==> (#[trigger] old(active)@[q]).1.0 != (#[trigger] old(active)@[p]).1.0,
        forall|q: int| 0 <= q < old(active)@.len() ==> (#[trigger] old(active)@[q]).1.0 != e.1.0,
    ensures
        forall|q: int|
            0 <= q < final(active)@.len() ==> #[trigger] final(active)@[q] == e || exists|p: int|
                0 <= p < old(active)@.len() && final(active)@[q] == old(active)@[p],
        forall|q: int, p: int|
            0 <= q < p < final(active)@.len() ==> (#[trigger] final(active)@[q]).1.0 != (#[trigger] final(active)@[p]).1.0,
        exists|q: int| 0 <= q < final(active)@.len() && final(active)@[q] == e,
        forall|p: int|
            0 <= p < old(active)@.len() ==> exists|q: int| 0 <= q < final(active)@.len() && final(active)@[q] == #[trigger] old(active)@[p],
        (forall|q: int, p: int| 0 <= q < p < old(active)@.len() ==> (#[trigger] old(active)@[q]).2 != (#[trigger] old(active)@[p]).2)
            && (forall|r: int| 0 <= r < old(active)@.len() ==> (#[trigger] old(active)@[r]).2 != e.2) ==> forall|q: int, p: int|
            0 <= q < p < final(active)@.len() ==> (#[trigger] final(active)@[q]).2 != (#[trigger] final(active)@[p]).2,
        final(active)@ == insert_sorted(old(active)@, e),
{
    let p = insert_pos(active, e);
    let ghost o = active@;
    active.insert(p, e);
    proof {
        assert(active@ == o.insert(p as int, e));
        lemma_insert_sorted_at(o, e, p as int);
        lemma_insert_members(o, p as int, e);
        lemma_insert_distinct(o, p as int, e);
        lemma_insert_regs(o, p as int, e);
    }
}

proof fn lemma_insert_members(o: Seq<(usize, Temp, usize)>, p: int, e: (usize, Temp, usize))
    requires
        0 <= p <= o.len(),
    ensures
        forall|q: int|
            0 <= q < o.insert(p, e).len() ==> #[trigger] o.insert(p, e)[q] == e || exists|a: int|
                0 <= a < o.len() && o.insert(p, e)[q] == o[a],
        exists|q: int| 0 <= q < o.insert(p, e).len() && o.insert(p, e)[q] == e,
        forall|a: int| 0 <= a < o.len() ==> exists|q: int| 0 <= q < o.insert(p, e).len() && o.insert(p, e)[q] == #[trigger] o[a],
{
    let nw = o.insert(p, e);
    assert forall|q: int| 0 <= q < nw.len() implies #[trigger] nw[q] == e || exists|a: int| 0 <= a < o.len() && nw[q] == o[a] by {
        if q < p {
            assert(nw[q] == o[q]);
        } else if q > p {
            assert(nw[q] == o[q - 1]);
        }
    }
    assert(nw[p] == e);
    assert forall|a: int| 0 <= a < o.len() implies exists|q: int| 0 <= q < nw.len() && nw[q] == #[trigger] o[a] by {
        if a < p {
            assert(nw[a] == o[a]);
        } else {
            assert(nw[a + 1] == o[a]);
        }
    }
}

proof fn lemma_insert_distinct(o: Seq<(usize, Temp, usize)>, p: int, e: (usize, Temp, usize))
    requires
        0 <= p <= o.len(),
        forall|q: int, r: int| 0 <= q < r < o.len() ==> (#[trigger] o[q]).1.0 != (#[trigger] o[r]).1.0,
        forall|q: int| 0 <= q < o.len() ==> (#[trigger] o[q]).1.0 != e.1.0,
    ensures
        forall|q: int, r: int|
            0 <= q < r < o.insert(p, e).len() ==> (#[trigger] o.insert(p, e)[q]).1.0 != (#[trigger] o.insert(p, e)[r]).1.0,
{
    let nw = o.insert(p, e);
    assert forall|q: int, r: int| 0 <= q < r < nw.len() implies (#[trigger] nw[q]).1.0 != (#[trigger] nw[r]).1.0 by {
        if q < p && r < p {
            assert(nw[q] == o[q] && nw[r] == o[r]);
        } else if q < p && r == p {
            assert(nw[q] == o[q]);
        } else if q < p && r > p {
            assert(nw[q] == o[q] && nw[r] == o[r - 1]);
        } else if q == p {
            assert(nw[r] == o[r - 1]);
        } else {
            assert(nw[q] == o[q - 1] && nw[r] == o[r - 1]);
        }
    }
}

proof fn lemma_insert_regs(o: Seq<(usize, Temp, usize)>, p: int, e: (usize, Temp, usize))
    requires
        0 <= p <= o.len(),
    ensures
        (forall|q: int, r: int| 0 <= q < r < o.len() ==> (#[trigger] o[q]).2 != (#[trigger] o[r]).2) && (forall|r: int|
            0 <= r < o.len() ==> (#[trigger] o[r]).2 != e.2) ==> forall|q: int, r: int|
            0 <= q < r < o.insert(p, e).len() ==> (#[trigger] o.insert(p, e)[q]).2 != (#[trigger] o.insert(p, e)[r]).2,
{
    let nw = o.insert(p, e);
    if (forall|q: int, r: int| 0 <= q < r < o.len() ==> (#[trigger] o[q]).2 != (#[trigger] o[r]).2) && (forall|r: int|
        0 <= r < o.len() ==> (#[trigger] o[r]).2 != e.2) {
        assert forall|q: int, r: int| 0 <= q < r < nw.len() implies (#[trigger] nw[q]).2 != (#[trigger] nw[r]).2 by {
            if q < p && r < p {
                assert(nw[q] == o[q] && nw[r] == o[r]);
            } else if q < p && r == p {
                assert(nw[q] == o[q]);
            } else if q < p && r > p {
                assert(nw[q] == o[q] && nw[r] == o[r - 1]);
            } else if q == p {
                assert(nw[r] == o[r - 1]);
            } else {
                assert(nw[q] == o[q - 1] && nw[r] == o[r - 1]);
            }
        }
    }
}

/// The homes of temporaries sharing a register have live ranges apart.
pub open spec fn regs_disjoint(s: Seq<InstrV>, r: RegAllocResult) -> bool {
    forall|x: u32, y: u32|
        #![trigger r.home@[x], r.home@[y]]
        r.home@.contains_key(x) && r.home@.contains_key(y) && x != y && r.home@[x] is Reg && r.home@[x] == r.home@[y]
            ==> !overlap(s, x, y)
}

/// What linear-scan allocation of `s` over `n` registers gives: the homes
/// and the number of spill slots of the scan over the live intervals of `s`
/// (which `lemma_intervals_unique` shows to be unique).
pub open spec fn scan_result(s: Seq<InstrV>, n: nat, r: RegAllocResult) -> bool {
    exists|ivs: Seq<(u32, int, int)>|
        #[trigger] intervals_ok(s, ivs) && r.home@ == scan(ivs, n, ivs.len()).home && r.num_spill_slots == scan(
            ivs,
            n,
            ivs.len(),
        ).nspill
}

/// Allocation is determined by the code: two results of the scan over the
/// same instructions and registers have the same homes and spill slots.
pub proof fn lemma_scan_result_unique(s: Seq<InstrV>, n: nat, r1: RegAllocResult, r2: RegAllocResult)
    requires
        scan_result(s, n, r1),
        scan_result(s, n, r2),
    ensures
        r1.home@ == r2.home@,
        r1.num_spill_slots == r2.num_spill_slots,
{
    let a = choose|ivs: Seq<(u32, int, int)>|
        #[trigger] intervals_ok(s, ivs) && r1.home@ == scan(ivs, n, ivs.len()).home && r1.num_spill_slots == scan(
            ivs,
            n,
            ivs.len(),
        ).nspill;
    let b = choose|ivs: Seq<(u32, int, int)>|
        #[trigger] intervals_ok(s, ivs) && r2.home@ == scan(ivs, n, ivs.len()).home && r2.num_spill_slots == scan(
            ivs,
            n,
            ivs.len(),
        ).nspill;
    lemma_intervals_unique(s, a, b);
}

/// Assigns registers `0..num_registers` to the temporaries of `func` by
/// linear scan over their live ranges in order of start: ranges that ended
/// give their register back; with none free, the active range that ends
/// last (if it ends after the current one) or else the current one goes to
/// a fresh stack slot. Temporaries that share a register never are live at
/// the same instruction.
#[verifier::rlimit(100)]
#[verifier::spinoff_prover]
pub fn allocate(func: &IrFunction, num_registers: usize) -> (r: RegAllocResult)
    ensures
        homes_ok(optimize::body(*func), r, num_registers),
        regs_disjoint(optimize::body(*func), r),
        r.num_spill_slots <= func.instructions.len(),
        scan_result(optimize::body(*func), num_registers as nat, r),
{
    let ghost s = optimize::body(*func);
    let intervals = compute_intervals(func);
    let ghost ivs = iv_view(intervals@);
    let mut home: HashMap<u32, Home> = HashMap::new();
    let mut free_regs: Vec<usize> = Vec::new();
    let mut k = num_registers;
    while k > 0
        invariant
            k <= num_registers,
            free_regs@.len() == num_registers - k,
            forall|q: int| 0 <= q < free_regs@.len() ==> free_regs@[q] == num_registers - 1 - q,
        decreases k,
    {
        k = k - 1;
        free_regs.push(k);
    }
    let mut active: Vec<(usize, Temp, usize)> = Vec::new();
    assert(free_regs@ =~= scan(ivs, num_registers as nat, 0).free);
    assert(home@ =~= scan(ivs, num_registers as nat, 0).home);
    let mut num_spill_slots: usize = 0;
    let mut idx: usize = 0;
    let ghost mut bound: int = 0;
    while idx < intervals.len()
        invariant
            idx <= intervals@.len(),
            intervals@.len() <= func.instructions@.len(),
            ivs == iv_view(intervals@),
            intervals_ok(s, ivs),
            s == optimize::body(*func),
            num_spill_slots <= idx,
            idx < intervals@.len() ==> bound <= ivs[idx as int].1,
            home@ == scan(ivs, num_registers as nat, idx as nat).home,
            free_regs@ == scan(ivs, num_registers as nat, idx as nat).free,
            active@ == scan(ivs, num_registers as nat, idx as nat).active,
            num_spill_slots == scan(ivs, num_registers as nat, idx as nat).nspill,
            forall|q: int| 0 <= q < free_regs@.len() ==> free_regs@[q] < num_registers,
            forall|q: int, p: int| 0 <= q < p < free_regs@.len() ==> free_regs@[q] != free_regs@[p],
            forall|q: int, p: int|
                #![trigger free_regs@[q], active@[p]]
                0 <= q < free_regs@.len() && 0 <= p < active@.len() ==> free_regs@[q] != active@[p].2,
            forall|q: int| 0 <= q < active@.len() ==> (#[trigger] active@[q]).2 < num_registers,
            forall|q: int| 0 <= q < active@.len() ==> (#[trigger] active@[q]).0 == live_end(s, active@[q].1.0),
            forall|q: int|
                0 <= q < active@.len() ==> home@.contains_key((#[trigger] active@[q]).1.0) && home@[active@[q].1.0]
                    == Home::Reg(active@[q].2),
            forall|q: int, p: int| 0 <= q < p < active@.len() ==> (#[trigger] active@[q]).1.0 != (#[trigger] active@[p]).1.0,
            forall|q: int, p: int| 0 <= q < p < active@.len() ==> (#[trigger] active@[q]).2 != (#[trigger] active@[p]).2,
            forall|x: u32| #[trigger] home@.contains_key(x) <==> exists|j: int| 0 <= j < idx && (#[trigger] ivs[j]).0 == x,
            forall|x: u32|
                #![trigger home@[x]]
                home@.contains_key(x) ==> match home@[x] {
                    Home::Reg(k) => k < num_registers,
                    Home::Spill(k) => k < num_spill_slots,
                },
            forall|x: u32, y: u32|
                #![trigger home@[x], home@[y]]
                home@.contains_key(x) && home@.contains_key(y) && x != y && home@[x] is Spill ==> home@[x] != home@[y],
            forall|x: u32|
                #![trigger home@[x]]
                home@.contains_key(x) && home@[x] is Reg ==> live_end(s, x) < bound || exists|q: int|
                    0 <= q < active@.len() && (#[trigger] active@[q]).1.0 == x,
            forall|x: u32, y: u32|
                #![trigger home@[x], home@[y]]
                home@.contains_key(x) && home@.contains_key(y) && x != y && home@[x] is Reg && home@[x] == home@[y]
                    ==> live_end(s, x) < first_def(s, y)->Some_0 || live_end(s, y) < first_def(s, x)->Some_0,
        decreases intervals@.len() - idx,
    {
        let iv = intervals[idx];
        let ghost h0 = home@;
        proof {
            assert(ivs[idx as int] == (iv.temp.0, iv.start as int, iv.end as int));
            assert(first_def(s, iv.temp.0) == Some(iv.start as int));
            assert(iv.end == live_end(s, iv.temp.0));
        }
        // Ranges that ended give their register back.
        let mut kept: Vec<(usize, Temp, usize)> = Vec::new();
        let ghost mut picked: Seq<int> = seq![];
        let ghost mut pos: Seq<int> = seq![];
        let ghost free0 = free_regs@;
        let ghost st = scan(ivs, num_registers as nat, idx as nat);
        let mut e: usize = 0;
        proof {
            assert(active@.take(0) =~= Seq::<(usize, Temp, usize)>::empty());
            assert(free_regs@ =~= free0 + Seq::<usize>::empty());
        }
        while e < active.len()
            invariant
                e <= active@.len(),
                ({
                    let (kk, ff) = expire(active@.take(e as int), iv.start as int);
                    kept@ == kk && free_regs@ == free0 + ff
                }),
                picked.len() == kept@.len(),
                pos.len() == e,
                forall|q: int| 0 <= q < picked.len() ==> 0 <= #[trigger] picked[q] < e && kept@[q] == active@[picked[q]],
                forall|q: int, p: int| 0 <= q < p < picked.len() ==> #[trigger] picked[q] < #[trigger] picked[p],
                forall|j: int|
                    0 <= j < e ==> (#[trigger] pos[j] >= 0 ==> pos[j] < kept@.len() && kept@[pos[j]] == active@[j]) && (
                    pos[j] < 0 ==> active@[j].0 < iv.start),
                forall|q: int| 0 <= q < kept@.len() ==> (#[trigger] kept@[q]).0 >= iv.start,
                forall|q: int, p: int| 0 <= q < p < active@.len() ==> (#[trigger] active@[q]).1.0 != (#[trigger] active@[p]).1.0,
                forall|q: int, p: int| 0 <= q < p < active@.len() ==> (#[trigger] active@[q]).2 != (#[trigger] active@[p]).2,
                forall|q: int| 0 <= q < free_regs@.len() ==> free_regs@[q] < num_registers,
                forall|q: int, p: int| 0 <= q < p < free_regs@.len() ==> free_regs@[q] != free_regs@[p],
                forall|q: int, j: int|
                    #![trigger free_regs@[q], active@[j]]
                    0 <= q < free_regs@.len() && e <= j < active@.len() ==> free_regs@[q] != active@[j].2,
                forall|q: int, p: int|
                    #![trigger free_regs@[q], kept@[p]]
                    0 <= q < free_regs@.len() && 0 <= p < kept@.len() ==> free_regs@[q] != kept@[p].2,
                forall|q: int| 0 <= q < active@.len() ==> (#[trigger] active@[q]).2 < num_registers,
                forall|q: int| 0 <= q < kept@.len() ==> (#[trigger] kept@[q]).2 < num_registers,
                forall|q: int|
                    0 <= q < active@.len() ==> home@.contains_key((#[trigger] active@[q]).1.0) && home@[active@[q].1.0]
                        == Home::Reg(active@[q].2),
                forall|q: int|
                    0 <= q < kept@.len() ==> home@.contains_key((#[trigger] kept@[q]).1.0) && home@[kept@[q].1.0]
                        == Home::Reg(kept@[q].2),
            decreases active@.len() - e,
        {
            let a = active[e];
            proof {
                assert(active@.take(e as int + 1).drop_last() =~= active@.take(e as int));
                assert(active@.take(e as int + 1).last() == a);
            }
            let ghost (kk0, ff0) = expire(active@.take(e as int), iv.start as int);
            if a.0 < iv.start {
                proof {
                    assert forall|p: int| 0 <= p < kept@.len() implies (#[trigger] kept@[p]).2 != a.2 by {
                        assert(picked[p] < e);
                        assert(kept@[p] == active@[picked[p]]);
                    }
                }
                free_regs.push(a.2);
                proof {
                    pos = pos.push(-1);
                    assert(free_regs@ =~= free0 + ff0.push(a.2));
                }
            } else {
                proof {
                    pos = pos.push(kept@.len() as int);
                    picked = picked.push(e as int);
                }
                kept.push(a);
            }
            e = e + 1;
        }
        proof {
            assert forall|q: int, p: int| 0 <= q < p < kept@.len() implies (#[trigger] kept@[q]).1.0 != (#[trigger] kept@[p]).1.0 by {
                assert(picked[q] < picked[p]);
            }
            assert forall|q: int, p: int| 0 <= q < p < kept@.len() implies (#[trigger] kept@[q]).2 != (#[trigger] kept@[p]).2 by {
                assert(picked[q] < picked[p]);
            }
            assert forall|q: int| 0 <= q < kept@.len() implies (#[trigger] kept@[q]).0 == live_end(s, kept@[q].1.0) by {
                assert(kept@[q] == active@[picked[q]]);
            }
            assert forall|x: u32|
                #![trigger home@[x]]
                home@.contains_key(x) && home@[x] is Reg implies live_end(s, x) < iv.start || exists|q: int|
                    0 <= q < kept@.len() && (#[trigger] kept@[q]).1.0 == x by {
                if live_end(s, x) >= bound {
                    let j = choose|j: int| 0 <= j < active@.len() && (#[trigger] active@[j]).1.0 == x;
                    if pos[j] >= 0 {
                        assert(kept@[pos[j]].1.0 == x);
                    } else {
                        assert(active@[j].0 < iv.start);
                    }
                }
            }
        }
        proof {
            assert(active@.take(active@.len() as int) =~= active@);
            assert(st.active == active@);
        }
        let ghost old_active = active@;
        active = kept;
        proof {
            assert(ivs[idx as int].0 == iv.temp.0);
            assert forall|j: int| 0 <= j < idx implies (#[trigger] ivs[j]).0 != iv.temp.0 by {
                assert(ivs[j].1 < ivs[idx as int].1);
            }
            assert(!home@.contains_key(iv.temp.0));
        }
        let ghost act0 = active@;
        if free_regs.len() > 0 {
            let reg = free_regs.pop().unwrap();
            proof {
                assert(forall|p: int| 0 <= p < act0.len() ==> (#[trigger] act0[p]).2 != reg);
            }
            home.insert(iv.temp.0, Home::Reg(reg));
            insert_active(&mut active, (iv.end, iv.temp, reg));
            proof {
                let x0 = iv.temp.0;
                assert forall|x: u32, y: u32|
                    #![trigger home@[x], home@[y]]
                    home@.contains_key(x) && home@.contains_key(y) && x != y && home@[x] is Reg && home@[x] == home@[y]
                        implies live_end(s, x) < first_def(s, y)->Some_0 || live_end(s, y) < first_def(s, x)->Some_0 by {
                    if x == x0 {
                        assert(h0[y] == Home::Reg(reg));
                        if exists|q: int| 0 <= q < act0.len() && (#[trigger] act0[q]).1.0 == y {
                            let q = choose|q: int| 0 <= q < act0.len() && (#[trigger] act0[q]).1.0 == y;
                            assert(act0[q].2 != reg);
                        }
                    } else if y == x0 {
                        assert(h0[x] == Home::Reg(reg));
                        if exists|q: int| 0 <= q < act0.len() && (#[trigger] act0[q]).1.0 == x {
                            let q = choose|q: int| 0 <= q < act0.len() && (#[trigger] act0[q]).1.0 == x;
                            assert(act0[q].2 != reg);
                        }
                    } else {
                        assert(h0[x] == home@[x] && h0[y] == home@[y]);
                    }
                }
            }
        } else {
            let n_active = active.len();
            if n_active > 0 && active[n_active - 1].0 > iv.end {
                let (_, furthest_temp, reg) = active[n_active - 1];
                home.insert(furthest_temp.0, Home::Spill(num_spill_slots));
                num_spill_slots = num_spill_slots + 1;
                active.pop();
                let ghost act1 = active@;
                home.insert(iv.temp.0, Home::Reg(reg));
                insert_active(&mut active, (iv.end, iv.temp, reg));
                proof {
                    assert(furthest_temp.0 != iv.temp.0);
                    assert(forall|p: int| 0 <= p < act1.len() ==> (#[trigger] act1[p]) == act0[p]);
                    assert(forall|p: int| 0 <= p < act1.len() ==> (#[trigger] act1[p]).2 != reg);
                    let x0 = iv.temp.0;
                    let f = furthest_temp.0;
                    assert forall|x: u32, y: u32|
                        #![trigger home@[x], home@[y]]
                        home@.contains_key(x) && home@.contains_key(y) && x != y && home@[x] is Reg && home@[x] == home@[y]
                            implies live_end(s, x) < first_def(s, y)->Some_0 || live_end(s, y) < first_def(s, x)->Some_0 by {
                        if x == x0 {
                            assert(y != f);
                            assert(h0[y] == Home::Reg(reg));
                            if exists|q: int| 0 <= q < act0.len() && (#[trigger] act0[q]).1.0 == y {
                                let q = choose|q: int| 0 <= q < act0.len() && (#[trigger] act0[q]).1.0 == y;
                                if q == n_active - 1 {
                                } else {
                                    assert(act0[q].2 != reg);
                                }
                            }
                        } else if y == x0 {
                            assert(x != f);
                            assert(h0[x] == Home::Reg(reg));
                            if exists|q: int| 0 <= q < act0.len() && (#[trigger] act0[q]).1.0 == x {
                                let q = choose|q: int| 0 <= q < act0.len() && (#[trigger] act0[q]).1.0 == x;
                                if q == n_active - 1 {
                                } else {
                                    assert(act0[q].2 != reg);
                                }
                            }
                        } else {
                            assert(x != f && y != f);
                            assert(h0[x] == home@[x] && h0[y] == home@[y]);
                        }
                    }
                    assert forall|x: u32|
                        #![trigger home@[x]]
                        home@.contains_key(x) && home@[x] is Reg implies live_end(s, x) < iv.start || exists|q: int|
                            0 <= q < active@.len() && (#[trigger] active@[q]).1.0 == x by {
                        if x == x0 {
                            let q = choose|q: int| 0 <= q < active@.len() && active@[q] == (iv.end, iv.temp, reg);
                            assert(active@[q].1.0 == x);
                        } else if live_end(s, x) >= iv.start {
                            assert(x != f);
                            let q = choose|q: int| 0 <= q < act0.len() && (#[trigger] act0[q]).1.0 == x;
                            assert(q != n_active - 1);
                            assert(act1[q] == act0[q]);
                            let p = choose|p: int| 0 <= p < active@.len() && active@[p] == act1[q];
                            assert(active@[p].1.0 == x);
                        }
                    }
                }
            } else {
                home.insert(iv.temp.0, Home::Spill(num_spill_slots));
                num_spill_slots = num_spill_slots + 1;
            }
        }
        proof {
            assert(ivs[idx as int] == (iv.temp.0, iv.start as int, iv.end as int));
            assert((iv.end as int) as usize == iv.end);
            let nx = scan(ivs, num_registers as nat, idx as nat + 1);
            assert(nx == scan_step(st, ivs[idx as int]));
            assert(home@ =~= nx.home);
            assert(free_regs@ =~= nx.free);
            assert(active@ =~= nx.active);
            assert(num_spill_slots == nx.nspill);
        }
        proof {
            assert forall|q: int| 0 <= q < active@.len() implies home@.contains_key((#[trigger] active@[q]).1.0) && home@[active@[q].1.0]
                == Home::Reg(active@[q].2) by {
            }
            assert forall|x: u32| #[trigger] home@.contains_key(x) <==> exists|j: int| 0 <= j < idx + 1 && (#[trigger] ivs[j]).0
                == x by {
                if x == iv.temp.0 {
                    assert(ivs[idx as int].0 == x);
                }
                if exists|j: int| 0 <= j < idx + 1 && (#[trigger] ivs[j]).0 == x {
                    let j = choose|j: int| 0 <= j < idx + 1 && (#[trigger] ivs[j]).0 == x;
                    if j < idx {
                        assert(h0.contains_key(x));
                    }
                }
            }
            if idx + 1 < intervals@.len() {
                assert(ivs[idx as int].1 < ivs[idx + 1].1);
            }
            bound = iv.start as int;
        }
        idx = idx + 1;
    }
    proof {
        assert forall|x: u32| #[trigger] home@.contains_key(x) <==> first_def(s, x) is Some by {
            if home@.contains_key(x) {
                let j = choose|j: int| 0 <= j < idx && (#[trigger] ivs[j]).0 == x;
            }
            if first_def(s, x) is Some {
                let j = choose|j: int| 0 <= j < ivs.len() && (#[trigger] ivs[j]).0 == x;
            }
        }
        assert(intervals_ok(s, ivs));
    }
    RegAllocResult { home, num_spill_slots }
}

} // verus!
