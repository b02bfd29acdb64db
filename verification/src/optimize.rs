//! Optimizations on the intermediate representation, run function by
//! function until none of them changes anything: constant folding, folding
//! of branches on constants, store-to-load forwarding with removal of dead
//! stores, removal of unused pure instructions, and peephole clean-ups.
use vstd::prelude::*;
use std::collections::HashMap;
use std::collections::HashSet;
use crate::ir::{Temp, Location, Operand, IrInstruction, IrBinOp, IrFunction, IrProgram, InstrV, OperandV};
use crate::ir;
use crate::text::{push_str, str_eq};

verus! {

broadcast use vstd::std_specs::hash::group_hash_axioms;

// ---------------------------------------------------------------------------
// Arithmetic on constants
// ---------------------------------------------------------------------------

/// Division rounding toward zero.
pub open spec fn trunc_div(x: int, d: int) -> int {
    if x == 0 {
        0
    } else if x > 0 && d > 0 {
        x / d
    } else if x < 0 && d < 0 {
        (-x) / (-d)
    } else if x < 0 {
        -((-x) / d)
    } else {
        -(x / (-d))
    }
}

/// The remainder of division rounding toward zero (it has the sign of `x`).
pub open spec fn trunc_rem(x: int, d: int) -> int {
    if x == 0 {
        0
    } else if x > 0 && d > 0 {
        x % d
    } else if x < 0 && d < 0 {
        -((-x) % (-d))
    } else if x < 0 {
        -((-x) % d)
    } else {
        x % (-d)
    }
}

pub open spec fn bool_int(b: bool) -> i64 {
    if b {
        1
    } else {
        0
    }
}

/// The value of `l op r` on 64-bit two's complement integers, or `None`
/// for a division by zero. Arithmetic wraps around; the `U` operators read
/// both operands as unsigned; comparisons and logic give 1 or 0.
pub open spec fn fold_spec(op: IrBinOp, l: i64, r: i64) -> Option<i64> {
    match op {
        IrBinOp::Add => Some(l.wrapping_add(r)),
        IrBinOp::Sub => Some(l.wrapping_sub(r)),
        IrBinOp::Mul => Some(l.wrapping_mul(r)),
        IrBinOp::Div => if r == 0 {
            None
        } else if l == i64::MIN && r == -1 {
            Some(i64::MIN)
        } else {
            Some(trunc_div(l as int, r as int) as i64)
        },
        IrBinOp::Mod => if r == 0 {
            None
        } else if l == i64::MIN && r == -1 {
            Some(0)
        } else {
            Some(trunc_rem(l as int, r as int) as i64)
        },
        IrBinOp::Eq => Some(bool_int(l == r)),
        IrBinOp::Neq => Some(bool_int(l != r)),
        IrBinOp::Lt => Some(bool_int(l < r)),
        IrBinOp::Gt => Some(bool_int(l > r)),
        IrBinOp::Le => Some(bool_int(l <= r)),
        IrBinOp::Ge => Some(bool_int(l >= r)),
        IrBinOp::DivU => if r == 0 {
            None
        } else {
            Some(((l as u64) / (r as u64)) as i64)
        },
        IrBinOp::ModU => if r == 0 {
            None
        } else {
            Some(((l as u64) % (r as u64)) as i64)
        },
        IrBinOp::LtU => Some(bool_int((l as u64) < (r as u64))),
        IrBinOp::GtU => Some(bool_int((l as u64) > (r as u64))),
        IrBinOp::LeU => Some(bool_int((l as u64) <= (r as u64))),
        IrBinOp::GeU => Some(bool_int((l as u64) >= (r as u64))),
        IrBinOp::And => Some(bool_int(l != 0 && r != 0)),
        IrBinOp::Or => Some(bool_int(l != 0 || r != 0)),
    }
}

/// Folding a comparison gives 1 exactly when the comparison holds of the
/// operands and 0 otherwise; in particular every strict comparison is 0 and
/// every non-strict one 1 on equal operands, swapping the operands of `<`
/// gives `>`, and `<=` is the negation of `>`.
pub proof fn lemma_fold_compares(op: IrBinOp, l: i64, r: i64)
    requires
        ir::is_comparison(op),
    ensures
        fold_spec(op, l, r) == Some(if ir::relation_holds(op, l, r) { 1i64 } else { 0i64 }),
        fold_spec(IrBinOp::Gt, l, l) == Some(0i64),
        fold_spec(IrBinOp::Lt, l, l) == Some(0i64),
        fold_spec(IrBinOp::Ge, l, l) == Some(1i64),
        fold_spec(IrBinOp::Le, l, l) == Some(1i64),
        fold_spec(IrBinOp::Gt, l, r) == fold_spec(IrBinOp::Lt, r, l),
        fold_spec(IrBinOp::Ge, l, r) == fold_spec(IrBinOp::Le, r, l),
        fold_spec(IrBinOp::Le, l, r)->Some_0 == 1 - fold_spec(IrBinOp::Gt, l, r)->Some_0,
        fold_spec(IrBinOp::Ge, l, r)->Some_0 == 1 - fold_spec(IrBinOp::Lt, l, r)->Some_0,
        fold_spec(IrBinOp::GtU, l, r) == fold_spec(IrBinOp::LtU, r, l),
        fold_spec(IrBinOp::LeU, l, r)->Some_0 == 1 - fold_spec(IrBinOp::GtU, l, r)->Some_0,
{
}

/// Folding arithmetic: addition and subtraction undo each other, addition
/// and multiplication do not depend on the order of the operands, and
/// equality and inequality are each other's negation and symmetric.
pub proof fn lemma_fold_arith(l: i64, r: i64)
    ensures
        fold_spec(IrBinOp::Add, l, r) == fold_spec(IrBinOp::Add, r, l),
        fold_spec(IrBinOp::Mul, l, r) == fold_spec(IrBinOp::Mul, r, l),
        fold_spec(IrBinOp::Sub, fold_spec(IrBinOp::Add, l, r)->Some_0, r) == Some(l),
        fold_spec(IrBinOp::Add, fold_spec(IrBinOp::Sub, l, r)->Some_0, r) == Some(l),
        (l as int) + (r as int) == fold_spec(IrBinOp::Add, l, r)->Some_0 as int + (if (l as int) + (r as int)
            > i64::MAX {
            0x1_0000_0000_0000_0000int
        } else if (l as int) + (r as int) < i64::MIN {
            -0x1_0000_0000_0000_0000int
        } else {
            0int
        }),
        fold_spec(IrBinOp::Eq, l, r) == fold_spec(IrBinOp::Eq, r, l),
        fold_spec(IrBinOp::Eq, l, r)->Some_0 == 1 - fold_spec(IrBinOp::Neq, l, r)->Some_0,
        fold_spec(IrBinOp::Eq, l, l) == Some(1i64),
        fold_spec(IrBinOp::And, l, r) == Some(if l != 0 && r != 0 { 1i64 } else { 0i64 }),
        fold_spec(IrBinOp::Or, l, r) == Some(if l != 0 || r != 0 { 1i64 } else { 0i64 }),
{
    assert(l.wrapping_mul(r) == r.wrapping_mul(l)) by {
        assert((l as int) * (r as int) == (r as int) * (l as int)) by (nonlinear_arith);
    }
}

/// Division by a non-zero divisor (other than `i64::MIN / -1`) rounds toward
/// zero: quotient times divisor plus remainder gives back the dividend,
/// and the remainder is smaller than the divisor and has the dividend's sign.
pub proof fn lemma_fold_div_mod(l: i64, r: i64)
    requires
        r != 0,
        !(l == i64::MIN && r == -1),
    ensures
        fold_spec(IrBinOp::Div, l, r) is Some,
        fold_spec(IrBinOp::Mod, l, r) is Some,
        fold_spec(IrBinOp::Div, l, r)->Some_0 * r + fold_spec(IrBinOp::Mod, l, r)->Some_0 == l,
        ({
            let m = fold_spec(IrBinOp::Mod, l, r)->Some_0 as int;
            &&& (if m < 0 { -m } else { m }) < (if r < 0 { -(r as int) } else { r as int })
            &&& m == 0 || (m < 0) == (l < 0)
        }),
{
    let x = l as int;
    let d = r as int;
    let ax = if x < 0 { -x } else { x };
    let ad = if d < 0 { -d } else { d };
    lemma_div_bounds(ax, ad);
    assert(ax == (ax / ad) * ad + ax % ad) by (nonlinear_arith)
        requires
            ad >= 1,
    ;
    let q = trunc_div(x, d);
    let m = trunc_rem(x, d);
    let qq = ax / ad;
    let mm = ax % ad;
    assert(ax == qq * ad + mm);
    if x == 0 {
    } else if x > 0 && d > 0 {
        assert(q == qq && m == mm);
    } else if x < 0 && d < 0 {
        assert(q == qq && m == -mm);
        assert(q * d + m == x) by (nonlinear_arith)
            requires
                q == qq,
                m == -mm,
                d == -ad,
                x == -ax,
                ax == qq * ad + mm,
        ;
    } else if x < 0 {
        assert(q == -qq && m == -mm);
        assert(q * d + m == x) by (nonlinear_arith)
            requires
                q == -qq,
                m == -mm,
                d == ad,
                x == -ax,
                ax == qq * ad + mm,
        ;
    } else {
        assert(q == -qq && m == mm);
        assert(q * d + m == x) by (nonlinear_arith)
            requires
                q == -qq,
                m == mm,
                d == -ad,
                x == ax,
                ax == qq * ad + mm,
        ;
    }
    assert(0 <= qq <= ax);
}

fn bool_value(b: bool) -> (r: i64)
    ensures
        r == bool_int(b),
{
    if b {
        1
    } else {
        0
    }
}

proof fn lemma_div_bounds(x: int, d: int)
    requires
        x >= 0,
        d >= 1,
    ensures
        0 <= x / d <= x,
        0 <= x % d < d,
{
    assert(0 <= x / d <= x) by (nonlinear_arith)
        requires
            x >= 0,
            d >= 1,
    ;
}

fn div_toward_zero(l: i64, r: i64) -> (q: i64)
    requires
        r != 0,
        !(l == i64::MIN && r == -1),
    ensures
        q == trunc_div(l as int, r as int),
{
    let ghost x = l as int;
    let ghost d = r as int;
    proof {
        if x > 0 && d > 0 {
            lemma_div_bounds(x, d);
        } else if x < 0 && d < 0 {
            lemma_div_bounds(-x, -d);
            if d == -1 {
                assert((-x) / 1 == -x);
            } else {
                assert((-x) / (-d) <= (-x) / 2) by (nonlinear_arith)
                    requires
                        -x >= 0,
                        -d >= 2,
                ;
            }
        } else if x < 0 {
            lemma_div_bounds(-x, d);
        } else if x > 0 {
            lemma_div_bounds(x, -d);
        }
    }
    match l.checked_div(r) {
        Some(q) => q,
        None => {
            proof {
                assert(false);
            }
            0
        },
    }
}

fn rem_toward_zero(l: i64, r: i64) -> (q: i64)
    requires
        r != 0,
        !(l == i64::MIN && r == -1),
    ensures
        q == trunc_rem(l as int, r as int),
{
    let ghost x = l as int;
    let ghost d = r as int;
    proof {
        if x > 0 && d > 0 {
            lemma_div_bounds(x, d);
        } else if x < 0 && d < 0 {
            lemma_div_bounds(-x, -d);
        } else if x < 0 {
            lemma_div_bounds(-x, d);
        } else if x > 0 {
            lemma_div_bounds(x, -d);
        }
    }
    match l.checked_rem(r) {
        Some(q) => q,
        None => {
            proof {
                assert(false);
            }
            0
        },
    }
}

/// Evaluates a binary operator on two constants.
pub fn fold_binop(op: IrBinOp, l: i64, r: i64) -> (res: Option<i64>)
    ensures
        res == fold_spec(op, l, r),
{
    match op {
        IrBinOp::Add => Some(l.wrapping_add(r)),
        IrBinOp::Sub => Some(l.wrapping_sub(r)),
        IrBinOp::Mul => Some(l.wrapping_mul(r)),
        IrBinOp::Div => {
            if r == 0 {
                None
            } else if l == i64::MIN && r == -1 {
                Some(i64::MIN)
            } else {
                Some(div_toward_zero(l, r))
            }
        },
        IrBinOp::Mod => {
            if r == 0 {
                None
            } else if l == i64::MIN && r == -1 {
                Some(0)
            } else {
                Some(rem_toward_zero(l, r))
            }
        },
        IrBinOp::Eq => Some(bool_value(l == r)),
        IrBinOp::Neq => Some(bool_value(l != r)),
        IrBinOp::Lt => Some(bool_value(l < r)),
        IrBinOp::Gt => Some(bool_value(l > r)),
        IrBinOp::Le => Some(bool_value(l <= r)),
        IrBinOp::Ge => Some(bool_value(l >= r)),
        IrBinOp::DivU => {
            if r == 0 {
                return None;
            }
            let a = #[verifier::truncate] (l as u64);
            let b = #[verifier::truncate] (r as u64);
            assert(r != 0 ==> (r as u64) != 0) by (bit_vector);
            Some(#[verifier::truncate] ((a / b) as i64))
        },
        IrBinOp::ModU => {
            if r == 0 {
                return None;
            }
            let a = #[verifier::truncate] (l as u64);
            let b = #[verifier::truncate] (r as u64);
            assert(r != 0 ==> (r as u64) != 0) by (bit_vector);
            Some(#[verifier::truncate] ((a % b) as i64))
        },
        IrBinOp::LtU => Some(bool_value((#[verifier::truncate] (l as u64)) < (#[verifier::truncate] (r as u64)))),
        IrBinOp::GtU => Some(bool_value((#[verifier::truncate] (l as u64)) > (#[verifier::truncate] (r as u64)))),
        IrBinOp::LeU => Some(bool_value((#[verifier::truncate] (l as u64)) <= (#[verifier::truncate] (r as u64)))),
        IrBinOp::GeU => Some(bool_value((#[verifier::truncate] (l as u64)) >= (#[verifier::truncate] (r as u64)))),
        IrBinOp::And => Some(bool_value(l != 0 && r != 0)),
        IrBinOp::Or => Some(bool_value(l != 0 || r != 0)),
    }
}

// ---------------------------------------------------------------------------
// A measure that every pass lowers when it reports a change
// ---------------------------------------------------------------------------

/// One for every instruction, and one more for those a pass can still
/// simplify in place: binary operations, conditional jumps and calls whose
/// result is kept.
pub open spec fn weight(i: InstrV) -> nat {
    match i {
        InstrV::BinaryOp { .. } => 2,
        InstrV::JumpIfZero { .. } => 2,
        InstrV::JumpIfNotZero { .. } => 2,
        InstrV::Call { dst: Some(_), .. } => 2,
        _ => 1,
    }
}

pub open spec fn measure(s: Seq<InstrV>) -> nat
    decreases s.len(),
{
    if s.len() == 0 {
        0
    } else {
        measure(s.drop_last()) + weight(s.last())
    }
}

pub proof fn lemma_measure_push(s: Seq<InstrV>, x: InstrV)
    ensures
        measure(s.push(x)) == measure(s) + weight(x),
{
    assert(s.push(x).drop_last() =~= s);
}

pub proof fn lemma_measure_update(s: Seq<InstrV>, k: int, x: InstrV)
    requires
        0 <= k < s.len(),
    ensures
        measure(s.update(k, x)) + weight(s[k]) == measure(s) + weight(x),
    decreases s.len(),
{
    if k == s.len() - 1 {
        assert(s.update(k, x).drop_last() =~= s.drop_last());
    } else {
        lemma_measure_update(s.drop_last(), k, x);
        assert(s.update(k, x).drop_last() =~= s.drop_last().update(k, x));
    }
}

pub proof fn lemma_measure_remove(s: Seq<InstrV>, k: int)
    requires
        0 <= k < s.len(),
    ensures
        measure(s.remove(k)) + weight(s[k]) == measure(s),
    decreases s.len(),
{
    if k == s.len() - 1 {
        assert(s.remove(k) =~= s.drop_last());
    } else {
        lemma_measure_remove(s.drop_last(), k);
        assert(s.remove(k).drop_last() =~= s.drop_last().remove(k));
    }
}

/// Two functions that differ at most in their instructions.
pub open spec fn same_header(a: IrFunction, b: IrFunction) -> bool {
    &&& a.name == b.name
    &&& a.params == b.params
    &&& a.return_type == b.return_type
    &&& a.locals == b.locals
    &&& a.next_temp == b.next_temp
}

pub open spec fn body(f: IrFunction) -> Seq<InstrV> {
    ir::instrs_view(f.instructions@)
}

// ---------------------------------------------------------------------------
// Constant folding
// ---------------------------------------------------------------------------

pub open spec fn imm_int(v: OperandV) -> Option<i64> {
    match v {
        OperandV::ImmInt(x) => Some(x),
        _ => None,
    }
}

/// The temporaries known to hold an integer constant after a list of
/// instructions: those loaded with an integer immediate (the later load wins).
pub open spec fn known_consts(s: Seq<InstrV>) -> Map<u32, i64>
    decreases s.len(),
{
    if s.len() == 0 {
        Map::empty()
    } else {
        let c = known_consts(s.drop_last());
        match s.last() {
            InstrV::LoadImm { dst, value: OperandV::ImmInt(v) } => c.insert(dst.0, v),
            _ => c,
        }
    }
}

/// What constant folding makes of one instruction: a binary operation on
/// two known constants becomes the load of its value, where it has one.
pub open spec fn fold_instr(c: Map<u32, i64>, ins: InstrV) -> InstrV {
    match ins {
        InstrV::BinaryOp { dst, left, op, right } => if c.contains_key(left.0) && c.contains_key(right.0) {
            match fold_spec(op, c[left.0], c[right.0]) {
                Some(v) => InstrV::LoadImm { dst, value: OperandV::ImmInt(v) },
                None => ins,
            }
        } else {
            ins
        },
        _ => ins,
    }
}

fn as_int(op: &Operand) -> (r: Option<i64>)
    ensures
        r == imm_int(ir::operand_view(*op)),
{
    match op {
        Operand::ImmInt(v) => Some(*v),
        _ => None,
    }
}

/// Constant folding over a list, from the front: each instruction is
/// folded with the constants known from the instructions before it as they
/// come out.
pub open spec fn cf_out(s: Seq<InstrV>) -> Seq<InstrV>
    decreases s.len(),
{
    if s.len() == 0 {
        s
    } else {
        let p = cf_out(s.drop_last());
        p.push(fold_instr(known_consts(p), s.last()))
    }
}

proof fn lemma_cf_out_len(s: Seq<InstrV>)
    ensures
        cf_out(s).len() == s.len(),
    decreases s.len(),
{
    if s.len() > 0 {
        lemma_cf_out_len(s.drop_last());
    }
}

/// Folds binary operations on constants, in order, each result becoming a
/// known constant for those that follow. Reports whether anything changed.
pub fn constant_fold(func: &mut IrFunction) -> (changed: bool)
    ensures
        same_header(*final(func), *old(func)),
        body(*final(func)) == cf_out(body(*old(func))),
        changed <==> body(*final(func)) != body(*old(func)),
        changed ==> measure(body(*final(func))) < measure(body(*old(func))),
        measure(body(*final(func))) <= measure(body(*old(func))),
{
    let ghost orig = body(*func);
    let mut consts: HashMap<u32, i64> = HashMap::new();
    let mut changed = false;
    let n = func.instructions.len();
    let mut i: usize = 0;
    proof {
        assert(body(*func).take(0) =~= cf_out(orig.take(0)));
    }
    while i < n
        invariant
            n == func.instructions@.len(),
            orig.len() == n,
            same_header(*func, *old(func)),
            orig == body(*old(func)),
            i <= n,
            consts@ == known_consts(body(*func).take(i as int)),
            body(*func).take(i as int) == cf_out(orig.take(i as int)),
            body(*func).skip(i as int) == orig.skip(i as int),
            changed <==> body(*func).take(i as int) != orig.take(i as int),
            changed ==> measure(body(*func)) < measure(orig),
            measure(body(*func)) <= measure(orig),
        decreases n - i,
    {
        let ghost before = body(*func);
        proof {
            assert(before[i as int] == before.skip(i as int)[0]);
            assert(orig.take(i as int + 1).drop_last() =~= orig.take(i as int));
            assert(orig.take(i as int + 1).last() == orig[i as int]);
            assert(orig[i as int] == orig.skip(i as int)[0]);
        }
        let replacement: Option<(Temp, i64)> = match &func.instructions[i] {
            IrInstruction::LoadImm { dst, value } => {
                if let Some(v) = as_int(value) {
                    consts.insert(dst.0, v);
                }
                None
            },
            IrInstruction::BinaryOp { dst, left, op, right } => {
                match (consts.get(&left.0), consts.get(&right.0)) {
                    (Some(lv), Some(rv)) => match fold_binop(*op, *lv, *rv) {
                        Some(result) => Some((*dst, result)),
                        None => None,
                    },
                    _ => None,
                }
            },
            _ => None,
        };
        if let Some((dst, result)) = replacement {
            func.instructions.set(i, IrInstruction::LoadImm { dst, value: Operand::ImmInt(result) });
            consts.insert(dst.0, result);
            proof {
                let x = InstrV::LoadImm { dst, value: OperandV::ImmInt(result) };
                assert(body(*func) =~= before.update(i as int, x));
                lemma_measure_update(before, i as int, x);
            }
            changed = true;
        }
        proof {
            let now = body(*func);
            assert(now.take(i as int) =~= before.take(i as int));
            assert(now.take(i as int + 1).drop_last() =~= now.take(i as int));
            assert(now.take(i as int + 1) =~= before.take(i as int).push(now[i as int]));
            assert forall|k: int| 0 <= k < now.skip(i as int + 1).len() implies #[trigger] now.skip(i as int + 1)[k] == orig.skip(
                i as int + 1,
            )[k] by {
                assert(now[i + 1 + k] == before[i + 1 + k]);
                assert(before[i + 1 + k] == before.skip(i as int)[k + 1]);
                assert(orig[i + 1 + k] == orig.skip(i as int)[k + 1]);
            }
            assert(now.skip(i as int + 1) =~= orig.skip(i as int + 1));
            assert(orig.take(i as int + 1) =~= orig.take(i as int).push(orig[i as int]));
            if now.take(i as int) != orig.take(i as int) {
                assert(now.take(i as int + 1).drop_last() != orig.take(i as int + 1).drop_last());
            }
        }
        i = i + 1;
    }
    proof {
        assert(body(*func) =~= body(*func).take(n as int));
        assert(orig =~= orig.take(n as int));
    }
    changed
}

// ---------------------------------------------------------------------------
// Branches on constants
// ---------------------------------------------------------------------------

/// The note left in place of a conditional jump that is never taken.
pub open spec fn dead_jump_note(target: Seq<char>) -> Seq<char> {
    "usunięto martwy skok do "@ + target
}

/// What branch folding makes of one instruction: a conditional jump on a
/// known constant becomes a plain jump when it is taken, else a note.
pub open spec fn fb_instr(c: Map<u32, i64>, ins: InstrV) -> InstrV {
    match ins {
        InstrV::JumpIfZero { cond, target } => if c.contains_key(cond.0) {
            if c[cond.0] == 0 {
                InstrV::Jump(target)
            } else {
                InstrV::Comment(dead_jump_note(target))
            }
        } else {
            ins
        },
        InstrV::JumpIfNotZero { cond, target } => if c.contains_key(cond.0) {
            if c[cond.0] != 0 {
                InstrV::Jump(target)
            } else {
                InstrV::Comment(dead_jump_note(target))
            }
        } else {
            ins
        },
        _ => ins,
    }
}

/// Branch folding over a list: each conditional jump is judged by the
/// constants loaded before it.
pub open spec fn fb_out(s: Seq<InstrV>) -> Seq<InstrV>
    decreases s.len(),
{
    if s.len() == 0 {
        s
    } else {
        fb_out(s.drop_last()).push(fb_instr(known_consts(s.drop_last()), s.last()))
    }
}

fn dead_jump_text(target: &String) -> (r: String)
    ensures
        r@ == dead_jump_note(target@),
{
    let mut s = String::new();
    push_str(&mut s, "usunięto martwy skok do ");
    push_str(&mut s, target.as_str());
    s
}

/// Replaces conditional jumps on known constants by a jump or a note.
/// Reports whether anything changed.
pub fn fold_branches(func: &mut IrFunction) -> (changed: bool)
    ensures
        same_header(*final(func), *old(func)),
        body(*final(func)) == fb_out(body(*old(func))),
        changed <==> body(*final(func)) != body(*old(func)),
        changed ==> measure(body(*final(func))) < measure(body(*old(func))),
        measure(body(*final(func))) <= measure(body(*old(func))),
{
    let ghost orig = body(*func);
    let mut consts: HashMap<u32, i64> = HashMap::new();
    let mut changed = false;
    let n = func.instructions.len();
    let mut i: usize = 0;
    proof {
        assert(body(*func).take(0) =~= fb_out(orig.take(0)));
    }
    while i < n
        invariant
            n == func.instructions@.len(),
            orig.len() == n,
            same_header(*func, *old(func)),
            orig == body(*old(func)),
            i <= n,
            consts@ == known_consts(orig.take(i as int)),
            body(*func).take(i as int) == fb_out(orig.take(i as int)),
            body(*func).skip(i as int) == orig.skip(i as int),
            changed <==> body(*func).take(i as int) != orig.take(i as int),
            changed ==> measure(body(*func)) < measure(orig),
            measure(body(*func)) <= measure(orig),
        decreases n - i,
    {
        let ghost before = body(*func);
        proof {
            assert(before[i as int] == before.skip(i as int)[0]);
            assert(orig.take(i as int + 1).drop_last() =~= orig.take(i as int));
            assert(orig.take(i as int + 1).last() == orig[i as int]);
            assert(orig[i as int] == orig.skip(i as int)[0]);
        }
        let replacement: Option<IrInstruction> = match &func.instructions[i] {
            IrInstruction::LoadImm { dst, value } => {
                if let Some(v) = as_int(value) {
                    consts.insert(dst.0, v);
                }
                None
            },
            IrInstruction::JumpIfZero { cond, target } => match consts.get(&cond.0) {
                Some(v) => if *v == 0 {
                    Some(IrInstruction::Jump(target.clone()))
                } else {
                    Some(IrInstruction::Comment(dead_jump_text(target)))
                },
                None => None,
            },
            IrInstruction::JumpIfNotZero { cond, target } => match consts.get(&cond.0) {
                Some(v) => if *v != 0 {
                    Some(IrInstruction::Jump(target.clone()))
                } else {
                    Some(IrInstruction::Comment(dead_jump_text(target)))
                },
                None => None,
            },
            _ => None,
        };
        if let Some(x) = replacement {
            let ghost xv = ir::instr_view(x);
            func.instructions.set(i, x);
            proof {
                assert(body(*func) =~= before.update(i as int, xv));
                lemma_measure_update(before, i as int, xv);
            }
            changed = true;
        }
        proof {
            let now = body(*func);
            assert(now.take(i as int) =~= before.take(i as int));
            assert(now.take(i as int + 1) =~= before.take(i as int).push(now[i as int]));
            assert forall|k: int| 0 <= k < now.skip(i as int + 1).len() implies #[trigger] now.skip(i as int + 1)[k]
                == orig.skip(i as int + 1)[k] by {
                assert(now[i + 1 + k] == before[i + 1 + k]);
                assert(before[i + 1 + k] == before.skip(i as int)[k + 1]);
                assert(orig[i + 1 + k] == orig.skip(i as int)[k + 1]);
            }
            assert(now.skip(i as int + 1) =~= orig.skip(i as int + 1));
            assert(orig.take(i as int + 1) =~= orig.take(i as int).push(orig[i as int]));
            assert(now.take(i as int + 1).drop_last() =~= now.take(i as int));
            if now.take(i as int) != orig.take(i as int) {
                assert(now.take(i as int + 1).drop_last() != orig.take(i as int + 1).drop_last());
            }
        }
        i = i + 1;
    }
    proof {
        assert(body(*func) =~= body(*func).take(n as int));
        assert(orig =~= orig.take(n as int));
    }
    changed
}

// ---------------------------------------------------------------------------
// Removal of unused pure instructions
// ---------------------------------------------------------------------------

/// Whether an instruction reads temporary number `x`.
pub open spec fn uses(i: InstrV, x: u32) -> bool {
    match i {
        InstrV::BinaryOp { left, right, .. } => left.0 == x || right.0 == x,
        InstrV::StoreMem { src, .. } => src.0 == x,
        InstrV::LoadIndexed { index, .. } => index.0 == x,
        InstrV::StoreIndexed { index, src, .. } => index.0 == x || src.0 == x,
        InstrV::LoadIndexedPtr { base, index, .. } => base.0 == x || index.0 == x,
        InstrV::StoreIndexedPtr { base, index, src, .. } => base.0 == x || index.0 == x || src.0 == x,
        InstrV::Call { args, .. } => exists|k: int| 0 <= k < args.len() && (#[trigger] args[k]).0 == x,
        InstrV::JumpIfZero { cond, .. } => cond.0 == x,
        InstrV::JumpIfNotZero { cond, .. } => cond.0 == x,
        InstrV::Return(Some(v)) => v.0 == x,
        _ => false,
    }
}

/// Whether some instruction of the list reads temporary number `x`.
pub open spec fn used_in(s: Seq<InstrV>, x: u32) -> bool {
    exists|k: int| 0 <= k < s.len() && uses(#[trigger] s[k], x)
}

/// The temporary that an instruction without side effects defines.
pub open spec fn pure_def(i: InstrV) -> Option<Temp> {
    match i {
        InstrV::LoadParam { dst, .. } => Some(dst),
        InstrV::LoadImm { dst, .. } => Some(dst),
        InstrV::LoadMem { dst, .. } => Some(dst),
        InstrV::LoadIndexed { dst, .. } => Some(dst),
        InstrV::LoadAddr { dst, .. } => Some(dst),
        InstrV::LoadIndexedPtr { dst, .. } => Some(dst),
        InstrV::BinaryOp { dst, .. } => Some(dst),
        _ => None,
    }
}

/// What becomes of one instruction of `s`: a pure definition that nothing
/// in `s` reads goes; a call whose result nothing reads loses the result.
pub open spec fn dce_keep(s: Seq<InstrV>, i: InstrV) -> Seq<InstrV> {
    match pure_def(i) {
        Some(d) => if used_in(s, d.0) {
            seq![i]
        } else {
            seq![]
        },
        None => match i {
            InstrV::Call { dst: Some(d), func, args } => if used_in(s, d.0) {
                seq![i]
            } else {
                seq![InstrV::Call { dst: None, func, args }]
            },
            _ => seq![i],
        },
    }
}

/// The instructions of `u` that dead-code elimination on `s` keeps.
pub open spec fn dce_out(s: Seq<InstrV>, u: Seq<InstrV>) -> Seq<InstrV>
    decreases u.len(),
{
    if u.len() == 0 {
        u
    } else {
        dce_out(s, u.drop_last()) + dce_keep(s, u.last())
    }
}

fn note_use(used: &mut HashSet<u32>, t: Temp)
    ensures
        final(used)@ == old(used)@.insert(t.0),
{
    used.insert(t.0);
}

/// Records the temporaries an instruction reads.
fn note_uses(used: &mut HashSet<u32>, ins: &IrInstruction)
    ensures
        forall|x: u32| final(used)@.contains(x) <==> (old(used)@.contains(x) || uses(ir::instr_view(*ins), x)),
{
    match ins {
        IrInstruction::BinaryOp { left, right, .. } => {
            note_use(used, *left);
            note_use(used, *right);
        },
        IrInstruction::StoreMem { src, .. } => {
            note_use(used, *src);
        },
        IrInstruction::LoadIndexed { index, .. } => {
            note_use(used, *index);
        },
        IrInstruction::StoreIndexed { index, src, .. } => {
            note_use(used, *index);
            note_use(used, *src);
        },
        IrInstruction::LoadIndexedPtr { base, index, .. } => {
            note_use(used, *base);
            note_use(used, *index);
        },
        IrInstruction::StoreIndexedPtr { base, index, src, .. } => {
            note_use(used, *base);
            note_use(used, *index);
            note_use(used, *src);
        },
        IrInstruction::Call { dst: _, func: _, args } => {
            let ghost u0 = used@;
            let mut k: usize = 0;
            while k < args.len()
                invariant
                    k <= args@.len(),
                    forall|x: u32| #[trigger]
                        used@.contains(x) <==> (u0.contains(x) || exists|j: int| 0 <= j < k && (#[trigger] args@[j]).0 == x),
                decreases args@.len() - k,
            {
                let ghost before = used@;
                let a = args[k];
                note_use(used, a);
                proof {
                    assert forall|x: u32| #[trigger]
                        used@.contains(x) implies (u0.contains(x) || exists|j: int| 0 <= j < k + 1 && (#[trigger] args@[j]).0 == x) by {
                        if x == a.0 {
                            assert(args@[k as int].0 == x);
                        } else {
                            assert(before.contains(x));
                        }
                    }
                    assert forall|x: u32| (u0.contains(x) || exists|j: int| 0 <= j < k + 1 && (#[trigger] args@[j]).0 == x) implies
                        #[trigger] used@.contains(x) by {
                        if !u0.contains(x) {
                            let j = choose|j: int| 0 <= j < k + 1 && (#[trigger] args@[j]).0 == x;
                            if j < k {
                                assert(before.contains(x));
                            }
                        }
                    }
                }
                k = k + 1;
            }
            proof {
                assert forall|x: u32| used@.contains(x) <==> (u0.contains(x) || uses(ir::instr_view(*ins), x)) by {
                    if used@.contains(x) && !u0.contains(x) {
                        let j = choose|j: int| 0 <= j < k && (#[trigger] args@[j]).0 == x;
                        let av = ir::instr_view(*ins)->Call_args;
                        assert(av == args@);
                        assert(av[j].0 == x);
                        assert(uses(ir::instr_view(*ins), x));
                    }
                }
            }
        },
        IrInstruction::JumpIfZero { cond, .. } => {
            note_use(used, *cond);
        },
        IrInstruction::JumpIfNotZero { cond, .. } => {
            note_use(used, *cond);
        },
        IrInstruction::Return(Some(v)) => {
            note_use(used, *v);
        },
        _ => {},
    }
}

/// Removes pure instructions whose result nothing reads, and drops the
/// unread results of calls (calls themselves stay). Reports whether
/// anything changed.
pub fn dead_code_elim(func: &mut IrFunction) -> (changed: bool)
    ensures
        same_header(*final(func), *old(func)),
        body(*final(func)) == dce_out(body(*old(func)), body(*old(func))),
        changed <==> measure(body(*final(func))) < measure(body(*old(func))),
        !changed ==> body(*final(func)) == body(*old(func)),
        measure(body(*final(func))) <= measure(body(*old(func))),
{
    let ghost orig = body(*func);
    let n = func.instructions.len();
    let mut used: HashSet<u32> = HashSet::new();
    let mut i: usize = 0;
    while i < n
        invariant
            n == func.instructions@.len(),
            orig == body(*func),
            orig == body(*old(func)),
            same_header(*func, *old(func)),
            i <= n,
            forall|x: u32| used@.contains(x) <==> used_in(orig.take(i as int), x),
        decreases n - i,
    {
        note_uses(&mut used, &func.instructions[i]);
        proof {
            assert forall|x: u32| used@.contains(x) <==> used_in(orig.take(i as int + 1), x) by {
                if used_in(orig.take(i as int), x) {
                    let k = choose|k: int| 0 <= k < i && uses(#[trigger] orig.take(i as int)[k], x);
                    assert(orig.take(i as int + 1)[k] == orig.take(i as int)[k]);
                }
                if used_in(orig.take(i as int + 1), x) {
                    let k = choose|k: int| 0 <= k < i + 1 && uses(#[trigger] orig.take(i as int + 1)[k], x);
                    if k < i {
                        assert(orig.take(i as int)[k] == orig.take(i as int + 1)[k]);
                    }
                }
                if uses(orig[i as int], x) {
                    assert(orig.take(i as int + 1)[i as int] == orig[i as int]);
                }
            }
        }
        i = i + 1;
    }
    assert(orig.take(n as int) =~= orig);
    let mut out: Vec<IrInstruction> = Vec::new();
    let mut changed = false;
    let mut i: usize = 0;
    while i < n
        invariant
            n == func.instructions@.len(),
            orig == body(*func),
            orig == body(*old(func)),
            same_header(*func, *old(func)),
            i <= n,
            forall|x: u32| used@.contains(x) <==> used_in(orig, x),
            ir::instrs_view(out@) == dce_out(orig, orig.take(i as int)),
            measure(ir::instrs_view(out@)) <= measure(orig.take(i as int)),
            changed <==> measure(ir::instrs_view(out@)) < measure(orig.take(i as int)),
            !changed ==> ir::instrs_view(out@) == orig.take(i as int),
        decreases n - i,
    {
        let ghost prev = ir::instrs_view(out@);
        let ins = &func.instructions[i];
        let ghost iv = ir::instr_view(*ins);
        proof {
            assert(orig.take(i as int + 1).drop_last() =~= orig.take(i as int));
            assert(orig.take(i as int + 1).last() == orig[i as int]);
            lemma_measure_push(orig.take(i as int), iv);
            assert(orig.take(i as int).push(iv) =~= orig.take(i as int + 1));
        }
        let def: Option<Temp> = match ins {
            IrInstruction::LoadParam { dst, .. } => Some(*dst),
            IrInstruction::LoadImm { dst, .. } => Some(*dst),
            IrInstruction::LoadMem { dst, .. } => Some(*dst),
            IrInstruction::LoadIndexed { dst, .. } => Some(*dst),
            IrInstruction::LoadAddr { dst, .. } => Some(*dst),
            IrInstruction::LoadIndexedPtr { dst, .. } => Some(*dst),
            IrInstruction::BinaryOp { dst, .. } => Some(*dst),
            _ => None,
        };
        match def {
            Some(d) => {
                if used.contains(&d.0) {
                    out.push(ins.copy());
                    proof {
                        assert(ir::instrs_view(out@) =~= prev + seq![iv]);
                        lemma_measure_push(prev, iv);
                    }
                } else {
                    changed = true;
                    proof {
                        assert(ir::instrs_view(out@) =~= prev + Seq::<InstrV>::empty());
                    }
                }
            },
            None => {
                let dropped_result = match ins {
                    IrInstruction::Call { dst: Some(d), func: f, args } => {
                        if used.contains(&d.0) {
                            None
                        } else {
                            Some(IrInstruction::Call { dst: None, func: f.clone(), args: ir::temps_clone(args) })
                        }
                    },
                    _ => None,
                };
                match dropped_result {
                    Some(c) => {
                        let ghost cv = ir::instr_view(c);
                        out.push(c);
                        changed = true;
                        proof {
                            assert(ir::instrs_view(out@) =~= prev + seq![cv]);
                            lemma_measure_push(prev, cv);
                        }
                    },
                    None => {
                        out.push(ins.copy());
                        proof {
                            assert(ir::instrs_view(out@) =~= prev + seq![iv]);
                            lemma_measure_push(prev, iv);
                        }
                    },
                }
            },
        }
        proof {
            assert(prev + Seq::<InstrV>::empty() =~= prev);
        }
        i = i + 1;
    }
    func.instructions = out;
    changed
}

// ---------------------------------------------------------------------------
// Peephole clean-ups
// ---------------------------------------------------------------------------

/// Drops every jump to the label that directly follows it, scanning from
/// the front (after a drop, the label is looked at again).
pub open spec fn drop_jumps_to_next(s: Seq<InstrV>) -> Seq<InstrV>
    decreases s.len(),
{
    if s.len() < 2 {
        s
    } else {
        let keep = match (s[0], s[1]) {
            (InstrV::Jump(t), InstrV::Label(l)) => l != t,
            _ => true,
        };
        if keep {
            seq![s[0]] + drop_jumps_to_next(s.drop_first())
        } else {
            drop_jumps_to_next(s.drop_first())
        }
    }
}

/// Drops what follows a jump or a return up to the next label; `dead`
/// says whether the code before `s` ended in such a jump.
pub open spec fn drop_unreachable(s: Seq<InstrV>, dead: bool) -> Seq<InstrV>
    decreases s.len(),
{
    if s.len() == 0 {
        s
    } else {
        let rest = s.drop_first();
        match s[0] {
            InstrV::Label(_) => seq![s[0]] + drop_unreachable(rest, false),
            _ => if dead {
                drop_unreachable(rest, true)
            } else {
                match s[0] {
                    InstrV::Jump(_) => seq![s[0]] + drop_unreachable(rest, true),
                    InstrV::Return(_) => seq![s[0]] + drop_unreachable(rest, true),
                    _ => seq![s[0]] + drop_unreachable(rest, false),
                }
            },
        }
    }
}

/// Drops the notes.
pub open spec fn drop_comments(s: Seq<InstrV>) -> Seq<InstrV>
    decreases s.len(),
{
    if s.len() == 0 {
        s
    } else {
        let head = if s[0] is Comment {
            Seq::<InstrV>::empty()
        } else {
            seq![s[0]]
        };
        head + drop_comments(s.drop_first())
    }
}

proof fn lemma_skip_step(s: Seq<InstrV>, i: int)
    requires
        0 <= i < s.len(),
    ensures
        s.skip(i).drop_first() == s.skip(i + 1),
        s.skip(i)[0] == s[i],
        s.skip(i).len() == s.len() - i,
        s.take(i + 1) == s.take(i).push(s[i]),
{
    assert(s.skip(i).drop_first() =~= s.skip(i + 1));
    assert(s.take(i + 1) =~= s.take(i).push(s[i]));
}

/// Removes jumps to the next instruction, unreachable code after a jump or
/// a return, and notes. Reports whether jumps or unreachable code went.
#[verifier::rlimit(40)]
#[verifier::spinoff_prover]
pub fn peephole(func: &mut IrFunction) -> (changed: bool)
    ensures
        same_header(*final(func), *old(func)),
        body(*final(func)) == drop_comments(drop_unreachable(drop_jumps_to_next(body(*old(func))), false)),
        changed <==> drop_unreachable(drop_jumps_to_next(body(*old(func))), false).len() < body(*old(func)).len(),
        changed ==> measure(body(*final(func))) < measure(body(*old(func))),
        measure(body(*final(func))) <= measure(body(*old(func))),
{
    let ghost orig = body(*func);
    let mut changed = false;
    // Jumps to the next instruction.
    let mut i: usize = 0;
    proof {
        assert(orig.skip(0) =~= orig);
        assert(orig.take(0) + drop_jumps_to_next(orig.skip(0)) =~= drop_jumps_to_next(orig));
    }
    while i < func.instructions.len() && func.instructions.len() - i > 1
        invariant
            same_header(*func, *old(func)),
            orig == body(*old(func)),
            i <= body(*func).len(),
            changed ==> measure(body(*func)) < measure(orig),
            drop_jumps_to_next(orig) == body(*func).take(i as int) + drop_jumps_to_next(body(*func).skip(i as int)),
            measure(body(*func)) <= measure(orig),
            changed <==> body(*func).len() < orig.len(),
            body(*func).len() <= orig.len(),
        decreases body(*func).len() - i,
    {
        let ghost before = body(*func);
        proof {
            lemma_skip_step(before, i as int);
            lemma_skip_step(before, i as int + 1);
        }
        let mut remove = false;
        if let IrInstruction::Jump(target) = &func.instructions[i] {
            if let IrInstruction::Label(l) = &func.instructions[i + 1] {
                if str_eq(l.as_str(), target.as_str()) {
                    remove = true;
                }
            }
        }
        if remove {
            func.instructions.remove(i);
            proof {
                assert(body(*func) =~= before.remove(i as int));
                lemma_measure_remove(before, i as int);
                assert(body(*func).take(i as int) =~= before.take(i as int));
                assert(body(*func).skip(i as int) =~= before.skip(i as int).drop_first());
            }
            changed = true;
        } else {
            proof {
                assert(drop_jumps_to_next(before.skip(i as int)) == seq![before[i as int]] + drop_jumps_to_next(
                    before.skip(i as int + 1),
                ));
                assert(before.take(i as int + 1) + drop_jumps_to_next(before.skip(i as int + 1)) =~= before.take(i as int)
                    + drop_jumps_to_next(before.skip(i as int)));
            }
            i = i + 1;
        }
    }
    let ghost p1 = body(*func);
    proof {
        assert(drop_jumps_to_next(p1.skip(i as int)) == p1.skip(i as int));
        assert(p1.take(i as int) + p1.skip(i as int) =~= p1);
    }
    // Unreachable code.
    let n = func.instructions.len();
    let mut out: Vec<IrInstruction> = Vec::new();
    let mut unreachable = false;
    let mut removed = false;
    let mut i: usize = 0;
    proof {
        assert(p1.skip(0) =~= p1);
        assert(ir::instrs_view(out@) + drop_unreachable(p1.skip(0), false) =~= drop_unreachable(p1, false));
    }
    while i < n
        invariant
            same_header(*func, *old(func)),
            p1 == body(*func),
            n == p1.len(),
            i <= n,
            ir::instrs_view(out@) + drop_unreachable(p1.skip(i as int), unreachable) == drop_unreachable(p1, false),
            measure(ir::instrs_view(out@)) <= measure(p1.take(i as int)),
            removed ==> measure(ir::instrs_view(out@)) < measure(p1.take(i as int)),
            out@.len() <= i,
            removed <==> out@.len() < i,
        decreases n - i,
    {
        let ghost prev = ir::instrs_view(out@);
        let ins = &func.instructions[i];
        proof {
            lemma_skip_step(p1, i as int);
            lemma_measure_push(p1.take(i as int), p1[i as int]);
        }
        match ins {
            IrInstruction::Label(_) => {
                unreachable = false;
                out.push(ins.copy());
            },
            _ => {
                if unreachable {
                    removed = true;
                } else {
                    if matches!(ins, IrInstruction::Jump(_)) || matches!(ins, IrInstruction::Return(_)) {
                        unreachable = true;
                    }
                    out.push(ins.copy());
                }
            },
        }
        proof {
            let now = ir::instrs_view(out@);
            if now.len() > prev.len() {
                assert(now =~= prev.push(p1[i as int]));
                lemma_measure_push(prev, p1[i as int]);
                assert(now =~= prev + seq![p1[i as int]]);
            } else {
                assert(now =~= prev);
            }
            assert(prev + (seq![p1[i as int]] + drop_unreachable(p1.skip(i as int + 1), unreachable)) =~= (prev + seq![
                p1[i as int],
            ]) + drop_unreachable(p1.skip(i as int + 1), unreachable));
        }
        i = i + 1;
    }
    proof {
        assert(ir::instrs_view(out@) + drop_unreachable(p1.skip(n as int), unreachable) =~= ir::instrs_view(out@));
        assert(p1.take(n as int) =~= p1);
    }
    let ghost p2 = ir::instrs_view(out@);
    // Notes.
    let m = out.len();
    let mut kept: Vec<IrInstruction> = Vec::new();
    let mut i: usize = 0;
    proof {
        assert(p2.skip(0) =~= p2);
        assert(ir::instrs_view(kept@) + drop_comments(p2.skip(0)) =~= drop_comments(p2));
    }
    while i < m
        invariant
            p2 == ir::instrs_view(out@),
            m == p2.len(),
            i <= m,
            ir::instrs_view(kept@) + drop_comments(p2.skip(i as int)) == drop_comments(p2),
            measure(ir::instrs_view(kept@)) <= measure(p2.take(i as int)),
        decreases m - i,
    {
        let ghost prev = ir::instrs_view(kept@);
        proof {
            lemma_skip_step(p2, i as int);
            lemma_measure_push(p2.take(i as int), p2[i as int]);
        }
        if !matches!(out[i], IrInstruction::Comment(_)) {
            kept.push(out[i].copy());
            proof {
                assert(ir::instrs_view(kept@) =~= prev.push(p2[i as int]));
                lemma_measure_push(prev, p2[i as int]);
                assert(prev + (seq![p2[i as int]] + drop_comments(p2.skip(i as int + 1))) =~= prev.push(p2[i as int])
                    + drop_comments(p2.skip(i as int + 1)));
            }
        } else {
            proof {
                assert(ir::instrs_view(kept@) =~= prev);
                assert(Seq::<InstrV>::empty() + drop_comments(p2.skip(i as int + 1)) =~= drop_comments(
                    p2.skip(i as int + 1),
                ));
            }
        }
        i = i + 1;
    }
    proof {
        assert(ir::instrs_view(kept@) + drop_comments(p2.skip(m as int)) =~= ir::instrs_view(kept@));
        assert(p2.take(m as int) =~= p2);
    }
    func.instructions = kept;
    changed || removed
}

// ---------------------------------------------------------------------------
// Store-to-load forwarding and dead stores
// ---------------------------------------------------------------------------

/// Following the replacements from `t` for at most `fuel` steps, stopping
/// at a temporary that is replaced by itself or by nothing.
pub open spec fn resolve_spec(alias: Map<u32, u32>, t: u32, fuel: nat) -> u32
    decreases fuel,
{
    if fuel == 0 || !alias.contains_key(t) || alias[t] == t {
        t
    } else {
        resolve_spec(alias, alias[t], (fuel - 1) as nat)
    }
}

/// What a read of `t` becomes: the chain followed for as many steps as
/// there are replacements.
pub open spec fn rt(alias: Map<u32, u32>, t: Temp) -> Temp {
    Temp(resolve_spec(alias, t.0, alias.len()))
}

/// An instruction with the temporaries it reads replaced.
pub open spec fn rename_spec(alias: Map<u32, u32>, i: InstrV) -> InstrV {
    match i {
        InstrV::BinaryOp { dst, left, op, right } => InstrV::BinaryOp { dst, left: rt(alias, left), op, right: rt(alias, right) },
        InstrV::StoreMem { dst, src } => InstrV::StoreMem { dst, src: rt(alias, src) },
        InstrV::LoadIndexed { dst, base_offset, index, elem_size } => InstrV::LoadIndexed {
            dst,
            base_offset,
            index: rt(alias, index),
            elem_size,
        },
        InstrV::StoreIndexed { base_offset, index, src, elem_size } => InstrV::StoreIndexed {
            base_offset,
            index: rt(alias, index),
            src: rt(alias, src),
            elem_size,
        },
        InstrV::LoadIndexedPtr { dst, base, index, elem_size } => InstrV::LoadIndexedPtr {
            dst,
            base: rt(alias, base),
            index: rt(alias, index),
            elem_size,
        },
        InstrV::StoreIndexedPtr { base, index, src, elem_size } => InstrV::StoreIndexedPtr {
            base: rt(alias, base),
            index: rt(alias, index),
            src: rt(alias, src),
            elem_size,
        },
        InstrV::Call { dst, func, args } => InstrV::Call { dst, func, args: args.map_values(|a: Temp| rt(alias, a)) },
        InstrV::JumpIfZero { cond, target } => InstrV::JumpIfZero { cond: rt(alias, cond), target },
        InstrV::JumpIfNotZero { cond, target } => InstrV::JumpIfNotZero { cond: rt(alias, cond), target },
        InstrV::Return(Some(v)) => InstrV::Return(Some(rt(alias, v))),
        _ => i,
    }
}

/// The value recorded for a location: the first entry for it.
pub open spec fn stored_spec(stores: Seq<(Location, Temp)>, loc: Location) -> Option<Temp>
    decreases stores.len(),
{
    if stores.len() == 0 {
        None
    } else if stores[0].0 == loc {
        Some(stores[0].1)
    } else {
        stored_spec(stores.drop_first(), loc)
    }
}

/// Recording `src` at `loc`: the entry for it replaced, or a new one at the end.
pub open spec fn record_spec(stores: Seq<(Location, Temp)>, loc: Location, src: Temp) -> Seq<(Location, Temp)>
    decreases stores.len(),
{
    if stores.len() == 0 {
        seq![(loc, src)]
    } else if stores[0].0 == loc {
        stores.update(0, (loc, src))
    } else {
        seq![stores[0]] + record_spec(stores.drop_first(), loc, src)
    }
}

/// The first pass over the first `i` instructions: the replacements, the
/// stores known, the renamed instructions, and the loads removed.
pub open spec fn pass1(s: Seq<InstrV>, i: nat) -> (Map<u32, u32>, Seq<(Location, Temp)>, Seq<InstrV>, Seq<bool>)
    decreases i,
{
    if i == 0 {
        (Map::empty(), seq![], seq![], seq![])
    } else {
        let (al, st, w, rm) = pass1(s, (i - 1) as nat);
        let r = rename_spec(al, s[i - 1]);
        let w2 = w.push(r);
        match r {
            InstrV::Label(_) => (al, seq![], w2, rm.push(false)),
            InstrV::StoreMem { dst, src } => (al, record_spec(st, dst, src), w2, rm.push(false)),
            InstrV::LoadMem { dst, src } => match stored_spec(st, src) {
                Some(v) => (al.insert(dst.0, v.0), st, w2, rm.push(true)),
                None => (al, st, w2, rm.push(false)),
            },
            InstrV::LoadIndexed { .. } => (al, seq![], w2, rm.push(false)),
            InstrV::StoreIndexed { .. } => (al, seq![], w2, rm.push(false)),
            _ => (al, st, w2, rm.push(false)),
        }
    }
}

/// A load from `src`: the store recorded for it has been read.
pub open spec fn mark_read_spec(cur: Seq<(Location, usize, bool)>, src: Location) -> Seq<(Location, usize, bool)>
    decreases cur.len(),
{
    if cur.len() == 0 {
        cur
    } else if cur[0].0 == src {
        cur.update(0, (cur[0].0, cur[0].1, true))
    } else {
        seq![cur[0]] + mark_read_spec(cur.drop_first(), src)
    }
}

/// Marks instruction `e.1` for removal unless its store was read.
pub open spec fn drop_unread(e: (Location, usize, bool), rm: Seq<bool>) -> Seq<bool> {
    if !e.2 {
        rm.update(e.1 as int, true)
    } else {
        rm
    }
}

/// A store at index `i` to `dst`: an earlier unread store there is dead.
pub open spec fn note_store_spec(cur: Seq<(Location, usize, bool)>, rm: Seq<bool>, dst: Location, i: usize) -> (
    Seq<(Location, usize, bool)>,
    Seq<bool>,
)
    decreases cur.len(),
{
    if cur.len() == 0 {
        (seq![(dst, i, false)], rm)
    } else if cur[0].0 == dst {
        (cur.update(0, (dst, i, false)), drop_unread(cur[0], rm))
    } else {
        let (c2, r2) = note_store_spec(cur.drop_first(), rm, dst, i);
        (seq![cur[0]] + c2, r2)
    }
}

/// The second pass over the first `i` renamed instructions.
pub open spec fn pass2(w: Seq<InstrV>, i: nat, rm0: Seq<bool>) -> (Seq<(Location, usize, bool)>, Seq<bool>)
    decreases i,
{
    if i == 0 {
        (seq![], rm0)
    } else {
        let (cur, rm) = pass2(w, (i - 1) as nat, rm0);
        match w[i - 1] {
            InstrV::Label(_) => (seq![], rm),
            InstrV::LoadMem { src, .. } => (mark_read_spec(cur, src), rm),
            InstrV::LoadIndexed { .. } => (seq![], rm),
            InstrV::StoreIndexed { .. } => (seq![], rm),
            InstrV::StoreMem { dst, .. } => note_store_spec(cur, rm, dst, (i - 1) as usize),
            _ => (cur, rm),
        }
    }
}

/// The stores still unread at the end are dead too.
pub open spec fn flush_spec(cur: Seq<(Location, usize, bool)>, rm: Seq<bool>) -> Seq<bool>
    decreases cur.len(),
{
    if cur.len() == 0 {
        rm
    } else {
        flush_spec(cur.drop_first(), drop_unread(cur[0], rm))
    }
}

/// The instructions of `w` not marked in `rm`.
pub open spec fn keep_spec(w: Seq<InstrV>, rm: Seq<bool>) -> Seq<InstrV>
    decreases w.len(),
{
    if w.len() == 0 {
        w
    } else {
        keep_spec(w.drop_last(), rm) + if rm[w.len() - 1] {
            Seq::<InstrV>::empty()
        } else {
            seq![w.last()]
        }
    }
}

/// The marks the forwarding makes on `s`.
pub open spec fn mf_marks(s: Seq<InstrV>) -> Seq<bool> {
    let (_, _, w, rm1) = pass1(s, s.len());
    let (cur, rm2) = pass2(w, w.len(), rm1);
    flush_spec(cur, rm2)
}

/// What forwarding makes of `s`.
pub open spec fn mf_out(s: Seq<InstrV>) -> Seq<InstrV> {
    keep_spec(pass1(s, s.len()).2, mf_marks(s))
}

/// Follows the chain of replacements from `t`, for at most as many steps
/// as there are replacements, and stops at a temporary that is replaced by
/// itself or by nothing.
fn resolve(alias: &HashMap<u32, u32>, t: Temp) -> (r: Temp)
    ensures
        r == rt(alias@, t),
{
    let mut cur = t.0;
    let mut steps: usize = 0;
    let n = alias.len();
    while steps < n
        invariant
            n == alias@.len(),
            steps <= n,
            resolve_spec(alias@, t.0, n as nat) == resolve_spec(alias@, cur, (n - steps) as nat),
        ensures
            resolve_spec(alias@, t.0, n as nat) == cur,
        decreases n - steps,
    {
        match alias.get(&cur) {
            Some(next) => {
                if *next == cur {
                    break;
                }
                cur = *next;
            },
            None => {
                break;
            },
        }
        steps = steps + 1;
    }
    Temp(cur)
}

/// The instruction with every temporary it reads replaced as `alias` says.
fn renamed(ins: &IrInstruction, alias: &HashMap<u32, u32>) -> (r: IrInstruction)
    ensures
        ir::instr_view(r) == rename_spec(alias@, ir::instr_view(*ins)),
        weight(ir::instr_view(r)) == weight(ir::instr_view(*ins)),
{
    match ins {
        IrInstruction::BinaryOp { dst, left, op, right } => IrInstruction::BinaryOp {
            dst: *dst,
            left: resolve(alias, *left),
            op: *op,
            right: resolve(alias, *right),
        },
        IrInstruction::StoreMem { dst, src } => IrInstruction::StoreMem { dst: *dst, src: resolve(alias, *src) },
        IrInstruction::LoadIndexed { dst, base_offset, index, elem_size } => IrInstruction::LoadIndexed {
            dst: *dst,
            base_offset: *base_offset,
            index: resolve(alias, *index),
            elem_size: *elem_size,
        },
        IrInstruction::StoreIndexed { base_offset, index, src, elem_size } => IrInstruction::StoreIndexed {
            base_offset: *base_offset,
            index: resolve(alias, *index),
            src: resolve(alias, *src),
            elem_size: *elem_size,
        },
        IrInstruction::LoadIndexedPtr { dst, base, index, elem_size } => IrInstruction::LoadIndexedPtr {
            dst: *dst,
            base: resolve(alias, *base),
            index: resolve(alias, *index),
            elem_size: *elem_size,
        },
        IrInstruction::StoreIndexedPtr { base, index, src, elem_size } => IrInstruction::StoreIndexedPtr {
            base: resolve(alias, *base),
            index: resolve(alias, *index),
            src: resolve(alias, *src),
            elem_size: *elem_size,
        },
        IrInstruction::Call { dst, func, args } => {
            let mut new_args: Vec<Temp> = Vec::new();
            let mut k: usize = 0;
            while k < args.len()
                invariant
                    k <= args@.len(),
                    new_args@ == args@.take(k as int).map_values(|a: Temp| rt(alias@, a)),
                decreases args@.len() - k,
            {
                new_args.push(resolve(alias, args[k]));
                k = k + 1;
                assert(new_args@ =~= args@.take(k as int).map_values(|a: Temp| rt(alias@, a)));
            }
            assert(args@.take(k as int) =~= args@);
            IrInstruction::Call { dst: *dst, func: func.clone(), args: new_args }
        },
        IrInstruction::JumpIfZero { cond, target } => IrInstruction::JumpIfZero {
            cond: resolve(alias, *cond),
            target: target.clone(),
        },
        IrInstruction::JumpIfNotZero { cond, target } => IrInstruction::JumpIfNotZero {
            cond: resolve(alias, *cond),
            target: target.clone(),
        },
        IrInstruction::Return(Some(v)) => IrInstruction::Return(Some(resolve(alias, *v))),
        _ => ins.copy(),
    }
}

/// The value recorded for a location: the first entry for it.
fn stored_at(stores: &Vec<(Location, Temp)>, loc: Location) -> (r: Option<Temp>)
    ensures
        r == stored_spec(stores@, loc),
{
    let mut k: usize = 0;
    assert(stores@.skip(0) =~= stores@);
    while k < stores.len()
        invariant
            k <= stores@.len(),
            stored_spec(stores@, loc) == stored_spec(stores@.skip(k as int), loc),
        decreases stores.len() - k,
    {
        assert(stores@.skip(k as int).drop_first() =~= stores@.skip(k as int + 1));
        if stores[k].0 == loc {
            return Some(stores[k].1);
        }
        k = k + 1;
    }
    None
}

/// Records that `src` is now stored at `loc`.
fn record_store(stores: &mut Vec<(Location, Temp)>, loc: Location, src: Temp)
    ensures
        final(stores)@ == record_spec(old(stores)@, loc, src),
{
    let ghost o = stores@;
    let mut k: usize = 0;
    assert(o.skip(0) =~= o);
    assert(o.take(0) + record_spec(o.skip(0), loc, src) =~= record_spec(o, loc, src));
    while k < stores.len()
        invariant
            k <= o.len(),
            stores@ == o,
            o == old(stores)@,
            record_spec(o, loc, src) == o.take(k as int) + record_spec(o.skip(k as int), loc, src),
        decreases stores.len() - k,
    {
        assert(o.skip(k as int).drop_first() =~= o.skip(k as int + 1));
        if stores[k].0 == loc {
            stores.set(k, (loc, src));
            assert(o.skip(k as int)[0] == o[k as int]);
            assert(record_spec(o.skip(k as int), loc, src) == o.skip(k as int).update(0, (loc, src)));
            assert(o.take(k as int) + o.skip(k as int).update(0, (loc, src)) =~= o.update(k as int, (loc, src)));
            return;
        }
        assert(o.skip(k as int)[0] == o[k as int]);
        assert(o.take(k as int) + (seq![o[k as int]] + record_spec(o.skip(k as int + 1), loc, src)) =~= o.take(k as int + 1)
            + record_spec(o.skip(k as int + 1), loc, src));
        k = k + 1;
    }
    stores.push((loc, src));
    assert(o.skip(k as int) =~= Seq::<(Location, Temp)>::empty());
    assert(o.take(k as int) + seq![(loc, src)] =~= o.push((loc, src)));
}

/// A load from `src`: the store recorded for it has been read.
fn mark_read(cur: &mut Vec<(Location, usize, bool)>, src: Location)
    ensures
        final(cur)@ == mark_read_spec(old(cur)@, src),
{
    let ghost o = cur@;
    let mut k: usize = 0;
    assert(o.skip(0) =~= o);
    assert(o.take(0) + mark_read_spec(o.skip(0), src) =~= mark_read_spec(o, src));
    while k < cur.len()
        invariant
            k <= o.len(),
            cur@ == o,
            o == old(cur)@,
            mark_read_spec(o, src) == o.take(k as int) + mark_read_spec(o.skip(k as int), src),
        decreases cur.len() - k,
    {
        assert(o.skip(k as int).drop_first() =~= o.skip(k as int + 1));
        assert(o.skip(k as int)[0] == o[k as int]);
        if cur[k].0 == src {
            let (l, idx, _) = cur[k];
            cur.set(k, (l, idx, true));
            assert(mark_read_spec(o.skip(k as int), src) == o.skip(k as int).update(0, (l, idx, true)));
            assert(o.take(k as int) + o.skip(k as int).update(0, (l, idx, true)) =~= o.update(k as int, (l, idx, true)));
            return;
        }
        assert(o.take(k as int) + (seq![o[k as int]] + mark_read_spec(o.skip(k as int + 1), src)) =~= o.take(k as int + 1)
            + mark_read_spec(o.skip(k as int + 1), src));
        k = k + 1;
    }
    assert(o.skip(k as int) =~= Seq::<(Location, usize, bool)>::empty());
    assert(o.take(k as int) =~= o);
}

/// A store at index `i` to `dst`: an earlier unread store there is marked.
fn note_store(cur: &mut Vec<(Location, usize, bool)>, remove: &mut Vec<bool>, dst: Location, i: usize)
    requires
        forall|f: int| 0 <= f < old(cur)@.len() ==> (#[trigger] old(cur)@[f]).1 < old(remove)@.len(),
        i < old(remove)@.len(),
    ensures
        (final(cur)@, final(remove)@) == note_store_spec(old(cur)@, old(remove)@, dst, i),
        final(remove)@.len() == old(remove)@.len(),
        forall|f: int| 0 <= f < final(cur)@.len() ==> (#[trigger] final(cur)@[f]).1 < final(remove)@.len(),
        forall|j: int| 0 <= j < old(remove)@.len() && old(remove)@[j] ==> final(remove)@[j],
{
    let ghost o = cur@;
    let ghost rm = remove@;
    let mut k: usize = 0;
    proof {
        assert(o.skip(0) =~= o);
        let (c2, r2) = note_store_spec(o.skip(0), rm, dst, i);
        assert(o.take(0) + c2 =~= c2);
    }
    while k < cur.len()
        invariant
            k <= o.len(),
            cur@ == o,
            o == old(cur)@,
            rm == old(remove)@,
            i < rm.len(),
            remove@ == rm,
            forall|f: int| 0 <= f < o.len() ==> (#[trigger] o[f]).1 < rm.len(),
            ({
                let (c2, r2) = note_store_spec(o.skip(k as int), rm, dst, i);
                note_store_spec(o, rm, dst, i) == (o.take(k as int) + c2, r2)
            }),
        decreases cur.len() - k,
    {
        assert(o.skip(k as int).drop_first() =~= o.skip(k as int + 1));
        assert(o.skip(k as int)[0] == o[k as int]);
        if cur[k].0 == dst {
            let (_, idx, was_read) = cur[k];
            if !was_read {
                remove.set(idx, true);
            }
            cur.set(k, (dst, i, false));
            assert(remove@ == drop_unread(o[k as int], rm));
            assert(note_store_spec(o.skip(k as int), rm, dst, i) == (o.skip(k as int).update(0, (dst, i, false)), drop_unread(
                o[k as int],
                rm,
            )));
            assert(o.take(k as int) + o.skip(k as int).update(0, (dst, i, false)) =~= o.update(k as int, (dst, i, false)));
            assert forall|f: int| 0 <= f < cur@.len() implies (#[trigger] cur@[f]).1 < remove@.len() by {
                if f != k {
                    assert(cur@[f] == o[f]);
                }
            }
            return;
        }
        proof {
            let (c3, r3) = note_store_spec(o.skip(k as int + 1), rm, dst, i);
            assert(o.take(k as int) + (seq![o[k as int]] + c3) =~= o.take(k as int + 1) + c3);
        }
        k = k + 1;
    }
    cur.push((dst, i, false));
    assert(o.skip(k as int) =~= Seq::<(Location, usize, bool)>::empty());
    assert(o.take(k as int) + seq![(dst, i, false)] =~= o.push((dst, i, false)));
    assert forall|f: int| 0 <= f < cur@.len() implies (#[trigger] cur@[f]).1 < remove@.len() by {
        if f < o.len() {
            assert(cur@[f] == o[f]);
        }
    }
}

proof fn lemma_rename_empty(i: InstrV)
    ensures
        rename_spec(Map::empty(), i) == i,
{
    match i {
        InstrV::Call { dst, func, args } => {
            assert(args.map_values(|a: Temp| rt(Map::empty(), a)) =~= args);
        },
        _ => {},
    }
}

proof fn lemma_pass1_len(s: Seq<InstrV>, i: nat)
    ensures
        pass1(s, i).2.len() == i,
        pass1(s, i).3.len() == i,
    decreases i,
{
    if i > 0 {
        lemma_pass1_len(s, (i - 1) as nat);
    }
}

proof fn lemma_mark_read_keeps(cur: Seq<(Location, usize, bool)>, src: Location)
    ensures
        mark_read_spec(cur, src).len() == cur.len(),
        forall|f: int| 0 <= f < cur.len() ==> (#[trigger] mark_read_spec(cur, src)[f]).1 == cur[f].1,
    decreases cur.len(),
{
    if cur.len() > 0 && cur[0].0 != src {
        lemma_mark_read_keeps(cur.drop_first(), src);
        let m = mark_read_spec(cur, src);
        assert forall|f: int| 0 <= f < cur.len() implies (#[trigger] m[f]).1 == cur[f].1 by {
            if f > 0 {
                assert(m[f] == mark_read_spec(cur.drop_first(), src)[f - 1]);
            }
        }
    }
}

proof fn lemma_keep_step(w: Seq<InstrV>, rm: Seq<bool>, i: int)
    requires
        0 <= i < w.len(),
    ensures
        keep_spec(w.take(i + 1), rm) == keep_spec(w.take(i), rm) + if rm[i] {
            Seq::<InstrV>::empty()
        } else {
            seq![w[i]]
        },
{
    assert(w.take(i + 1).drop_last() =~= w.take(i));
}

/// Forwards stored values to later loads of the same stack location (the
/// load goes and its readers use the stored temporary), and removes stores
/// that are overwritten or left unread before the next label. What is known
/// is forgotten at every label and at every indexed access. A function that
/// takes the address of a slot is left as it is. Reports whether anything
/// changed.
#[verifier::rlimit(60)]
pub fn mem_forward(func: &mut IrFunction) -> (changed: bool)
    ensures
        same_header(*final(func), *old(func)),
        (exists|k: int| 0 <= k < body(*old(func)).len() && body(*old(func))[k] is LoadAddr) ==> (body(*final(func))
            == body(*old(func)) && !changed),
        !(exists|k: int| 0 <= k < body(*old(func)).len() && body(*old(func))[k] is LoadAddr) ==> {
            &&& body(*final(func)) == mf_out(body(*old(func)))
            &&& changed == exists|j: int| 0 <= j < body(*old(func)).len() && mf_marks(body(*old(func)))[j]
        },
        !changed ==> body(*final(func)) == body(*old(func)),
        changed ==> measure(body(*final(func))) < measure(body(*old(func))),
        measure(body(*final(func))) <= measure(body(*old(func))),
        body(*final(func)).len() <= body(*old(func)).len(),
{
    let ghost orig = body(*func);
    let n = func.instructions.len();
    let mut k: usize = 0;
    while k < n
        invariant
            n == orig.len(),
            orig == body(*func),
            k <= n,
            forall|j: int| 0 <= j < k ==> !(orig[j] is LoadAddr),
        decreases n - k,
    {
        if matches!(func.instructions[k], IrInstruction::LoadAddr { .. }) {
            assert(orig[k as int] is LoadAddr);
            return false;
        }
        k = k + 1;
    }
    let mut alias: HashMap<u32, u32> = HashMap::new();
    let mut last_store: Vec<(Location, Temp)> = Vec::new();
    let mut remove: Vec<bool> = Vec::new();
    let mut changed = false;
    let mut i: usize = 0;
    proof {
        assert(orig.take(0) =~= Seq::<InstrV>::empty());
        assert(alias@ =~= Map::<u32, u32>::empty());
    }
    while i < n
        invariant
            n == func.instructions@.len(),
            n == orig.len(),
            same_header(*func, *old(func)),
            orig == body(*old(func)),
            i <= n,
            remove@.len() == i,
            measure(body(*func)) == measure(orig),
            ({
                let (al, st, w, rm) = pass1(orig, i as nat);
                &&& alias@ == al
                &&& last_store@ == st
                &&& body(*func).take(i as int) == w
                &&& remove@ == rm
            }),
            forall|j: int| i <= j < n ==> body(*func)[j] == orig[j],
            changed <==> exists|j: int| 0 <= j < i && remove@[j],
            !changed ==> alias@ == Map::<u32, u32>::empty(),
            !changed ==> body(*func) == orig,
        decreases n - i,
    {
        let ghost before = body(*func);
        let ghost ch0 = changed;
        let ghost (al0, st0, w0, rm0) = pass1(orig, i as nat);
        let r = renamed(&func.instructions[i], &alias);
        let ghost rv = ir::instr_view(r);
        assert(before[i as int] == orig[i as int]);
        func.instructions.set(i, r);
        proof {
            assert(body(*func) =~= before.update(i as int, rv));
            lemma_measure_update(before, i as int, rv);
            assert(body(*func).take(i as int + 1) =~= w0.push(rv));
            if !changed {
                lemma_rename_empty(orig[i as int]);
                assert(rv == orig[i as int]);
                assert(body(*func) =~= before);
            }
        }
        let mut mark = false;
        match &func.instructions[i] {
            IrInstruction::Label(_) => {
                last_store.clear();
            },
            IrInstruction::StoreMem { dst, src } => {
                record_store(&mut last_store, *dst, *src);
            },
            IrInstruction::LoadMem { dst, src } => {
                if let Some(val) = stored_at(&last_store, *src) {
                    alias.insert(dst.0, val.0);
                    mark = true;
                    changed = true;
                }
            },
            IrInstruction::LoadIndexed { .. } => {
                last_store.clear();
            },
            IrInstruction::StoreIndexed { .. } => {
                last_store.clear();
            },
            _ => {},
        }
        remove.push(mark);
        proof {
            assert(last_store@ =~= pass1(orig, i as nat + 1).1);
            assert(remove@ =~= pass1(orig, i as nat + 1).3);
            if mark {
                assert(remove@[i as int]);
            }
            if exists|j: int| 0 <= j < i + 1 && remove@[j] {
                let j = choose|j: int| 0 <= j < i + 1 && remove@[j];
                if j < i {
                    assert(remove@[j] == rm0[j]);
                }
            }
            if ch0 {
                let j = choose|j: int| 0 <= j < i && rm0[j];
                assert(remove@[j]);
            }
        }
        i = i + 1;
    }
    let changed1 = changed;
    let ghost w = body(*func);
    let ghost rm1 = remove@;
    proof {
        assert(w.take(n as int) =~= w);
        lemma_pass1_len(orig, n as nat);
        assert(w == pass1(orig, orig.len()).2);
        assert(rm1 == pass1(orig, orig.len()).3);
    }
    // Stores overwritten, or left unread, before the next label.
    let mut current: Vec<(Location, usize, bool)> = Vec::new();
    let mut i: usize = 0;
    while i < n
        invariant
            n == func.instructions@.len(),
            w == body(*func),
            w.len() == n,
            i <= n,
            remove@.len() == n,
            rm1.len() == n,
            (current@, remove@) == pass2(w, i as nat, rm1),
            forall|e: int| 0 <= e < current@.len() ==> (#[trigger] current@[e]).1 < n,
            changed1 <==> exists|j: int| 0 <= j < n && rm1[j],
            !changed1 ==> w == orig,
            forall|j: int| 0 <= j < n && rm1[j] ==> remove@[j],
        decreases n - i,
    {
        match &func.instructions[i] {
            IrInstruction::Label(_) => {
                current.clear();
            },
            IrInstruction::LoadMem { src, .. } => {
                proof {
                    lemma_mark_read_keeps(current@, *src);
                }
                mark_read(&mut current, *src);
            },
            IrInstruction::LoadIndexed { .. } => {
                current.clear();
            },
            IrInstruction::StoreIndexed { .. } => {
                current.clear();
            },
            IrInstruction::StoreMem { dst, .. } => {
                note_store(&mut current, &mut remove, *dst, i);
            },
            _ => {},
        }
        proof {
            assert(w[i as int] == ir::instr_view(func.instructions@[i as int]));
            assert((current@, remove@) == pass2(w, i as nat + 1, rm1));
        }
        i = i + 1;
    }
    // Stores still unread at the end are dead too.
    let ghost cur0 = current@;
    let ghost rm2 = remove@;
    let mut e: usize = 0;
    proof {
        assert(cur0.skip(0) =~= cur0);
    }
    while e < current.len()
        invariant
            current@ == cur0,
            e <= cur0.len(),
            remove@.len() == n,
            forall|f: int| 0 <= f < cur0.len() ==> (#[trigger] cur0[f]).1 < n,
            flush_spec(cur0, rm2) == flush_spec(cur0.skip(e as int), remove@),
            forall|j: int| 0 <= j < n && rm1[j] ==> remove@[j],
        decreases current.len() - e,
    {
        assert(cur0.skip(e as int).drop_first() =~= cur0.skip(e as int + 1));
        let (_, idx, was_read) = current[e];
        if !was_read {
            remove.set(idx, true);
        }
        e = e + 1;
    }
    proof {
        assert(cur0.skip(cur0.len() as int) =~= Seq::<(Location, usize, bool)>::empty());
        assert(remove@ == mf_marks(orig));
    }
    let mut changed = false;
    let mut j: usize = 0;
    while j < n
        invariant
            j <= n,
            remove@.len() == n,
            changed <==> exists|q: int| 0 <= q < j && remove@[q],
        decreases n - j,
    {
        if remove[j] {
            changed = true;
        }
        j = j + 1;
    }
    proof {
        if !changed {
            assert forall|q: int| 0 <= q < n implies !rm1[q] by {
                assert(!remove@[q]);
            }
            assert(!changed1);
        }
    }
    // Drop what was marked.
    let mut out: Vec<IrInstruction> = Vec::new();
    let mut i: usize = 0;
    proof {
        assert(w.take(0) =~= Seq::<InstrV>::empty());
    }
    while i < n
        invariant
            n == func.instructions@.len(),
            w == body(*func),
            i <= n,
            remove@.len() == n,
            changed <==> exists|j: int| 0 <= j < n && remove@[j],
            !changed ==> w == orig,
            measure(w) == measure(orig),
            w.len() == orig.len(),
            out@.len() <= i,
            ir::instrs_view(out@) == keep_spec(w.take(i as int), remove@),
            measure(ir::instrs_view(out@)) <= measure(w.take(i as int)),
            (exists|j: int| 0 <= j < i && remove@[j]) ==> measure(ir::instrs_view(out@)) < measure(w.take(i as int)),
            !(exists|j: int| 0 <= j < i && remove@[j]) ==> ir::instrs_view(out@) == w.take(i as int),
        decreases n - i,
    {
        let ghost prev = ir::instrs_view(out@);
        proof {
            assert(w.take(i as int + 1) =~= w.take(i as int).push(w[i as int]));
            lemma_measure_push(w.take(i as int), w[i as int]);
            lemma_keep_step(w, remove@, i as int);
        }
        if !remove[i] {
            out.push(func.instructions[i].copy());
            proof {
                assert(ir::instrs_view(out@) =~= prev.push(w[i as int]));
                lemma_measure_push(prev, w[i as int]);
            }
        } else {
            proof {
                assert(ir::instrs_view(out@) =~= prev);
            }
        }
        proof {
            if exists|j: int| 0 <= j < i + 1 && remove@[j] {
                if !(exists|j: int| 0 <= j < i && remove@[j]) {
                    assert(remove@[i as int]);
                }
            }
        }
        i = i + 1;
    }
    proof {
        assert(w.take(n as int) =~= w);
    }
    func.instructions = out;
    changed
}

// ---------------------------------------------------------------------------
// The driver
// ---------------------------------------------------------------------------

pub open spec fn no_comments(s: Seq<InstrV>) -> bool {
    forall|k: int| 0 <= k < s.len() ==> !(#[trigger] s[k] is Comment)
}

proof fn lemma_drop_comments(s: Seq<InstrV>)
    ensures
        no_comments(drop_comments(s)),
    decreases s.len(),
{
    if s.len() > 0 {
        lemma_drop_comments(s.drop_first());
        let head = if s[0] is Comment {
            Seq::<InstrV>::empty()
        } else {
            seq![s[0]]
        };
        let r = drop_comments(s.drop_first());
        assert forall|k: int| 0 <= k < (head + r).len() implies !(#[trigger] (head + r)[k] is Comment) by {
            if k >= head.len() {
                assert((head + r)[k] == r[k - head.len()]);
            }
        }
    }
}

proof fn lemma_drop_comments_id(s: Seq<InstrV>)
    requires
        no_comments(s),
    ensures
        drop_comments(s) == s,
    decreases s.len(),
{
    if s.len() > 0 {
        assert(!(s[0] is Comment));
        assert forall|k: int| 0 <= k < s.drop_first().len() implies !(#[trigger] s.drop_first()[k] is Comment) by {
            assert(s.drop_first()[k] == s[k + 1]);
        }
        lemma_drop_comments_id(s.drop_first());
        assert(seq![s[0]] + s.drop_first() =~= s);
    }
}

proof fn lemma_drop_jumps_len(s: Seq<InstrV>)
    ensures
        drop_jumps_to_next(s).len() <= s.len(),
        drop_jumps_to_next(s).len() == s.len() ==> drop_jumps_to_next(s) == s,
    decreases s.len(),
{
    if s.len() >= 2 {
        lemma_drop_jumps_len(s.drop_first());
        assert(seq![s[0]] + s.drop_first() =~= s);
    }
}

proof fn lemma_drop_unreachable_len(s: Seq<InstrV>, dead: bool)
    ensures
        drop_unreachable(s, dead).len() <= s.len(),
        drop_unreachable(s, dead).len() == s.len() ==> drop_unreachable(s, dead) == s,
    decreases s.len(),
{
    if s.len() > 0 {
        lemma_drop_unreachable_len(s.drop_first(), true);
        lemma_drop_unreachable_len(s.drop_first(), false);
        assert(seq![s[0]] + s.drop_first() =~= s);
    }
}

/// Instructions on which no pass changes anything: constant and branch
/// folding leave them as they are, store-to-load forwarding finds nothing
/// to forward (or does not run, for code that takes addresses), dead-code
/// elimination keeps everything, the clean-up removes nothing, and they
/// hold no notes.
pub open spec fn stable(s: Seq<InstrV>) -> bool {
    &&& cf_out(s) == s
    &&& fb_out(s) == s
    &&& !has_load_addr(s) ==> !(exists|j: int| 0 <= j < s.len() && mf_marks(s)[j]) && mf_out(s) == s
    &&& dce_out(s, s) == s
    &&& drop_unreachable(drop_jumps_to_next(s), false) == s
    &&& no_comments(s)
}

/// Optimization has reached a fixed point on stable instructions: one more
/// round of the passes changes nothing and reports no change, so optimizing
/// again gives them back.
pub proof fn lemma_stable_fixed_point(s: Seq<InstrV>)
    requires
        stable(s),
    ensures
        round(s) == (s, false),
        optimized(s) == s,
{
    lemma_drop_comments_id(s);
    let (t, c) = round(s);
    assert(t == s && !c);
}

/// What optimizing a function keeps of it: everything but its
/// instructions, which are no more costly and hold no notes.
pub open spec fn optimized_from(f: IrFunction, g: IrFunction) -> bool {
    &&& same_header(f, g)
    &&& measure(body(f)) <= measure(body(g))
    &&& no_comments(body(f))
}

pub open spec fn has_load_addr(s: Seq<InstrV>) -> bool {
    exists|k: int| 0 <= k < s.len() && s[k] is LoadAddr
}

/// One round of the passes, in order, and whether any of them changed
/// something.
pub open spec fn round(s: Seq<InstrV>) -> (Seq<InstrV>, bool) {
    let s1 = cf_out(s);
    let s2 = fb_out(s1);
    let (s3, c3) = if has_load_addr(s2) {
        (s2, false)
    } else {
        (mf_out(s2), exists|j: int| 0 <= j < s2.len() && mf_marks(s2)[j])
    };
    let s4 = dce_out(s3, s3);
    let s5 = drop_unreachable(drop_jumps_to_next(s4), false);
    (drop_comments(s5), s1 != s || s2 != s1 || c3 || measure(s4) < measure(s3) || s5.len() < s4.len())
}

/// Rounds until one changes nothing. (A round that changes something
/// lowers the measure; the last branch is never taken.)
pub open spec fn optimized(s: Seq<InstrV>) -> Seq<InstrV>
    decreases measure(s),
{
    let (t, c) = round(s);
    if c && measure(t) < measure(s) {
        optimized(t)
    } else {
        t
    }
}

/// Runs all passes again and again until none of them changes anything.
/// Every round that changes something lowers the measure, so this ends.
pub fn optimize_function(func: &mut IrFunction)
    ensures
        optimized_from(*final(func), *old(func)),
        body(*final(func)) == optimized(body(*old(func))),
        no_comments(body(*old(func))) ==> stable(body(*final(func))),
{
    loop
        invariant_except_break
            optimized(body(*func)) == optimized(body(*old(func))),
        invariant
            same_header(*func, *old(func)),
            measure(body(*func)) <= measure(body(*old(func))),
            no_comments(body(*old(func))) ==> no_comments(body(*func)),
        ensures
            optimized_from(*func, *old(func)),
            body(*func) == optimized(body(*old(func))),
            no_comments(body(*old(func))) ==> stable(body(*func)),
        decreases measure(body(*func)),
    {
        let ghost start = measure(body(*func));
        let ghost s0 = body(*func);
        let c1 = constant_fold(func);
        let c2 = fold_branches(func);
        let ghost s2 = body(*func);
        let c3 = mem_forward(func);
        let c4 = dead_code_elim(func);
        let ghost before_peephole = body(*func);
        let c5 = peephole(func);
        proof {
            if has_load_addr(s2) {
                let k = choose|k: int| 0 <= k < s2.len() && s2[k] is LoadAddr;
                assert(s2[k] is LoadAddr);
            }
            assert(round(s0).0 == body(*func));
            assert(round(s0).1 == (c1 || c2 || c3 || c4 || c5));
        }
        proof {
            lemma_drop_comments(drop_unreachable(drop_jumps_to_next(before_peephole), false));
        }
        if !(c1 || c2 || c3 || c4 || c5) {
            proof {
                if no_comments(s0) {
                    if !has_load_addr(s2) {
                        assert(mf_out(s0) == s0);
                    }
                    assert(before_peephole == s0);
                    lemma_drop_jumps_len(s0);
                    lemma_drop_unreachable_len(drop_jumps_to_next(s0), false);
                    assert(drop_unreachable(drop_jumps_to_next(s0), false) == s0);
                    lemma_drop_comments_id(s0);
                    assert(body(*func) == s0);
                }
            }
            break;
        }
        assert(measure(body(*func)) < start);
    }
}

/// Optimizes every function of the program.
pub fn optimize_program(program: &mut IrProgram)
    ensures
        final(program).functions@.len() == old(program).functions@.len(),
        forall|k: int|
            0 <= k < old(program).functions@.len() ==> optimized_from(
                #[trigger] final(program).functions@[k],
                old(program).functions@[k],
            ) && body(final(program).functions@[k]) == optimized(body(old(program).functions@[k])),
{
    let ghost orig = program.functions@;
    let n = program.functions.len();
    let mut done: Vec<IrFunction> = Vec::new();
    while program.functions.len() > 0
        invariant
            n == orig.len(),
            program.functions@ == orig.take(program.functions@.len() as int),
            program.functions@.len() <= n,
            done@.len() + program.functions@.len() == n,
            forall|j: int|
                0 <= j < done@.len() ==> optimized_from(#[trigger] done@[j], orig[n - 1 - j]) && body(done@[j]) == optimized(
                    body(orig[n - 1 - j]),
                ),
        decreases program.functions@.len(),
    {
        let ghost m = program.functions@.len();
        let mut f = program.functions.pop().unwrap();
        assert(f == orig[m - 1]);
        optimize_function(&mut f);
        done.push(f);
        assert(program.functions@ =~= orig.take(m - 1));
    }
    while done.len() > 0
        invariant
            n == orig.len(),
            done@.len() + program.functions@.len() == n,
            forall|j: int|
                0 <= j < done@.len() ==> optimized_from(#[trigger] done@[j], orig[n - 1 - j]) && body(done@[j]) == optimized(
                    body(orig[n - 1 - j]),
                ),
            forall|j: int|
                0 <= j < program.functions@.len() ==> optimized_from(#[trigger] program.functions@[j], orig[j]) && body(
                    program.functions@[j],
                ) == optimized(body(orig[j])),
        decreases done@.len(),
    {
        let f = done.pop().unwrap();
        program.functions.push(f);
    }
}

} // verus!
