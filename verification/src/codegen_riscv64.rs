//! Code generation for RISC-V64 (RV64GC, the standard calling convention,
//! GNU `as`). Temporaries live only in the callee-saved registers s1..s8 or
//! in spill slots; arguments go in a0..a7 and the result comes back in a0.
//! The frame pointer s0 plays the part %rbp plays on x86_64.
use vstd::prelude::*;
use vstd::string::*;
use crate::ir::{Temp, Location, Operand, IrInstruction, IrBinOp, IrFunction, IrProgram, InstrV, OperandV};
use crate::ir;
use crate::optimize;
use crate::regalloc;
use crate::regalloc::{Home, RegAllocResult, homes_ok};
use crate::parser;
use crate::text;
use crate::text::{push_str, push_decimal, push_signed_decimal, push_debug_str, str_eq};
use crate::emit::{ln, local_label, home_of, intern, homes_bounded, strs_view, round16, string_entries, rodata_text, uses_homed};

verus! {

broadcast use vstd::std_specs::hash::group_hash_axioms;

// ---------------------------------------------------------------------------
// Registers and addresses
// ---------------------------------------------------------------------------

pub open spec fn pool(r: int) -> Seq<char> {
    if r == 0 {
        "s1"@
    } else if r == 1 {
        "s2"@
    } else if r == 2 {
        "s3"@
    } else if r == 3 {
        "s4"@
    } else if r == 4 {
        "s5"@
    } else if r == 5 {
        "s6"@
    } else if r == 6 {
        "s7"@
    } else {
        "s8"@
    }
}

pub open spec fn arg_reg(i: int) -> Seq<char> {
    if i == 0 {
        "a0"@
    } else if i == 1 {
        "a1"@
    } else if i == 2 {
        "a2"@
    } else if i == 3 {
        "a3"@
    } else if i == 4 {
        "a4"@
    } else if i == 5 {
        "a5"@
    } else if i == 6 {
        "a6"@
    } else {
        "a7"@
    }
}

/// The bytes above the locals: ra, s0 and the eight pool registers.
pub open spec fn header_bytes() -> int {
    80
}

/// The frame address of stack slot `off`.
pub open spec fn slot_addr(off: int) -> Seq<char> {
    "-"@ + text::signed_decimal(header_bytes() - off) + "(s0)"@
}

/// The frame address of spill slot `k`, below the locals.
pub open spec fn spill_addr(lb: int, k: int) -> Seq<char> {
    "-"@ + text::signed_decimal(header_bytes() + lb + 8 * (k + 1)) + "(s0)"@
}

/// A line `inst a, b`.
pub open spec fn op2(inst: Seq<char>, a: Seq<char>, b: Seq<char>) -> Seq<char> {
    ln(inst + " "@ + a + ", "@ + b)
}

/// A line `inst a, b, c`.
pub open spec fn op3(inst: Seq<char>, a: Seq<char>, b: Seq<char>, c: Seq<char>) -> Seq<char> {
    ln(inst + " "@ + a + ", "@ + b + ", "@ + c)
}

/// Reading temporary `t`: the code that loads it into `scratch` if it is
/// spilled, and the register that then holds it.
#[verifier::opaque]
pub open spec fn read_code(homes: Map<u32, Home>, lb: int, t: Temp, scratch: Seq<char>) -> (Seq<char>, Seq<char>) {
    match homes[t.0] {
        Home::Reg(r) => (Seq::empty(), pool(r as int)),
        Home::Spill(k) => (op2("ld"@, scratch, spill_addr(lb, k as int)), scratch),
    }
}

/// Storing register `src` into the home of `t`.
#[verifier::opaque]
pub open spec fn write_code(homes: Map<u32, Home>, lb: int, t: Temp, src: Seq<char>) -> Seq<char> {
    match homes[t.0] {
        Home::Reg(r) => if pool(r as int) != src {
            op2("mv"@, pool(r as int), src)
        } else {
            Seq::empty()
        },
        Home::Spill(k) => op2("sd"@, src, spill_addr(lb, k as int)),
    }
}

/// The register an instruction builds the value of `t` in.
pub open spec fn work_reg(homes: Map<u32, Home>, t: Temp) -> Seq<char> {
    match homes[t.0] {
        Home::Reg(r) => pool(r as int),
        Home::Spill(_) => "t0"@,
    }
}

/// Moves a value into `to` unless it is there already.
#[verifier::opaque]
pub open spec fn mv_unless(from: Seq<char>, to: Seq<char>) -> Seq<char> {
    if from != to {
        op2("mv"@, to, from)
    } else {
        Seq::empty()
    }
}

/// `k` where `n` is the `k`-th power of two.
pub open spec fn log2_exact(n: int) -> Option<nat>
    decreases n,
{
    if n <= 0 {
        None
    } else if n == 1 {
        Some(0)
    } else if n % 2 == 0 {
        match log2_exact(n / 2) {
            Some(k) => Some(k + 1),
            None => None,
        }
    } else {
        None
    }
}

/// Multiplying register `reg` by `scale` in place: nothing for 1, a shift
/// for other powers of two, a multiplication through t3 otherwise.
pub open spec fn scale_text(reg: Seq<char>, scale: i32) -> Seq<char> {
    if scale == 1 {
        Seq::empty()
    } else {
        match log2_exact(scale as int) {
            Some(k) => op3("slli"@, reg, reg, text::decimal(k)),
            None => op2("li"@, "t3"@, text::signed_decimal(scale as int)) + op3("mul"@, reg, reg, "t3"@),
        }
    }
}

fn pool_str(r: usize) -> (s: &'static str)
    requires
        r < 8,
    ensures
        s@ == pool(r as int),
{
    if r == 0 {
        "s1"
    } else if r == 1 {
        "s2"
    } else if r == 2 {
        "s3"
    } else if r == 3 {
        "s4"
    } else if r == 4 {
        "s5"
    } else if r == 5 {
        "s6"
    } else if r == 6 {
        "s7"
    } else {
        "s8"
    }
}

fn arg_str(i: usize) -> (s: &'static str)
    requires
        i < 8,
    ensures
        s@ == arg_reg(i as int),
{
    if i == 0 {
        "a0"
    } else if i == 1 {
        "a1"
    } else if i == 2 {
        "a2"
    } else if i == 3 {
        "a3"
    } else if i == 4 {
        "a4"
    } else if i == 5 {
        "a5"
    } else if i == 6 {
        "a6"
    } else {
        "a7"
    }
}

/// The shift that multiplies by `n`, when `n` is a power of two.
fn exact_shift(n: i32) -> (r: Option<u32>)
    ensures
        r matches Some(k) ==> log2_exact(n as int) == Some(k as nat),
        r is None ==> log2_exact(n as int) is None,
{
    if n <= 0 {
        return None;
    }
    let mut m: i32 = n;
    let mut k: u32 = 0;
    while m > 1 && m % 2 == 0
        invariant
            0 < m <= n,
            k + m <= n,
            log2_exact(n as int) == match log2_exact(m as int) {
                Some(j) => Some((j + k) as nat),
                None => None,
            },
        decreases m,
    {
        m = m / 2;
        k = k + 1;
    }
    if m == 1 {
        Some(k)
    } else {
        None
    }
}

// ---------------------------------------------------------------------------
// The text of one instruction
// ---------------------------------------------------------------------------

/// `t2` = the address of element `index` of the array at `base_offset` in
/// the frame (with `t1` = the scaled index).
pub open spec fn frame_elem_addr(homes: Map<u32, Home>, lb: int, base_offset: i32, index: Temp, elem_size: i32) -> Seq<char> {
    let (c, idx) = read_code(homes, lb, index, "t1"@);
    c + mv_unless(idx, "t1"@) + scale_text("t1"@, elem_size) + op2(
        "li"@,
        "t2"@,
        text::signed_decimal(header_bytes() - base_offset),
    ) + op3("sub"@, "t2"@, "s0"@, "t2"@) + op3("sub"@, "t2"@, "t2"@, "t1"@)
}

/// The same for an array a pointer in `base` points to.
pub open spec fn ptr_elem_addr(homes: Map<u32, Home>, lb: int, base: Temp, index: Temp, elem_size: i32) -> Seq<char> {
    let (c, idx) = read_code(homes, lb, index, "t1"@);
    let (cb, b) = read_code(homes, lb, base, "t2"@);
    c + mv_unless(idx, "t1"@) + scale_text("t1"@, elem_size) + cb + mv_unless(b, "t2"@) + op3("sub"@, "t2"@, "t2"@, "t1"@)
}

/// The instructions computing `w = l op r`.
pub open spec fn op_text(op: IrBinOp, w: Seq<char>, l: Seq<char>, r: Seq<char>) -> Seq<char> {
    match op {
        IrBinOp::Add => op3("add"@, w, l, r),
        IrBinOp::Sub => op3("sub"@, w, l, r),
        IrBinOp::Mul => op3("mul"@, w, l, r),
        IrBinOp::Div => op3("div"@, w, l, r),
        IrBinOp::Mod => op3("rem"@, w, l, r),
        IrBinOp::DivU => op3("divu"@, w, l, r),
        IrBinOp::ModU => op3("remu"@, w, l, r),
        IrBinOp::Eq => op3("sub"@, w, l, r) + op2("seqz"@, w, w),
        IrBinOp::Neq => op3("sub"@, w, l, r) + op2("snez"@, w, w),
        IrBinOp::Lt => op3("slt"@, w, l, r),
        IrBinOp::Gt => op3("slt"@, w, r, l),
        IrBinOp::Le => op3("slt"@, w, r, l) + op3("xori"@, w, w, "1"@),
        IrBinOp::Ge => op3("slt"@, w, l, r) + op3("xori"@, w, w, "1"@),
        IrBinOp::LtU => op3("sltu"@, w, l, r),
        IrBinOp::GtU => op3("sltu"@, w, r, l),
        IrBinOp::LeU => op3("sltu"@, w, r, l) + op3("xori"@, w, w, "1"@),
        IrBinOp::GeU => op3("sltu"@, w, l, r) + op3("xori"@, w, w, "1"@),
        IrBinOp::And => op2("snez"@, "t0"@, l) + op2("snez"@, "t1"@, r) + op3("and"@, w, "t0"@, "t1"@),
        IrBinOp::Or => op3("or"@, w, l, r) + op2("snez"@, w, w),
    }
}

/// A RISC-V instruction over named registers, of the kinds that compute a
/// truth value.
pub enum RvInstr {
    Slt(Seq<char>, Seq<char>, Seq<char>),
    Sltu(Seq<char>, Seq<char>, Seq<char>),
    Sub(Seq<char>, Seq<char>, Seq<char>),
    Seqz(Seq<char>, Seq<char>),
    Snez(Seq<char>, Seq<char>),
    Xori1(Seq<char>, Seq<char>),
    Add(Seq<char>, Seq<char>, Seq<char>),
    Mul(Seq<char>, Seq<char>, Seq<char>),
    And(Seq<char>, Seq<char>, Seq<char>),
    Or(Seq<char>, Seq<char>, Seq<char>),
}

/// The assembly line of an instruction.
pub open spec fn rv_text(i: RvInstr) -> Seq<char> {
    match i {
        RvInstr::Slt(d, a, b) => ln("slt"@ + " "@ + d + ", "@ + a + ", "@ + b),
        RvInstr::Sltu(d, a, b) => ln("sltu"@ + " "@ + d + ", "@ + a + ", "@ + b),
        RvInstr::Sub(d, a, b) => ln("sub"@ + " "@ + d + ", "@ + a + ", "@ + b),
        RvInstr::Seqz(d, a) => ln("seqz"@ + " "@ + d + ", "@ + a),
        RvInstr::Snez(d, a) => ln("snez"@ + " "@ + d + ", "@ + a),
        RvInstr::Xori1(d, a) => ln("xori"@ + " "@ + d + ", "@ + a + ", "@ + "1"@),
        RvInstr::Add(d, a, b) => ln("add"@ + " "@ + d + ", "@ + a + ", "@ + b),
        RvInstr::Mul(d, a, b) => ln("mul"@ + " "@ + d + ", "@ + a + ", "@ + b),
        RvInstr::And(d, a, b) => ln("and"@ + " "@ + d + ", "@ + a + ", "@ + b),
        RvInstr::Or(d, a, b) => ln("or"@ + " "@ + d + ", "@ + a + ", "@ + b),
    }
}

pub open spec fn rv_texts(p: Seq<RvInstr>) -> Seq<char>
    decreases p.len(),
{
    if p.len() == 0 {
        Seq::empty()
    } else {
        rv_text(p[0]) + rv_texts(p.drop_first())
    }
}

/// What an instruction does to the registers, as the RISC-V manual says:
/// `slt`/`sltu` set 1 when the first source is less (signed/unsigned),
/// `add`/`sub`/`mul` compute with wrap-around, `seqz`/`snez` test for
/// zero, `and`/`or` and `xori` are bitwise.
pub open spec fn rv_step(m: Map<Seq<char>, i64>, i: RvInstr) -> Map<Seq<char>, i64> {
    match i {
        RvInstr::Slt(d, a, b) => m.insert(d, if m[a] < m[b] { 1i64 } else { 0i64 }),
        RvInstr::Sltu(d, a, b) => m.insert(d, if (m[a] as u64) < (m[b] as u64) { 1i64 } else { 0i64 }),
        RvInstr::Sub(d, a, b) => m.insert(d, m[a].wrapping_sub(m[b])),
        RvInstr::Seqz(d, a) => m.insert(d, if m[a] == 0 { 1i64 } else { 0i64 }),
        RvInstr::Snez(d, a) => m.insert(d, if m[a] != 0 { 1i64 } else { 0i64 }),
        RvInstr::Xori1(d, a) => m.insert(d, m[a] ^ 1i64),
        RvInstr::Add(d, a, b) => m.insert(d, m[a].wrapping_add(m[b])),
        RvInstr::Mul(d, a, b) => m.insert(d, m[a].wrapping_mul(m[b])),
        RvInstr::And(d, a, b) => m.insert(d, m[a] & m[b]),
        RvInstr::Or(d, a, b) => m.insert(d, m[a] | m[b]),
    }
}

pub open spec fn rv_run(p: Seq<RvInstr>, m: Map<Seq<char>, i64>) -> Map<Seq<char>, i64>
    decreases p.len(),
{
    if p.len() == 0 {
        m
    } else {
        rv_run(p.drop_first(), rv_step(m, p[0]))
    }
}

proof fn lemma_rv_one(i: RvInstr, m: Map<Seq<char>, i64>)
    ensures
        rv_texts(seq![i]) == rv_text(i),
        rv_run(seq![i], m) == rv_step(m, i),
{
    let e = Seq::<RvInstr>::empty();
    assert(seq![i].drop_first() =~= e);
    assert(seq![i][0] == i);
    assert(rv_texts(e) == Seq::<char>::empty());
    assert(rv_run(e, rv_step(m, i)) == rv_step(m, i));
    assert(rv_texts(seq![i]) == rv_text(i) + rv_texts(e));
    assert(rv_text(i) + Seq::<char>::empty() =~= rv_text(i));
}

proof fn lemma_rv_two(i: RvInstr, j: RvInstr, m: Map<Seq<char>, i64>)
    ensures
        rv_texts(seq![i, j]) == rv_text(i) + rv_text(j),
        rv_run(seq![i, j], m) == rv_step(rv_step(m, i), j),
{
    assert(seq![i, j].drop_first() =~= seq![j]);
    assert(seq![i, j][0] == i);
    lemma_rv_one(j, rv_step(m, i));
}

/// The instructions emitted for a comparison `w = l op r` (`op_text`) are
/// RISC-V instructions that, run on registers `l` and `r` holding the
/// operands, leave in `w` 1 when the comparison holds of them (signed or
/// unsigned as the operator says) and 0 when it does not.
pub proof fn lemma_compare_code_meaning(op: IrBinOp, w: Seq<char>, l: Seq<char>, r: Seq<char>, lv: i64, rv: i64)
    requires
        ir::is_comparison(op),
        l == r ==> lv == rv,
    ensures
        exists|p: Seq<RvInstr>|
            rv_texts(p) == op_text(op, w, l, r) && #[trigger] rv_run(p, map![l => lv, r => rv])[w] == (if ir::relation_holds(
                op,
                lv,
                rv,
            ) {
                1i64
            } else {
                0i64
            }),
{
    let m = map![l => lv, r => rv];
    assert(m[l] == lv && m[r] == rv);
    assert((0i64 ^ 1i64) == 1i64) by (bit_vector);
    assert((1i64 ^ 1i64) == 0i64) by (bit_vector);
    let p: Seq<RvInstr> = match op {
        IrBinOp::Eq => seq![RvInstr::Sub(w, l, r), RvInstr::Seqz(w, w)],
        IrBinOp::Neq => seq![RvInstr::Sub(w, l, r), RvInstr::Snez(w, w)],
        IrBinOp::Lt => seq![RvInstr::Slt(w, l, r)],
        IrBinOp::Gt => seq![RvInstr::Slt(w, r, l)],
        IrBinOp::Le => seq![RvInstr::Slt(w, r, l), RvInstr::Xori1(w, w)],
        IrBinOp::Ge => seq![RvInstr::Slt(w, l, r), RvInstr::Xori1(w, w)],
        IrBinOp::LtU => seq![RvInstr::Sltu(w, l, r)],
        IrBinOp::GtU => seq![RvInstr::Sltu(w, r, l)],
        IrBinOp::LeU => seq![RvInstr::Sltu(w, r, l), RvInstr::Xori1(w, w)],
        _ => seq![RvInstr::Sltu(w, l, r), RvInstr::Xori1(w, w)],
    };
    if p.len() == 1 {
        lemma_rv_one(p[0], m);
        assert(p == seq![p[0]]);
    } else {
        lemma_rv_two(p[0], p[1], m);
        assert(p == seq![p[0], p[1]]);
    }
    assert(rv_texts(p) == op_text(op, w, l, r));
    assert(rv_run(p, m)[w] == (if ir::relation_holds(op, lv, rv) { 1i64 } else { 0i64 }));
}

/// The instructions emitted for `w = l op r` with an arithmetic or logical
/// operator compute, on registers `l` and `r` holding the operands, the
/// value that constant folding gives for the same operator and operands.
/// (`and` goes through `t0` and `t1`, so the right operand is not in `t0`.)
pub proof fn lemma_arith_code_meaning(op: IrBinOp, w: Seq<char>, l: Seq<char>, r: Seq<char>, lv: i64, rv: i64)
    requires
        op is Add || op is Sub || op is Mul || op is And || op is Or,
        l == r ==> lv == rv,
        op is And ==> r != "t0"@,
    ensures
        exists|p: Seq<RvInstr>|
            rv_texts(p) == op_text(op, w, l, r) && #[trigger] rv_run(p, map![l => lv, r => rv])[w] == optimize::fold_spec(
                op,
                lv,
                rv,
            )->Some_0,
{
    let m = map![l => lv, r => rv];
    assert(m[l] == lv && m[r] == rv);
    assert(forall|a: i64, b: i64| #![auto] (a | b) != 0 <==> (a != 0 || b != 0)) by (bit_vector);
    assert((1i64 & 1i64) == 1i64 && (1i64 & 0i64) == 0i64 && (0i64 & 1i64) == 0i64 && (0i64 & 0i64) == 0i64)
        by (bit_vector);
    match op {
        IrBinOp::Add => {
            let p = seq![RvInstr::Add(w, l, r)];
            lemma_rv_one(p[0], m);
            assert(p == seq![p[0]]);
            assert(rv_texts(p) == op_text(op, w, l, r) && rv_run(p, m)[w] == optimize::fold_spec(op, lv, rv)->Some_0);
        },
        IrBinOp::Sub => {
            let p = seq![RvInstr::Sub(w, l, r)];
            lemma_rv_one(p[0], m);
            assert(p == seq![p[0]]);
            assert(rv_texts(p) == op_text(op, w, l, r) && rv_run(p, m)[w] == optimize::fold_spec(op, lv, rv)->Some_0);
        },
        IrBinOp::Mul => {
            let p = seq![RvInstr::Mul(w, l, r)];
            lemma_rv_one(p[0], m);
            assert(p == seq![p[0]]);
            assert(rv_texts(p) == op_text(op, w, l, r) && rv_run(p, m)[w] == optimize::fold_spec(op, lv, rv)->Some_0);
        },
        IrBinOp::Or => {
            let p = seq![RvInstr::Or(w, l, r), RvInstr::Snez(w, w)];
            lemma_rv_two(p[0], p[1], m);
            assert(p == seq![p[0], p[1]]);
            assert(rv_texts(p) == op_text(op, w, l, r) && rv_run(p, m)[w] == optimize::fold_spec(op, lv, rv)->Some_0);
        },
        _ => {
            reveal_strlit("t0");
            reveal_strlit("t1");
            assert("t0"@[1] != "t1"@[1]);
            let p = seq![RvInstr::Snez("t0"@, l), RvInstr::Snez("t1"@, r), RvInstr::And(w, "t0"@, "t1"@)];
            lemma_rv_two(p[0], p[1], m);
            let m2 = rv_step(rv_step(m, p[0]), p[1]);
            lemma_rv_one(p[2], m2);
            lemma_rv_three(p[0], p[1], p[2], m);
            assert(p == seq![p[0], p[1], p[2]]);
            assert(rv_texts(p) == op_text(op, w, l, r));
            assert(rv_run(p, m)[w] == optimize::fold_spec(op, lv, rv)->Some_0);
        },
    }
}

proof fn lemma_rv_three(i: RvInstr, j: RvInstr, k: RvInstr, m: Map<Seq<char>, i64>)
    ensures
        rv_texts(seq![i, j, k]) == rv_text(i) + rv_text(j) + rv_text(k),
        rv_run(seq![i, j, k], m) == rv_step(rv_step(rv_step(m, i), j), k),
{
    assert(seq![i, j, k].drop_first() =~= seq![j, k]);
    assert(seq![i, j, k][0] == i);
    lemma_rv_two(j, k, rv_step(m, i));
    assert(rv_text(i) + (rv_text(j) + rv_text(k)) =~= rv_text(i) + rv_text(j) + rv_text(k));
}

/// The code of a binary operation: both sides read (into t0 and t1 when
/// spilled), the operation in the destination's register, the result home.
pub open spec fn binop_text(homes: Map<u32, Home>, lb: int, dst: Temp, left: Temp, op: IrBinOp, right: Temp) -> Seq<char> {
    let w = work_reg(homes, dst);
    let (c1, l) = read_code(homes, lb, left, "t0"@);
    let (c2, r) = read_code(homes, lb, right, "t1"@);
    c1 + c2 + op_text(op, w, l, r) + write_code(homes, lb, dst, w)
}

/// Moving the arguments `args[i..]` into the argument registers.
pub open spec fn args_text(homes: Map<u32, Home>, lb: int, args: Seq<Temp>, i: int) -> Seq<char>
    decreases args.len() - i,
{
    if i < 0 || i >= args.len() {
        Seq::empty()
    } else {
        let (c, v) = read_code(homes, lb, args[i], "t0"@);
        c + mv_unless(v, arg_reg(i)) + args_text(homes, lb, args, i + 1)
    }
}

/// A branch `b` on `cond`.
pub open spec fn branch_text(homes: Map<u32, Home>, lb: int, fname: Seq<char>, cond: Temp, target: Seq<char>, b: Seq<char>) -> Seq<char> {
    let (c, o) = read_code(homes, lb, cond, "t0"@);
    c + op2(b, o, local_label(fname, target))
}

pub open spec fn return_text(homes: Map<u32, Home>, lb: int, v: Option<Temp>, epi: Seq<char>) -> Seq<char> {
    (match v {
        Some(t) => {
            let (c, r) = read_code(homes, lb, t, "a0"@);
            c + mv_unless(r, "a0"@)
        },
        None => op2("li"@, "a0"@, "0"@),
    }) + ln("j "@ + epi)
}

/// Loading an immediate, and the string table after it.
pub open spec fn load_imm_text(homes: Map<u32, Home>, lb: int, strs: Seq<Seq<char>>, dst: Temp, value: OperandV) -> (
    Seq<char>,
    Seq<Seq<char>>,
) {
    let w = work_reg(homes, dst);
    match value {
        OperandV::ImmFloat { bits, text } => (ln(
            "# UWAGA: literał zmiennoprzecinkowy "@ + text
                + " przechowany jako surowe bity (IR nie niesie typu operacji arytmetycznej)"@,
        ) + op2("li"@, w, text::signed_decimal((bits as i64) as int)) + write_code(homes, lb, dst, w), strs),
        OperandV::ImmString(s) => {
            let (k, strs2) = intern(strs, parser::trim_quotes(s));
            (op2("la"@, w, ".Lstr"@ + text::decimal(k as nat)) + write_code(homes, lb, dst, w), strs2)
        },
        OperandV::ImmInt(v) => (op2("li"@, w, text::signed_decimal(v as int)) + write_code(homes, lb, dst, w), strs),
        _ => (Seq::empty(), strs),
    }
}

/// Reading the element whose address is in t2 into `dst`.
pub open spec fn elem_load_text(homes: Map<u32, Home>, lb: int, addr: Seq<char>, dst: Temp) -> Seq<char> {
    let w = work_reg(homes, dst);
    addr + op2("ld"@, w, "0(t2)"@) + write_code(homes, lb, dst, w)
}

/// Writing `src` to the element whose address is in t2.
pub open spec fn elem_store_text(homes: Map<u32, Home>, lb: int, addr: Seq<char>, src: Temp) -> Seq<char> {
    let (c, s) = read_code(homes, lb, src, "t1"@);
    addr + c + op2("sd"@, s, "0(t2)"@)
}

pub open spec fn call_text(homes: Map<u32, Home>, lb: int, dst: Option<Temp>, func: Seq<char>, args: Seq<Temp>) -> Seq<char> {
    args_text(homes, lb, args, 0) + ln("call "@ + func) + (match dst {
        Some(d) => write_code(homes, lb, d, "a0"@),
        None => Seq::empty(),
    })
}

/// The code of one instruction, and the string table after it.
pub open spec fn instr_text(
    homes: Map<u32, Home>,
    lb: int,
    fname: Seq<char>,
    epi: Seq<char>,
    strs: Seq<Seq<char>>,
    i: InstrV,
) -> (Seq<char>, Seq<Seq<char>>) {
    match i {
        InstrV::Label(l) => (local_label(fname, l) + ":\n"@, strs),
        InstrV::Jump(l) => (ln("j "@ + local_label(fname, l)), strs),
        InstrV::JumpIfZero { cond, target } => (branch_text(homes, lb, fname, cond, target, "beqz"@), strs),
        InstrV::JumpIfNotZero { cond, target } => (branch_text(homes, lb, fname, cond, target, "bnez"@), strs),
        InstrV::LoadParam { dst, index } => (write_code(homes, lb, dst, arg_reg(index as int)), strs),
        InstrV::LoadImm { dst, value } => load_imm_text(homes, lb, strs, dst, value),
        InstrV::LoadMem { dst, src } => {
            let w = work_reg(homes, dst);
            (op2("ld"@, w, slot_addr(src->StackSlot_0 as int)) + write_code(homes, lb, dst, w), strs)
        },
        InstrV::LoadIndexed { dst, base_offset, index, elem_size } => (elem_load_text(
            homes,
            lb,
            frame_elem_addr(homes, lb, base_offset, index, elem_size),
            dst,
        ), strs),
        InstrV::StoreIndexed { base_offset, index, src, elem_size } => (elem_store_text(
            homes,
            lb,
            frame_elem_addr(homes, lb, base_offset, index, elem_size),
            src,
        ), strs),
        InstrV::LoadAddr { dst, base_offset } => {
            let w = work_reg(homes, dst);
            (op2("li"@, "t2"@, text::signed_decimal(header_bytes() - base_offset)) + op3("sub"@, w, "s0"@, "t2"@)
                + write_code(homes, lb, dst, w), strs)
        },
        InstrV::LoadIndexedPtr { dst, base, index, elem_size } => (elem_load_text(
            homes,
            lb,
            ptr_elem_addr(homes, lb, base, index, elem_size),
            dst,
        ), strs),
        InstrV::StoreIndexedPtr { base, index, src, elem_size } => (elem_store_text(
            homes,
            lb,
            ptr_elem_addr(homes, lb, base, index, elem_size),
            src,
        ), strs),
        InstrV::StoreMem { dst, src } => {
            let (c, s) = read_code(homes, lb, src, "t0"@);
            (c + op2("sd"@, s, slot_addr(dst->StackSlot_0 as int)), strs)
        },
        InstrV::BinaryOp { dst, left, op, right } => (binop_text(homes, lb, dst, left, op, right), strs),
        InstrV::Call { dst, func, args } => (call_text(homes, lb, dst, func, args), strs),
        InstrV::Return(v) => (return_text(homes, lb, v, epi), strs),
        InstrV::Comment(c) => (ln("# "@ + c), strs),
    }
}

// ---------------------------------------------------------------------------
// Functions and programs
// ---------------------------------------------------------------------------

/// The registers temporaries live in are apart from the argument registers
/// and from the scratch registers t0 and t1: moving arguments into place
/// never overwrites a temporary.
pub proof fn lemma_pool_apart(r: int, i: int)
    ensures
        pool(r) != arg_reg(i),
        pool(r) != "t0"@,
        pool(r) != "t1"@,
{
    reveal_strlit("s1");
    reveal_strlit("s2");
    reveal_strlit("s3");
    reveal_strlit("s4");
    reveal_strlit("s5");
    reveal_strlit("s6");
    reveal_strlit("s7");
    reveal_strlit("s8");
    reveal_strlit("a0");
    reveal_strlit("a1");
    reveal_strlit("a2");
    reveal_strlit("a3");
    reveal_strlit("a4");
    reveal_strlit("a5");
    reveal_strlit("a6");
    reveal_strlit("a7");
    reveal_strlit("t0");
    reveal_strlit("t1");
    assert(pool(r)[0] == 's');
    if pool(r) == arg_reg(i) {
        assert(arg_reg(i)[0] == 'a');
    }
    if pool(r) == "t0"@ {
        assert("t0"@[0] == 't');
    }
    if pool(r) == "t1"@ {
        assert("t1"@[0] == 't');
    }
}

/// The shapes of instruction the generator handles: at most eight
/// parameters and call arguments, immediates in immediate loads, stack slots
/// in plain loads and stores.
pub open spec fn shape_ok(i: InstrV) -> bool {
    match i {
        InstrV::LoadParam { index, .. } => index < 8,
        InstrV::Call { args, .. } => args.len() <= 8,
        InstrV::LoadImm { value, .. } => !(value is Loc),
        InstrV::LoadMem { src, .. } => src is StackSlot,
        InstrV::StoreMem { dst, .. } => dst is StackSlot,
        _ => true,
    }
}

/// Whether an instruction can be compiled with the given homes: it has a
/// shape the generator handles and every temporary it names has a home.
pub open spec fn instr_ok(homes: Map<u32, Home>, i: InstrV) -> bool {
    &&& forall|x: u32| #[trigger] optimize::uses(i, x) ==> homes.contains_key(x)
    &&& regalloc::defines(i) matches Some(d) ==> homes.contains_key(d.0)
    &&& shape_ok(i)
}

/// What a function must be for the generator: every instruction of a shape
/// it handles, every temporary read also defined somewhere in the function,
/// and a frame that fits in the offsets.
pub open spec fn function_ok(f: IrFunction) -> bool {
    let s = optimize::body(f);
    &&& f.locals@.len() < 0x100_0000
    &&& s.len() < 0x100_0000
    &&& forall|k: int| 0 <= k < s.len() ==> shape_ok(#[trigger] s[k])
    &&& forall|k: int, x: u32| 0 <= k < s.len() && #[trigger] optimize::uses(s[k], x) ==> regalloc::defined_in(s, x)
}

/// The whole frame: the saved registers, the locals and the spill slots.
pub open spec fn frame_size(nlocals: int, nspill: int) -> int {
    round16(header_bytes() + 8 * nlocals + 8 * nspill)
}

pub open spec fn pool_saves() -> Seq<char> {
    ln("sd s1, -24(s0)"@) + ln("sd s2, -32(s0)"@) + ln("sd s3, -40(s0)"@) + ln("sd s4, -48(s0)"@) + ln("sd s5, -56(s0)"@)
        + ln("sd s6, -64(s0)"@) + ln("sd s7, -72(s0)"@) + ln("sd s8, -80(s0)"@)
}

pub open spec fn pool_restores() -> Seq<char> {
    ln("ld s1, -24(s0)"@) + ln("ld s2, -32(s0)"@) + ln("ld s3, -40(s0)"@) + ln("ld s4, -48(s0)"@) + ln("ld s5, -56(s0)"@)
        + ln("ld s6, -64(s0)"@) + ln("ld s7, -72(s0)"@) + ln("ld s8, -80(s0)"@)
}

pub open spec fn epilogue_label(name: Seq<char>) -> Seq<char> {
    ".Lepilogue_"@ + name
}

/// The prologue: the symbol, the frame of `frame` bytes, ra, s0 and the
/// register pool saved.
pub open spec fn prologue_text(name: Seq<char>, frame: int) -> Seq<char> {
    "\n    .globl "@ + name + "\n"@ + name + ":\n"@ + ln("addi sp, sp, -"@ + text::decimal(frame as nat)) + ln(
        "sd ra, "@ + text::decimal((frame - 8) as nat) + "(sp)"@,
    ) + ln("sd s0, "@ + text::decimal((frame - 16) as nat) + "(sp)"@) + ln("addi s0, sp, "@ + text::decimal(frame as nat))
        + pool_saves()
}

/// The epilogue at label `epi`, undoing the prologue and returning.
pub open spec fn epilogue_text(epi: Seq<char>, frame: int) -> Seq<char> {
    epi + ":\n"@ + pool_restores() + ln("ld ra, "@ + text::decimal((frame - 8) as nat) + "(sp)"@) + ln(
        "ld s0, "@ + text::decimal((frame - 16) as nat) + "(sp)"@,
    ) + ln("addi sp, sp, "@ + text::decimal(frame as nat)) + ln("ret"@)
}

/// The code of the instructions of `s`, leaving out the label that carries
/// the function's own name, and the string table after them.
pub open spec fn body_text(
    homes: Map<u32, Home>,
    lb: int,
    fname: Seq<char>,
    epi: Seq<char>,
    strs: Seq<Seq<char>>,
    s: Seq<InstrV>,
) -> (Seq<char>, Seq<Seq<char>>)
    decreases s.len(),
{
    if s.len() == 0 {
        (Seq::empty(), strs)
    } else {
        let (t, st) = body_text(homes, lb, fname, epi, strs, s.drop_last());
        if s.last() == InstrV::Label("func_"@ + fname) {
            (t, st)
        } else {
            let (u, st2) = instr_text(homes, lb, fname, epi, st, s.last());
            (t + u, st2)
        }
    }
}

/// The code of a function whose temporaries got the homes of `r`.
pub open spec fn function_text(f: IrFunction, r: RegAllocResult, strs: Seq<Seq<char>>) -> (Seq<char>, Seq<Seq<char>>) {
    let name = f.name@;
    let nl = f.locals@.len() as int;
    let frame = frame_size(nl, r.num_spill_slots as int);
    let epi = epilogue_label(name);
    let (b, st) = body_text(r.home@, 8 * nl, name, epi, strs, optimize::body(f));
    (prologue_text(name, frame) + b + epilogue_text(epi, frame), st)
}

/// The code of the functions `fs`, the k-th with the homes of `allocs[k]`.
pub open spec fn functions_text(fs: Seq<IrFunction>, allocs: Seq<RegAllocResult>, strs: Seq<Seq<char>>) -> (
    Seq<char>,
    Seq<Seq<char>>,
)
    decreases fs.len(),
{
    if fs.len() == 0 {
        (Seq::empty(), strs)
    } else {
        let (t, st) = functions_text(fs.drop_last(), allocs.take(fs.len() - 1), strs);
        let (u, st2) = function_text(fs.last(), allocs[fs.len() - 1], st);
        (t + u, st2)
    }
}

/// The entry point: call `main` and hand its result to the exit system call.
pub open spec fn start_text() -> Seq<char> {
    ln(".text"@) + ln(".globl _start"@) + "_start:\n"@ + ln("call main"@) + ln("li a7, 93    # sys_exit"@) + ln("ecall"@)
}

/// The assembly of a program whose k-th function got the homes `allocs[k]`,
/// after the text `t0` and with the strings `strs0` already in the table.
pub open spec fn program_text(
    fs: Seq<IrFunction>,
    allocs: Seq<RegAllocResult>,
    t0: Seq<char>,
    strs0: Seq<Seq<char>>,
) -> Seq<char> {
    let (t, st) = functions_text(fs, allocs, strs0);
    t0 + start_text() + t + rodata_text(st)
}

/// In a function the generator accepts, every instruction can be compiled
/// with the homes that register allocation gives.
pub proof fn lemma_instrs_ok(f: IrFunction, r: RegAllocResult)
    requires
        function_ok(f),
        homes_ok(optimize::body(f), r, 8),
    ensures
        forall|k: int| 0 <= k < optimize::body(f).len() ==> instr_ok(r.home@, #[trigger] optimize::body(f)[k]),
        homes_bounded(r.home@, r.num_spill_slots, 8),
{
    let s = optimize::body(f);
    assert forall|k: int| 0 <= k < s.len() implies instr_ok(r.home@, #[trigger] s[k]) by {
        assert forall|x: u32| #[trigger] optimize::uses(s[k], x) implies r.home@.contains_key(x) by {
            regalloc::lemma_first_def_defined(s, x);
        }
        match regalloc::defines(s[k]) {
            Some(d) => {
                assert(regalloc::defined_in(s, d.0));
                regalloc::lemma_first_def_defined(s, d.0);
            },
            None => {},
        }
    }
}

fn shape_fits(instr: &IrInstruction) -> (b: bool)
    ensures
        b == shape_ok(ir::instr_view(*instr)),
{
    match instr {
        IrInstruction::LoadParam { index, .. } => *index < 8,
        IrInstruction::Call { args, .. } => args.len() <= 8,
        IrInstruction::LoadImm { value, .. } => !matches!(value, Operand::Loc(_)),
        IrInstruction::LoadMem { src, .. } => matches!(src, Location::StackSlot(_)),
        IrInstruction::StoreMem { dst, .. } => matches!(dst, Location::StackSlot(_)),
        _ => true,
    }
}

/// Whether the generator accepts a function: the test of `function_ok`.
pub fn function_compilable(func: &IrFunction) -> (b: bool)
    ensures
        b == function_ok(*func),
{
    if func.locals.len() >= 0x100_0000 || func.instructions.len() >= 0x100_0000 {
        return false;
    }
    let alloc = regalloc::allocate(func, 8);
    let ghost s = optimize::body(*func);
    let mut k: usize = 0;
    while k < func.instructions.len()
        invariant
            k <= s.len(),
            s == optimize::body(*func),
            homes_ok(s, alloc, 8),
            forall|q: int| 0 <= q < k ==> shape_ok(#[trigger] s[q]),
            forall|q: int, x: u32| 0 <= q < k && #[trigger] optimize::uses(s[q], x) ==> regalloc::defined_in(s, x),
        decreases s.len() - k,
    {
        let instr = &func.instructions[k];
        assert(s[k as int] == ir::instr_view(*instr));
        if !shape_fits(instr) {
            return false;
        }
        if !uses_homed(&alloc, instr) {
            proof {
                let x = choose|x: u32| #[trigger] optimize::uses(s[k as int], x) && !alloc.home@.contains_key(x);
                regalloc::lemma_first_def_defined(s, x);
            }
            return false;
        }
        proof {
            assert forall|q: int, x: u32| 0 <= q < k + 1 && #[trigger] optimize::uses(s[q], x) implies regalloc::defined_in(
                s,
                x,
            ) by {
                if q == k {
                    regalloc::lemma_first_def_defined(s, x);
                }
            }
        }
        k = k + 1;
    }
    true
}

/// Whether the generator accepts every function of a program.
pub fn program_compilable(program: &IrProgram) -> (b: bool)
    ensures
        b == forall|k: int| 0 <= k < program.functions@.len() ==> function_ok(#[trigger] program.functions@[k]),
{
    let mut k: usize = 0;
    while k < program.functions.len()
        invariant
            k <= program.functions@.len(),
            forall|q: int| 0 <= q < k ==> function_ok(#[trigger] program.functions@[q]),
        decreases program.functions@.len() - k,
    {
        if !function_compilable(&program.functions[k]) {
            return false;
        }
        k = k + 1;
    }
    true
}

// ---------------------------------------------------------------------------
// The generator
// ---------------------------------------------------------------------------

pub struct RiscV64CodeGen {
    out: String,
    strings: Vec<String>,
}

impl RiscV64CodeGen {
    pub closed spec fn text(&self) -> Seq<char> {
        self.out@
    }

    pub closed spec fn strs(&self) -> Seq<Seq<char>> {
        strs_view(self.strings@)
    }

    pub fn new() -> (r: Self)
        ensures
            r.text() == Seq::<char>::empty(),
            r.strs() == Seq::<Seq<char>>::empty(),
    {
        let r = RiscV64CodeGen { out: String::new(), strings: Vec::new() };
        assert(r.strs() =~= Seq::<Seq<char>>::empty());
        r
    }

    fn push_spill_addr(&mut self, lb: i32, k: usize)
        requires
            0 <= lb < 0x1_0000_0000,
            k < 0x1_0000_0000,
        ensures
            final(self).text() == old(self).text() + spill_addr(lb as int, k as int),
            final(self).strs() == old(self).strs(),
    {
        let v: i64 = 80 + lb as i64 + 8 * (k as i64 + 1);
        push_str(&mut self.out, "-");
        push_signed_decimal(&mut self.out, v);
        push_str(&mut self.out, "(s0)");
        assert(self.out@ =~= old(self).out@ + spill_addr(lb as int, k as int));
    }

    fn push_slot_addr(&mut self, off: i32)
        ensures
            final(self).text() == old(self).text() + slot_addr(off as int),
            final(self).strs() == old(self).strs(),
    {
        let v: i64 = 80 - off as i64;
        push_str(&mut self.out, "-");
        push_signed_decimal(&mut self.out, v);
        push_str(&mut self.out, "(s0)");
        assert(self.out@ =~= old(self).out@ + slot_addr(off as int));
    }

    fn ln1(&mut self, a: &str)
        ensures
            final(self).text() == old(self).text() + ln(a@),
            final(self).strs() == old(self).strs(),
    {
        push_str(&mut self.out, "    ");
        push_str(&mut self.out, a);
        push_str(&mut self.out, "\n");
        assert(self.out@ =~= old(self).out@ + ln(a@));
    }

    fn ln2(&mut self, a: &str, b: &str)
        ensures
            final(self).text() == old(self).text() + ln(a@ + b@),
            final(self).strs() == old(self).strs(),
    {
        push_str(&mut self.out, "    ");
        push_str(&mut self.out, a);
        push_str(&mut self.out, b);
        push_str(&mut self.out, "\n");
        assert(self.out@ =~= old(self).out@ + ln(a@ + b@));
    }

    fn op2(&mut self, inst: &str, a: &str, b: &str)
        ensures
            final(self).text() == old(self).text() + op2(inst@, a@, b@),
            final(self).strs() == old(self).strs(),
    {
        push_str(&mut self.out, "    ");
        push_str(&mut self.out, inst);
        push_str(&mut self.out, " ");
        push_str(&mut self.out, a);
        push_str(&mut self.out, ", ");
        push_str(&mut self.out, b);
        push_str(&mut self.out, "\n");
        assert(self.out@ =~= old(self).out@ + op2(inst@, a@, b@));
    }

    fn op3(&mut self, inst: &str, a: &str, b: &str, c: &str)
        ensures
            final(self).text() == old(self).text() + op3(inst@, a@, b@, c@),
            final(self).strs() == old(self).strs(),
    {
        push_str(&mut self.out, "    ");
        push_str(&mut self.out, inst);
        push_str(&mut self.out, " ");
        push_str(&mut self.out, a);
        push_str(&mut self.out, ", ");
        push_str(&mut self.out, b);
        push_str(&mut self.out, ", ");
        push_str(&mut self.out, c);
        push_str(&mut self.out, "\n");
        assert(self.out@ =~= old(self).out@ + op3(inst@, a@, b@, c@));
    }

    /// `inst a, <number>`.
    fn op2_num(&mut self, inst: &str, a: &str, n: i64)
        ensures
            final(self).text() == old(self).text() + op2(inst@, a@, text::signed_decimal(n as int)),
            final(self).strs() == old(self).strs(),
    {
        push_str(&mut self.out, "    ");
        push_str(&mut self.out, inst);
        push_str(&mut self.out, " ");
        push_str(&mut self.out, a);
        push_str(&mut self.out, ", ");
        push_signed_decimal(&mut self.out, n);
        push_str(&mut self.out, "\n");
        assert(self.out@ =~= old(self).out@ + op2(inst@, a@, text::signed_decimal(n as int)));
    }

    /// `inst a, <slot address>`.
    fn op2_slot(&mut self, inst: &str, a: &str, off: i32)
        ensures
            final(self).text() == old(self).text() + op2(inst@, a@, slot_addr(off as int)),
            final(self).strs() == old(self).strs(),
    {
        push_str(&mut self.out, "    ");
        push_str(&mut self.out, inst);
        push_str(&mut self.out, " ");
        push_str(&mut self.out, a);
        push_str(&mut self.out, ", ");
        self.push_slot_addr(off);
        push_str(&mut self.out, "\n");
        assert(self.out@ =~= old(self).out@ + op2(inst@, a@, slot_addr(off as int)));
    }

    /// Emits what reading `t` takes and gives the register holding it.
    fn read(&mut self, alloc: &RegAllocResult, lb: i32, t: Temp, scratch: &str) -> (r: String)
        requires
            alloc.home@.contains_key(t.0),
            homes_bounded(alloc.home@, alloc.num_spill_slots, 8),
            0 <= lb < 0x1_0000_0000,
            alloc.num_spill_slots < 0x1_0000_0000,
        ensures
            final(self).text() == old(self).text() + read_code(alloc.home@, lb as int, t, scratch@).0,
            r@ == read_code(alloc.home@, lb as int, t, scratch@).1,
            final(self).strs() == old(self).strs(),
    {
        proof {
            reveal(read_code);
        }
        let h = home_of(alloc, t);
        match h {
            Home::Reg(r) => {
                assert(self.out@ =~= old(self).out@ + Seq::<char>::empty());
                String::from_str(pool_str(r))
            },
            Home::Spill(k) => {
                push_str(&mut self.out, "    ");
                push_str(&mut self.out, "ld");
                push_str(&mut self.out, " ");
                push_str(&mut self.out, scratch);
                push_str(&mut self.out, ", ");
                self.push_spill_addr(lb, k);
                push_str(&mut self.out, "\n");
                assert(self.out@ =~= old(self).out@ + read_code(alloc.home@, lb as int, t, scratch@).0);
                String::from_str(scratch)
            },
        }
    }

    /// Stores register `src` in the home of `t`.
    fn write_home(&mut self, alloc: &RegAllocResult, lb: i32, t: Temp, src: &str)
        requires
            alloc.home@.contains_key(t.0),
            homes_bounded(alloc.home@, alloc.num_spill_slots, 8),
            0 <= lb < 0x1_0000_0000,
            alloc.num_spill_slots < 0x1_0000_0000,
        ensures
            final(self).text() == old(self).text() + write_code(alloc.home@, lb as int, t, src@),
            final(self).strs() == old(self).strs(),
    {
        proof {
            reveal(write_code);
        }
        let h = home_of(alloc, t);
        match h {
            Home::Reg(r) => {
                let p = pool_str(r);
                if !str_eq(p, src) {
                    self.op2("mv", p, src);
                }
                assert(self.out@ =~= old(self).out@ + write_code(alloc.home@, lb as int, t, src@));
            },
            Home::Spill(k) => {
                push_str(&mut self.out, "    ");
                push_str(&mut self.out, "sd");
                push_str(&mut self.out, " ");
                push_str(&mut self.out, src);
                push_str(&mut self.out, ", ");
                self.push_spill_addr(lb, k);
                push_str(&mut self.out, "\n");
                assert(self.out@ =~= old(self).out@ + write_code(alloc.home@, lb as int, t, src@));
            },
        }
    }

    fn work_reg(alloc: &RegAllocResult, t: Temp) -> (r: &'static str)
        requires
            alloc.home@.contains_key(t.0),
            homes_bounded(alloc.home@, alloc.num_spill_slots, 8),
        ensures
            r@ == work_reg(alloc.home@, t),
    {
        match home_of(alloc, t) {
            Home::Reg(r) => pool_str(r),
            Home::Spill(_) => "t0",
        }
    }

    fn mv_unless(&mut self, from: &str, to: &str)
        ensures
            final(self).text() == old(self).text() + mv_unless(from@, to@),
            final(self).strs() == old(self).strs(),
    {
        proof {
            reveal(mv_unless);
        }
        if !str_eq(from, to) {
            self.op2("mv", to, from);
        }
        assert(self.out@ =~= old(self).out@ + mv_unless(from@, to@));
    }

    /// Multiplies `reg` by `scale` in place.
    fn emit_scale(&mut self, reg: &str, scale: i32)
        ensures
            final(self).text() == old(self).text() + scale_text(reg@, scale),
            final(self).strs() == old(self).strs(),
    {
        if scale == 1 {
            assert(self.out@ =~= old(self).out@ + scale_text(reg@, scale));
            return;
        }
        match exact_shift(scale) {
            Some(k) => {
                let ghost t0 = self.text();
                push_str(&mut self.out, "    ");
                push_str(&mut self.out, "slli");
                push_str(&mut self.out, " ");
                push_str(&mut self.out, reg);
                push_str(&mut self.out, ", ");
                push_str(&mut self.out, reg);
                push_str(&mut self.out, ", ");
                push_decimal(&mut self.out, k as u64);
                push_str(&mut self.out, "\n");
                assert(self.out@ =~= t0 + op3("slli"@, reg@, reg@, text::decimal(k as nat)));
            },
            None => {
                self.op2_num("li", "t3", scale as i64);
                self.op3("mul", reg, reg, "t3");
            },
        }
    }

    /// The code of a binary operation.
    #[verifier::rlimit(60)]
    fn compile_binop(&mut self, alloc: &RegAllocResult, lb: i32, dst: Temp, left: Temp, op: IrBinOp, right: Temp)
        requires
            alloc.home@.contains_key(dst.0),
            alloc.home@.contains_key(left.0),
            alloc.home@.contains_key(right.0),
            homes_bounded(alloc.home@, alloc.num_spill_slots, 8),
            0 <= lb < 0x1_0000_0000,
            alloc.num_spill_slots < 0x1_0000_0000,
        ensures
            final(self).text() == old(self).text() + binop_text(alloc.home@, lb as int, dst, left, op, right),
            final(self).strs() == old(self).strs(),
    {
        let ghost t0 = self.text();
        let w = Self::work_reg(alloc, dst);
        let l = self.read(alloc, lb, left, "t0");
        let r = self.read(alloc, lb, right, "t1");
        let ghost t1 = self.text();
        let (l, r) = (l.as_str(), r.as_str());
        match op {
            IrBinOp::Add => self.op3("add", w, l, r),
            IrBinOp::Sub => self.op3("sub", w, l, r),
            IrBinOp::Mul => self.op3("mul", w, l, r),
            IrBinOp::Div => self.op3("div", w, l, r),
            IrBinOp::Mod => self.op3("rem", w, l, r),
            IrBinOp::DivU => self.op3("divu", w, l, r),
            IrBinOp::ModU => self.op3("remu", w, l, r),
            IrBinOp::Eq => {
                self.op3("sub", w, l, r);
                self.op2("seqz", w, w);
            },
            IrBinOp::Neq => {
                self.op3("sub", w, l, r);
                self.op2("snez", w, w);
            },
            IrBinOp::Lt => self.op3("slt", w, l, r),
            IrBinOp::Gt => self.op3("slt", w, r, l),
            IrBinOp::Le => {
                self.op3("slt", w, r, l);
                self.op3("xori", w, w, "1");
            },
            IrBinOp::Ge => {
                self.op3("slt", w, l, r);
                self.op3("xori", w, w, "1");
            },
            IrBinOp::LtU => self.op3("sltu", w, l, r),
            IrBinOp::GtU => self.op3("sltu", w, r, l),
            IrBinOp::LeU => {
                self.op3("sltu", w, r, l);
                self.op3("xori", w, w, "1");
            },
            IrBinOp::GeU => {
                self.op3("sltu", w, l, r);
                self.op3("xori", w, w, "1");
            },
            IrBinOp::And => {
                self.op2("snez", "t0", l);
                self.op2("snez", "t1", r);
                self.op3("and", w, "t0", "t1");
            },
            IrBinOp::Or => {
                self.op3("or", w, l, r);
                self.op2("snez", w, w);
            },
        }
        assert(self.text() =~= t1 + op_text(op, w@, l@, r@));
        self.write_home(alloc, lb, dst, w);
        assert(self.text() =~= t0 + binop_text(alloc.home@, lb as int, dst, left, op, right));
    }

    /// Interns a string: the index of its first copy in the table, which
    /// gets it at the end if it has none.
    fn intern_string(&mut self, s: &String) -> (k: usize)
        ensures
            (k as int, final(self).strs()) == intern(old(self).strs(), s@),
            final(self).text() == old(self).text(),
    {
        let n = self.strings.len();
        let mut i: usize = 0;
        while i < n
            invariant
                n == self.strings@.len(),
                self.strs() == old(self).strs(),
                self.text() == old(self).text(),
                i <= n,
                forall|j: int| 0 <= j < i ==> self.strs()[j] != s@,
            decreases n - i,
        {
            if str_eq(self.strings[i].as_str(), s.as_str()) {
                proof {
                    let strs = self.strs();
                    assert(strs[i as int] == s@);
                    let c = choose|q: int| 0 <= q < strs.len() && strs[q] == s@ && forall|j: int| 0 <= j < q ==> strs[j] != s@;
                    if c < i {
                    } else if c > i {
                    }
                    assert(c == i);
                }
                return i;
            }
            i = i + 1;
        }
        self.strings.push(s.clone());
        proof {
            assert(self.strs() =~= old(self).strs().push(s@));
        }
        n
    }

    fn emit_frame_elem_addr(&mut self, alloc: &RegAllocResult, lb: i32, base_offset: i32, index: Temp, elem_size: i32)
        requires
            alloc.home@.contains_key(index.0),
            homes_bounded(alloc.home@, alloc.num_spill_slots, 8),
            0 <= lb < 0x1_0000_0000,
            alloc.num_spill_slots < 0x1_0000_0000,
        ensures
            final(self).text() == old(self).text() + frame_elem_addr(alloc.home@, lb as int, base_offset, index, elem_size),
            final(self).strs() == old(self).strs(),
    {
        let ghost t0 = self.text();
        let idx = self.read(alloc, lb, index, "t1");
        self.mv_unless(idx.as_str(), "t1");
        self.emit_scale("t1", elem_size);
        self.op2_num("li", "t2", 80 - base_offset as i64);
        self.op3("sub", "t2", "s0", "t2");
        self.op3("sub", "t2", "t2", "t1");
        assert(self.text() =~= t0 + frame_elem_addr(alloc.home@, lb as int, base_offset, index, elem_size));
    }

    fn emit_ptr_elem_addr(&mut self, alloc: &RegAllocResult, lb: i32, base: Temp, index: Temp, elem_size: i32)
        requires
            alloc.home@.contains_key(index.0),
            alloc.home@.contains_key(base.0),
            homes_bounded(alloc.home@, alloc.num_spill_slots, 8),
            0 <= lb < 0x1_0000_0000,
            alloc.num_spill_slots < 0x1_0000_0000,
        ensures
            final(self).text() == old(self).text() + ptr_elem_addr(alloc.home@, lb as int, base, index, elem_size),
            final(self).strs() == old(self).strs(),
    {
        let ghost t0 = self.text();
        let idx = self.read(alloc, lb, index, "t1");
        self.mv_unless(idx.as_str(), "t1");
        self.emit_scale("t1", elem_size);
        let b = self.read(alloc, lb, base, "t2");
        self.mv_unless(b.as_str(), "t2");
        self.op3("sub", "t2", "t2", "t1");
        assert(self.text() =~= t0 + ptr_elem_addr(alloc.home@, lb as int, base, index, elem_size));
    }

    fn push_local_label(&mut self, fname: &str, l: &str)
        ensures
            final(self).text() == old(self).text() + local_label(fname@, l@),
            final(self).strs() == old(self).strs(),
    {
        push_str(&mut self.out, ".L");
        push_str(&mut self.out, fname);
        push_str(&mut self.out, "_");
        push_str(&mut self.out, l);
        assert(self.out@ =~= old(self).out@ + local_label(fname@, l@));
    }

    fn emit_branch(&mut self, fname: &str, alloc: &RegAllocResult, lb: i32, cond: Temp, target: &str, b: &str)
        requires
            alloc.home@.contains_key(cond.0),
            homes_bounded(alloc.home@, alloc.num_spill_slots, 8),
            0 <= lb < 0x1_0000_0000,
            alloc.num_spill_slots < 0x1_0000_0000,
        ensures
            final(self).text() == old(self).text() + branch_text(alloc.home@, lb as int, fname@, cond, target@, b@),
            final(self).strs() == old(self).strs(),
    {
        let ghost t0 = self.text();
        let c = self.read(alloc, lb, cond, "t0");
        let ghost t1 = self.text();
        push_str(&mut self.out, "    ");
        push_str(&mut self.out, b);
        push_str(&mut self.out, " ");
        push_str(&mut self.out, c.as_str());
        push_str(&mut self.out, ", ");
        self.push_local_label(fname, target);
        push_str(&mut self.out, "\n");
        assert(self.text() =~= t1 + op2(b@, c@, local_label(fname@, target@)));
        assert(self.text() =~= t0 + branch_text(alloc.home@, lb as int, fname@, cond, target@, b@));
    }

    /// Labels, jumps, returns and notes.
    #[verifier::spinoff_prover]
    #[verifier::rlimit(60)]
    fn compile_control(&mut self, fname: &str, alloc: &RegAllocResult, lb: i32, instr: &IrInstruction, epi: &str)
        requires
            homes_bounded(alloc.home@, alloc.num_spill_slots, 8),
            0 <= lb < 0x1_0000_0000,
            alloc.num_spill_slots < 0x1_0000_0000,
            instr_ok(alloc.home@, ir::instr_view(*instr)),
            ir::instr_view(*instr) is Label || ir::instr_view(*instr) is Jump || ir::instr_view(*instr) is JumpIfZero
                || ir::instr_view(*instr) is JumpIfNotZero || ir::instr_view(*instr) is Return || ir::instr_view(*instr) is Comment,
        ensures
            (final(self).text(), final(self).strs()) == ({
                let (t, s) = instr_text(alloc.home@, lb as int, fname@, epi@, old(self).strs(), ir::instr_view(*instr));
                (old(self).text() + t, s)
            }),
    {
        let ghost t0 = self.text();
        let ghost homes = alloc.home@;
        match instr {
            IrInstruction::Label(l) => {
                self.push_local_label(fname, l.as_str());
                push_str(&mut self.out, ":\n");
            },
            IrInstruction::Jump(l) => {
                push_str(&mut self.out, "    ");
                push_str(&mut self.out, "j ");
                self.push_local_label(fname, l.as_str());
                push_str(&mut self.out, "\n");
            },
            IrInstruction::JumpIfZero { cond, target } => {
                assert(optimize::uses(ir::instr_view(*instr), cond.0));
                self.emit_branch(fname, alloc, lb, *cond, target.as_str(), "beqz");
            },
            IrInstruction::JumpIfNotZero { cond, target } => {
                assert(optimize::uses(ir::instr_view(*instr), cond.0));
                self.emit_branch(fname, alloc, lb, *cond, target.as_str(), "bnez");
            },
            IrInstruction::Return(v) => {
                let ghost t1 = self.text();
                match v {
                    Some(t) => {
                        assert(optimize::uses(ir::instr_view(*instr), t.0));
                        let r = self.read(alloc, lb, *t, "a0");
                        self.mv_unless(r.as_str(), "a0");
                    },
                    None => {
                        self.op2("li", "a0", "0");
                    },
                }
                self.ln2("j ", epi);
                assert(self.text() =~= t1 + return_text(homes, lb as int, *v, epi@));
            },
            IrInstruction::Comment(c) => {
                self.ln2("# ", c.as_str());
            },
            _ => {
                proof {
                    assert(false);
                }
            },
        }
        assert(self.text() =~= t0 + instr_text(homes, lb as int, fname@, epi@, old(self).strs(), ir::instr_view(*instr)).0);
    }

    /// Parameters, plain loads and stores, and addresses of slots.
    #[verifier::spinoff_prover]
    #[verifier::rlimit(60)]
    fn compile_load(&mut self, fname: &str, alloc: &RegAllocResult, lb: i32, instr: &IrInstruction, epi: &str)
        requires
            homes_bounded(alloc.home@, alloc.num_spill_slots, 8),
            0 <= lb < 0x1_0000_0000,
            alloc.num_spill_slots < 0x1_0000_0000,
            instr_ok(alloc.home@, ir::instr_view(*instr)),
            ir::instr_view(*instr) is LoadParam || ir::instr_view(*instr) is LoadMem || ir::instr_view(*instr) is LoadAddr
                || ir::instr_view(*instr) is StoreMem,
        ensures
            (final(self).text(), final(self).strs()) == ({
                let (t, s) = instr_text(alloc.home@, lb as int, fname@, epi@, old(self).strs(), ir::instr_view(*instr));
                (old(self).text() + t, s)
            }),
    {
        let ghost t0 = self.text();
        let ghost homes = alloc.home@;
        match instr {
            IrInstruction::LoadParam { dst, index } => {
                self.write_home(alloc, lb, *dst, arg_str(*index));
            },
            IrInstruction::LoadMem { dst, src } => {
                let off = match src {
                    Location::StackSlot(o) => *o,
                    Location::Temp(_) => {
                        proof {
                            assert(false);
                        }
                        0
                    },
                };
                let w = Self::work_reg(alloc, *dst);
                self.op2_slot("ld", w, off);
                self.write_home(alloc, lb, *dst, w);
            },
            IrInstruction::LoadAddr { dst, base_offset } => {
                let w = Self::work_reg(alloc, *dst);
                self.op2_num("li", "t2", 80 - *base_offset as i64);
                self.op3("sub", w, "s0", "t2");
                self.write_home(alloc, lb, *dst, w);
            },
            IrInstruction::StoreMem { dst, src } => {
                assert(optimize::uses(ir::instr_view(*instr), src.0));
                let off = match dst {
                    Location::StackSlot(o) => *o,
                    Location::Temp(_) => {
                        proof {
                            assert(false);
                        }
                        0
                    },
                };
                let s = self.read(alloc, lb, *src, "t0");
                self.op2_slot("sd", s.as_str(), off);
            },
            _ => {
                proof {
                    assert(false);
                }
            },
        }
        assert(self.text() =~= t0 + instr_text(homes, lb as int, fname@, epi@, old(self).strs(), ir::instr_view(*instr)).0);
    }

    /// Loading an immediate.
    #[verifier::rlimit(60)]
    fn compile_load_imm(&mut self, fname: &str, alloc: &RegAllocResult, lb: i32, instr: &IrInstruction, epi: &str)
        requires
            homes_bounded(alloc.home@, alloc.num_spill_slots, 8),
            0 <= lb < 0x1_0000_0000,
            alloc.num_spill_slots < 0x1_0000_0000,
            instr_ok(alloc.home@, ir::instr_view(*instr)),
            ir::instr_view(*instr) is LoadImm,
        ensures
            (final(self).text(), final(self).strs()) == ({
                let (t, s) = instr_text(alloc.home@, lb as int, fname@, epi@, old(self).strs(), ir::instr_view(*instr));
                (old(self).text() + t, s)
            }),
    {
        let ghost t0 = self.text();
        let ghost homes = alloc.home@;
        let (dst, value) = match instr {
            IrInstruction::LoadImm { dst, value } => (dst, value),
            _ => {
                proof {
                    assert(false);
                }
                return;
            },
        };
        let w = Self::work_reg(alloc, *dst);
        assert(regalloc::defines(ir::instr_view(*instr)) == Some(*dst));
        match value {
            Operand::ImmInt(v) => {
                self.op2_num("li", w, *v);
            },
            Operand::ImmFloat(f) => {
                let ghost t1 = self.text();
                push_str(&mut self.out, "    ");
                push_str(&mut self.out, "# UWAGA: literał zmiennoprzecinkowy ");
                push_str(&mut self.out, f.text.as_str());
                push_str(&mut self.out, " przechowany jako surowe bity (IR nie niesie typu operacji arytmetycznej)");
                push_str(&mut self.out, "\n");
                assert(self.text() =~= t1 + ln(
                    "# UWAGA: literał zmiennoprzecinkowy "@ + f.text@
                        + " przechowany jako surowe bity (IR nie niesie typu operacji arytmetycznej)"@,
                ));
                let bits = #[verifier::truncate] (f.bits as i64);
                self.op2_num("li", w, bits);
            },
            Operand::ImmString(s) => {
                let clean = parser::trim_quotes_str(s.as_str());
                let k = self.intern_string(&clean);
                let ghost t1 = self.text();
                push_str(&mut self.out, "    ");
                push_str(&mut self.out, "la");
                push_str(&mut self.out, " ");
                push_str(&mut self.out, w);
                push_str(&mut self.out, ", ");
                push_str(&mut self.out, ".Lstr");
                push_decimal(&mut self.out, k as u64);
                push_str(&mut self.out, "\n");
                assert(self.text() =~= t1 + op2("la"@, w@, ".Lstr"@ + text::decimal(k as nat)));
            },
            Operand::Loc(_) => {
                proof {
                    assert(false);
                }
            },
        }
        self.write_home(alloc, lb, *dst, w);
        assert(self.text() =~= t0 + instr_text(homes, lb as int, fname@, epi@, old(self).strs(), ir::instr_view(*instr)).0);
    }

    /// Indexed accesses and plain stores.
    #[verifier::rlimit(100)]
    #[verifier::spinoff_prover]
    fn compile_memory(&mut self, fname: &str, alloc: &RegAllocResult, lb: i32, instr: &IrInstruction, epi: &str)
        requires
            homes_bounded(alloc.home@, alloc.num_spill_slots, 8),
            0 <= lb < 0x1_0000_0000,
            alloc.num_spill_slots < 0x1_0000_0000,
            instr_ok(alloc.home@, ir::instr_view(*instr)),
            ir::instr_view(*instr) is LoadIndexed || ir::instr_view(*instr) is StoreIndexed,
        ensures
            (final(self).text(), final(self).strs()) == ({
                let (t, s) = instr_text(alloc.home@, lb as int, fname@, epi@, old(self).strs(), ir::instr_view(*instr));
                (old(self).text() + t, s)
            }),
    {
        let ghost t0 = self.text();
        let ghost homes = alloc.home@;
        let ghost iv = ir::instr_view(*instr);
        match instr {
            IrInstruction::LoadIndexed { dst, base_offset, index, elem_size } => {
                assert(optimize::uses(iv, index.0));
                assert(regalloc::defines(iv) == Some(*dst));
                let ghost t1 = self.text();
                self.emit_frame_elem_addr(alloc, lb, *base_offset, *index, *elem_size);
                let w = Self::work_reg(alloc, *dst);
                self.op2("ld", w, "0(t2)");
                self.write_home(alloc, lb, *dst, w);
                assert(self.text() =~= t1 + elem_load_text(
                    homes,
                    lb as int,
                    frame_elem_addr(homes, lb as int, *base_offset, *index, *elem_size),
                    *dst,
                ));
            },
            IrInstruction::StoreIndexed { base_offset, index, src, elem_size } => {
                assert(optimize::uses(iv, index.0));
                assert(optimize::uses(iv, src.0));
                let ghost t1 = self.text();
                self.emit_frame_elem_addr(alloc, lb, *base_offset, *index, *elem_size);
                let s = self.read(alloc, lb, *src, "t1");
                self.op2("sd", s.as_str(), "0(t2)");
                assert(self.text() =~= t1 + elem_store_text(
                    homes,
                    lb as int,
                    frame_elem_addr(homes, lb as int, *base_offset, *index, *elem_size),
                    *src,
                ));
            },
            _ => {
                proof {
                    assert(false);
                }
            },
        }
        assert(self.text() =~= t0 + instr_text(homes, lb as int, fname@, epi@, old(self).strs(), iv).0);
    }

    /// Indexed accesses through a pointer.
    #[verifier::rlimit(100)]
    #[verifier::spinoff_prover]
    fn compile_ptr_memory(&mut self, fname: &str, alloc: &RegAllocResult, lb: i32, instr: &IrInstruction, epi: &str)
        requires
            homes_bounded(alloc.home@, alloc.num_spill_slots, 8),
            0 <= lb < 0x1_0000_0000,
            alloc.num_spill_slots < 0x1_0000_0000,
            instr_ok(alloc.home@, ir::instr_view(*instr)),
            ir::instr_view(*instr) is LoadIndexedPtr || ir::instr_view(*instr) is StoreIndexedPtr,
        ensures
            (final(self).text(), final(self).strs()) == ({
                let (t, s) = instr_text(alloc.home@, lb as int, fname@, epi@, old(self).strs(), ir::instr_view(*instr));
                (old(self).text() + t, s)
            }),
    {
        let ghost t0 = self.text();
        let ghost homes = alloc.home@;
        let ghost iv = ir::instr_view(*instr);
        match instr {
            IrInstruction::LoadIndexedPtr { dst, base, index, elem_size } => {
                assert(optimize::uses(iv, index.0));
                assert(optimize::uses(iv, base.0));
                assert(regalloc::defines(iv) == Some(*dst));
                let ghost t1 = self.text();
                self.emit_ptr_elem_addr(alloc, lb, *base, *index, *elem_size);
                let w = Self::work_reg(alloc, *dst);
                self.op2("ld", w, "0(t2)");
                self.write_home(alloc, lb, *dst, w);
                assert(self.text() =~= t1 + elem_load_text(homes, lb as int, ptr_elem_addr(homes, lb as int, *base, *index, *elem_size), *dst));
            },
            IrInstruction::StoreIndexedPtr { base, index, src, elem_size } => {
                assert(optimize::uses(iv, index.0));
                assert(optimize::uses(iv, base.0));
                assert(optimize::uses(iv, src.0));
                let ghost t1 = self.text();
                self.emit_ptr_elem_addr(alloc, lb, *base, *index, *elem_size);
                let s = self.read(alloc, lb, *src, "t1");
                self.op2("sd", s.as_str(), "0(t2)");
                assert(self.text() =~= t1 + elem_store_text(homes, lb as int, ptr_elem_addr(homes, lb as int, *base, *index, *elem_size), *src));
            },
            _ => {
                proof {
                    assert(false);
                }
            },
        }
        assert(self.text() =~= t0 + instr_text(homes, lb as int, fname@, epi@, old(self).strs(), iv).0);
    }

    #[verifier::spinoff_prover]
    #[verifier::rlimit(60)]
    fn emit_args(&mut self, alloc: &RegAllocResult, lb: i32, args: &Vec<Temp>)
        requires
            forall|k: int| 0 <= k < args@.len() ==> alloc.home@.contains_key((#[trigger] args@[k]).0),
            args@.len() <= 8,
            homes_bounded(alloc.home@, alloc.num_spill_slots, 8),
            0 <= lb < 0x1_0000_0000,
            alloc.num_spill_slots < 0x1_0000_0000,
        ensures
            final(self).text() == old(self).text() + args_text(alloc.home@, lb as int, args@, 0),
            final(self).strs() == old(self).strs(),
    {
        let ghost t0 = self.text();
        let ghost homes = alloc.home@;
        let mut i: usize = 0;
        while i < args.len()
            invariant
                i <= args@.len(),
                args@.len() <= 8,
                forall|k: int| 0 <= k < args@.len() ==> alloc.home@.contains_key((#[trigger] args@[k]).0),
                homes_bounded(alloc.home@, alloc.num_spill_slots, 8),
                0 <= lb < 0x1_0000_0000,
                alloc.num_spill_slots < 0x1_0000_0000,
                self.strs() == old(self).strs(),
                t0 + args_text(homes, lb as int, args@, 0) == self.text() + args_text(homes, lb as int, args@, i as int),
                homes == alloc.home@,
            decreases args@.len() - i,
        {
            let ghost ti = self.text();
            let v = self.read(alloc, lb, args[i], "t0");
            self.mv_unless(v.as_str(), arg_str(i));
            proof {
                let (c, vv) = read_code(homes, lb as int, args@[i as int], "t0"@);
                assert(args_text(homes, lb as int, args@, i as int) == c + mv_unless(vv, arg_reg(i as int)) + args_text(
                    homes,
                    lb as int,
                    args@,
                    i + 1,
                ));
                assert(self.text() =~= ti + (c + mv_unless(vv, arg_reg(i as int))));
                assert(ti + args_text(homes, lb as int, args@, i as int) =~= self.text() + args_text(
                    homes,
                    lb as int,
                    args@,
                    i + 1,
                ));
            }
            i = i + 1;
        }
        assert(self.text() + args_text(homes, lb as int, args@, i as int) =~= self.text());
    }

    /// A call: the arguments into their registers, the call, the result.
    #[verifier::spinoff_prover]
    #[verifier::rlimit(60)]
    fn compile_call(&mut self, fname: &str, alloc: &RegAllocResult, lb: i32, instr: &IrInstruction, epi: &str)
        requires
            homes_bounded(alloc.home@, alloc.num_spill_slots, 8),
            0 <= lb < 0x1_0000_0000,
            alloc.num_spill_slots < 0x1_0000_0000,
            instr_ok(alloc.home@, ir::instr_view(*instr)),
            ir::instr_view(*instr) is Call,
        ensures
            (final(self).text(), final(self).strs()) == ({
                let (t, s) = instr_text(alloc.home@, lb as int, fname@, epi@, old(self).strs(), ir::instr_view(*instr));
                (old(self).text() + t, s)
            }),
    {
        let ghost t0 = self.text();
        let ghost homes = alloc.home@;
        let ghost iv = ir::instr_view(*instr);
        match instr {
            IrInstruction::Call { dst, func, args } => {
                assert forall|k: int| 0 <= k < args@.len() implies alloc.home@.contains_key((#[trigger] args@[k]).0) by {
                    let av = iv->Call_args;
                    assert(av == args@);
                    assert(optimize::uses(iv, args@[k].0));
                }
                self.emit_args(alloc, lb, args);
                self.ln2("call ", func.as_str());
                if let Some(d) = dst {
                    assert(regalloc::defines(iv) == Some(*d));
                    self.write_home(alloc, lb, *d, "a0");
                }
            },
            _ => {
                proof {
                    assert(false);
                }
            },
        }
        assert(self.text() =~= t0 + instr_text(homes, lb as int, fname@, epi@, old(self).strs(), iv).0);
    }

    /// The code of one instruction.
    #[verifier::spinoff_prover]
    #[verifier::rlimit(60)]
    fn compile_instr(&mut self, fname: &str, alloc: &RegAllocResult, lb: i32, instr: &IrInstruction, epi: &str)
        requires
            homes_bounded(alloc.home@, alloc.num_spill_slots, 8),
            0 <= lb < 0x1_0000_0000,
            alloc.num_spill_slots < 0x1_0000_0000,
            instr_ok(alloc.home@, ir::instr_view(*instr)),
        ensures
            (final(self).text(), final(self).strs()) == ({
                let (t, s) = instr_text(alloc.home@, lb as int, fname@, epi@, old(self).strs(), ir::instr_view(*instr));
                (old(self).text() + t, s)
            }),
    {
        match instr {
            IrInstruction::Label(_) | IrInstruction::Jump(_) | IrInstruction::JumpIfZero { .. }
            | IrInstruction::JumpIfNotZero { .. } | IrInstruction::Return(_) | IrInstruction::Comment(_) => {
                self.compile_control(fname, alloc, lb, instr, epi);
            },
            IrInstruction::LoadParam { .. } | IrInstruction::LoadMem { .. } | IrInstruction::LoadAddr { .. }
            | IrInstruction::StoreMem { .. } => {
                self.compile_load(fname, alloc, lb, instr, epi);
            },
            IrInstruction::LoadIndexedPtr { .. } | IrInstruction::StoreIndexedPtr { .. } => {
                self.compile_ptr_memory(fname, alloc, lb, instr, epi);
            },
            IrInstruction::LoadImm { .. } => {
                self.compile_load_imm(fname, alloc, lb, instr, epi);
            },
            IrInstruction::Call { .. } => {
                self.compile_call(fname, alloc, lb, instr, epi);
            },
            IrInstruction::BinaryOp { dst, left, op, right } => {
                let ghost iv = ir::instr_view(*instr);
                assert(optimize::uses(iv, left.0));
                assert(optimize::uses(iv, right.0));
                assert(regalloc::defines(iv) == Some(*dst));
                self.compile_binop(alloc, lb, *dst, *left, *op, *right);
            },
            _ => {
                self.compile_memory(fname, alloc, lb, instr, epi);
            },
        }
    }

    #[verifier::spinoff_prover]
    #[verifier::rlimit(80)]
    fn emit_prologue(&mut self, name: &str, frame: i32)
        requires
            80 <= frame < 0x2000_0000,
        ensures
            final(self).text() == old(self).text() + prologue_text(name@, frame as int),
            final(self).strs() == old(self).strs(),
    {
        let ghost t0 = self.text();
        push_str(&mut self.out, "\n    .globl ");
        push_str(&mut self.out, name);
        push_str(&mut self.out, "\n");
        push_str(&mut self.out, name);
        push_str(&mut self.out, ":\n");
        let ghost t_a = self.text();
        assert(t_a =~= t0 + ("\n    .globl "@ + name@ + "\n"@ + name@ + ":\n"@));
        self.ln_dec("addi sp, sp, -", frame, "");
        self.ln_dec("sd ra, ", frame - 8, "(sp)");
        self.ln_dec("sd s0, ", frame - 16, "(sp)");
        self.ln_dec("addi s0, sp, ", frame, "");
        proof {
            reveal_strlit("");
        }
        let ghost t_b = self.text();
        assert(t_b =~= t_a + (ln("addi sp, sp, -"@ + text::decimal(frame as nat)) + ln(
            "sd ra, "@ + text::decimal((frame - 8) as nat) + "(sp)"@,
        ) + ln("sd s0, "@ + text::decimal((frame - 16) as nat) + "(sp)"@) + ln("addi s0, sp, "@ + text::decimal(frame as nat))));
        self.ln1("sd s1, -24(s0)");
        self.ln1("sd s2, -32(s0)");
        self.ln1("sd s3, -40(s0)");
        self.ln1("sd s4, -48(s0)");
        self.ln1("sd s5, -56(s0)");
        self.ln1("sd s6, -64(s0)");
        self.ln1("sd s7, -72(s0)");
        self.ln1("sd s8, -80(s0)");
        assert(self.text() =~= t_b + pool_saves());
        assert(self.text() =~= t0 + prologue_text(name@, frame as int));
    }

    #[verifier::spinoff_prover]
    #[verifier::rlimit(80)]
    fn emit_epilogue(&mut self, epi: &str, frame: i32)
        requires
            80 <= frame < 0x2000_0000,
        ensures
            final(self).text() == old(self).text() + epilogue_text(epi@, frame as int),
            final(self).strs() == old(self).strs(),
    {
        let ghost t0 = self.text();
        push_str(&mut self.out, epi);
        push_str(&mut self.out, ":\n");
        let ghost t_a = self.text();
        self.ln1("ld s1, -24(s0)");
        self.ln1("ld s2, -32(s0)");
        self.ln1("ld s3, -40(s0)");
        self.ln1("ld s4, -48(s0)");
        self.ln1("ld s5, -56(s0)");
        self.ln1("ld s6, -64(s0)");
        self.ln1("ld s7, -72(s0)");
        self.ln1("ld s8, -80(s0)");
        let ghost t_b = self.text();
        assert(t_b =~= t_a + pool_restores());
        self.ln_dec("ld ra, ", frame - 8, "(sp)");
        self.ln_dec("ld s0, ", frame - 16, "(sp)");
        self.ln_dec("addi sp, sp, ", frame, "");
        proof {
            reveal_strlit("");
        }
        self.ln1("ret");
        assert(t_a == t0 + (epi@ + ":\n"@));
        assert(self.text() =~= t_b + (ln("ld ra, "@ + text::decimal((frame - 8) as nat) + "(sp)"@) + ln(
            "ld s0, "@ + text::decimal((frame - 16) as nat) + "(sp)"@,
        ) + ln("addi sp, sp, "@ + text::decimal(frame as nat)) + ln("ret"@)));
        assert(self.text() =~= t0 + epilogue_text(epi@, frame as int));
    }

    /// A line `<a><n><b>` with a number that is not negative.
    fn ln_dec(&mut self, a: &str, n: i32, b: &str)
        requires
            n >= 0,
        ensures
            final(self).text() == old(self).text() + ln(a@ + text::decimal(n as nat) + b@),
            final(self).strs() == old(self).strs(),
    {
        push_str(&mut self.out, "    ");
        push_str(&mut self.out, a);
        push_decimal(&mut self.out, n as u64);
        push_str(&mut self.out, b);
        push_str(&mut self.out, "\n");
        assert(self.out@ =~= old(self).out@ + ln(a@ + text::decimal(n as nat) + b@));
    }

    /// The instructions of a function, but for its own label.
    #[verifier::spinoff_prover]
    #[verifier::rlimit(60)]
    fn compile_body(&mut self, func: &IrFunction, alloc: &RegAllocResult, lb: i32, epi: &str)
        requires
            forall|k: int|
                0 <= k < optimize::body(*func).len() ==> instr_ok(alloc.home@, #[trigger] optimize::body(*func)[k]),
            homes_bounded(alloc.home@, alloc.num_spill_slots, 8),
            0 <= lb < 0x1_0000_0000,
            alloc.num_spill_slots < 0x1_0000_0000,
        ensures
            (final(self).text(), final(self).strs()) == ({
                let (b, st) = body_text(alloc.home@, lb as int, func.name@, epi@, old(self).strs(), optimize::body(*func));
                (old(self).text() + b, st)
            }),
    {
        let ghost s = optimize::body(*func);
        let ghost t0 = self.text();
        let ghost strs0 = self.strs();
        let name = func.name.as_str();
        let mut own = String::new();
        push_str(&mut own, "func_");
        push_str(&mut own, name);
        proof {
            assert(s.take(0) =~= Seq::<InstrV>::empty());
            assert(t0 =~= t0 + Seq::<char>::empty());
        }
        let n = func.instructions.len();
        let mut i: usize = 0;
        while i < n
            invariant
                i <= n,
                n == s.len(),
                s == optimize::body(*func),
                forall|k: int| 0 <= k < s.len() ==> instr_ok(alloc.home@, #[trigger] s[k]),
                homes_bounded(alloc.home@, alloc.num_spill_slots, 8),
                0 <= lb < 0x1_0000_0000,
                alloc.num_spill_slots < 0x1_0000_0000,
                own@ == "func_"@ + func.name@,
                name@ == func.name@,
                (self.text(), self.strs()) == ({
                    let (b, st) = body_text(alloc.home@, lb as int, name@, epi@, strs0, s.take(i as int));
                    (t0 + b, st)
                }),
            decreases n - i,
        {
            let instr = &func.instructions[i];
            assert(s[i as int] == ir::instr_view(*instr));
            let skip = match instr {
                IrInstruction::Label(l) => str_eq(l.as_str(), own.as_str()),
                _ => false,
            };
            assert(skip == (s[i as int] == InstrV::Label("func_"@ + name@)));
            let ghost (b, st) = body_text(alloc.home@, lb as int, name@, epi@, strs0, s.take(i as int));
            if !skip {
                self.compile_instr(name, alloc, lb, instr, epi);
            }
            proof {
                assert(s.take(i as int + 1).drop_last() =~= s.take(i as int));
                if !skip {
                    let (u, st2) = instr_text(alloc.home@, lb as int, name@, epi@, st, s[i as int]);
                    assert(self.text() =~= t0 + (b + u));
                }
            }
            i = i + 1;
        }
        proof {
            assert(s.take(n as int) =~= s);
        }
    }

    /// The code of one function: prologue, body and epilogue.
    #[verifier::rlimit(60)]
    #[verifier::spinoff_prover]
    fn compile_function(&mut self, func: &IrFunction) -> (r: Ghost<RegAllocResult>)
        requires
            function_ok(*func),
        ensures
            homes_ok(optimize::body(*func), r@, 8),
            regalloc::scan_result(optimize::body(*func), 8nat, r@),
            (final(self).text(), final(self).strs()) == ({
                let (t, st) = function_text(*func, r@, old(self).strs());
                (old(self).text() + t, st)
            }),
    {
        let alloc = regalloc::allocate(func, 8);
        proof {
            lemma_instrs_ok(*func, alloc);
        }
        let lb: i32 = (func.locals.len() as i32) * 8;
        assert(alloc.num_spill_slots < 0x100_0000);
        let frame: i32 = (80 + lb + (alloc.num_spill_slots as i32) * 8 + 15) / 16 * 16;
        assert(frame == frame_size(func.locals@.len() as int, alloc.num_spill_slots as int));
        assert(80 <= frame < 0x2000_0000);
        let ghost t0 = self.text();
        let ghost strs0 = self.strs();
        let mut epi = String::new();
        push_str(&mut epi, ".Lepilogue_");
        push_str(&mut epi, func.name.as_str());
        self.emit_prologue(func.name.as_str(), frame);
        let ghost t1 = self.text();
        self.compile_body(func, &alloc, lb, epi.as_str());
        let ghost t2 = self.text();
        self.emit_epilogue(epi.as_str(), frame);
        proof {
            let (b, st) = body_text(alloc.home@, lb as int, func.name@, epi@, strs0, optimize::body(*func));
            assert(self.text() =~= t0 + (prologue_text(func.name@, frame as int) + b + epilogue_text(epi@, frame as int)));
        }
        Ghost(alloc)
    }

    fn emit_start(&mut self)
        ensures
            final(self).text() == old(self).text() + start_text(),
            final(self).strs() == old(self).strs(),
    {
        let ghost t0 = self.text();
        self.ln1(".text");
        self.ln1(".globl _start");
        push_str(&mut self.out, "_start:\n");
        self.ln1("call main");
        self.ln1("li a7, 93    # sys_exit");
        self.ln1("ecall");
        assert(self.text() =~= t0 + start_text());
    }

    #[verifier::spinoff_prover]
    fn compile_functions(&mut self, program: &IrProgram) -> (allocs: Ghost<Seq<RegAllocResult>>)
        requires
            forall|k: int| 0 <= k < program.functions@.len() ==> function_ok(#[trigger] program.functions@[k]),
        ensures
            allocs@.len() == program.functions@.len(),
            forall|k: int|
                0 <= k < allocs@.len() ==> homes_ok(optimize::body(program.functions@[k]), #[trigger] allocs@[k], 8),
            forall|k: int|
                0 <= k < allocs@.len() ==> regalloc::scan_result(optimize::body(program.functions@[k]), 8nat, #[trigger] allocs@[k]),
            (final(self).text(), final(self).strs()) == ({
                let (t, st) = functions_text(program.functions@, allocs@, old(self).strs());
                (old(self).text() + t, st)
            }),
    {
        let ghost fs = program.functions@;
        let ghost t0 = self.text();
        let ghost strs0 = self.strs();
        let ghost mut allocs: Seq<RegAllocResult> = seq![];
        proof {
            assert(fs.take(0) =~= Seq::<IrFunction>::empty());
            assert(t0 =~= t0 + Seq::<char>::empty());
        }
        let mut i: usize = 0;
        while i < program.functions.len()
            invariant
                i <= fs.len(),
                fs == program.functions@,
                allocs.len() == i,
                forall|k: int| 0 <= k < fs.len() ==> function_ok(#[trigger] fs[k]),
                forall|k: int| 0 <= k < i ==> homes_ok(optimize::body(fs[k]), #[trigger] allocs[k], 8),
                forall|k: int| 0 <= k < i ==> regalloc::scan_result(optimize::body(fs[k]), 8nat, #[trigger] allocs[k]),
                (self.text(), self.strs()) == ({
                    let (t, st) = functions_text(fs.take(i as int), allocs, strs0);
                    (t0 + t, st)
                }),
            decreases fs.len() - i,
        {
            let ghost before = allocs;
            let ghost (t_b, st_b) = functions_text(fs.take(i as int), allocs, strs0);
            let r = self.compile_function(&program.functions[i]);
            proof {
                allocs = allocs.push(r@);
                assert(fs.take(i as int + 1).drop_last() =~= fs.take(i as int));
                assert(allocs.take(i as int) =~= before);
                let (u, st2) = function_text(fs[i as int], r@, st_b);
                assert(self.text() =~= t0 + (t_b + u));
            }
            i = i + 1;
        }
        proof {
            assert(fs.take(fs.len() as int) =~= fs);
        }
        Ghost(allocs)
    }

    fn emit_rodata(&mut self)
        ensures
            final(self).text() == old(self).text() + rodata_text(old(self).strs()),
            final(self).strs() == old(self).strs(),
    {
        let ghost strs = self.strs();
        if self.strings.len() > 0 {
            let ghost t0 = self.text();
            push_str(&mut self.out, "\n    .section .rodata\n");
            let ghost t_ro = self.text();
            proof {
                assert(strs.take(0) =~= Seq::<Seq<char>>::empty());
                assert(t_ro =~= t_ro + string_entries(strs.take(0)));
            }
            let mut j: usize = 0;
            while j < self.strings.len()
                invariant
                    j <= self.strings@.len(),
                    self.strs() == strs,
                    self.text() == t_ro + string_entries(strs.take(j as int)),
                decreases self.strings@.len() - j,
            {
                push_str(&mut self.out, ".Lstr");
                push_decimal(&mut self.out, j as u64);
                push_str(&mut self.out, ":\n    .asciz ");
                push_debug_str(&mut self.out, self.strings[j].as_str());
                push_str(&mut self.out, "\n");
                proof {
                    assert(strs.take(j as int + 1).drop_last() =~= strs.take(j as int));
                    assert(strs[j as int] == self.strings@[j as int]@);
                    assert(self.text() =~= t_ro + string_entries(strs.take(j as int + 1)));
                }
                j = j + 1;
            }
            proof {
                assert(strs.take(strs.len() as int) =~= strs);
            }
            assert(self.text() =~= t0 + rodata_text(strs));
        } else {
            assert(self.text() =~= self.text() + rodata_text(strs));
        }
    }

    /// The assembly of a whole program: the entry point, every function,
    /// and the string constants.
    pub fn compile(self, program: &IrProgram) -> (out: String)
        requires
            forall|k: int| 0 <= k < program.functions@.len() ==> function_ok(#[trigger] program.functions@[k]),
        ensures
            exists|allocs: Seq<RegAllocResult>|
                {
                    &&& allocs.len() == program.functions@.len()
                    &&& forall|k: int|
                        0 <= k < allocs.len() ==> homes_ok(optimize::body(program.functions@[k]), #[trigger] allocs[k], 8)
                    &&& forall|k: int|
                        0 <= k < allocs.len() ==> regalloc::scan_result(optimize::body(program.functions@[k]), 8nat, #[trigger] allocs[k])
                    &&& out@ == program_text(program.functions@, allocs, self.text(), self.strs())
                },
    {
        let mut g = self;
        let ghost t0 = g.text();
        let ghost strs0 = g.strs();
        g.emit_start();
        let ghost t1 = g.text();
        let allocs = g.compile_functions(program);
        let ghost t2 = g.text();
        g.emit_rodata();
        assert(g.text() =~= program_text(program.functions@, allocs@, t0, strs0));
        g.out
    }
}

} // verus!
