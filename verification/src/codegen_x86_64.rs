//! Code generation for x86_64 (System V ABI, AT&T syntax for GNU `as`).
//! Temporaries live only in the callee-saved registers %rbx, %r12..%r15 or
//! in spill slots; arguments go in %rdi, %rsi, %rdx, %rcx, %r8, %r9.
use vstd::prelude::*;
use vstd::string::*;
use crate::ir::{Temp, Location, Operand, IrInstruction, IrBinOp, IrFunction, IrProgram, InstrV, OperandV};
use crate::ir;
use crate::optimize;
use crate::regalloc;
use crate::regalloc::{Home, RegAllocResult, homes_ok};
use crate::parser;
use crate::text;
use crate::text::{push_str, push_decimal, push_signed_decimal, push_debug_str, str_eq};
use crate::emit::{ln, local_label, home_of, intern, homes_bounded, strs_view, round16, string_entries, rodata_text, uses_homed};

verus! {

broadcast use vstd::std_specs::hash::group_hash_axioms;

// ---------------------------------------------------------------------------
// The text emitted
// ---------------------------------------------------------------------------


pub open spec fn pool(r: int) -> Seq<char> {
    if r == 0 {
        "%rbx"@
    } else if r == 1 {
        "%r12"@
    } else if r == 2 {
        "%r13"@
    } else if r == 3 {
        "%r14"@
    } else {
        "%r15"@
    }
}

pub open spec fn arg_reg(i: int) -> Seq<char> {
    if i == 0 {
        "%rdi"@
    } else if i == 1 {
        "%rsi"@
    } else if i == 2 {
        "%rdx"@
    } else if i == 3 {
        "%rcx"@
    } else if i == 4 {
        "%r8"@
    } else {
        "%r9"@
    }
}

/// The frame address of stack slot `off`, below the saved registers.
pub open spec fn slot_addr(off: int) -> Seq<char> {
    "-"@ + text::signed_decimal(40 - off) + "(%rbp)"@
}

/// The frame address of spill slot `k`, below the locals.
pub open spec fn spill_addr(lb: int, k: int) -> Seq<char> {
    "-"@ + text::signed_decimal(40 + lb + 8 * (k + 1)) + "(%rbp)"@
}


/// Reading temporary `t`: the code that brings it into `scratch` if it is
/// spilled, and the operand that then holds it.
#[verifier::opaque]
pub open spec fn read_code(homes: Map<u32, Home>, lb: int, t: Temp, scratch: Seq<char>) -> (Seq<char>, Seq<char>) {
    match homes[t.0] {
        Home::Reg(r) => (Seq::empty(), pool(r as int)),
        Home::Spill(k) => (ln("movq "@ + spill_addr(lb, k as int) + ", "@ + scratch), scratch),
    }
}

/// Storing register `src` into the home of `t`.
#[verifier::opaque]
pub open spec fn write_code(homes: Map<u32, Home>, lb: int, t: Temp, src: Seq<char>) -> Seq<char> {
    match homes[t.0] {
        Home::Reg(r) => if pool(r as int) != src {
            ln("movq "@ + src + ", "@ + pool(r as int))
        } else {
            Seq::empty()
        },
        Home::Spill(k) => ln("movq "@ + src + ", "@ + spill_addr(lb, k as int)),
    }
}

/// The register an instruction builds the value of `t` in.
pub open spec fn work_reg(homes: Map<u32, Home>, t: Temp) -> Seq<char> {
    match homes[t.0] {
        Home::Reg(r) => pool(r as int),
        Home::Spill(_) => "%rax"@,
    }
}

pub open spec fn byte_of(reg: Seq<char>) -> Seq<char> {
    if reg == "%rax"@ {
        "%al"@
    } else if reg == "%r10"@ {
        "%r10b"@
    } else if reg == "%rbx"@ {
        "%bl"@
    } else if reg == "%r12"@ {
        "%r12b"@
    } else if reg == "%r13"@ {
        "%r13b"@
    } else if reg == "%r14"@ {
        "%r14b"@
    } else {
        "%r15b"@
    }
}

// ---------------------------------------------------------------------------
// Registers and addresses
// ---------------------------------------------------------------------------

fn pool_str(r: usize) -> (s: &'static str)
    requires
        r < 5,
    ensures
        s@ == pool(r as int),
{
    proof {
        reveal_strlit("%rbx");
        reveal_strlit("%r12");
        reveal_strlit("%r13");
        reveal_strlit("%r14");
        reveal_strlit("%r15");
    }
    if r == 0 {
        "%rbx"
    } else if r == 1 {
        "%r12"
    } else if r == 2 {
        "%r13"
    } else if r == 3 {
        "%r14"
    } else {
        "%r15"
    }
}

fn arg_str(i: usize) -> (s: &'static str)
    requires
        i < 6,
    ensures
        s@ == arg_reg(i as int),
{
    if i == 0 {
        "%rdi"
    } else if i == 1 {
        "%rsi"
    } else if i == 2 {
        "%rdx"
    } else if i == 3 {
        "%rcx"
    } else if i == 4 {
        "%r8"
    } else {
        "%r9"
    }
}

fn byte_str(reg: &str) -> (s: &'static str)
    ensures
        s@ == byte_of(reg@),
{
    if str_eq(reg, "%rax") {
        "%al"
    } else if str_eq(reg, "%r10") {
        "%r10b"
    } else if str_eq(reg, "%rbx") {
        "%bl"
    } else if str_eq(reg, "%r12") {
        "%r12b"
    } else if str_eq(reg, "%r13") {
        "%r13b"
    } else if str_eq(reg, "%r14") {
        "%r14b"
    } else {
        "%r15b"
    }
}


// ---------------------------------------------------------------------------
// The text of one instruction
// ---------------------------------------------------------------------------


/// Moves a value into `to` unless it is there already.
#[verifier::opaque]
pub open spec fn move_unless(from: Seq<char>, to: Seq<char>) -> Seq<char> {
    if from != to {
        ln("movq "@ + from + ", "@ + to)
    } else {
        Seq::empty()
    }
}

/// `%r10 = index * elem_size` and `%rax` = the address of the element, for
/// an array in the frame.
pub open spec fn frame_elem_addr(homes: Map<u32, Home>, lb: int, base_offset: i32, index: Temp, elem_size: i32) -> Seq<char> {
    let (c, idx) = read_code(homes, lb, index, "%r10"@);
    c + move_unless(idx, "%r10"@) + (if elem_size != 1 {
        ln("imulq $"@ + text::signed_decimal(elem_size as int) + ", %r10"@)
    } else {
        Seq::empty()
    }) + ln("leaq "@ + slot_addr(base_offset as int) + ", %rax"@) + ln("subq %r10, %rax"@)
}

/// The same for an array a pointer in `base` points to.
pub open spec fn ptr_elem_addr(homes: Map<u32, Home>, lb: int, base: Temp, index: Temp, elem_size: i32) -> Seq<char> {
    let (c, idx) = read_code(homes, lb, index, "%r10"@);
    let (cb, b) = read_code(homes, lb, base, "%rax"@);
    c + move_unless(idx, "%r10"@) + (if elem_size != 1 {
        ln("imulq $"@ + text::signed_decimal(elem_size as int) + ", %r10"@)
    } else {
        Seq::empty()
    }) + cb + move_unless(b, "%rax"@) + ln("subq %r10, %rax"@)
}

pub open spec fn setcc(op: IrBinOp) -> Seq<char> {
    match op {
        IrBinOp::Eq => "sete"@,
        IrBinOp::Neq => "setne"@,
        IrBinOp::Lt => "setl"@,
        IrBinOp::Gt => "setg"@,
        IrBinOp::Le => "setle"@,
        IrBinOp::Ge => "setge"@,
        IrBinOp::LtU => "setb"@,
        IrBinOp::GtU => "seta"@,
        IrBinOp::LeU => "setbe"@,
        _ => "setae"@,
    }
}

/// The flags that `cmpq r, l` leaves (it computes `l - r`): zero, sign,
/// overflow (the difference does not fit in 64 bits) and carry (a borrow
/// when the operands are read as unsigned).
pub struct Flags {
    pub zf: bool,
    pub sf: bool,
    pub of: bool,
    pub cf: bool,
}

pub open spec fn flags_after_compare(l: i64, r: i64) -> Flags {
    let d = l - r;
    let res = if d > i64::MAX {
        d - 0x1_0000_0000_0000_0000
    } else if d < i64::MIN {
        d + 0x1_0000_0000_0000_0000
    } else {
        d
    };
    Flags { zf: res == 0, sf: res < 0, of: res != d, cf: (l as u64) < (r as u64) }
}

/// Whether the `set<cc>` instruction named `m` stores 1, as the x86-64
/// manual defines each condition over the flags.
pub open spec fn setcc_stores_one(m: Seq<char>, f: Flags) -> bool {
    if m == "sete"@ {
        f.zf
    } else if m == "setne"@ {
        !f.zf
    } else if m == "setl"@ {
        f.sf != f.of
    } else if m == "setle"@ {
        f.zf || f.sf != f.of
    } else if m == "setg"@ {
        !f.zf && f.sf == f.of
    } else if m == "setge"@ {
        f.sf == f.of
    } else if m == "setb"@ {
        f.cf
    } else if m == "setbe"@ {
        f.cf || f.zf
    } else if m == "seta"@ {
        !f.cf && !f.zf
    } else if m == "setae"@ {
        !f.cf
    } else {
        false
    }
}

/// An x86-64 instruction of the kinds the operations above use, in AT&T
/// order (source first).
pub enum X86Instr {
    Addq(Seq<char>, Seq<char>),
    Subq(Seq<char>, Seq<char>),
    Imulq(Seq<char>, Seq<char>),
    Cmpq(Seq<char>, Seq<char>),
    Setcc(Seq<char>),
    MovzbqAl(Seq<char>),
}

pub open spec fn x86_text(i: X86Instr) -> Seq<char> {
    match i {
        X86Instr::Addq(a, d) => ln("addq"@ + " "@ + a + ", "@ + d),
        X86Instr::Subq(a, d) => ln("subq"@ + " "@ + a + ", "@ + d),
        X86Instr::Imulq(a, d) => ln("imulq"@ + " "@ + a + ", "@ + d),
        X86Instr::Cmpq(a, d) => ln("cmpq "@ + a + ", "@ + d),
        X86Instr::Setcc(m) => ln(m + " %al"@),
        X86Instr::MovzbqAl(d) => ln("movzbq %al, "@ + d),
    }
}

pub open spec fn x86_texts(p: Seq<X86Instr>) -> Seq<char>
    decreases p.len(),
{
    if p.len() == 0 {
        Seq::empty()
    } else {
        x86_text(p[0]) + x86_texts(p.drop_first())
    }
}

/// The machine state the instructions touch: registers, flags, `%al`.
pub struct X86State {
    pub regs: Map<Seq<char>, i64>,
    pub flags: Flags,
    pub al: bool,
}

/// What an instruction does, as the x86-64 manual says: `addq`/`subq`/
/// `imulq` compute into the destination with wrap-around, `cmpq a, d` sets
/// the flags of `d - a`, `set<cc>` stores its condition in `%al`, `movzbq`
/// widens `%al`.
pub open spec fn x86_step(st: X86State, i: X86Instr) -> X86State {
    match i {
        X86Instr::Addq(a, d) => X86State { regs: st.regs.insert(d, st.regs[d].wrapping_add(st.regs[a])), ..st },
        X86Instr::Subq(a, d) => X86State { regs: st.regs.insert(d, st.regs[d].wrapping_sub(st.regs[a])), ..st },
        X86Instr::Imulq(a, d) => X86State { regs: st.regs.insert(d, st.regs[d].wrapping_mul(st.regs[a])), ..st },
        X86Instr::Cmpq(a, d) => X86State { flags: flags_after_compare(st.regs[d], st.regs[a]), ..st },
        X86Instr::Setcc(m) => X86State { al: setcc_stores_one(m, st.flags), ..st },
        X86Instr::MovzbqAl(d) => X86State { regs: st.regs.insert(d, if st.al { 1i64 } else { 0i64 }), ..st },
    }
}

pub open spec fn x86_run(p: Seq<X86Instr>, st: X86State) -> X86State
    decreases p.len(),
{
    if p.len() == 0 {
        st
    } else {
        x86_run(p.drop_first(), x86_step(st, p[0]))
    }
}

proof fn lemma_x86_one(i: X86Instr, st: X86State)
    ensures
        x86_texts(seq![i]) == x86_text(i),
        x86_run(seq![i], st) == x86_step(st, i),
{
    let e = Seq::<X86Instr>::empty();
    assert(seq![i].drop_first() =~= e);
    assert(seq![i][0] == i);
    assert(x86_texts(e) == Seq::<char>::empty());
    assert(x86_run(e, x86_step(st, i)) == x86_step(st, i));
    assert(x86_text(i) + Seq::<char>::empty() =~= x86_text(i));
}

proof fn lemma_x86_three(i: X86Instr, j: X86Instr, k: X86Instr, st: X86State)
    ensures
        x86_texts(seq![i, j, k]) == x86_text(i) + x86_text(j) + x86_text(k),
        x86_run(seq![i, j, k], st) == x86_step(x86_step(x86_step(st, i), j), k),
{
    assert(seq![i, j, k].drop_first() =~= seq![j, k]);
    assert(seq![j, k].drop_first() =~= seq![k]);
    assert(seq![i, j, k][0] == i);
    assert(seq![j, k][0] == j);
    lemma_x86_one(k, x86_step(x86_step(st, i), j));
    assert(x86_texts(seq![j, k]) == x86_text(j) + x86_texts(seq![k]));
    assert(x86_run(seq![j, k], x86_step(st, i)) == x86_run(seq![k], x86_step(x86_step(st, i), j)));
    assert(x86_text(i) + (x86_text(j) + x86_text(k)) =~= x86_text(i) + x86_text(j) + x86_text(k));
}

/// The comparison proper is three machine instructions that, with the left
/// operand in `%rax` and the right one in `r`, leave in `%rax` 1 when the
/// comparison holds of the operands and 0 when it does not.
pub proof fn lemma_compare_core_meaning(op: IrBinOp, r: Seq<char>, lv: i64, rv: i64, f: Flags, al: bool)
    requires
        ir::is_comparison(op),
        r != "%rax"@,
    ensures
        exists|p: Seq<X86Instr>|
            x86_texts(p) == compare_core(op, r) && (#[trigger] x86_run(
                p,
                X86State { regs: map!["%rax"@ => lv, r => rv], flags: f, al },
            )).regs["%rax"@] == (if ir::relation_holds(op, lv, rv) { 1i64 } else { 0i64 }),
{
    let st = X86State { regs: map!["%rax"@ => lv, r => rv], flags: f, al };
    let p = seq![X86Instr::Cmpq(r, "%rax"@), X86Instr::Setcc(setcc(op)), X86Instr::MovzbqAl("%rax"@)];
    lemma_x86_three(p[0], p[1], p[2], st);
    assert(p == seq![p[0], p[1], p[2]]);
    lemma_setcc_meaning(op, lv, rv);
    assert(st.regs["%rax"@] == lv && st.regs[r] == rv);
    reveal_strlit(", ");
    reveal_strlit("%rax");
    reveal_strlit(", %rax");
    reveal_strlit("movzbq %al, ");
    reveal_strlit("movzbq %al, %rax");
    let x = "cmpq "@ + r;
    assert(x + ", "@ + "%rax"@ =~= x + ", %rax"@);
    assert("movzbq %al, "@ + "%rax"@ =~= "movzbq %al, %rax"@);
    assert(x86_texts(p) == compare_core(op, r));
    assert(x86_run(p, st).regs["%rax"@] == (if ir::relation_holds(op, lv, rv) { 1i64 } else { 0i64 }));
}

/// The operation proper of an addition, subtraction or multiplication is one
/// machine instruction that, with the left operand in the work register `w`
/// and the right one in `r`, leaves in `w` the value that constant folding
/// gives for the same operator and operands.
pub proof fn lemma_arith_core_meaning(op: IrBinOp, r: Seq<char>, w: Seq<char>, lv: i64, rv: i64, f: Flags, al: bool)
    requires
        op is Add || op is Sub || op is Mul,
        r == w ==> lv == rv,
    ensures
        exists|p: Seq<X86Instr>|
            x86_texts(p) == arith_core(op, r, w) && (#[trigger] x86_run(
                p,
                X86State { regs: map![w => lv, r => rv], flags: f, al },
            )).regs[w] == optimize::fold_spec(op, lv, rv)->Some_0,
{
    let st = X86State { regs: map![w => lv, r => rv], flags: f, al };
    assert(st.regs[w] == lv && st.regs[r] == rv);
    let i = if op is Add {
        X86Instr::Addq(r, w)
    } else if op is Sub {
        X86Instr::Subq(r, w)
    } else {
        X86Instr::Imulq(r, w)
    };
    lemma_x86_one(i, st);
    assert(lv.wrapping_mul(rv) == rv.wrapping_mul(lv)) by {
        assert((lv as int) * (rv as int) == (rv as int) * (lv as int)) by (nonlinear_arith);
    }
    assert(x86_texts(seq![i]) == arith_core(op, r, w));
    assert(x86_run(seq![i], st).regs[w] == optimize::fold_spec(op, lv, rv)->Some_0);
}

/// The code of a comparison (`compare_text`) compares the right operand
/// with the left one held in `%rax` and then sets `%al` with `setcc(op)`:
/// that instruction stores 1 exactly when the comparison holds of the
/// operands' values, signed or unsigned as the operator says.
pub proof fn lemma_setcc_meaning(op: IrBinOp, l: i64, r: i64)
    requires
        ir::is_comparison(op),
    ensures
        setcc_stores_one(setcc(op), flags_after_compare(l, r)) <==> ir::relation_holds(op, l, r),
{
    reveal_strlit("sete");
    reveal_strlit("setne");
    reveal_strlit("setl");
    reveal_strlit("setle");
    reveal_strlit("setg");
    reveal_strlit("setge");
    reveal_strlit("setb");
    reveal_strlit("setbe");
    reveal_strlit("seta");
    reveal_strlit("setae");
    assert("setne"@.len() != "sete"@.len());
    assert("setl"@[3] != "sete"@[3]);
    assert("setl"@.len() != "setne"@.len());
    assert("setle"@.len() != "sete"@.len());
    assert("setle"@[3] != "setne"@[3]);
    assert("setle"@.len() != "setl"@.len());
    assert("setg"@[3] != "sete"@[3]);
    assert("setg"@.len() != "setne"@.len());
    assert("setg"@[3] != "setl"@[3]);
    assert("setg"@.len() != "setle"@.len());
    assert("setge"@.len() != "sete"@.len());
    assert("setge"@[3] != "setne"@[3]);
    assert("setge"@.len() != "setl"@.len());
    assert("setge"@[3] != "setle"@[3]);
    assert("setge"@.len() != "setg"@.len());
    assert("setb"@[3] != "sete"@[3]);
    assert("setb"@.len() != "setne"@.len());
    assert("setb"@[3] != "setl"@[3]);
    assert("setb"@.len() != "setle"@.len());
    assert("setb"@[3] != "setg"@[3]);
    assert("setb"@.len() != "setge"@.len());
    assert("setbe"@.len() != "sete"@.len());
    assert("setbe"@[3] != "setne"@[3]);
    assert("setbe"@.len() != "setl"@.len());
    assert("setbe"@[3] != "setle"@[3]);
    assert("setbe"@.len() != "setg"@.len());
    assert("setbe"@[3] != "setge"@[3]);
    assert("setbe"@.len() != "setb"@.len());
    assert("seta"@[3] != "sete"@[3]);
    assert("seta"@.len() != "setne"@.len());
    assert("seta"@[3] != "setl"@[3]);
    assert("seta"@.len() != "setle"@.len());
    assert("seta"@[3] != "setg"@[3]);
    assert("seta"@.len() != "setge"@.len());
    assert("seta"@[3] != "setb"@[3]);
    assert("seta"@.len() != "setbe"@.len());
    assert("setae"@.len() != "sete"@.len());
    assert("setae"@[3] != "setne"@[3]);
    assert("setae"@.len() != "setl"@.len());
    assert("setae"@[3] != "setle"@[3]);
    assert("setae"@.len() != "setg"@.len());
    assert("setae"@[3] != "setge"@[3]);
    assert("setae"@.len() != "setb"@.len());
    assert("setae"@[3] != "setbe"@[3]);
    assert("setae"@.len() != "seta"@.len());
    assert(((l as u64) == (r as u64)) == (l == r)) by (bit_vector);
    let f = flags_after_compare(l, r);
    assert(f.zf == (l == r));
    assert(f.sf != f.of <==> l < r);
    match op {
        IrBinOp::Eq => {
            assert(setcc(op) == "sete"@);
            assert(setcc_stores_one(setcc(op), f) == ir::relation_holds(op, l, r));
        },
        IrBinOp::Neq => {
            assert(setcc(op) == "setne"@);
            assert(setcc_stores_one(setcc(op), f) == ir::relation_holds(op, l, r));
        },
        IrBinOp::Lt => {
            assert(setcc(op) == "setl"@);
            assert(setcc_stores_one(setcc(op), f) == ir::relation_holds(op, l, r));
        },
        IrBinOp::Gt => {
            assert(setcc(op) == "setg"@);
            assert(setcc_stores_one(setcc(op), f) == ir::relation_holds(op, l, r));
        },
        IrBinOp::Le => {
            assert(setcc(op) == "setle"@);
            assert(setcc_stores_one(setcc(op), f) == ir::relation_holds(op, l, r));
        },
        IrBinOp::Ge => {
            assert(setcc(op) == "setge"@);
            assert(setcc_stores_one(setcc(op), f) == ir::relation_holds(op, l, r));
        },
        IrBinOp::LtU => {
            assert(setcc(op) == "setb"@);
            assert(setcc_stores_one(setcc(op), f) == ir::relation_holds(op, l, r));
        },
        IrBinOp::GtU => {
            assert(setcc(op) == "seta"@);
            assert(setcc_stores_one(setcc(op), f) == ir::relation_holds(op, l, r));
        },
        IrBinOp::LeU => {
            assert(setcc(op) == "setbe"@);
            assert(setcc_stores_one(setcc(op), f) == ir::relation_holds(op, l, r));
        },
        _ => {
            assert(setcc(op) == "setae"@);
            assert(setcc_stores_one(setcc(op), f) == ir::relation_holds(op, l, r));
        },
    }
}

/// Division and remainder: the divisor from %r10, the dividend in %rax.
pub open spec fn divmod_text(homes: Map<u32, Home>, lb: int, dst: Temp, left: Temp, op: IrBinOp, right: Temp) -> Seq<char> {
    let (c1, r) = read_code(homes, lb, right, "%r10"@);
    let (c2, moved) = if r == "%rax"@ || r == "%rdx"@ {
        (ln("movq "@ + r + ", %r10"@), "%r10"@)
    } else {
        (Seq::<char>::empty(), r)
    };
    let (c3, l) = read_code(homes, lb, left, "%rax"@);
    let signed = op == IrBinOp::Div || op == IrBinOp::Mod;
    let quotient = op == IrBinOp::Div || op == IrBinOp::DivU;
    c1 + c2 + c3 + move_unless(l, "%rax"@) + (if signed {
        ln("cqto"@) + ln("idivq "@ + moved)
    } else {
        ln("xorq %rdx, %rdx"@) + ln("divq "@ + moved)
    }) + write_code(homes, lb, dst, if quotient {
        "%rax"@
    } else {
        "%rdx"@
    })
}

/// The truth value (0 or 1) of `t` in register `reg`, whose low byte is `byte`.
pub open spec fn truth_text(homes: Map<u32, Home>, lb: int, t: Temp, reg: Seq<char>, byte: Seq<char>) -> Seq<char> {
    let (c, o) = read_code(homes, lb, t, reg);
    c + ln("testq "@ + o + ", "@ + o) + ln("setne "@ + byte) + ln("movzbq "@ + byte + ", "@ + reg)
}

/// Logical and/or of the truth values of both sides.
pub open spec fn logic_text(homes: Map<u32, Home>, lb: int, dst: Temp, left: Temp, op: IrBinOp, right: Temp) -> Seq<char> {
    truth_text(homes, lb, left, "%rax"@, "%al"@) + truth_text(homes, lb, right, "%r10"@, "%r10b"@) + ln(
        (if op == IrBinOp::And {
            "andq"@
        } else {
            "orq"@
        }) + " %r10, %rax"@,
    ) + write_code(homes, lb, dst, "%rax"@)
}

/// Addition, subtraction, multiplication in the destination's register.
pub open spec fn arith_text(homes: Map<u32, Home>, lb: int, dst: Temp, left: Temp, op: IrBinOp, right: Temp) -> Seq<char> {
    let w = work_reg(homes, dst);
    let (c1, l) = read_code(homes, lb, left, "%rax"@);
    let (c2, r) = read_code(homes, lb, right, "%r10"@);
    c1 + move_unless(l, w) + c2 + arith_core(op, r, w) + write_code(homes, lb, dst, w)
}

/// The operation proper of an addition, subtraction or multiplication: the
/// right operand `r` applied to the work register `w` holding the left one.
pub open spec fn arith_core(op: IrBinOp, r: Seq<char>, w: Seq<char>) -> Seq<char> {
    let inst = if op == IrBinOp::Add {
        "addq"@
    } else if op == IrBinOp::Sub {
        "subq"@
    } else {
        "imulq"@
    };
    ln(inst + " "@ + r + ", "@ + w)
}

/// Comparisons: `cmpq`, then the flag as 0 or 1.
pub open spec fn compare_text(homes: Map<u32, Home>, lb: int, dst: Temp, left: Temp, op: IrBinOp, right: Temp) -> Seq<char> {
    let (c1, l) = read_code(homes, lb, left, "%rax"@);
    let (c2, r) = read_code(homes, lb, right, "%r10"@);
    c1 + move_unless(l, "%rax"@) + c2 + compare_core(op, r) + write_code(homes, lb, dst, "%rax"@)
}

/// The comparison proper, with the left operand in `%rax` and the right in
/// `r`: compare, set `%al`, widen it to `%rax`.
pub open spec fn compare_core(op: IrBinOp, r: Seq<char>) -> Seq<char> {
    ln("cmpq "@ + r + ", %rax"@) + ln(setcc(op) + " %al"@) + ln("movzbq %al, %rax"@)
}

/// The code of a binary operation.
pub open spec fn binop_text(homes: Map<u32, Home>, lb: int, dst: Temp, left: Temp, op: IrBinOp, right: Temp) -> Seq<char> {
    match op {
        IrBinOp::Div | IrBinOp::Mod | IrBinOp::DivU | IrBinOp::ModU => divmod_text(homes, lb, dst, left, op, right),
        IrBinOp::And | IrBinOp::Or => logic_text(homes, lb, dst, left, op, right),
        IrBinOp::Add | IrBinOp::Sub | IrBinOp::Mul => arith_text(homes, lb, dst, left, op, right),
        _ => compare_text(homes, lb, dst, left, op, right),
    }
}

/// Moving the arguments `args[i..]` into the argument registers.
pub open spec fn args_text(homes: Map<u32, Home>, lb: int, args: Seq<Temp>, i: int) -> Seq<char>
    decreases args.len() - i,
{
    if i < 0 || i >= args.len() {
        Seq::empty()
    } else {
        let (c, v) = read_code(homes, lb, args[i], "%rax"@);
        c + move_unless(v, arg_reg(i)) + args_text(homes, lb, args, i + 1)
    }
}

/// A conditional jump `j` on `cond`.
pub open spec fn jcc_text(homes: Map<u32, Home>, lb: int, fname: Seq<char>, cond: Temp, target: Seq<char>, j: Seq<char>) -> Seq<char> {
    let (c, o) = read_code(homes, lb, cond, "%rax"@);
    c + ln("testq "@ + o + ", "@ + o) + ln(j + local_label(fname, target))
}

pub open spec fn return_text(homes: Map<u32, Home>, lb: int, v: Option<Temp>, epi: Seq<char>) -> Seq<char> {
    (match v {
        Some(t) => {
            let (c, r) = read_code(homes, lb, t, "%rax"@);
            c + move_unless(r, "%rax"@)
        },
        None => ln("xorq %rax, %rax"@),
    }) + ln("jmp "@ + epi)
}

/// Loading an immediate, and the string table after it.
pub open spec fn load_imm_text(homes: Map<u32, Home>, lb: int, strs: Seq<Seq<char>>, dst: Temp, value: OperandV) -> (
    Seq<char>,
    Seq<Seq<char>>,
) {
    let w = work_reg(homes, dst);
    match value {
        OperandV::ImmFloat { bits, text } => (ln(
            "# UWAGA: literał zmiennoprzecinkowy "@ + text
                + " przechowany jako surowe bity (IR nie niesie typu operacji arytmetycznej)"@,
        ) + ln("movabsq $"@ + text::signed_decimal((bits as i64) as int) + ", "@ + w) + write_code(homes, lb, dst, w), strs),
        OperandV::ImmString(s) => {
            let (k, strs2) = intern(strs, parser::trim_quotes(s));
            (ln("leaq .Lstr"@ + text::decimal(k as nat) + "(%rip), "@ + w) + write_code(homes, lb, dst, w), strs2)
        },
        OperandV::ImmInt(v) => (ln("movabsq $"@ + text::signed_decimal(v as int) + ", "@ + w) + write_code(homes, lb, dst, w), strs),
        _ => (Seq::empty(), strs),
    }
}

/// `dst = <a> <address>` for a slot of the frame (a load or an address).
pub open spec fn slot_op_text(homes: Map<u32, Home>, lb: int, inst: Seq<char>, dst: Temp, off: int) -> Seq<char> {
    let w = work_reg(homes, dst);
    ln(inst + slot_addr(off) + ", "@ + w) + write_code(homes, lb, dst, w)
}

/// Reading the element whose address is in %rax into `dst`.
pub open spec fn elem_load_text(homes: Map<u32, Home>, lb: int, addr: Seq<char>, dst: Temp) -> Seq<char> {
    let w = work_reg(homes, dst);
    addr + ln("movq (%rax), "@ + w) + write_code(homes, lb, dst, w)
}

/// Writing `src` to the element whose address is in %rax.
pub open spec fn elem_store_text(homes: Map<u32, Home>, lb: int, addr: Seq<char>, src: Temp) -> Seq<char> {
    let (c, s) = read_code(homes, lb, src, "%r10"@);
    addr + c + ln("movq "@ + s + ", (%rax)"@)
}

pub open spec fn store_mem_text(homes: Map<u32, Home>, lb: int, off: int, src: Temp) -> Seq<char> {
    let (c, s) = read_code(homes, lb, src, "%rax"@);
    c + ln("movq "@ + s + ", "@ + slot_addr(off))
}

pub open spec fn call_text(homes: Map<u32, Home>, lb: int, dst: Option<Temp>, func: Seq<char>, args: Seq<Temp>) -> Seq<char> {
    args_text(homes, lb, args, 0) + ln("call "@ + func) + (match dst {
        Some(d) => write_code(homes, lb, d, "%rax"@),
        None => Seq::empty(),
    })
}

/// The code of one instruction, and the string table after it.
pub open spec fn instr_text(
    homes: Map<u32, Home>,
    lb: int,
    fname: Seq<char>,
    epi: Seq<char>,
    strs: Seq<Seq<char>>,
    i: InstrV,
) -> (Seq<char>, Seq<Seq<char>>) {
    match i {
        InstrV::Label(l) => (local_label(fname, l) + ":\n"@, strs),
        InstrV::Jump(l) => (ln("jmp "@ + local_label(fname, l)), strs),
        InstrV::JumpIfZero { cond, target } => (jcc_text(homes, lb, fname, cond, target, "jz "@), strs),
        InstrV::JumpIfNotZero { cond, target } => (jcc_text(homes, lb, fname, cond, target, "jnz "@), strs),
        InstrV::LoadParam { dst, index } => (write_code(homes, lb, dst, arg_reg(index as int)), strs),
        InstrV::LoadImm { dst, value } => load_imm_text(homes, lb, strs, dst, value),
        InstrV::LoadMem { dst, src } => (slot_op_text(homes, lb, "movq "@, dst, src->StackSlot_0 as int), strs),
        InstrV::LoadIndexed { dst, base_offset, index, elem_size } => (elem_load_text(
            homes,
            lb,
            frame_elem_addr(homes, lb, base_offset, index, elem_size),
            dst,
        ), strs),
        InstrV::StoreIndexed { base_offset, index, src, elem_size } => (elem_store_text(
            homes,
            lb,
            frame_elem_addr(homes, lb, base_offset, index, elem_size),
            src,
        ), strs),
        InstrV::LoadAddr { dst, base_offset } => (slot_op_text(homes, lb, "leaq "@, dst, base_offset as int), strs),
        InstrV::LoadIndexedPtr { dst, base, index, elem_size } => (elem_load_text(
            homes,
            lb,
            ptr_elem_addr(homes, lb, base, index, elem_size),
            dst,
        ), strs),
        InstrV::StoreIndexedPtr { base, index, src, elem_size } => (elem_store_text(
            homes,
            lb,
            ptr_elem_addr(homes, lb, base, index, elem_size),
            src,
        ), strs),
        InstrV::StoreMem { dst, src } => (store_mem_text(homes, lb, dst->StackSlot_0 as int, src), strs),
        InstrV::BinaryOp { dst, left, op, right } => (binop_text(homes, lb, dst, left, op, right), strs),
        InstrV::Call { dst, func, args } => (call_text(homes, lb, dst, func, args), strs),
        InstrV::Return(v) => (return_text(homes, lb, v, epi), strs),
        InstrV::Comment(c) => (ln("# "@ + c), strs),
    }
}

// ---------------------------------------------------------------------------
// The generator
// ---------------------------------------------------------------------------

/// Whether an instruction can be compiled with the given homes: every
/// temporary it names has a home, a parameter index and the number of call
/// arguments fit in the argument registers, loads of immediates carry no
/// location, and plain loads and stores address stack slots.
pub open spec fn instr_ok(homes: Map<u32, Home>, i: InstrV) -> bool {
    &&& forall|x: u32| #[trigger] optimize::uses(i, x) ==> homes.contains_key(x)
    &&& regalloc::defines(i) matches Some(d) ==> homes.contains_key(d.0)
    &&& match i {
        InstrV::LoadParam { index, .. } => index < 6,
        InstrV::Call { args, .. } => args.len() <= 6,
        InstrV::LoadImm { value, .. } => !(value is Loc),
        InstrV::LoadMem { src, .. } => src is StackSlot,
        InstrV::StoreMem { dst, .. } => dst is StackSlot,
        _ => true,
    }
}


/// The registers temporaries live in are apart from the argument registers
/// and from the scratch registers %rax and %r10: moving arguments into place
/// never overwrites a temporary.
pub proof fn lemma_pool_apart(r: int, i: int)
    ensures
        pool(r) != arg_reg(i),
        pool(r) != "%rax"@,
        pool(r) != "%r10"@,
{
    reveal_strlit("%rbx");
    reveal_strlit("%r12");
    reveal_strlit("%r13");
    reveal_strlit("%r14");
    reveal_strlit("%r15");
    reveal_strlit("%rdi");
    reveal_strlit("%rsi");
    reveal_strlit("%rdx");
    reveal_strlit("%rcx");
    reveal_strlit("%r8");
    reveal_strlit("%r9");
    reveal_strlit("%rax");
    reveal_strlit("%r10");
    assert(pool(r).len() == 4);
    if pool(r) == arg_reg(i) {
        assert(pool(r)[2] == arg_reg(i)[2] && pool(r)[3] == arg_reg(i)[3]);
    }
    if pool(r) == "%rax"@ {
        assert(pool(r)[2] == "%rax"@[2]);
    }
    if pool(r) == "%r10"@ {
        assert(pool(r)[3] == "%r10"@[3]);
    }
}

/// The shapes of instruction the generator handles: at most six parameters
/// and call arguments, immediates in immediate loads, stack slots in plain
/// loads and stores.
pub open spec fn shape_ok(i: InstrV) -> bool {
    match i {
        InstrV::LoadParam { index, .. } => index < 6,
        InstrV::Call { args, .. } => args.len() <= 6,
        InstrV::LoadImm { value, .. } => !(value is Loc),
        InstrV::LoadMem { src, .. } => src is StackSlot,
        InstrV::StoreMem { dst, .. } => dst is StackSlot,
        _ => true,
    }
}

/// What a function must be for the generator: every instruction of a shape
/// it handles, every temporary read also defined somewhere in the function,
/// and a frame that fits in the offsets.
pub open spec fn function_ok(f: IrFunction) -> bool {
    let s = optimize::body(f);
    &&& f.locals@.len() < 0x100_0000
    &&& s.len() < 0x100_0000
    &&& forall|k: int| 0 <= k < s.len() ==> shape_ok(#[trigger] s[k])
    &&& forall|k: int, x: u32| 0 <= k < s.len() && #[trigger] optimize::uses(s[k], x) ==> regalloc::defined_in(s, x)
}


/// The bytes below the saved registers: locals, then spill slots.
pub open spec fn frame_extra(nlocals: int, nspill: int) -> int {
    round16(8 * nlocals + 8 * nspill)
}

pub open spec fn pool_pushes() -> Seq<char> {
    ln("pushq %rbx"@) + ln("pushq %r12"@) + ln("pushq %r13"@) + ln("pushq %r14"@) + ln("pushq %r15"@)
}

pub open spec fn pool_pops() -> Seq<char> {
    ln("popq %r15"@) + ln("popq %r14"@) + ln("popq %r13"@) + ln("popq %r12"@) + ln("popq %rbx"@)
}

pub open spec fn epilogue_label(name: Seq<char>) -> Seq<char> {
    ".Lepilogue_"@ + name
}

/// The code of the instructions of `s`, leaving out the label that carries
/// the function's own name, and the string table after them.
pub open spec fn body_text(
    homes: Map<u32, Home>,
    lb: int,
    fname: Seq<char>,
    epi: Seq<char>,
    strs: Seq<Seq<char>>,
    s: Seq<InstrV>,
) -> (Seq<char>, Seq<Seq<char>>)
    decreases s.len(),
{
    if s.len() == 0 {
        (Seq::empty(), strs)
    } else {
        let (t, st) = body_text(homes, lb, fname, epi, strs, s.drop_last());
        if s.last() == InstrV::Label("func_"@ + fname) {
            (t, st)
        } else {
            let (u, st2) = instr_text(homes, lb, fname, epi, st, s.last());
            (t + u, st2)
        }
    }
}

/// The prologue: the symbol, saving %rbp and the register pool, and making
/// a frame of `fe` bytes.
pub open spec fn prologue_text(name: Seq<char>, fe: int) -> Seq<char> {
    "\n    .globl "@ + name + "\n"@ + name + ":\n"@ + ln("pushq %rbp"@) + ln("movq %rsp, %rbp"@) + pool_pushes() + (if fe
        > 0 {
        ln("subq $"@ + text::decimal(fe as nat) + ", %rsp"@)
    } else {
        Seq::empty()
    })
}

/// The epilogue at label `epi`, undoing the prologue and returning.
pub open spec fn epilogue_text(epi: Seq<char>, fe: int) -> Seq<char> {
    epi + ":\n"@ + (if fe > 0 {
        ln("addq $"@ + text::decimal(fe as nat) + ", %rsp"@)
    } else {
        Seq::empty()
    }) + pool_pops() + ln("popq %rbp"@) + ln("ret"@)
}

/// The code of a function whose temporaries got the homes of `r`.
pub open spec fn function_text(f: IrFunction, r: RegAllocResult, strs: Seq<Seq<char>>) -> (Seq<char>, Seq<Seq<char>>) {
    let name = f.name@;
    let nl = f.locals@.len() as int;
    let fe = frame_extra(nl, r.num_spill_slots as int);
    let epi = epilogue_label(name);
    let (b, st) = body_text(r.home@, 8 * nl, name, epi, strs, optimize::body(f));
    (prologue_text(name, fe) + b + epilogue_text(epi, fe), st)
}

/// The code of the functions `fs`, the k-th with the homes of `allocs[k]`.
pub open spec fn functions_text(fs: Seq<IrFunction>, allocs: Seq<RegAllocResult>, strs: Seq<Seq<char>>) -> (
    Seq<char>,
    Seq<Seq<char>>,
)
    decreases fs.len(),
{
    if fs.len() == 0 {
        (Seq::empty(), strs)
    } else {
        let (t, st) = functions_text(fs.drop_last(), allocs.take(fs.len() - 1), strs);
        let (u, st2) = function_text(fs.last(), allocs[fs.len() - 1], st);
        (t + u, st2)
    }
}

/// The entry point: call `main` and hand its result to the exit system call.
pub open spec fn start_text() -> Seq<char> {
    ln(".text"@) + ln(".globl _start"@) + "_start:\n"@ + ln("call main"@) + ln("movq %rax, %rdi"@) + ln(
        "movq $60, %rax    # sys_exit"@,
    ) + ln("syscall"@)
}



/// The assembly of a program whose k-th function got the homes `allocs[k]`,
/// after the text `t0` and with the strings `strs0` already in the table.
pub open spec fn program_text(
    fs: Seq<IrFunction>,
    allocs: Seq<RegAllocResult>,
    t0: Seq<char>,
    strs0: Seq<Seq<char>>,
) -> Seq<char> {
    let (t, st) = functions_text(fs, allocs, strs0);
    t0 + start_text() + t + rodata_text(st)
}

/// In a function the generator accepts, every instruction can be compiled
/// with the homes that register allocation gives.
pub proof fn lemma_instrs_ok(f: IrFunction, r: RegAllocResult)
    requires
        function_ok(f),
        homes_ok(optimize::body(f), r, 5),
    ensures
        forall|k: int| 0 <= k < optimize::body(f).len() ==> instr_ok(r.home@, #[trigger] optimize::body(f)[k]),
        homes_bounded(r.home@, r.num_spill_slots, 5),
{
    let s = optimize::body(f);
    assert forall|k: int| 0 <= k < s.len() implies instr_ok(r.home@, #[trigger] s[k]) by {
        assert forall|x: u32| #[trigger] optimize::uses(s[k], x) implies r.home@.contains_key(x) by {
            regalloc::lemma_first_def_defined(s, x);
        }
        match regalloc::defines(s[k]) {
            Some(d) => {
                assert(regalloc::defined_in(s, d.0));
                regalloc::lemma_first_def_defined(s, d.0);
            },
            None => {},
        }
    }
}



fn shape_fits(instr: &IrInstruction) -> (b: bool)
    ensures
        b == shape_ok(ir::instr_view(*instr)),
{
    match instr {
        IrInstruction::LoadParam { index, .. } => *index < 6,
        IrInstruction::Call { args, .. } => args.len() <= 6,
        IrInstruction::LoadImm { value, .. } => !matches!(value, Operand::Loc(_)),
        IrInstruction::LoadMem { src, .. } => matches!(src, Location::StackSlot(_)),
        IrInstruction::StoreMem { dst, .. } => matches!(dst, Location::StackSlot(_)),
        _ => true,
    }
}

/// Whether the generator accepts a function: the test of `function_ok`.
pub fn function_compilable(func: &IrFunction) -> (b: bool)
    ensures
        b == function_ok(*func),
{
    if func.locals.len() >= 0x100_0000 || func.instructions.len() >= 0x100_0000 {
        return false;
    }
    let alloc = regalloc::allocate(func, 5);
    let ghost s = optimize::body(*func);
    let mut k: usize = 0;
    while k < func.instructions.len()
        invariant
            k <= s.len(),
            s == optimize::body(*func),
            homes_ok(s, alloc, 5),
            forall|q: int| 0 <= q < k ==> shape_ok(#[trigger] s[q]),
            forall|q: int, x: u32| 0 <= q < k && #[trigger] optimize::uses(s[q], x) ==> regalloc::defined_in(s, x),
        decreases s.len() - k,
    {
        let instr = &func.instructions[k];
        assert(s[k as int] == ir::instr_view(*instr));
        if !shape_fits(instr) {
            return false;
        }
        if !uses_homed(&alloc, instr) {
            proof {
                let x = choose|x: u32| #[trigger] optimize::uses(s[k as int], x) && !alloc.home@.contains_key(x);
                regalloc::lemma_first_def_defined(s, x);
            }
            return false;
        }
        proof {
            assert forall|q: int, x: u32| 0 <= q < k + 1 && #[trigger] optimize::uses(s[q], x) implies regalloc::defined_in(
                s,
                x,
            ) by {
                if q == k {
                    regalloc::lemma_first_def_defined(s, x);
                }
            }
        }
        k = k + 1;
    }
    true
}

/// Whether the generator accepts every function of a program.
pub fn program_compilable(program: &IrProgram) -> (b: bool)
    ensures
        b == forall|k: int| 0 <= k < program.functions@.len() ==> function_ok(#[trigger] program.functions@[k]),
{
    let mut k: usize = 0;
    while k < program.functions.len()
        invariant
            k <= program.functions@.len(),
            forall|q: int| 0 <= q < k ==> function_ok(#[trigger] program.functions@[q]),
        decreases program.functions@.len() - k,
    {
        if !function_compilable(&program.functions[k]) {
            return false;
        }
        k = k + 1;
    }
    true
}

pub struct X86_64CodeGen {
    out: String,
    strings: Vec<String>,
}


impl X86_64CodeGen {
    pub closed spec fn text(&self) -> Seq<char> {
        self.out@
    }

    pub closed spec fn strs(&self) -> Seq<Seq<char>> {
        strs_view(self.strings@)
    }

    pub fn new() -> (r: Self)
        ensures
            r.text() == Seq::<char>::empty(),
            r.strs() == Seq::<Seq<char>>::empty(),
    {
        let r = X86_64CodeGen { out: String::new(), strings: Vec::new() };
        assert(r.strs() =~= Seq::<Seq<char>>::empty());
        r
    }

    fn push_spill_addr(&mut self, lb: i32, k: usize)
        requires
            0 <= lb < 0x1_0000_0000,
            k < 0x1_0000_0000,
        ensures
            final(self).text() == old(self).text() + spill_addr(lb as int, k as int),
            final(self).strs() == old(self).strs(),
    {
        let v: i64 = 40 + lb as i64 + 8 * (k as i64 + 1);
        push_str(&mut self.out, "-");
        push_signed_decimal(&mut self.out, v);
        push_str(&mut self.out, "(%rbp)");
        assert(self.out@ =~= old(self).out@ + spill_addr(lb as int, k as int));
    }

    fn push_slot_addr(&mut self, off: i32)
        ensures
            final(self).text() == old(self).text() + slot_addr(off as int),
            final(self).strs() == old(self).strs(),
    {
        let v: i64 = 40 - off as i64;
        push_str(&mut self.out, "-");
        push_signed_decimal(&mut self.out, v);
        push_str(&mut self.out, "(%rbp)");
        assert(self.out@ =~= old(self).out@ + slot_addr(off as int));
    }

    /// Emits what reading `t` takes and gives the operand holding it.
    fn read(&mut self, alloc: &RegAllocResult, lb: i32, t: Temp, scratch: &str) -> (r: String)
        requires
            alloc.home@.contains_key(t.0),
            homes_bounded(alloc.home@, alloc.num_spill_slots, 5),
            0 <= lb < 0x1_0000_0000,
            alloc.num_spill_slots < 0x1_0000_0000,
        ensures
            final(self).text() == old(self).text() + read_code(alloc.home@, lb as int, t, scratch@).0,
            r@ == read_code(alloc.home@, lb as int, t, scratch@).1,
            final(self).strs() == old(self).strs(),
    {
        proof {
            reveal(read_code);
        }
        let h = home_of(alloc, t);
        assert(alloc.home@[t.0] == h);
        match h {
            Home::Reg(r) => {
                assert(self.out@ =~= old(self).out@ + Seq::<char>::empty());
                String::from_str(pool_str(r))
            },
            Home::Spill(k) => {
                push_str(&mut self.out, "    ");
                push_str(&mut self.out, "movq ");
                self.push_spill_addr(lb, k);
                push_str(&mut self.out, ", ");
                push_str(&mut self.out, scratch);
                push_str(&mut self.out, "\n");
                assert(self.out@ =~= old(self).out@ + read_code(alloc.home@, lb as int, t, scratch@).0);
                String::from_str(scratch)
            },
        }
    }

    /// Stores register `src` in the home of `t`.
    fn write_home(&mut self, alloc: &RegAllocResult, lb: i32, t: Temp, src: &str)
        requires
            alloc.home@.contains_key(t.0),
            homes_bounded(alloc.home@, alloc.num_spill_slots, 5),
            0 <= lb < 0x1_0000_0000,
            alloc.num_spill_slots < 0x1_0000_0000,
        ensures
            final(self).text() == old(self).text() + write_code(alloc.home@, lb as int, t, src@),
            final(self).strs() == old(self).strs(),
    {
        proof {
            reveal(write_code);
        }
        let h = home_of(alloc, t);
        match h {
            Home::Reg(r) => {
                let p = pool_str(r);
                if !str_eq(p, src) {
                    push_str(&mut self.out, "    ");
                    push_str(&mut self.out, "movq ");
                    push_str(&mut self.out, src);
                    push_str(&mut self.out, ", ");
                    push_str(&mut self.out, p);
                    push_str(&mut self.out, "\n");
                }
                assert(self.out@ =~= old(self).out@ + write_code(alloc.home@, lb as int, t, src@));
            },
            Home::Spill(k) => {
                push_str(&mut self.out, "    ");
                push_str(&mut self.out, "movq ");
                push_str(&mut self.out, src);
                push_str(&mut self.out, ", ");
                self.push_spill_addr(lb, k);
                push_str(&mut self.out, "\n");
                assert(self.out@ =~= old(self).out@ + write_code(alloc.home@, lb as int, t, src@));
            },
        }
    }

    fn work_reg(alloc: &RegAllocResult, t: Temp) -> (r: &'static str)
        requires
            alloc.home@.contains_key(t.0),
            homes_bounded(alloc.home@, alloc.num_spill_slots, 5),
        ensures
            r@ == work_reg(alloc.home@, t),
    {
        match home_of(alloc, t) {
            Home::Reg(r) => pool_str(r),
            Home::Spill(_) => "%rax",
        }
    }

    fn ln1(&mut self, a: &str)
        ensures
            final(self).text() == old(self).text() + ln(a@),
            final(self).strs() == old(self).strs(),
    {
        push_str(&mut self.out, "    ");
        push_str(&mut self.out, a);
        push_str(&mut self.out, "\n");
        assert(self.out@ =~= old(self).out@ + ln(a@));
    }

    fn ln2(&mut self, a: &str, b: &str)
        ensures
            final(self).text() == old(self).text() + ln(a@ + b@),
            final(self).strs() == old(self).strs(),
    {
        push_str(&mut self.out, "    ");
        push_str(&mut self.out, a);
        push_str(&mut self.out, b);
        push_str(&mut self.out, "\n");
        assert(self.out@ =~= old(self).out@ + ln(a@ + b@));
    }

    fn ln3(&mut self, a: &str, b: &str, c: &str)
        ensures
            final(self).text() == old(self).text() + ln(a@ + b@ + c@),
            final(self).strs() == old(self).strs(),
    {
        push_str(&mut self.out, "    ");
        push_str(&mut self.out, a);
        push_str(&mut self.out, b);
        push_str(&mut self.out, c);
        push_str(&mut self.out, "\n");
        assert(self.out@ =~= old(self).out@ + ln(a@ + b@ + c@));
    }

    fn ln4(&mut self, a: &str, b: &str, c: &str, d: &str)
        ensures
            final(self).text() == old(self).text() + ln(a@ + b@ + c@ + d@),
            final(self).strs() == old(self).strs(),
    {
        push_str(&mut self.out, "    ");
        push_str(&mut self.out, a);
        push_str(&mut self.out, b);
        push_str(&mut self.out, c);
        push_str(&mut self.out, d);
        push_str(&mut self.out, "\n");
        assert(self.out@ =~= old(self).out@ + ln(a@ + b@ + c@ + d@));
    }

    fn ln5(&mut self, a: &str, b: &str, c: &str, d: &str, e: &str)
        ensures
            final(self).text() == old(self).text() + ln(a@ + b@ + c@ + d@ + e@),
            final(self).strs() == old(self).strs(),
    {
        push_str(&mut self.out, "    ");
        push_str(&mut self.out, a);
        push_str(&mut self.out, b);
        push_str(&mut self.out, c);
        push_str(&mut self.out, d);
        push_str(&mut self.out, e);
        push_str(&mut self.out, "\n");
        assert(self.out@ =~= old(self).out@ + ln(a@ + b@ + c@ + d@ + e@));
    }

    fn move_unless(&mut self, from: &str, to: &str)
        ensures
            final(self).text() == old(self).text() + move_unless(from@, to@),
            final(self).strs() == old(self).strs(),
    {
        proof {
            reveal(move_unless);
        }
        if !str_eq(from, to) {
            push_str(&mut self.out, "    ");
            push_str(&mut self.out, "movq ");
            push_str(&mut self.out, from);
            push_str(&mut self.out, ", ");
            push_str(&mut self.out, to);
            push_str(&mut self.out, "\n");
        }
        assert(self.out@ =~= old(self).out@ + move_unless(from@, to@));
    }

    fn compile_divmod(&mut self, alloc: &RegAllocResult, lb: i32, dst: Temp, left: Temp, op: IrBinOp, right: Temp)
        requires
            alloc.home@.contains_key(dst.0),
            alloc.home@.contains_key(left.0),
            alloc.home@.contains_key(right.0),
            homes_bounded(alloc.home@, alloc.num_spill_slots, 5),
            0 <= lb < 0x1_0000_0000,
            alloc.num_spill_slots < 0x1_0000_0000,
        ensures
            final(self).text() == old(self).text() + divmod_text(alloc.home@, lb as int, dst, left, op, right),
            final(self).strs() == old(self).strs(),
    {
        let ghost t0 = self.text();
        let ghost homes = alloc.home@;
        let ghost (c1, rr) = read_code(homes, lb as int, right, "%r10"@);
        let r = self.read(alloc, lb, right, "%r10");
        let ghost t1 = self.text();
        let ghost (c2, mv) = if rr == "%rax"@ || rr == "%rdx"@ {
            (ln("movq "@ + rr + ", %r10"@), "%r10"@)
        } else {
            (Seq::<char>::empty(), rr)
        };
        let moved = if str_eq(r.as_str(), "%rax") || str_eq(r.as_str(), "%rdx") {
            self.ln3("movq ", r.as_str(), ", %r10");
            String::from_str("%r10")
        } else {
            r.clone()
        };
        assert(self.text() =~= t0 + (c1 + c2));
        let ghost t2 = self.text();
        let ghost (c3, ll) = read_code(homes, lb as int, left, "%rax"@);
        let l = self.read(alloc, lb, left, "%rax");
        self.move_unless(l.as_str(), "%rax");
        assert(self.text() =~= t0 + (c1 + c2 + c3 + move_unless(ll, "%rax"@)));
        let ghost t3 = self.text();
        let ghost signed = op == IrBinOp::Div || op == IrBinOp::Mod;
        let ghost mid = if signed {
            ln("cqto"@) + ln("idivq "@ + mv)
        } else {
            ln("xorq %rdx, %rdx"@) + ln("divq "@ + mv)
        };
        if matches!(op, IrBinOp::Div | IrBinOp::Mod) {
            self.ln1("cqto");
            self.ln2("idivq ", moved.as_str());
        } else {
            self.ln1("xorq %rdx, %rdx");
            self.ln2("divq ", moved.as_str());
        }
        assert(self.text() =~= t3 + mid);
        assert(self.text() =~= t0 + (c1 + c2 + c3 + move_unless(ll, "%rax"@) + mid));
        let ghost t4 = self.text();
        if matches!(op, IrBinOp::Div | IrBinOp::DivU) {
            self.write_home(alloc, lb, dst, "%rax");
        } else {
            self.write_home(alloc, lb, dst, "%rdx");
        }
        assert(self.text() =~= t0 + divmod_text(alloc.home@, lb as int, dst, left, op, right));
    }

    fn compile_logic(&mut self, alloc: &RegAllocResult, lb: i32, dst: Temp, left: Temp, op: IrBinOp, right: Temp)
        requires
            alloc.home@.contains_key(dst.0),
            alloc.home@.contains_key(left.0),
            alloc.home@.contains_key(right.0),
            homes_bounded(alloc.home@, alloc.num_spill_slots, 5),
            0 <= lb < 0x1_0000_0000,
            alloc.num_spill_slots < 0x1_0000_0000,
        ensures
            final(self).text() == old(self).text() + logic_text(alloc.home@, lb as int, dst, left, op, right),
            final(self).strs() == old(self).strs(),
    {
        let ghost t0 = self.text();
        self.emit_truth(alloc, lb, left, "%rax", "%al");
        self.emit_truth(alloc, lb, right, "%r10", "%r10b");
        if matches!(op, IrBinOp::And) {
            self.ln2("andq", " %r10, %rax");
        } else {
            self.ln2("orq", " %r10, %rax");
        }
        self.write_home(alloc, lb, dst, "%rax");
        assert(self.text() =~= t0 + logic_text(alloc.home@, lb as int, dst, left, op, right));
    }

    fn emit_truth(&mut self, alloc: &RegAllocResult, lb: i32, t: Temp, reg: &str, byte: &str)
        requires
            alloc.home@.contains_key(t.0),
            homes_bounded(alloc.home@, alloc.num_spill_slots, 5),
            0 <= lb < 0x1_0000_0000,
            alloc.num_spill_slots < 0x1_0000_0000,
        ensures
            final(self).text() == old(self).text() + truth_text(alloc.home@, lb as int, t, reg@, byte@),
            final(self).strs() == old(self).strs(),
    {
        let ghost t0 = self.text();
        let o = self.read(alloc, lb, t, reg);
        self.ln4("testq ", o.as_str(), ", ", o.as_str());
        self.ln2("setne ", byte);
        self.ln4("movzbq ", byte, ", ", reg);
        assert(self.text() =~= t0 + truth_text(alloc.home@, lb as int, t, reg@, byte@));
    }

    fn compile_arith(&mut self, alloc: &RegAllocResult, lb: i32, dst: Temp, left: Temp, op: IrBinOp, right: Temp)
        requires
            alloc.home@.contains_key(dst.0),
            alloc.home@.contains_key(left.0),
            alloc.home@.contains_key(right.0),
            homes_bounded(alloc.home@, alloc.num_spill_slots, 5),
            0 <= lb < 0x1_0000_0000,
            alloc.num_spill_slots < 0x1_0000_0000,
        ensures
            final(self).text() == old(self).text() + arith_text(alloc.home@, lb as int, dst, left, op, right),
            final(self).strs() == old(self).strs(),
    {
        let ghost t0 = self.text();
        let ghost homes = alloc.home@;
        let ghost (c1, ll) = read_code(homes, lb as int, left, "%rax"@);
        let ghost (c2, rr) = read_code(homes, lb as int, right, "%r10"@);
        let w = Self::work_reg(alloc, dst);
        let l = self.read(alloc, lb, left, "%rax");
        self.move_unless(l.as_str(), w);
        let ghost p1 = c1 + move_unless(ll, w@);
        assert(self.text() =~= t0 + p1);
        let ghost t1 = self.text();
        let r = self.read(alloc, lb, right, "%r10");
        let inst = if matches!(op, IrBinOp::Add) {
            "addq"
        } else if matches!(op, IrBinOp::Sub) {
            "subq"
        } else {
            "imulq"
        };
        self.ln5(inst, " ", r.as_str(), ", ", w);
        let ghost p2 = c2 + ln(inst@ + " "@ + rr + ", "@ + w@);
        assert(self.text() =~= t1 + p2);
        let ghost t2 = self.text();
        self.write_home(alloc, lb, dst, w);
        assert(arith_text(homes, lb as int, dst, left, op, right) =~= p1 + p2 + write_code(homes, lb as int, dst, w@));
        assert(self.text() =~= t0 + arith_text(alloc.home@, lb as int, dst, left, op, right));
    }

    fn compile_compare(&mut self, alloc: &RegAllocResult, lb: i32, dst: Temp, left: Temp, op: IrBinOp, right: Temp)
        requires
            alloc.home@.contains_key(dst.0),
            alloc.home@.contains_key(left.0),
            alloc.home@.contains_key(right.0),
            homes_bounded(alloc.home@, alloc.num_spill_slots, 5),
            0 <= lb < 0x1_0000_0000,
            alloc.num_spill_slots < 0x1_0000_0000,
        ensures
            final(self).text() == old(self).text() + compare_text(alloc.home@, lb as int, dst, left, op, right),
            final(self).strs() == old(self).strs(),
    {
        let ghost t0 = self.text();
        let l = self.read(alloc, lb, left, "%rax");
        self.move_unless(l.as_str(), "%rax");
        let r = self.read(alloc, lb, right, "%r10");
        self.ln3("cmpq ", r.as_str(), ", %rax");
        let cc = match op {
            IrBinOp::Eq => "sete",
            IrBinOp::Neq => "setne",
            IrBinOp::Lt => "setl",
            IrBinOp::Gt => "setg",
            IrBinOp::Le => "setle",
            IrBinOp::Ge => "setge",
            IrBinOp::LtU => "setb",
            IrBinOp::GtU => "seta",
            IrBinOp::LeU => "setbe",
            _ => "setae",
        };
        assert(cc@ == setcc(op));
        self.ln2(cc, " %al");
        self.ln1("movzbq %al, %rax");
        self.write_home(alloc, lb, dst, "%rax");
        assert(self.text() =~= t0 + compare_text(alloc.home@, lb as int, dst, left, op, right));
    }

    /// The code of a binary operation.
    fn compile_binop(&mut self, alloc: &RegAllocResult, lb: i32, dst: Temp, left: Temp, op: IrBinOp, right: Temp)
        requires
            alloc.home@.contains_key(dst.0),
            alloc.home@.contains_key(left.0),
            alloc.home@.contains_key(right.0),
            homes_bounded(alloc.home@, alloc.num_spill_slots, 5),
            0 <= lb < 0x1_0000_0000,
            alloc.num_spill_slots < 0x1_0000_0000,
        ensures
            final(self).text() == old(self).text() + binop_text(alloc.home@, lb as int, dst, left, op, right),
            final(self).strs() == old(self).strs(),
    {
        match op {
            IrBinOp::Div | IrBinOp::Mod | IrBinOp::DivU | IrBinOp::ModU => self.compile_divmod(alloc, lb, dst, left, op, right),
            IrBinOp::And | IrBinOp::Or => self.compile_logic(alloc, lb, dst, left, op, right),
            IrBinOp::Add | IrBinOp::Sub | IrBinOp::Mul => self.compile_arith(alloc, lb, dst, left, op, right),
            _ => self.compile_compare(alloc, lb, dst, left, op, right),
        }
    }

    /// Interns a string: the index of its first copy in the table, which
    /// gets it at the end if it has none.
    fn intern_string(&mut self, s: &String) -> (k: usize)
        ensures
            (k as int, final(self).strs()) == intern(old(self).strs(), s@),
            final(self).text() == old(self).text(),
    {
        let n = self.strings.len();
        let mut i: usize = 0;
        while i < n
            invariant
                n == self.strings@.len(),
                self.strs() == old(self).strs(),
                self.text() == old(self).text(),
                i <= n,
                forall|j: int| 0 <= j < i ==> self.strs()[j] != s@,
            decreases n - i,
        {
            if str_eq(self.strings[i].as_str(), s.as_str()) {
                proof {
                    let strs = self.strs();
                    assert(strs[i as int] == s@);
                    let c = choose|q: int| 0 <= q < strs.len() && strs[q] == s@ && forall|j: int| 0 <= j < q ==> strs[j] != s@;
                    if c < i {
                    } else if c > i {
                    }
                    assert(c == i);
                }
                return i;
            }
            i = i + 1;
        }
        self.strings.push(s.clone());
        proof {
            assert(self.strs() =~= old(self).strs().push(s@));
        }
        n
    }

    /// Pushes a line `    <a><n><b><c>` with a signed number in it.
    fn ln_num(&mut self, a: &str, n: i64, b: &str, c: &str)
        ensures
            final(self).text() == old(self).text() + ln(a@ + text::signed_decimal(n as int) + b@ + c@),
            final(self).strs() == old(self).strs(),
    {
        push_str(&mut self.out, "    ");
        push_str(&mut self.out, a);
        push_signed_decimal(&mut self.out, n);
        push_str(&mut self.out, b);
        push_str(&mut self.out, c);
        push_str(&mut self.out, "\n");
        assert(self.out@ =~= old(self).out@ + ln(a@ + text::signed_decimal(n as int) + b@ + c@));
    }

    /// Pushes `<a><slot address><b><c>` as a line.
    fn ln_slot(&mut self, a: &str, off: i32, b: &str, c: &str)
        ensures
            final(self).text() == old(self).text() + ln(a@ + slot_addr(off as int) + b@ + c@),
            final(self).strs() == old(self).strs(),
    {
        push_str(&mut self.out, "    ");
        push_str(&mut self.out, a);
        self.push_slot_addr(off);
        push_str(&mut self.out, b);
        push_str(&mut self.out, c);
        push_str(&mut self.out, "\n");
        assert(self.out@ =~= old(self).out@ + ln(a@ + slot_addr(off as int) + b@ + c@));
    }

    fn emit_frame_elem_addr(&mut self, alloc: &RegAllocResult, lb: i32, base_offset: i32, index: Temp, elem_size: i32)
        requires
            alloc.home@.contains_key(index.0),
            homes_bounded(alloc.home@, alloc.num_spill_slots, 5),
            0 <= lb < 0x1_0000_0000,
            alloc.num_spill_slots < 0x1_0000_0000,
        ensures
            final(self).text() == old(self).text() + frame_elem_addr(alloc.home@, lb as int, base_offset, index, elem_size),
            final(self).strs() == old(self).strs(),
    {
        let ghost t0 = self.text();
        let idx = self.read(alloc, lb, index, "%r10");
        self.move_unless(idx.as_str(), "%r10");
        let ghost t1 = self.text();
        if elem_size != 1 {
            self.ln_num("imulq $", elem_size as i64, ", %r10", "");
        }
        proof {
            reveal_strlit("");
        }
        let ghost t2 = self.text();
        self.ln_slot("leaq ", base_offset, ", %rax", "");
        self.ln1("subq %r10, %rax");
        assert(self.text() =~= t0 + frame_elem_addr(alloc.home@, lb as int, base_offset, index, elem_size));
    }

    fn push_local_label(&mut self, fname: &str, l: &str)
        ensures
            final(self).text() == old(self).text() + local_label(fname@, l@),
            final(self).strs() == old(self).strs(),
    {
        push_str(&mut self.out, ".L");
        push_str(&mut self.out, fname);
        push_str(&mut self.out, "_");
        push_str(&mut self.out, l);
        assert(self.out@ =~= old(self).out@ + local_label(fname@, l@));
    }

    /// Labels, jumps, returns and notes.
    #[verifier::spinoff_prover]
    fn compile_control(&mut self, fname: &str, alloc: &RegAllocResult, lb: i32, instr: &IrInstruction, epi: &str)
        requires
            homes_bounded(alloc.home@, alloc.num_spill_slots, 5),
            0 <= lb < 0x1_0000_0000,
            alloc.num_spill_slots < 0x1_0000_0000,
            instr_ok(alloc.home@, ir::instr_view(*instr)),
            ir::instr_view(*instr) is Label || ir::instr_view(*instr) is Jump || ir::instr_view(*instr) is JumpIfZero
                || ir::instr_view(*instr) is JumpIfNotZero || ir::instr_view(*instr) is Return || ir::instr_view(*instr) is Comment,
        ensures
            (final(self).text(), final(self).strs()) == ({
                let (t, s) = instr_text(alloc.home@, lb as int, fname@, epi@, old(self).strs(), ir::instr_view(*instr));
                (old(self).text() + t, s)
            }),
    {
        let ghost t0 = self.text();
        let ghost homes = alloc.home@;
        match instr {
            IrInstruction::Label(l) => {
                self.push_local_label(fname, l.as_str());
                push_str(&mut self.out, ":\n");
            },
            IrInstruction::Jump(l) => {
                push_str(&mut self.out, "    ");
                push_str(&mut self.out, "jmp ");
                self.push_local_label(fname, l.as_str());
                push_str(&mut self.out, "\n");
            },
            IrInstruction::JumpIfZero { cond, target } => {
                assert(optimize::uses(ir::instr_view(*instr), cond.0));
                self.emit_jcc(fname, alloc, lb, *cond, target.as_str(), "jz ");
            },
            IrInstruction::JumpIfNotZero { cond, target } => {
                assert(optimize::uses(ir::instr_view(*instr), cond.0));
                self.emit_jcc(fname, alloc, lb, *cond, target.as_str(), "jnz ");
            },
            IrInstruction::Return(v) => {
                let ghost t1 = self.text();
                match v {
                    Some(t) => {
                        assert(optimize::uses(ir::instr_view(*instr), t.0));
                        let r = self.read(alloc, lb, *t, "%rax");
                        self.move_unless(r.as_str(), "%rax");
                    },
                    None => {
                        self.ln1("xorq %rax, %rax");
                    },
                }
                self.ln2("jmp ", epi);
                assert(self.text() =~= t1 + return_text(homes, lb as int, *v, epi@));
            },
            IrInstruction::Comment(c) => {
                self.ln2("# ", c.as_str());
            },
            _ => {
                proof {
                    assert(false);
                }
            },
        }
        assert(self.text() =~= t0 + instr_text(homes, lb as int, fname@, epi@, old(self).strs(), ir::instr_view(*instr)).0);
    }

    /// Parameters, immediates and plain loads.
    #[verifier::spinoff_prover]
    #[verifier::rlimit(60)]
    fn compile_load(&mut self, fname: &str, alloc: &RegAllocResult, lb: i32, instr: &IrInstruction, epi: &str)
        requires
            homes_bounded(alloc.home@, alloc.num_spill_slots, 5),
            0 <= lb < 0x1_0000_0000,
            alloc.num_spill_slots < 0x1_0000_0000,
            instr_ok(alloc.home@, ir::instr_view(*instr)),
            ir::instr_view(*instr) is LoadParam || ir::instr_view(*instr) is LoadImm || ir::instr_view(*instr) is LoadMem
                || ir::instr_view(*instr) is LoadAddr,
        ensures
            (final(self).text(), final(self).strs()) == ({
                let (t, s) = instr_text(alloc.home@, lb as int, fname@, epi@, old(self).strs(), ir::instr_view(*instr));
                (old(self).text() + t, s)
            }),
    {
        let ghost t0 = self.text();
        let ghost homes = alloc.home@;
        match instr {
            IrInstruction::LoadParam { dst, index } => {
                self.write_home(alloc, lb, *dst, arg_str(*index));
            },
            IrInstruction::LoadImm { .. } => {
                self.compile_load_imm(fname, alloc, lb, instr, epi);
            },
            IrInstruction::LoadMem { dst, src } => {
                let off = match src {
                    Location::StackSlot(o) => *o,
                    Location::Temp(_) => {
                        proof {
                            assert(false);
                        }
                        0
                    },
                };
                let w = Self::work_reg(alloc, *dst);
                self.ln_slot("movq ", off, ", ", w);
                self.write_home(alloc, lb, *dst, w);
            },
            IrInstruction::LoadAddr { dst, base_offset } => {
                let w = Self::work_reg(alloc, *dst);
                self.ln_slot("leaq ", *base_offset, ", ", w);
                self.write_home(alloc, lb, *dst, w);
            },
            _ => {
                proof {
                    assert(false);
                }
            },
        }
        assert(self.text() =~= t0 + instr_text(homes, lb as int, fname@, epi@, old(self).strs(), ir::instr_view(*instr)).0);
    }

    /// Loading an immediate.
    #[verifier::rlimit(60)]
    fn compile_load_imm(&mut self, fname: &str, alloc: &RegAllocResult, lb: i32, instr: &IrInstruction, epi: &str)
        requires
            homes_bounded(alloc.home@, alloc.num_spill_slots, 5),
            0 <= lb < 0x1_0000_0000,
            alloc.num_spill_slots < 0x1_0000_0000,
            instr_ok(alloc.home@, ir::instr_view(*instr)),
            ir::instr_view(*instr) is LoadImm,
        ensures
            (final(self).text(), final(self).strs()) == ({
                let (t, s) = instr_text(alloc.home@, lb as int, fname@, epi@, old(self).strs(), ir::instr_view(*instr));
                (old(self).text() + t, s)
            }),
    {
        let ghost t0 = self.text();
        let ghost homes = alloc.home@;
        let (dst, value) = match instr {
            IrInstruction::LoadImm { dst, value } => (dst, value),
            _ => {
                proof {
                    assert(false);
                }
                return;
            },
        };
        let w = Self::work_reg(alloc, *dst);
        assert(regalloc::defines(ir::instr_view(*instr)) == Some(*dst));
        match value {
            Operand::ImmInt(v) => {
                self.ln_num("movabsq $", *v, ", ", w);
            },
            Operand::ImmFloat(f) => {
                self.ln3(
                    "# UWAGA: literał zmiennoprzecinkowy ",
                    f.text.as_str(),
                    " przechowany jako surowe bity (IR nie niesie typu operacji arytmetycznej)",
                );
                let bits = #[verifier::truncate] (f.bits as i64);
                self.ln_num("movabsq $", bits, ", ", w);
            },
            Operand::ImmString(s) => {
                let clean = parser::trim_quotes_str(s.as_str());
                let k = self.intern_string(&clean);
                let ghost t1 = self.text();
                push_str(&mut self.out, "    ");
                push_str(&mut self.out, "leaq .Lstr");
                push_decimal(&mut self.out, k as u64);
                push_str(&mut self.out, "(%rip), ");
                push_str(&mut self.out, w);
                push_str(&mut self.out, "\n");
                assert(self.text() =~= t1 + ln("leaq .Lstr"@ + text::decimal(k as nat) + "(%rip), "@ + w@));
            },
            Operand::Loc(_) => {
                proof {
                    assert(false);
                }
            },
        }
        self.write_home(alloc, lb, *dst, w);
        assert(self.text() =~= t0 + instr_text(homes, lb as int, fname@, epi@, old(self).strs(), ir::instr_view(*instr)).0);
    }

    fn emit_ptr_elem_addr(&mut self, alloc: &RegAllocResult, lb: i32, base: Temp, index: Temp, elem_size: i32)
        requires
            alloc.home@.contains_key(index.0),
            alloc.home@.contains_key(base.0),
            homes_bounded(alloc.home@, alloc.num_spill_slots, 5),
            0 <= lb < 0x1_0000_0000,
            alloc.num_spill_slots < 0x1_0000_0000,
        ensures
            final(self).text() == old(self).text() + ptr_elem_addr(alloc.home@, lb as int, base, index, elem_size),
            final(self).strs() == old(self).strs(),
    {
        let ghost t0 = self.text();
        let idx = self.read(alloc, lb, index, "%r10");
        self.move_unless(idx.as_str(), "%r10");
        if elem_size != 1 {
            self.ln_num("imulq $", elem_size as i64, ", %r10", "");
        }
        proof {
            reveal_strlit("");
        }
        let ghost t1 = self.text();
        let b = self.read(alloc, lb, base, "%rax");
        self.move_unless(b.as_str(), "%rax");
        self.ln1("subq %r10, %rax");
        assert(self.text() =~= t0 + ptr_elem_addr(alloc.home@, lb as int, base, index, elem_size));
    }

    /// Indexed accesses and plain stores.
    #[verifier::rlimit(100)]
    #[verifier::spinoff_prover]
    fn compile_memory(&mut self, fname: &str, alloc: &RegAllocResult, lb: i32, instr: &IrInstruction, epi: &str)
        requires
            homes_bounded(alloc.home@, alloc.num_spill_slots, 5),
            0 <= lb < 0x1_0000_0000,
            alloc.num_spill_slots < 0x1_0000_0000,
            instr_ok(alloc.home@, ir::instr_view(*instr)),
            ir::instr_view(*instr) is LoadIndexed || ir::instr_view(*instr) is StoreIndexed || ir::instr_view(*instr)
                is LoadIndexedPtr || ir::instr_view(*instr) is StoreIndexedPtr || ir::instr_view(*instr) is StoreMem,
        ensures
            (final(self).text(), final(self).strs()) == ({
                let (t, s) = instr_text(alloc.home@, lb as int, fname@, epi@, old(self).strs(), ir::instr_view(*instr));
                (old(self).text() + t, s)
            }),
    {
        let ghost t0 = self.text();
        let ghost homes = alloc.home@;
        let ghost iv = ir::instr_view(*instr);
        match instr {
            IrInstruction::LoadIndexed { dst, base_offset, index, elem_size } => {
                assert(optimize::uses(iv, index.0));
                assert(regalloc::defines(iv) == Some(*dst));
                let ghost t1 = self.text();
                self.emit_frame_elem_addr(alloc, lb, *base_offset, *index, *elem_size);
                let w = Self::work_reg(alloc, *dst);
                self.ln2("movq (%rax), ", w);
                self.write_home(alloc, lb, *dst, w);
                assert(self.text() =~= t1 + elem_load_text(
                    homes,
                    lb as int,
                    frame_elem_addr(homes, lb as int, *base_offset, *index, *elem_size),
                    *dst,
                ));
            },
            IrInstruction::StoreIndexed { base_offset, index, src, elem_size } => {
                assert(optimize::uses(iv, index.0));
                assert(optimize::uses(iv, src.0));
                let ghost t1 = self.text();
                self.emit_frame_elem_addr(alloc, lb, *base_offset, *index, *elem_size);
                let s = self.read(alloc, lb, *src, "%r10");
                self.ln3("movq ", s.as_str(), ", (%rax)");
                assert(self.text() =~= t1 + elem_store_text(
                    homes,
                    lb as int,
                    frame_elem_addr(homes, lb as int, *base_offset, *index, *elem_size),
                    *src,
                ));
            },
            IrInstruction::LoadIndexedPtr { dst, base, index, elem_size } => {
                assert(optimize::uses(iv, index.0));
                assert(optimize::uses(iv, base.0));
                assert(regalloc::defines(iv) == Some(*dst));
                let ghost t1 = self.text();
                self.emit_ptr_elem_addr(alloc, lb, *base, *index, *elem_size);
                let w = Self::work_reg(alloc, *dst);
                self.ln2("movq (%rax), ", w);
                self.write_home(alloc, lb, *dst, w);
                assert(self.text() =~= t1 + elem_load_text(homes, lb as int, ptr_elem_addr(homes, lb as int, *base, *index, *elem_size), *dst));
            },
            IrInstruction::StoreIndexedPtr { base, index, src, elem_size } => {
                assert(optimize::uses(iv, index.0));
                assert(optimize::uses(iv, base.0));
                assert(optimize::uses(iv, src.0));
                let ghost t1 = self.text();
                self.emit_ptr_elem_addr(alloc, lb, *base, *index, *elem_size);
                let s = self.read(alloc, lb, *src, "%r10");
                self.ln3("movq ", s.as_str(), ", (%rax)");
                assert(self.text() =~= t1 + elem_store_text(homes, lb as int, ptr_elem_addr(homes, lb as int, *base, *index, *elem_size), *src));
            },
            IrInstruction::StoreMem { dst, src } => {
                assert(optimize::uses(iv, src.0));
                let off = match dst {
                    Location::StackSlot(o) => *o,
                    Location::Temp(_) => {
                        proof {
                            assert(false);
                        }
                        0
                    },
                };
                let s = self.read(alloc, lb, *src, "%rax");
                let ghost t1 = self.text();
                push_str(&mut self.out, "    ");
                push_str(&mut self.out, "movq ");
                push_str(&mut self.out, s.as_str());
                push_str(&mut self.out, ", ");
                self.push_slot_addr(off);
                push_str(&mut self.out, "\n");
                assert(self.text() =~= t1 + ln("movq "@ + s@ + ", "@ + slot_addr(off as int)));
                assert(self.text() =~= t0 + store_mem_text(homes, lb as int, off as int, *src));
            },
            _ => {
                proof {
                    assert(false);
                }
            },
        }
        assert(self.text() =~= t0 + instr_text(homes, lb as int, fname@, epi@, old(self).strs(), iv).0);
    }

    #[verifier::spinoff_prover]
    #[verifier::rlimit(60)]
    fn emit_args(&mut self, alloc: &RegAllocResult, lb: i32, args: &Vec<Temp>)
        requires
            forall|k: int| 0 <= k < args@.len() ==> alloc.home@.contains_key((#[trigger] args@[k]).0),
            args@.len() <= 6,
            homes_bounded(alloc.home@, alloc.num_spill_slots, 5),
            0 <= lb < 0x1_0000_0000,
            alloc.num_spill_slots < 0x1_0000_0000,
        ensures
            final(self).text() == old(self).text() + args_text(alloc.home@, lb as int, args@, 0),
            final(self).strs() == old(self).strs(),
    {
        let ghost t0 = self.text();
        let ghost homes = alloc.home@;
        let mut i: usize = 0;
        while i < args.len()
            invariant
                i <= args@.len(),
                args@.len() <= 6,
                forall|k: int| 0 <= k < args@.len() ==> alloc.home@.contains_key((#[trigger] args@[k]).0),
                homes_bounded(alloc.home@, alloc.num_spill_slots, 5),
                0 <= lb < 0x1_0000_0000,
                alloc.num_spill_slots < 0x1_0000_0000,
                self.strs() == old(self).strs(),
                t0 + args_text(homes, lb as int, args@, 0) == self.text() + args_text(homes, lb as int, args@, i as int),
                homes == alloc.home@,
            decreases args@.len() - i,
        {
            let ghost ti = self.text();
            let v = self.read(alloc, lb, args[i], "%rax");
            self.move_unless(v.as_str(), arg_str(i));
            proof {
                let (c, vv) = read_code(homes, lb as int, args@[i as int], "%rax"@);
                assert(args_text(homes, lb as int, args@, i as int) == c + move_unless(vv, arg_reg(i as int)) + args_text(
                    homes,
                    lb as int,
                    args@,
                    i + 1,
                ));
                assert(self.text() =~= ti + (c + move_unless(vv, arg_reg(i as int))));
                assert(ti + args_text(homes, lb as int, args@, i as int) =~= self.text() + args_text(
                    homes,
                    lb as int,
                    args@,
                    i + 1,
                ));
            }
            i = i + 1;
        }
        assert(self.text() + args_text(homes, lb as int, args@, i as int) =~= self.text());
    }

    /// A call: the arguments into their registers, the call, the result.
    #[verifier::spinoff_prover]
    #[verifier::rlimit(60)]
    fn compile_call(&mut self, fname: &str, alloc: &RegAllocResult, lb: i32, instr: &IrInstruction, epi: &str)
        requires
            homes_bounded(alloc.home@, alloc.num_spill_slots, 5),
            0 <= lb < 0x1_0000_0000,
            alloc.num_spill_slots < 0x1_0000_0000,
            instr_ok(alloc.home@, ir::instr_view(*instr)),
            ir::instr_view(*instr) is Call,
        ensures
            (final(self).text(), final(self).strs()) == ({
                let (t, s) = instr_text(alloc.home@, lb as int, fname@, epi@, old(self).strs(), ir::instr_view(*instr));
                (old(self).text() + t, s)
            }),
    {
        let ghost t0 = self.text();
        let ghost homes = alloc.home@;
        let ghost iv = ir::instr_view(*instr);
        match instr {
            IrInstruction::Call { dst, func, args } => {
                assert forall|k: int| 0 <= k < args@.len() implies alloc.home@.contains_key((#[trigger] args@[k]).0) by {
                    let av = iv->Call_args;
                    assert(av == args@);
                    assert(optimize::uses(iv, args@[k].0));
                }
                self.emit_args(alloc, lb, args);
                self.ln2("call ", func.as_str());
                if let Some(d) = dst {
                    assert(regalloc::defines(iv) == Some(*d));
                    self.write_home(alloc, lb, *d, "%rax");
                }
            },
            _ => {
                proof {
                    assert(false);
                }
            },
        }
        assert(self.text() =~= t0 + instr_text(homes, lb as int, fname@, epi@, old(self).strs(), iv).0);
    }

    /// The code of one instruction.
    #[verifier::spinoff_prover]
    #[verifier::rlimit(60)]
    fn compile_instr(&mut self, fname: &str, alloc: &RegAllocResult, lb: i32, instr: &IrInstruction, epi: &str)
        requires
            homes_bounded(alloc.home@, alloc.num_spill_slots, 5),
            0 <= lb < 0x1_0000_0000,
            alloc.num_spill_slots < 0x1_0000_0000,
            instr_ok(alloc.home@, ir::instr_view(*instr)),
        ensures
            (final(self).text(), final(self).strs()) == ({
                let (t, s) = instr_text(alloc.home@, lb as int, fname@, epi@, old(self).strs(), ir::instr_view(*instr));
                (old(self).text() + t, s)
            }),
    {
        match instr {
            IrInstruction::Label(_) | IrInstruction::Jump(_) | IrInstruction::JumpIfZero { .. }
            | IrInstruction::JumpIfNotZero { .. } | IrInstruction::Return(_) | IrInstruction::Comment(_) => {
                self.compile_control(fname, alloc, lb, instr, epi);
            },
            IrInstruction::LoadParam { .. } | IrInstruction::LoadImm { .. } | IrInstruction::LoadMem { .. }
            | IrInstruction::LoadAddr { .. } => {
                self.compile_load(fname, alloc, lb, instr, epi);
            },
            IrInstruction::Call { .. } => {
                self.compile_call(fname, alloc, lb, instr, epi);
            },
            IrInstruction::BinaryOp { dst, left, op, right } => {
                let ghost iv = ir::instr_view(*instr);
                assert(optimize::uses(iv, left.0));
                assert(optimize::uses(iv, right.0));
                assert(regalloc::defines(iv) == Some(*dst));
                self.compile_binop(alloc, lb, *dst, *left, *op, *right);
            },
            _ => {
                self.compile_memory(fname, alloc, lb, instr, epi);
            },
        }
    }

    fn emit_jcc(&mut self, fname: &str, alloc: &RegAllocResult, lb: i32, cond: Temp, target: &str, j: &str)
        requires
            alloc.home@.contains_key(cond.0),
            homes_bounded(alloc.home@, alloc.num_spill_slots, 5),
            0 <= lb < 0x1_0000_0000,
            alloc.num_spill_slots < 0x1_0000_0000,
        ensures
            final(self).text() == old(self).text() + jcc_text(alloc.home@, lb as int, fname@, cond, target@, j@),
            final(self).strs() == old(self).strs(),
    {
        let ghost t0 = self.text();
        let c = self.read(alloc, lb, cond, "%rax");
        self.ln4("testq ", c.as_str(), ", ", c.as_str());
        let ghost t1 = self.text();
        push_str(&mut self.out, "    ");
        push_str(&mut self.out, j);
        self.push_local_label(fname, target);
        push_str(&mut self.out, "\n");
        assert(self.text() =~= t1 + ln(j@ + local_label(fname@, target@)));
        assert(self.text() =~= t0 + jcc_text(alloc.home@, lb as int, fname@, cond, target@, j@));
    }

    #[verifier::spinoff_prover]
    #[verifier::rlimit(80)]
    fn emit_prologue(&mut self, name: &str, fe: i32)
        requires
            fe >= 0,
        ensures
            final(self).text() == old(self).text() + prologue_text(name@, fe as int),
            final(self).strs() == old(self).strs(),
    {
        let ghost t0 = self.text();
        push_str(&mut self.out, "\n    .globl ");
        push_str(&mut self.out, name);
        push_str(&mut self.out, "\n");
        push_str(&mut self.out, name);
        push_str(&mut self.out, ":\n");
        let ghost t_a = self.text();
        assert(t_a =~= t0 + ("\n    .globl "@ + name@ + "\n"@ + name@ + ":\n"@));
        self.ln1("pushq %rbp");
        self.ln1("movq %rsp, %rbp");
        self.ln1("pushq %rbx");
        self.ln1("pushq %r12");
        self.ln1("pushq %r13");
        self.ln1("pushq %r14");
        self.ln1("pushq %r15");
        let ghost t_b = self.text();
        assert(t_b =~= t_a + (ln("pushq %rbp"@) + ln("movq %rsp, %rbp"@) + pool_pushes()));
        if fe > 0 {
            let ghost t1 = self.text();
            push_str(&mut self.out, "    ");
            push_str(&mut self.out, "subq $");
            push_decimal(&mut self.out, fe as u64);
            push_str(&mut self.out, ", %rsp");
            push_str(&mut self.out, "\n");
            assert(self.text() =~= t1 + ln("subq $"@ + text::decimal(fe as nat) + ", %rsp"@));
        }
        assert(self.text() =~= t0 + prologue_text(name@, fe as int));
    }

    #[verifier::spinoff_prover]
    fn emit_epilogue(&mut self, epi: &str, fe: i32)
        requires
            fe >= 0,
        ensures
            final(self).text() == old(self).text() + epilogue_text(epi@, fe as int),
            final(self).strs() == old(self).strs(),
    {
        let ghost t0 = self.text();
        push_str(&mut self.out, epi);
        push_str(&mut self.out, ":\n");
        let ghost t_a = self.text();
        if fe > 0 {
            let ghost t1 = self.text();
            push_str(&mut self.out, "    ");
            push_str(&mut self.out, "addq $");
            push_decimal(&mut self.out, fe as u64);
            push_str(&mut self.out, ", %rsp");
            push_str(&mut self.out, "\n");
            assert(self.text() =~= t1 + ln("addq $"@ + text::decimal(fe as nat) + ", %rsp"@));
        }
        let ghost t_b = self.text();
        self.ln1("popq %r15");
        self.ln1("popq %r14");
        self.ln1("popq %r13");
        self.ln1("popq %r12");
        self.ln1("popq %rbx");
        self.ln1("popq %rbp");
        self.ln1("ret");
        assert(t_a == t0 + (epi@ + ":\n"@));
        assert(self.text() =~= t_b + (pool_pops() + ln("popq %rbp"@) + ln("ret"@)));
        assert(self.text() =~= t0 + epilogue_text(epi@, fe as int));
    }

    /// The instructions of a function, but for its own label.
    #[verifier::spinoff_prover]
    #[verifier::rlimit(60)]
    fn compile_body(&mut self, func: &IrFunction, alloc: &RegAllocResult, lb: i32, epi: &str)
        requires
            forall|k: int|
                0 <= k < optimize::body(*func).len() ==> instr_ok(alloc.home@, #[trigger] optimize::body(*func)[k]),
            homes_bounded(alloc.home@, alloc.num_spill_slots, 5),
            0 <= lb < 0x1_0000_0000,
            alloc.num_spill_slots < 0x1_0000_0000,
        ensures
            (final(self).text(), final(self).strs()) == ({
                let (b, st) = body_text(alloc.home@, lb as int, func.name@, epi@, old(self).strs(), optimize::body(*func));
                (old(self).text() + b, st)
            }),
    {
        let ghost s = optimize::body(*func);
        let ghost t0 = self.text();
        let ghost strs0 = self.strs();
        let name = func.name.as_str();
        let mut own = String::new();
        push_str(&mut own, "func_");
        push_str(&mut own, name);
        proof {
            assert(s.take(0) =~= Seq::<InstrV>::empty());
            assert(t0 =~= t0 + Seq::<char>::empty());
        }
        let n = func.instructions.len();
        let mut i: usize = 0;
        while i < n
            invariant
                i <= n,
                n == s.len(),
                s == optimize::body(*func),
                forall|k: int| 0 <= k < s.len() ==> instr_ok(alloc.home@, #[trigger] s[k]),
                homes_bounded(alloc.home@, alloc.num_spill_slots, 5),
                0 <= lb < 0x1_0000_0000,
                alloc.num_spill_slots < 0x1_0000_0000,
                own@ == "func_"@ + func.name@,
                name@ == func.name@,
                (self.text(), self.strs()) == ({
                    let (b, st) = body_text(alloc.home@, lb as int, name@, epi@, strs0, s.take(i as int));
                    (t0 + b, st)
                }),
            decreases n - i,
        {
            let instr = &func.instructions[i];
            assert(s[i as int] == ir::instr_view(*instr));
            let skip = match instr {
                IrInstruction::Label(l) => str_eq(l.as_str(), own.as_str()),
                _ => false,
            };
            assert(skip == (s[i as int] == InstrV::Label("func_"@ + name@)));
            let ghost (b, st) = body_text(alloc.home@, lb as int, name@, epi@, strs0, s.take(i as int));
            if !skip {
                self.compile_instr(name, alloc, lb, instr, epi);
            }
            proof {
                assert(s.take(i as int + 1).drop_last() =~= s.take(i as int));
                if !skip {
                    let (u, st2) = instr_text(alloc.home@, lb as int, name@, epi@, st, s[i as int]);
                    assert(self.text() =~= t0 + (b + u));
                }
            }
            i = i + 1;
        }
        proof {
            assert(s.take(n as int) =~= s);
        }
    }

    /// The code of one function: prologue, body and epilogue.
    fn compile_function(&mut self, func: &IrFunction) -> (r: Ghost<RegAllocResult>)
        requires
            function_ok(*func),
        ensures
            homes_ok(optimize::body(*func), r@, 5),
            regalloc::scan_result(optimize::body(*func), 5nat, r@),
            (final(self).text(), final(self).strs()) == ({
                let (t, st) = function_text(*func, r@, old(self).strs());
                (old(self).text() + t, st)
            }),
    {
        let alloc = regalloc::allocate(func, 5);
        proof {
            lemma_instrs_ok(*func, alloc);
        }
        let lb: i32 = (func.locals.len() as i32) * 8;
        let fe: i32 = (lb + (alloc.num_spill_slots as i32) * 8 + 15) / 16 * 16;
        assert(fe == frame_extra(func.locals@.len() as int, alloc.num_spill_slots as int));
        let ghost t0 = self.text();
        let ghost strs0 = self.strs();
        let mut epi = String::new();
        push_str(&mut epi, ".Lepilogue_");
        push_str(&mut epi, func.name.as_str());
        self.emit_prologue(func.name.as_str(), fe);
        let ghost t1 = self.text();
        self.compile_body(func, &alloc, lb, epi.as_str());
        let ghost t2 = self.text();
        self.emit_epilogue(epi.as_str(), fe);
        proof {
            let (b, st) = body_text(alloc.home@, lb as int, func.name@, epi@, strs0, optimize::body(*func));
            assert(self.text() =~= t0 + (prologue_text(func.name@, fe as int) + b + epilogue_text(epi@, fe as int)));
        }
        Ghost(alloc)
    }

    fn emit_start(&mut self)
        ensures
            final(self).text() == old(self).text() + start_text(),
            final(self).strs() == old(self).strs(),
    {
        let ghost t0 = self.text();
        self.ln1(".text");
        self.ln1(".globl _start");
        push_str(&mut self.out, "_start:\n");
        self.ln1("call main");
        self.ln1("movq %rax, %rdi");
        self.ln1("movq $60, %rax    # sys_exit");
        self.ln1("syscall");
        assert(self.text() =~= t0 + start_text());
    }

    #[verifier::spinoff_prover]
    fn compile_functions(&mut self, program: &IrProgram) -> (allocs: Ghost<Seq<RegAllocResult>>)
        requires
            forall|k: int| 0 <= k < program.functions@.len() ==> function_ok(#[trigger] program.functions@[k]),
        ensures
            allocs@.len() == program.functions@.len(),
            forall|k: int|
                0 <= k < allocs@.len() ==> homes_ok(optimize::body(program.functions@[k]), #[trigger] allocs@[k], 5),
            forall|k: int|
                0 <= k < allocs@.len() ==> regalloc::scan_result(optimize::body(program.functions@[k]), 5nat, #[trigger] allocs@[k]),
            (final(self).text(), final(self).strs()) == ({
                let (t, st) = functions_text(program.functions@, allocs@, old(self).strs());
                (old(self).text() + t, st)
            }),
    {
        let ghost fs = program.functions@;
        let ghost t0 = self.text();
        let ghost strs0 = self.strs();
        let ghost mut allocs: Seq<RegAllocResult> = seq![];
        proof {
            assert(fs.take(0) =~= Seq::<IrFunction>::empty());
            assert(t0 =~= t0 + Seq::<char>::empty());
        }
        let mut i: usize = 0;
        while i < program.functions.len()
            invariant
                i <= fs.len(),
                fs == program.functions@,
                allocs.len() == i,
                forall|k: int| 0 <= k < fs.len() ==> function_ok(#[trigger] fs[k]),
                forall|k: int| 0 <= k < i ==> homes_ok(optimize::body(fs[k]), #[trigger] allocs[k], 5),
                forall|k: int| 0 <= k < i ==> regalloc::scan_result(optimize::body(fs[k]), 5nat, #[trigger] allocs[k]),
                (self.text(), self.strs()) == ({
                    let (t, st) = functions_text(fs.take(i as int), allocs, strs0);
                    (t0 + t, st)
                }),
            decreases fs.len() - i,
        {
            let ghost before = allocs;
            let ghost (t_b, st_b) = functions_text(fs.take(i as int), allocs, strs0);
            let r = self.compile_function(&program.functions[i]);
            proof {
                allocs = allocs.push(r@);
                assert(fs.take(i as int + 1).drop_last() =~= fs.take(i as int));
                assert(allocs.take(i as int) =~= before);
                let (u, st2) = function_text(fs[i as int], r@, st_b);
                assert(self.text() =~= t0 + (t_b + u));
            }
            i = i + 1;
        }
        proof {
            assert(fs.take(fs.len() as int) =~= fs);
        }
        Ghost(allocs)
    }

    fn emit_rodata(&mut self)
        ensures
            final(self).text() == old(self).text() + rodata_text(old(self).strs()),
            final(self).strs() == old(self).strs(),
    {
        let ghost strs = self.strs();
        if self.strings.len() > 0 {
            let ghost t0 = self.text();
            push_str(&mut self.out, "\n    .section .rodata\n");
            let ghost t_ro = self.text();
            proof {
                assert(strs.take(0) =~= Seq::<Seq<char>>::empty());
                assert(t_ro =~= t_ro + string_entries(strs.take(0)));
            }
            let mut j: usize = 0;
            while j < self.strings.len()
                invariant
                    j <= self.strings@.len(),
                    self.strs() == strs,
                    self.text() == t_ro + string_entries(strs.take(j as int)),
                decreases self.strings@.len() - j,
            {
                push_str(&mut self.out, ".Lstr");
                push_decimal(&mut self.out, j as u64);
                push_str(&mut self.out, ":\n    .asciz ");
                push_debug_str(&mut self.out, self.strings[j].as_str());
                push_str(&mut self.out, "\n");
                proof {
                    assert(strs.take(j as int + 1).drop_last() =~= strs.take(j as int));
                    assert(strs[j as int] == self.strings@[j as int]@);
                    assert(self.text() =~= t_ro + string_entries(strs.take(j as int + 1)));
                }
                j = j + 1;
            }
            proof {
                assert(strs.take(strs.len() as int) =~= strs);
            }
            assert(self.text() =~= t0 + rodata_text(strs));
        } else {
            assert(self.text() =~= self.text() + rodata_text(strs));
        }
    }

    /// The assembly of a whole program: the entry point, every function,
    /// and the string constants.
    pub fn compile(self, program: &IrProgram) -> (out: String)
        requires
            forall|k: int| 0 <= k < program.functions@.len() ==> function_ok(#[trigger] program.functions@[k]),
        ensures
            exists|allocs: Seq<RegAllocResult>|
                {
                    &&& allocs.len() == program.functions@.len()
                    &&& forall|k: int|
                        0 <= k < allocs.len() ==> homes_ok(optimize::body(program.functions@[k]), #[trigger] allocs[k], 5)
                    &&& forall|k: int|
                        0 <= k < allocs.len() ==> regalloc::scan_result(optimize::body(program.functions@[k]), 5nat, #[trigger] allocs[k])
                    &&& out@ == program_text(program.functions@, allocs, self.text(), self.strs())
                },
    {
        let mut g = self;
        let ghost t0 = g.text();
        let ghost strs0 = g.strs();
        g.emit_start();
        let ghost t1 = g.text();
        let allocs = g.compile_functions(program);
        let ghost t2 = g.text();
        g.emit_rodata();
        assert(g.text() =~= program_text(program.functions@, allocs@, t0, strs0));
        g.out
    }
}

} // verus!
