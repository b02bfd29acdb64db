//! What lowering computes, as functions on a mathematical state: for each
//! expression, statement and program, the instructions appended to the
//! function being built, the temporary that holds a value, the tables of
//! names that change, and the error (with its message) where lowering
//! refuses the input.
use vstd::prelude::*;
use crate::ast::{Program, Stmt, Expr, Type, TypeV, BinOp, Literal, Block};
use crate::ast;
use crate::ir::{Temp, Location, FloatImm, IrBinOp, InstrV, OperandV};
use crate::ir;
use crate::numlit;
use crate::text;
use crate::checker;
use crate::lowering::{lookup, infer_spec};

verus! {

/// A function as lowering builds it.
pub struct FnV {
    pub name: Seq<char>,
    pub params: Seq<(String, Type)>,
    pub ret: Option<Type>,
    pub locals: Seq<(Seq<char>, Type)>,
    pub body: Seq<InstrV>,
    pub next_temp: u32,
}

/// The state of lowering: the function being built, the functions done,
/// the slot of each variable, the local arrays (slot of element 0 and
/// length), the array parameters, the type of each variable, the return
/// type of each function, the value of each float literal, the last slot
/// taken and the number of labels made.
pub struct LowV {
    pub cur: Option<FnV>,
    pub done: Seq<FnV>,
    pub vars: Seq<(String, Location)>,
    pub arrays: Seq<(String, (i32, usize))>,
    pub ptrs: Seq<String>,
    pub types: Seq<(String, TypeV)>,
    pub fns: Seq<(String, TypeV)>,
    pub floats: Seq<(String, FloatImm)>,
    pub offset: i32,
    pub label: u32,
}

/// The outcome of a step: the new state and a value, or the error message.
pub type Step<T> = (LowV, Result<T, Seq<char>>);

/// `name` enters a table with value `v`: the first entry with that name is
/// replaced, or the pair goes at the end.
pub open spec fn assoc_put<V>(s: Seq<(String, V)>, name: String, v: V) -> Seq<(String, V)>
    decreases s.len(),
{
    if s.len() == 0 {
        seq![(name, v)]
    } else if s[0].0@ == name@ {
        s.update(0, (name, v))
    } else {
        seq![s[0]] + assoc_put(s.drop_first(), name, v)
    }
}

pub open spec fn names_has(s: Seq<String>, name: Seq<char>) -> bool {
    exists|k: int| 0 <= k < s.len() && (#[trigger] s[k])@ == name
}

/// The value given for a float literal: the first entry for its text, else 0.
pub open spec fn float_value(s: Seq<(String, FloatImm)>, name: Seq<char>) -> OperandV
    decreases s.len(),
{
    if s.len() == 0 {
        OperandV::ImmFloat { bits: 0, text: "0"@ }
    } else if s[0].0@ == name {
        OperandV::ImmFloat { bits: s[0].1.bits, text: s[0].1.text@ }
    } else {
        float_value(s.drop_first(), name)
    }
}

// ---------------------------------------------------------------------------
// Single steps
// ---------------------------------------------------------------------------

pub open spec fn emit_s(s: LowV, i: InstrV) -> LowV {
    match s.cur {
        Some(f) => LowV { cur: Some(FnV { body: f.body.push(i), ..f }), ..s },
        None => s,
    }
}

pub open spec fn temp_s(s: LowV) -> Step<Temp> {
    match s.cur {
        None => (s, Err("No current function"@)),
        Some(f) => if f.next_temp == u32::MAX {
            (s, Err("Too many temporaries"@))
        } else {
            (LowV { cur: Some(FnV { next_temp: (f.next_temp + 1) as u32, ..f }), ..s }, Ok(Temp(f.next_temp)))
        },
    }
}

pub open spec fn label_text(n: u32) -> Seq<char> {
    "L"@ + text::decimal(n as nat)
}

pub open spec fn label_s(s: LowV) -> Step<Seq<char>> {
    if s.label == u32::MAX {
        (s, Err("Too many labels"@))
    } else {
        (LowV { label: (s.label + 1) as u32, ..s }, Ok(label_text(s.label)))
    }
}

pub open spec fn slot_s(s: LowV) -> Step<i32> {
    if s.offset - 8 < i32::MIN {
        (s, Err("Stack frame too large"@))
    } else {
        (LowV { offset: (s.offset - 8) as i32, ..s }, Ok((s.offset - 8) as i32))
    }
}

pub open spec fn local_s(s: LowV, name: Seq<char>, t: Type) -> LowV {
    match s.cur {
        Some(f) => LowV { cur: Some(FnV { locals: f.locals.push((name, t)), ..f }), ..s },
        None => s,
    }
}

/// The slot of element `idx` of an array whose element 0 is at `elem0`.
pub open spec fn element_slot_s(elem0: i32, idx: i64) -> Location {
    Location::StackSlot(elem0.wrapping_sub((idx as i32).wrapping_mul(8)))
}

pub open spec fn is_unsigned_v(t: TypeV) -> bool {
    t is U32 || t is U64
}

/// The operation of the intermediate representation for a source operator;
/// division, remainder and ordering take their unsigned form when the left
/// operand is unsigned. `None` for the operators that have none.
pub open spec fn ir_op(op: BinOp, unsigned: bool) -> Option<IrBinOp> {
    match op {
        BinOp::Add => Some(IrBinOp::Add),
        BinOp::Sub => Some(IrBinOp::Sub),
        BinOp::Mul => Some(IrBinOp::Mul),
        BinOp::Div => Some(if unsigned { IrBinOp::DivU } else { IrBinOp::Div }),
        BinOp::Mod => Some(if unsigned { IrBinOp::ModU } else { IrBinOp::Mod }),
        BinOp::Eq => Some(IrBinOp::Eq),
        BinOp::Neq => Some(IrBinOp::Neq),
        BinOp::Lt => Some(if unsigned { IrBinOp::LtU } else { IrBinOp::Lt }),
        BinOp::Gt => Some(if unsigned { IrBinOp::GtU } else { IrBinOp::Gt }),
        BinOp::Le => Some(if unsigned { IrBinOp::LeU } else { IrBinOp::Le }),
        BinOp::Ge => Some(if unsigned { IrBinOp::GeU } else { IrBinOp::Ge }),
        _ => None,
    }
}

/// A source comparison becomes an operator of the intermediate
/// representation that means the same on the operands' values: with signed
/// operands the signed reading, with unsigned ones the unsigned reading.
/// The arithmetic operators keep their meaning too.
pub proof fn lemma_ir_op_meaning(op: BinOp, unsigned: bool, l: i64, r: i64)
    requires
        op is Eq || op is Neq || op is Lt || op is Gt || op is Le || op is Ge,
    ensures
        ir_op(op, unsigned) matches Some(o) && ir::is_comparison(o) && (ir::relation_holds(o, l, r) <==> match op {
            BinOp::Eq => l == r,
            BinOp::Neq => l != r,
            BinOp::Lt => if unsigned { (l as u64) < (r as u64) } else { l < r },
            BinOp::Gt => if unsigned { (l as u64) > (r as u64) } else { l > r },
            BinOp::Le => if unsigned { (l as u64) <= (r as u64) } else { l <= r },
            _ => if unsigned { (l as u64) >= (r as u64) } else { l >= r },
        }),
{
}

/// Addition, subtraction and multiplication keep their operator.
pub proof fn lemma_ir_op_arith(unsigned: bool)
    ensures
        ir_op(BinOp::Add, unsigned) == Some(IrBinOp::Add),
        ir_op(BinOp::Sub, unsigned) == Some(IrBinOp::Sub),
        ir_op(BinOp::Mul, unsigned) == Some(IrBinOp::Mul),
{
}

pub open spec fn msg_undefined(name: Seq<char>) -> Seq<char> {
    "Undefined variable: "@ + name
}

pub open spec fn msg_not_array(name: Seq<char>) -> Seq<char> {
    "'"@ + name + "' nie jest ani zainicjalizowaną tablicą lokalną, ani parametrem tablicowym"@
}

pub open spec fn msg_missing_param(name: Seq<char>) -> Seq<char> {
    "Wewnętrzny błąd: brak lokalizacji parametru '"@ + name + "'"@
}

pub open spec fn msg_array_return(name: Seq<char>) -> Seq<char> {
    "Funkcja '"@ + name + "': zwracanie tablic z funkcji nie jest jeszcze obsługiwane"@
}

pub open spec fn element_name_s(name: Seq<char>, i: nat) -> Seq<char> {
    name + "["@ + text::decimal(i) + "]"@
}

/// The value of a literal as an operand.
pub open spec fn literal_operand(s: LowV, lit: Literal) -> OperandV {
    match lit {
        Literal::Int(t) => OperandV::ImmInt(numlit::parse_int_literal_spec(t@).bits),
        Literal::Float(t) => float_value(s.floats, t@),
        Literal::String(t) => OperandV::ImmString(t@),
        _ => OperandV::ImmInt(0),
    }
}

/// A temporary, then `make(temp)` emitted; the temporary is the value.
pub open spec fn temp_emit(s: LowV, make: spec_fn(Temp) -> InstrV) -> Step<Temp> {
    let (s1, t) = temp_s(s);
    match t {
        Ok(d) => (emit_s(s1, make(d)), Ok(d)),
        Err(m) => (s1, Err(m)),
    }
}

// ---------------------------------------------------------------------------
// Expressions, blocks and statements
// ---------------------------------------------------------------------------

/// Lowering of an expression.
pub open spec fn ex(s: LowV, e: Expr) -> Step<Temp>
    decreases e, 2nat, 0nat,
{
    match e {
        Expr::Literal(lit) => temp_emit(s, |d: Temp| InstrV::LoadImm { dst: d, value: literal_operand(s, lit) }),
        Expr::Variable(name) => match lookup(s.vars, name@) {
            Some(loc) => temp_emit(s, |d: Temp| InstrV::LoadMem { dst: d, src: loc }),
            None => match lookup(s.arrays, name@) {
                Some(a) => temp_emit(s, |d: Temp| InstrV::LoadAddr { dst: d, base_offset: a.0 }),
                None => (s, Err(msg_undefined(name@))),
            },
        },
        Expr::BinaryOp { .. } => bin_s(s, e),
        Expr::If { .. } => if_s(s, e),
        Expr::Call { .. } => call_s(s, e),
        Expr::ArrayInit { .. } => temp_emit(s, |d: Temp| InstrV::LoadImm { dst: d, value: OperandV::ImmInt(0) }),
        Expr::Index { .. } => index_s(s, e),
    }
}

/// A binary operation: both sides, then the operation; `v $~ x` stores `v`
/// in `x` and is worth `v`.
pub open spec fn bin_s(s: LowV, e: Expr) -> Step<Temp>
    decreases e, 1nat, 0nat,
{
    match e {
        Expr::BinaryOp { left, op, right, .. } => {
            let (s1, l) = ex(s, *left);
            match l {
                Err(m) => (s1, Err(m)),
                Ok(lt) => {
                    let (s2, r) = ex(s1, *right);
                    match r {
                        Err(m) => (s2, Err(m)),
                        Ok(rt) => if op is SyncAssign {
                            match *right {
                                Expr::Variable(rn) => match lookup(s2.vars, rn@) {
                                    Some(loc) => (emit_s(s2, InstrV::StoreMem { dst: loc, src: lt }), Ok(lt)),
                                    None => (s2, Err(msg_undefined(rn@))),
                                },
                                Expr::Index { array, index, .. } => {
                                    let (s3, w) = index_store_s(s2, *array, *index, lt);
                                    match w {
                                        Ok(_) => (s3, Ok(lt)),
                                        Err(m) => (s3, Err(m)),
                                    }
                                },
                                _ => (s2, Err("Right side of $~ must be a variable or an array element"@)),
                            }
                        } else {
                            let (s3, d) = temp_s(s2);
                            match d {
                                Err(m) => (s3, Err(m)),
                                Ok(dst) => match ir_op(op, is_unsigned_v(infer_spec(s3.types, s3.fns, *left))) {
                                    Some(o) => (
                                        emit_s(s3, InstrV::BinaryOp { dst, left: lt, op: o, right: rt }),
                                        Ok(dst),
                                    ),
                                    None => (s3, Err("Unsupported operator: "@ + checker::binop_debug(op))),
                                },
                            }
                        },
                    }
                },
            }
        },
        _ => (s, Err(Seq::empty())),
    }
}

/// Reading `array[index]`: a local array at a constant index is read from
/// its slot, at another index through `LoadIndexed`; an array parameter is
/// a pointer read through `LoadIndexedPtr`.
pub open spec fn index_s(s: LowV, e: Expr) -> Step<Temp>
    decreases e, 1nat, 0nat,
{
    match e {
        Expr::Index { array, index, .. } => match *array {
            Expr::Variable(name) => match lookup(s.arrays, name@) {
                Some(a) => match *index {
                    Expr::Literal(Literal::Int(t)) => {
                        let idx = numlit::parse_int_literal_spec(t@).bits;
                        temp_emit(s, |d: Temp| InstrV::LoadMem { dst: d, src: element_slot_s(a.0, idx) })
                    },
                    _ => {
                        let (s1, i) = ex(s, *index);
                        match i {
                            Err(m) => (s1, Err(m)),
                            Ok(it) => temp_emit(
                                s1,
                                |d: Temp| InstrV::LoadIndexed { dst: d, base_offset: a.0, index: it, elem_size: 8 },
                            ),
                        }
                    },
                },
                None => if names_has(s.ptrs, name@) {
                    match lookup(s.vars, name@) {
                        None => (s, Err(msg_missing_param(name@))),
                        Some(bl) => {
                            let (s1, b) = temp_emit(s, |d: Temp| InstrV::LoadMem { dst: d, src: bl });
                            match b {
                                Err(m) => (s1, Err(m)),
                                Ok(bt) => {
                                    let (s2, i) = ex(s1, *index);
                                    match i {
                                        Err(m) => (s2, Err(m)),
                                        Ok(it) => temp_emit(
                                            s2,
                                            |d: Temp|
                                                InstrV::LoadIndexedPtr { dst: d, base: bt, index: it, elem_size: 8 },
                                        ),
                                    }
                                },
                            }
                        },
                    }
                } else {
                    (s, Err(msg_not_array(name@)))
                },
            },
            _ => (
                s,
                Err(
                    "Indeksowanie jest dziś obsługiwane tylko bezpośrednio na zmiennej tablicowej (np. `arr[i]`, nie `f()[i]`)"@,
                ),
            ),
        },
        _ => (s, Err(Seq::empty())),
    }
}

/// Writing `src` to `array[index]`, as reading does.
pub open spec fn index_store_s(s: LowV, array: Expr, index: Expr, src: Temp) -> Step<()>
    decreases index, 3nat, 0nat,
{
    match array {
        Expr::Variable(name) => match lookup(s.arrays, name@) {
            Some(a) => match index {
                Expr::Literal(Literal::Int(t)) => {
                    let idx = numlit::parse_int_literal_spec(t@).bits;
                    (emit_s(s, InstrV::StoreMem { dst: element_slot_s(a.0, idx), src }), Ok(()))
                },
                _ => {
                    let (s1, i) = ex(s, index);
                    match i {
                        Err(m) => (s1, Err(m)),
                        Ok(it) => (
                            emit_s(s1, InstrV::StoreIndexed { base_offset: a.0, index: it, src, elem_size: 8 }),
                            Ok(()),
                        ),
                    }
                },
            },
            None => if names_has(s.ptrs, name@) {
                match lookup(s.vars, name@) {
                    None => (s, Err(msg_missing_param(name@))),
                    Some(bl) => {
                        let (s1, b) = temp_emit(s, |d: Temp| InstrV::LoadMem { dst: d, src: bl });
                        match b {
                            Err(m) => (s1, Err(m)),
                            Ok(bt) => {
                                let (s2, i) = ex(s1, index);
                                match i {
                                    Err(m) => (s2, Err(m)),
                                    Ok(it) => (
                                        emit_s(
                                            s2,
                                            InstrV::StoreIndexedPtr { base: bt, index: it, src, elem_size: 8 },
                                        ),
                                        Ok(()),
                                    ),
                                }
                            },
                        }
                    },
                }
            } else {
                (s, Err(msg_not_array(name@)))
            },
        },
        _ => (s, Err("Zapis przez indeks jest dziś obsługiwany tylko bezpośrednio na zmiennej tablicowej"@)),
    }
}

/// The start of an `if` on `cond`: labels `then`, `else`, `end`, a fresh
/// slot for the result holding 0, the jump to `else` on zero, the label
/// `then`. The value is `(else, end, slot)`.
pub open spec fn if_prologue_s(s: LowV, cond: Temp) -> Step<(Seq<char>, Seq<char>, Location)> {
    let (s1, l1) = label_s(s);
    let (s2, l2) = label_s(s1);
    let (s3, l3) = label_s(s2);
    let (s4, o) = slot_s(s3);
    if l1 is Err {
        (s1, Err(l1->Err_0))
    } else if l2 is Err {
        (s2, Err(l2->Err_0))
    } else if l3 is Err {
        (s3, Err(l3->Err_0))
    } else if o is Err {
        (s4, Err(o->Err_0))
    } else {
        let slot = Location::StackSlot(o->Ok_0);
        let s5 = local_s(s4, "<if_result>"@, Type::Unknown);
        let (s6, z) = temp_s(s5);
        match z {
            Err(m) => (s6, Err(m)),
            Ok(zt) => {
                let s7 = emit_s(s6, InstrV::LoadImm { dst: zt, value: OperandV::ImmInt(0) });
                let s8 = emit_s(s7, InstrV::StoreMem { dst: slot, src: zt });
                let s9 = emit_s(s8, InstrV::JumpIfZero { cond, target: l2->Ok_0 });
                (emit_s(s9, InstrV::Label(l1->Ok_0)), Ok((l2->Ok_0, l3->Ok_0, slot)))
            },
        }
    }
}

/// A branch of an `if`: its code, and its value, if it has one, stored in the slot.
pub open spec fn if_branch_s(s: LowV, b: Block, slot: Location) -> Step<()>
    decreases b, 2nat, 0nat,
{
    let (s1, v) = block_s(s, b.stmts@, 0, None);
    match v {
        Err(m) => (s1, Err(m)),
        Ok(Some(t)) => (emit_s(s1, InstrV::StoreMem { dst: slot, src: t }), Ok(())),
        Ok(None) => (s1, Ok(())),
    }
}

/// `if`: condition, prologue, the `then` branch, a jump to `end`, the label
/// `else`, the `else` branch if any, the label `end`, and a read of the slot.
pub open spec fn if_s(s: LowV, e: Expr) -> Step<Temp>
    decreases e, 1nat, 0nat,
{
    match e {
        Expr::If { condition, then_branch, else_branch, .. } => {
            let (s1, c) = ex(s, *condition);
            match c {
                Err(m) => (s1, Err(m)),
                Ok(ct) => {
                    let (s2, p) = if_prologue_s(s1, ct);
                    match p {
                        Err(m) => (s2, Err(m)),
                        Ok((else_l, end_l, slot)) => {
                            let (s3, t) = if_branch_s(s2, then_branch, slot);
                            match t {
                                Err(m) => (s3, Err(m)),
                                Ok(_) => {
                                    let s4 = emit_s(emit_s(s3, InstrV::Jump(end_l)), InstrV::Label(else_l));
                                    let (s5, f) = match else_branch {
                                        Some(b) => if_branch_s(s4, b, slot),
                                        None => (s4, Ok(())),
                                    };
                                    match f {
                                        Err(m) => (s5, Err(m)),
                                        Ok(_) => temp_emit(
                                            emit_s(s5, InstrV::Label(end_l)),
                                            |d: Temp| InstrV::LoadMem { dst: d, src: slot },
                                        ),
                                    }
                                },
                            }
                        },
                    }
                },
            }
        },
        _ => (s, Err(Seq::empty())),
    }
}

/// The arguments `i..` of a call, after the temporaries `acc` of those before.
pub open spec fn args_s(s: LowV, e: Expr, i: int, acc: Seq<Temp>) -> Step<Seq<Temp>>
    decreases e, 1nat, (if e is Call && i < e->Call_args@.len() { e->Call_args@.len() - i } else { 0 }) as nat,
{
    match e {
        Expr::Call { args, .. } => if 0 <= i < args@.len() {
            let (s1, t) = ex(s, args@[i]);
            match t {
                Err(m) => (s1, Err(m)),
                Ok(x) => args_s(s1, e, i + 1, acc.push(x)),
            }
        } else {
            (s, Ok(acc))
        },
        _ => (s, Ok(acc)),
    }
}

/// A direct call: the arguments in order, then the call.
pub open spec fn call_s(s: LowV, e: Expr) -> Step<Temp>
    decreases e, 1nat, (if e is Call { e->Call_args@.len() + 1 } else { 0 }) as nat,
{
    match e {
        Expr::Call { callee, .. } => match *callee {
            Expr::Variable(name) => {
                let (s1, a) = args_s(s, e, 0, seq![]);
                match a {
                    Err(m) => (s1, Err(m)),
                    Ok(ts) => temp_emit(s1, |d: Temp| InstrV::Call { dst: Some(d), func: name@, args: ts }),
                }
            },
            _ => (s, Err("Only direct function calls supported"@)),
        },
        _ => (s, Err(Seq::empty())),
    }
}

/// The statements `i..` of a block, `last` being the value so far; a last
/// statement that is an expression gives the block its value.
pub open spec fn block_s(s: LowV, ss: Seq<Stmt>, i: int, last: Option<Temp>) -> Step<Option<Temp>>
    decreases ss, 1nat, (if 0 <= i < ss.len() { ss.len() - i } else { 0 }) as nat,
{
    if 0 <= i < ss.len() {
        if i + 1 == ss.len() && ss[i] is Expr {
            let (s1, t) = ex(s, *ss[i]->Expr_0);
            match t {
                Err(m) => (s1, Err(m)),
                Ok(x) => block_s(s1, ss, i + 1, Some(x)),
            }
        } else {
            let (s1, r) = stmt_s(s, ss[i]);
            match r {
                Err(m) => (s1, Err(m)),
                Ok(_) => block_s(s1, ss, i + 1, None),
            }
        }
    } else {
        (s, Ok(last))
    }
}

/// The elements `i..` of an array literal bound to `name`: each gets the next
/// slot (the first being `elem0`) and a local `name[i]`, and its value is
/// stored there.
pub open spec fn elems_s(s: LowV, name: String, value: Expr, i: int, elem0: i32) -> Step<i32>
    decreases value, 4nat, (if value is ArrayInit && 0 <= i < value->ArrayInit_elements@.len() {
        value->ArrayInit_elements@.len() - i
    } else {
        0
    }) as nat,
{
    match value {
        Expr::ArrayInit { elements, .. } => if 0 <= i < elements@.len() {
            let (s1, o) = slot_s(s);
            match o {
                Err(m) => (s1, Err(m)),
                Ok(off) => {
                    let s2 = local_s(s1, element_name_s(name@, i as nat), Type::Unknown);
                    let (s3, t) = ex(s2, elements@[i]);
                    match t {
                        Err(m) => (s3, Err(m)),
                        Ok(v) => elems_s(
                            emit_s(s3, InstrV::StoreMem { dst: Location::StackSlot(off), src: v }),
                            name,
                            value,
                            i + 1,
                            if i == 0 { off } else { elem0 },
                        ),
                    }
                },
            }
        } else {
            (s, Ok(elem0))
        },
        _ => (s, Ok(elem0)),
    }
}

/// The copy of elements `i..len` of the local array at `src0` into fresh
/// slots, the first being `dst0`.
pub open spec fn copy_s(s: LowV, name: Seq<char>, src0: i32, len: usize, i: int, dst0: i32) -> Step<i32>
    decreases len - i,
{
    if 0 <= i < len {
        let (s1, t) = temp_s(s);
        match t {
            Err(m) => (s1, Err(m)),
            Ok(v) => {
                let s2 = emit_s(
                    s1,
                    InstrV::LoadMem { dst: v, src: Location::StackSlot(src0.wrapping_sub((i as i32).wrapping_mul(8))) },
                );
                let (s3, o) = slot_s(s2);
                match o {
                    Err(m) => (s3, Err(m)),
                    Ok(off) => {
                        let s4 = local_s(s3, element_name_s(name, i as nat), Type::Unknown);
                        copy_s(
                            emit_s(s4, InstrV::StoreMem { dst: Location::StackSlot(off), src: v }),
                            name,
                            src0,
                            len,
                            i + 1,
                            if i == 0 { off } else { dst0 },
                        )
                    },
                }
            },
        }
    } else {
        (s, Ok(dst0))
    }
}

/// `let`: an array literal fills one slot per element, a copy of a local
/// array copies its elements, anything else gets one slot, its type (given
/// or guessed) and its value.
pub open spec fn let_s(s: LowV, name: String, typ: Option<Type>, value: Expr) -> Step<()>
    decreases value, 4nat, (if value is ArrayInit { value->ArrayInit_elements@.len() + 1 } else { 0 }) as nat,
{
    match value {
        Expr::ArrayInit { elements, .. } => {
            let (s1, r) = elems_s(s, name, value, 0, 0);
            match r {
                Err(m) => (s1, Err(m)),
                Ok(e0) => (LowV { arrays: assoc_put(s1.arrays, name, (e0, elements@.len() as usize)), ..s1 }, Ok(())),
            }
        },
        _ => {
            let arr = match value {
                Expr::Variable(src) => lookup(s.arrays, src@),
                _ => None,
            };
            match arr {
                Some((src0, len)) => {
                    let (s1, r) = copy_s(s, name@, src0, len, 0, 0);
                    match r {
                        Err(m) => (s1, Err(m)),
                        Ok(d0) => (LowV { arrays: assoc_put(s1.arrays, name, (d0, len)), ..s1 }, Ok(())),
                    }
                },
                None => {
                    let (s1, o) = slot_s(s);
                    match o {
                        Err(m) => (s1, Err(m)),
                        Ok(off) => {
                            let loc = Location::StackSlot(off);
                            let ty = match typ {
                                Some(t) => ast::type_view(t),
                                None => infer_spec(s1.types, s1.fns, value),
                            };
                            let s2 = LowV {
                                vars: assoc_put(s1.vars, name, loc),
                                types: assoc_put(s1.types, name, ty),
                                ..s1
                            };
                            let s3 = local_s(s2, name@, Type::Unknown);
                            let (s4, t) = ex(s3, value);
                            match t {
                                Err(m) => (s4, Err(m)),
                                Ok(v) => (emit_s(s4, InstrV::StoreMem { dst: loc, src: v }), Ok(())),
                            }
                        },
                    }
                },
            }
        },
    }
}

/// The parameters `i..` of the function begun: each gets the next slot, its
/// type and a local, and is read into a temporary stored in the slot; an
/// array parameter is noted as a pointer.
pub open spec fn params_s(s: LowV, ps: Seq<(String, Type)>, i: int) -> Step<()>
    decreases ps.len() - i,
{
    if 0 <= i < ps.len() {
        let (s1, o) = slot_s(s);
        match o {
            Err(m) => (s1, Err(m)),
            Ok(off) => {
                let (pn, pt) = ps[i];
                let loc = Location::StackSlot(off);
                let s2 = LowV {
                    vars: assoc_put(s1.vars, pn, loc),
                    types: assoc_put(s1.types, pn, ast::type_view(pt)),
                    ..s1
                };
                let s3 = local_s(s2, pn@, pt);
                let (s4, t) = temp_s(s3);
                match t {
                    Err(m) => (s4, Err(m)),
                    Ok(pt_) => {
                        let s5 = emit_s(
                            emit_s(s4, InstrV::LoadParam { dst: pt_, index: i as usize }),
                            InstrV::StoreMem { dst: loc, src: pt_ },
                        );
                        let s6 = if pt is Array && !names_has(s5.ptrs, pn@) {
                            LowV { ptrs: s5.ptrs.push(pn), ..s5 }
                        } else {
                            s5
                        };
                        params_s(s6, ps, i + 1)
                    },
                }
            },
        }
    } else {
        (s, Ok(()))
    }
}

/// The current function, if any, joins the functions done.
pub open spec fn finish_s(s: LowV) -> LowV {
    match s.cur {
        Some(f) => LowV { done: s.done.push(f), cur: None, ..s },
        None => s,
    }
}

/// A new function begins with fresh tables.
pub open spec fn start_s(s: LowV, name: Seq<char>, params: Seq<(String, Type)>, ret: Option<Type>) -> LowV {
    LowV {
        cur: Some(FnV { name, params, ret, locals: Seq::empty(), body: Seq::empty(), next_temp: 0 }),
        vars: Seq::empty(),
        arrays: Seq::empty(),
        ptrs: Seq::empty(),
        types: Seq::empty(),
        offset: 0,
        ..s
    }
}

/// Whether the function being built ends with a return.
pub open spec fn returns_already(s: LowV) -> bool {
    match s.cur {
        Some(f) => f.body.len() > 0 && f.body.last() is Return,
        None => false,
    }
}

/// A statement. A function definition closes the function being built and
/// opens its own: its label, its parameters, its body and, unless the body
/// ends with one, a return of the body's value (or of nothing, for a
/// function without return type). A function returning an array is refused.
pub open spec fn stmt_s(s: LowV, st: Stmt) -> Step<()>
    decreases st, 0nat, 0nat,
{
    match st {
        Stmt::FnDef { name, params, return_type, body, .. } => {
            let s0 = finish_s(s);
            if return_type matches Some(t) && t is Array {
                (s0, Err(msg_array_return(name@)))
            } else {
                let s1 = emit_s(start_s(s0, name@, params@, return_type), InstrV::Label("func_"@ + name@));
                let (s2, p) = params_s(s1, params@, 0);
                match p {
                    Err(m) => (s2, Err(m)),
                    Ok(_) => {
                        let (s3, v) = block_s(s2, body.stmts@, 0, None);
                        match v {
                            Err(m) => (s3, Err(m)),
                            Ok(rv) => if returns_already(s3) {
                                (s3, Ok(()))
                            } else if return_type is Some {
                                (emit_s(s3, InstrV::Return(rv)), Ok(()))
                            } else {
                                (emit_s(s3, InstrV::Return(None)), Ok(()))
                            },
                        }
                    },
                }
            }
        },
        Stmt::Let { name, typ, value, .. } => let_s(s, name, typ, *value),
        Stmt::Expr(e) => {
            let (s1, t) = ex(s, *e);
            match t {
                Err(m) => (s1, Err(m)),
                Ok(_) => (s1, Ok(())),
            }
        },
        _ => (s, Ok(())),
    }
}

/// The return types of the functions declared or defined among `ss[..i]`
/// entered into `fns` (a function without one as `Unknown`).
pub open spec fn fn_types_s(fns: Seq<(String, TypeV)>, ss: Seq<Stmt>, i: int) -> Seq<(String, TypeV)>
    decreases i,
{
    if i <= 0 || i > ss.len() {
        fns
    } else {
        let prev = fn_types_s(fns, ss, i - 1);
        match ss[i - 1] {
            Stmt::FnDef { name, return_type, .. } | Stmt::FnDecl { name, return_type, .. } => assoc_put(
                prev,
                name,
                match return_type {
                    Some(t) => ast::type_view(t),
                    None => TypeV::Unknown,
                },
            ),
            _ => prev,
        }
    }
}

/// The statements `i..` of a program.
pub open spec fn stmts_s(s: LowV, ss: Seq<Stmt>, i: int) -> Step<()>
    decreases ss.len() - i,
{
    if 0 <= i < ss.len() {
        let (s1, r) = stmt_s(s, ss[i]);
        match r {
            Err(m) => (s1, Err(m)),
            Ok(_) => stmts_s(s1, ss, i + 1),
        }
    } else {
        (s, Ok(()))
    }
}

/// A whole program: the return types of its functions are entered first,
/// then its statements are lowered in order and the last function closed.
/// The value is the functions made.
pub open spec fn program_s(s: LowV, p: Program) -> Step<Seq<FnV>> {
    let s0 = LowV { fns: fn_types_s(s.fns, p.stmts@, p.stmts@.len() as int), ..s };
    let (s1, r) = stmts_s(s0, p.stmts@, 0);
    match r {
        Err(m) => (s1, Err(m)),
        Ok(_) => {
            let s2 = finish_s(s1);
            (s2, Ok(s2.done))
        },
    }
}

/// The state of a new lowering.
pub open spec fn fresh() -> LowV {
    LowV {
        cur: None,
        done: Seq::empty(),
        vars: Seq::empty(),
        arrays: Seq::empty(),
        ptrs: Seq::empty(),
        types: Seq::empty(),
        fns: Seq::empty(),
        floats: Seq::empty(),
        offset: 0,
        label: 0,
    }
}

} // verus!
