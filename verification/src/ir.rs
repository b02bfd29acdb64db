use vstd::prelude::*;
use crate::ast::Type;

verus! {

/// A virtual register of the intermediate representation.
#[derive(Debug, Clone, Copy, PartialEq, Eq, Structural, Hash)]
pub struct Temp(pub u32);

/// A place in memory: a temporary or a slot of the stack frame.
#[derive(Debug, Clone, Copy, PartialEq, Eq, Structural, Hash)]
pub enum Location {
    Temp(Temp),
    StackSlot(i32),
}

/// A floating-point constant as the code generators need it: its IEEE-754
/// bit pattern and the text the value is shown as.
#[derive(Debug)]
pub struct FloatImm {
    pub bits: u64,
    pub text: String,
}

/// An immediate or memory operand.
#[derive(Debug)]
pub enum Operand {
    Loc(Location),
    ImmInt(i64),
    ImmFloat(FloatImm),
    ImmString(String),
}

/// One instruction of the three-address intermediate representation.
#[derive(Debug)]
#[allow(inconsistent_fields)]
pub enum IrInstruction {
    /// Reads the `index`-th incoming parameter into `dst`.
    LoadParam { dst: Temp, index: usize },
    LoadImm { dst: Temp, value: Operand },
    LoadMem { dst: Temp, src: Location },
    StoreMem { dst: Location, src: Temp },
    /// `dst = *(frame + base_offset - index * elem_size)`.
    LoadIndexed { dst: Temp, base_offset: i32, index: Temp, elem_size: i32 },
    /// `*(frame + base_offset - index * elem_size) = src`.
    StoreIndexed { base_offset: i32, index: Temp, src: Temp, elem_size: i32 },
    /// `dst = frame + base_offset`, the address of a stack slot.
    LoadAddr { dst: Temp, base_offset: i32 },
    /// `dst = *(base - index * elem_size)` for a pointer held in `base`.
    LoadIndexedPtr { dst: Temp, base: Temp, index: Temp, elem_size: i32 },
    /// `*(base - index * elem_size) = src`.
    StoreIndexedPtr { base: Temp, index: Temp, src: Temp, elem_size: i32 },
    BinaryOp { dst: Temp, left: Temp, op: IrBinOp, right: Temp },
    Call { dst: Option<Temp>, func: String, args: Vec<Temp> },
    Label(String),
    Jump(String),
    JumpIfZero { cond: Temp, target: String },
    JumpIfNotZero { cond: Temp, target: String },
    Return(Option<Temp>),
    Comment(String),
}

/// Binary operators of the intermediate representation; the `U` variants
/// treat their operands as unsigned.
#[derive(Debug, Clone, Copy, PartialEq, Eq, Structural)]
pub enum IrBinOp {
    Add,
    Sub,
    Mul,
    Div,
    Mod,
    Eq,
    Neq,
    Lt,
    Gt,
    Le,
    Ge,
    DivU,
    ModU,
    LtU,
    GtU,
    LeU,
    GeU,
    And,
    Or,
}

/// A function of the intermediate representation.
#[derive(Debug)]
pub struct IrFunction {
    pub name: String,
    pub params: Vec<(String, Type)>,
    pub return_type: Option<Type>,
    pub locals: Vec<(String, Type)>,
    pub instructions: Vec<IrInstruction>,
    pub next_temp: u32,
}

impl IrFunction {
    /// A fresh temporary: the next number, which is then taken.
    pub fn new_temp(&mut self) -> (t: Temp)
        requires
            old(self).next_temp < u32::MAX,
        ensures
            t.0 == old(self).next_temp,
            final(self).next_temp == old(self).next_temp + 1,
            final(self).name == old(self).name,
            final(self).params == old(self).params,
            final(self).return_type == old(self).return_type,
            final(self).locals == old(self).locals,
            final(self).instructions == old(self).instructions,
    {
        let t = Temp(self.next_temp);
        self.next_temp = self.next_temp + 1;
        t
    }
}

/// A whole program of the intermediate representation.
#[derive(Debug)]
pub struct IrProgram {
    pub functions: Vec<IrFunction>,
}

/// The mathematical value of an operand: strings as their characters.
pub enum OperandV {
    Loc(Location),
    ImmInt(i64),
    ImmFloat { bits: u64, text: Seq<char> },
    ImmString(Seq<char>),
}

/// The mathematical value of an instruction: strings as their characters
/// and argument lists as sequences.
pub enum InstrV {
    LoadParam { dst: Temp, index: usize },
    LoadImm { dst: Temp, value: OperandV },
    LoadMem { dst: Temp, src: Location },
    StoreMem { dst: Location, src: Temp },
    LoadIndexed { dst: Temp, base_offset: i32, index: Temp, elem_size: i32 },
    StoreIndexed { base_offset: i32, index: Temp, src: Temp, elem_size: i32 },
    LoadAddr { dst: Temp, base_offset: i32 },
    LoadIndexedPtr { dst: Temp, base: Temp, index: Temp, elem_size: i32 },
    StoreIndexedPtr { base: Temp, index: Temp, src: Temp, elem_size: i32 },
    BinaryOp { dst: Temp, left: Temp, op: IrBinOp, right: Temp },
    Call { dst: Option<Temp>, func: Seq<char>, args: Seq<Temp> },
    Label(Seq<char>),
    Jump(Seq<char>),
    JumpIfZero { cond: Temp, target: Seq<char> },
    JumpIfNotZero { cond: Temp, target: Seq<char> },
    Return(Option<Temp>),
    Comment(Seq<char>),
}

pub open spec fn operand_view(o: Operand) -> OperandV {
    match o {
        Operand::Loc(l) => OperandV::Loc(l),
        Operand::ImmInt(v) => OperandV::ImmInt(v),
        Operand::ImmFloat(f) => OperandV::ImmFloat { bits: f.bits, text: f.text@ },
        Operand::ImmString(s) => OperandV::ImmString(s@),
    }
}

pub open spec fn instr_view(i: IrInstruction) -> InstrV {
    match i {
        IrInstruction::LoadParam { dst, index } => InstrV::LoadParam { dst, index },
        IrInstruction::LoadImm { dst, value } => InstrV::LoadImm { dst, value: operand_view(value) },
        IrInstruction::LoadMem { dst, src } => InstrV::LoadMem { dst, src },
        IrInstruction::StoreMem { dst, src } => InstrV::StoreMem { dst, src },
        IrInstruction::LoadIndexed { dst, base_offset, index, elem_size } => InstrV::LoadIndexed {
            dst,
            base_offset,
            index,
            elem_size,
        },
        IrInstruction::StoreIndexed { base_offset, index, src, elem_size } => InstrV::StoreIndexed {
            base_offset,
            index,
            src,
            elem_size,
        },
        IrInstruction::LoadAddr { dst, base_offset } => InstrV::LoadAddr { dst, base_offset },
        IrInstruction::LoadIndexedPtr { dst, base, index, elem_size } => InstrV::LoadIndexedPtr {
            dst,
            base,
            index,
            elem_size,
        },
        IrInstruction::StoreIndexedPtr { base, index, src, elem_size } => InstrV::StoreIndexedPtr {
            base,
            index,
            src,
            elem_size,
        },
        IrInstruction::BinaryOp { dst, left, op, right } => InstrV::BinaryOp { dst, left, op, right },
        IrInstruction::Call { dst, func, args } => InstrV::Call { dst, func: func@, args: args@ },
        IrInstruction::Label(l) => InstrV::Label(l@),
        IrInstruction::Jump(l) => InstrV::Jump(l@),
        IrInstruction::JumpIfZero { cond, target } => InstrV::JumpIfZero { cond, target: target@ },
        IrInstruction::JumpIfNotZero { cond, target } => InstrV::JumpIfNotZero { cond, target: target@ },
        IrInstruction::Return(v) => InstrV::Return(v),
        IrInstruction::Comment(c) => InstrV::Comment(c@),
    }
}

/// The values of a list of instructions.
pub open spec fn instrs_view(s: Seq<IrInstruction>) -> Seq<InstrV> {
    Seq::new(s.len(), |k: int| instr_view(s[k]))
}

/// A copy of an operand.
pub fn operand_clone(o: &Operand) -> (r: Operand)
    ensures
        operand_view(r) == operand_view(*o),
{
    match o {
        Operand::Loc(l) => Operand::Loc(*l),
        Operand::ImmInt(v) => Operand::ImmInt(*v),
        Operand::ImmFloat(f) => Operand::ImmFloat(FloatImm { bits: f.bits, text: f.text.clone() }),
        Operand::ImmString(s) => Operand::ImmString(s.clone()),
    }
}

/// A copy of a list of temporaries.
pub fn temps_clone(v: &Vec<Temp>) -> (r: Vec<Temp>)
    ensures
        r@ == v@,
{
    let mut r: Vec<Temp> = Vec::new();
    let mut i: usize = 0;
    while i < v.len()
        invariant
            i <= v.len(),
            r@ == v@.take(i as int),
        decreases v.len() - i,
    {
        r.push(v[i]);
        i = i + 1;
        assert(r@ =~= v@.take(i as int));
    }
    assert(v@.take(i as int) =~= v@);
    r
}

impl IrInstruction {
    /// A copy of the instruction.
    pub fn copy(&self) -> (r: IrInstruction)
        ensures
            instr_view(r) == instr_view(*self),
    {
        match self {
            IrInstruction::LoadParam { dst, index } => IrInstruction::LoadParam { dst: *dst, index: *index },
            IrInstruction::LoadImm { dst, value } => IrInstruction::LoadImm { dst: *dst, value: operand_clone(value) },
            IrInstruction::LoadMem { dst, src } => IrInstruction::LoadMem { dst: *dst, src: *src },
            IrInstruction::StoreMem { dst, src } => IrInstruction::StoreMem { dst: *dst, src: *src },
            IrInstruction::LoadIndexed { dst, base_offset, index, elem_size } => IrInstruction::LoadIndexed {
                dst: *dst,
                base_offset: *base_offset,
                index: *index,
                elem_size: *elem_size,
            },
            IrInstruction::StoreIndexed { base_offset, index, src, elem_size } => IrInstruction::StoreIndexed {
                base_offset: *base_offset,
                index: *index,
                src: *src,
                elem_size: *elem_size,
            },
            IrInstruction::LoadAddr { dst, base_offset } => IrInstruction::LoadAddr { dst: *dst, base_offset: *base_offset },
            IrInstruction::LoadIndexedPtr { dst, base, index, elem_size } => IrInstruction::LoadIndexedPtr {
                dst: *dst,
                base: *base,
                index: *index,
                elem_size: *elem_size,
            },
            IrInstruction::StoreIndexedPtr { base, index, src, elem_size } => IrInstruction::StoreIndexedPtr {
                base: *base,
                index: *index,
                src: *src,
                elem_size: *elem_size,
            },
            IrInstruction::BinaryOp { dst, left, op, right } => IrInstruction::BinaryOp {
                dst: *dst,
                left: *left,
                op: *op,
                right: *right,
            },
            IrInstruction::Call { dst, func, args } => IrInstruction::Call {
                dst: *dst,
                func: func.clone(),
                args: temps_clone(args),
            },
            IrInstruction::Label(l) => IrInstruction::Label(l.clone()),
            IrInstruction::Jump(l) => IrInstruction::Jump(l.clone()),
            IrInstruction::JumpIfZero { cond, target } => IrInstruction::JumpIfZero { cond: *cond, target: target.clone() },
            IrInstruction::JumpIfNotZero { cond, target } => IrInstruction::JumpIfNotZero {
                cond: *cond,
                target: target.clone(),
            },
            IrInstruction::Return(v) => IrInstruction::Return(*v),
            IrInstruction::Comment(c) => IrInstruction::Comment(c.clone()),
        }
    }
}

/// The comparison operators.
pub open spec fn is_comparison(op: IrBinOp) -> bool {
    match op {
        IrBinOp::Eq | IrBinOp::Neq | IrBinOp::Lt | IrBinOp::Gt | IrBinOp::Le | IrBinOp::Ge | IrBinOp::LtU
        | IrBinOp::GtU | IrBinOp::LeU | IrBinOp::GeU => true,
        _ => false,
    }
}

/// What a comparison means on two 64-bit values: the plain operators read
/// them as signed, the `U` ones as unsigned.
pub open spec fn relation_holds(op: IrBinOp, l: i64, r: i64) -> bool {
    match op {
        IrBinOp::Eq => l == r,
        IrBinOp::Neq => l != r,
        IrBinOp::Lt => l < r,
        IrBinOp::Gt => l > r,
        IrBinOp::Le => l <= r,
        IrBinOp::Ge => l >= r,
        IrBinOp::LtU => (l as u64) < (r as u64),
        IrBinOp::GtU => (l as u64) > (r as u64),
        IrBinOp::LeU => (l as u64) <= (r as u64),
        IrBinOp::GeU => (l as u64) >= (r as u64),
        _ => false,
    }
}

} // verus!
