//! Lowering of the syntax tree to the intermediate representation. Every
//! variable gets a stack slot; a local array gets one slot per element and
//! an array parameter is a pointer; the value of an `if` goes through a
//! slot of its own.
use vstd::prelude::*;
use vstd::string::*;
use crate::ast::{Program, Stmt, Expr, Type, TypeV, BinOp, Literal, Block};
use crate::ast;
use crate::ir::{Temp, Location, Operand, FloatImm, IrInstruction, IrBinOp, IrFunction, IrProgram, InstrV};
use crate::ir;
use crate::numlit;
use crate::optimize;
use crate::regalloc;
use crate::checker;
use crate::text::{push_str, push_decimal, push_signed_decimal, str_eq};
use crate::lower_model;
use crate::lower_model::{FnV, LowV, assoc_put};

verus! {

#[derive(Debug)]
pub struct LoweringError {
    pub message: String,
}

/// The state of lowering: the functions done, the one being built, and
/// what is known of the names of that function.
pub struct Lowering {
    functions: Vec<IrFunction>,
    current_func: Option<IrFunction>,
    var_map: Vec<(String, Location)>,
    /// Local arrays: name, offset of element 0 and number of elements.
    array_map: Vec<(String, (i32, usize))>,
    /// Parameters of array type, which hold a pointer.
    ptr_array_params: Vec<String>,
    var_types: Vec<(String, Type)>,
    fn_return_types: Vec<(String, Type)>,
    /// The value of each floating-point literal, by its text.
    float_values: Vec<(String, FloatImm)>,
    stack_offset: i32,
    next_label_id: u32,
}

// ---------------------------------------------------------------------------
// Well-formed code: each temporary is defined once, before it is read, and
// is numbered below the function's count of temporaries.
// ---------------------------------------------------------------------------

pub open spec fn below(i: InstrV, n: u32) -> bool {
    match i {
        InstrV::LoadParam { dst, .. } => dst.0 < n,
        InstrV::LoadImm { dst, .. } => dst.0 < n,
        InstrV::LoadMem { dst, .. } => dst.0 < n,
        InstrV::StoreMem { src, .. } => src.0 < n,
        InstrV::LoadIndexed { dst, index, .. } => dst.0 < n && index.0 < n,
        InstrV::StoreIndexed { index, src, .. } => index.0 < n && src.0 < n,
        InstrV::LoadAddr { dst, .. } => dst.0 < n,
        InstrV::LoadIndexedPtr { dst, base, index, .. } => dst.0 < n && base.0 < n && index.0 < n,
        InstrV::StoreIndexedPtr { base, index, src, .. } => base.0 < n && index.0 < n && src.0 < n,
        InstrV::BinaryOp { dst, left, right, .. } => dst.0 < n && left.0 < n && right.0 < n,
        InstrV::Call { dst, args, .. } => (dst matches Some(d) ==> d.0 < n) && forall|k: int|
            0 <= k < args.len() ==> (#[trigger] args[k]).0 < n,
        InstrV::JumpIfZero { cond, .. } => cond.0 < n,
        InstrV::JumpIfNotZero { cond, .. } => cond.0 < n,
        InstrV::Return(v) => v matches Some(t) ==> t.0 < n,
        _ => true,
    }
}

/// Whether instruction `j` of `s` defines temporary `t`.
pub open spec fn defined_in(s: Seq<InstrV>, t: Temp) -> bool {
    exists|j: int| 0 <= j < s.len() && regalloc::defines(#[trigger] s[j]) == Some(t)
}

/// Each temporary is defined at most once, every read temporary is defined
/// by an earlier instruction, and all are numbered below `n`.
pub open spec fn ir_wf(s: Seq<InstrV>, n: u32) -> bool {
    &&& forall|k: int| 0 <= k < s.len() ==> below(#[trigger] s[k], n)
    &&& forall|j: int, k: int|
        0 <= j < k < s.len() && regalloc::defines(#[trigger] s[j]) is Some ==> regalloc::defines(#[trigger] s[k])
            != regalloc::defines(s[j])
    &&& forall|k: int, x: u32| 0 <= k < s.len() && #[trigger] optimize::uses(s[k], x) ==> defined_in(s.take(k), Temp(x))
}

pub open spec fn func_wf(f: IrFunction) -> bool {
    ir_wf(optimize::body(f), f.next_temp)
}

/// The expressions and statements that define no function inside them.
pub open spec fn fn_free_expr(e: Expr) -> bool
    decreases e,
{
    match e {
        Expr::BinaryOp { left, right, .. } => fn_free_expr(*left) && fn_free_expr(*right),
        Expr::Call { callee, args, .. } => fn_free_expr(*callee) && forall|k: int|
            0 <= k < args@.len() ==> fn_free_expr(#[trigger] args@[k]),
        Expr::ArrayInit { elements, .. } => forall|k: int| 0 <= k < elements@.len() ==> fn_free_expr(#[trigger] elements@[k]),
        Expr::Index { array, index, .. } => fn_free_expr(*array) && fn_free_expr(*index),
        Expr::If { condition, then_branch, else_branch, .. } => fn_free_expr(*condition) && fn_free_block(then_branch)
            && (else_branch matches Some(b) ==> fn_free_block(b)),
        _ => true,
    }
}

pub open spec fn fn_free_block(b: Block) -> bool
    decreases b,
{
    forall|k: int| 0 <= k < b.stmts@.len() ==> fn_free_stmt(#[trigger] b.stmts@[k])
}

pub open spec fn fn_free_stmt(s: Stmt) -> bool
    decreases s,
{
    match s {
        Stmt::FnDef { .. } => false,
        Stmt::Let { value, .. } => fn_free_expr(*value),
        Stmt::Expr(e) => fn_free_expr(*e),
        _ => true,
    }
}

/// A program whose functions define no function inside them.
pub open spec fn fn_free_program(p: Program) -> bool {
    forall|k: int|
        0 <= k < p.stmts@.len() ==> match #[trigger] p.stmts@[k] {
            Stmt::FnDef { body, .. } => fn_free_block(body),
            s => fn_free_stmt(s),
        }
}

/// Whether instruction `i` may follow the instructions `s` of a function
/// with `n` temporaries: its temporaries are below `n`, those it reads are
/// defined, and the one it defines is not yet.
pub open spec fn fits(s: Seq<InstrV>, n: u32, i: InstrV) -> bool {
    &&& below(i, n)
    &&& forall|x: u32| #[trigger] optimize::uses(i, x) ==> defined_in(s, Temp(x))
    &&& regalloc::defines(i) matches Some(d) ==> !defined_in(s, d)
}

proof fn lemma_wf_push(s: Seq<InstrV>, n: u32, i: InstrV)
    requires
        ir_wf(s, n),
        fits(s, n, i),
    ensures
        ir_wf(s.push(i), n),
{
    let t = s.push(i);
    assert forall|k: int| 0 <= k < t.len() implies below(#[trigger] t[k], n) by {
        if k < s.len() {
            assert(t[k] == s[k]);
        }
    }
    assert forall|j: int, k: int|
        0 <= j < k < t.len() && regalloc::defines(#[trigger] t[j]) is Some implies regalloc::defines(#[trigger] t[k])
            != regalloc::defines(t[j]) by {
        assert(t[j] == s[j]);
        if k < s.len() {
            assert(t[k] == s[k]);
        } else {
            assert(defined_in(s, regalloc::defines(t[j])->Some_0));
        }
    }
    assert forall|k: int, x: u32| 0 <= k < t.len() && #[trigger] optimize::uses(t[k], x) implies defined_in(
        t.take(k),
        Temp(x),
    ) by {
        if k < s.len() {
            assert(t[k] == s[k]);
            assert(t.take(k) =~= s.take(k));
        } else {
            assert(t.take(k) =~= s);
        }
    }
}

proof fn lemma_wf_more(s: Seq<InstrV>, n: u32, m: u32)
    requires
        ir_wf(s, n),
        n <= m,
    ensures
        ir_wf(s, m),
{
    assert forall|k: int| 0 <= k < s.len() implies below(#[trigger] s[k], m) by {
        assert(below(s[k], n));
    }
}

/// Temporaries at or above the count are not defined yet.
proof fn lemma_fresh(s: Seq<InstrV>, n: u32, t: Temp)
    requires
        ir_wf(s, n),
        t.0 >= n,
    ensures
        !defined_in(s, t),
{
    if defined_in(s, t) {
        let j = choose|j: int| 0 <= j < s.len() && regalloc::defines(#[trigger] s[j]) == Some(t);
        assert(below(s[j], n));
    }
}

/// A defined temporary is below the count.
proof fn lemma_defined_below(s: Seq<InstrV>, n: u32, t: Temp)
    requires
        ir_wf(s, n),
        defined_in(s, t),
    ensures
        t.0 < n,
{
    let j = choose|j: int| 0 <= j < s.len() && regalloc::defines(#[trigger] s[j]) == Some(t);
    assert(below(s[j], n));
}

/// What is defined stays defined when code is added after it.
proof fn lemma_defined_extend(s: Seq<InstrV>, u: Seq<InstrV>, t: Temp)
    requires
        defined_in(s, t),
        u.len() >= s.len(),
        u.take(s.len() as int) == s,
    ensures
        defined_in(u, t),
{
    let j = choose|j: int| 0 <= j < s.len() && regalloc::defines(#[trigger] s[j]) == Some(t);
    assert(u[j] == u.take(s.len() as int)[j]);
}

// ---------------------------------------------------------------------------
// Tables keyed by name (a name is entered at most once; entering it again
// replaces its value)
// ---------------------------------------------------------------------------

/// The value entered for `name`.
pub open spec fn lookup<V>(s: Seq<(String, V)>, name: Seq<char>) -> Option<V>
    decreases s.len(),
{
    if s.len() == 0 {
        None
    } else if s[0].0@ == name {
        Some(s[0].1)
    } else {
        lookup(s.drop_first(), name)
    }
}

fn assoc_get<V: Copy>(v: &Vec<(String, V)>, name: &str) -> (r: Option<V>)
    ensures
        r == lookup(v@, name@),
{
    let mut k: usize = 0;
    assert(v@.skip(0) =~= v@);
    while k < v.len()
        invariant
            k <= v@.len(),
            lookup(v@, name@) == lookup(v@.skip(k as int), name@),
        decreases v@.len() - k,
    {
        assert(v@.skip(k as int).drop_first() =~= v@.skip(k as int + 1));
        if str_eq(v[k].0.as_str(), name) {
            return Some(v[k].1);
        }
        k = k + 1;
    }
    None
}

fn type_get(v: &Vec<(String, Type)>, name: &str) -> (r: Option<Type>)
    ensures
        r == lookup(v@, name@),
{
    let mut k: usize = 0;
    assert(v@.skip(0) =~= v@);
    while k < v.len()
        invariant
            k <= v@.len(),
            lookup(v@, name@) == lookup(v@.skip(k as int), name@),
        decreases v@.len() - k,
    {
        assert(v@.skip(k as int).drop_first() =~= v@.skip(k as int + 1));
        if str_eq(v[k].0.as_str(), name) {
            return Some(v[k].1.clone());
        }
        k = k + 1;
    }
    None
}

fn float_get(v: &Vec<(String, FloatImm)>, name: &str) -> (r: FloatImm)
    ensures
        ir::operand_view(Operand::ImmFloat(r)) == lower_model::float_value(v@, name@),
{
    let mut k: usize = 0;
    assert(v@.skip(0) =~= v@);
    while k < v.len()
        invariant
            k <= v@.len(),
            lower_model::float_value(v@, name@) == lower_model::float_value(v@.skip(k as int), name@),
        decreases v@.len() - k,
    {
        assert(v@.skip(k as int).drop_first() =~= v@.skip(k as int + 1));
        if str_eq(v[k].0.as_str(), name) {
            return FloatImm { bits: v[k].1.bits, text: v[k].1.text.clone() };
        }
        k = k + 1;
    }
    proof {
        reveal_strlit("0");
    }
    FloatImm { bits: 0, text: String::from_str("0") }
}

fn assoc_set<V>(v: &mut Vec<(String, V)>, name: String, val: V)
    ensures
        final(v)@ == assoc_put(old(v)@, name, val),
{
    let ghost s = v@;
    let mut k: usize = 0;
    while k < v.len()
        invariant
            v@ == s,
            s == old(v)@,
            k <= s.len(),
            forall|j: int| 0 <= j < k ==> (#[trigger] s[j]).0@ != name@,
        decreases v@.len() - k,
    {
        if str_eq(v[k].0.as_str(), name.as_str()) {
            proof {
                assert(s[k as int].0@ == name@);
                lemma_put_split(s, name, val, k as int);
                assert(s.skip(k as int)[0] == s[k as int]);
                assert(s.skip(k as int).len() > 0);
                assert(assoc_put(s.skip(k as int), name, val) == s.skip(k as int).update(0, (name, val)));
                assert(s.take(k as int) + s.skip(k as int).update(0, (name, val)) =~= s.update(k as int, (name, val)));
            }
            v.set(k, (name, val));
            return;
        }
        k = k + 1;
    }
    proof {
        lemma_put_split(s, name, val, k as int);
        assert(s.skip(k as int) =~= Seq::<(String, V)>::empty());
        assert(s.take(k as int) =~= s);
    }
    v.push((name, val));
}

fn name_in(v: &Vec<String>, name: &str) -> (r: bool)
    ensures
        r == lower_model::names_has(v@, name@),
{
    let mut k: usize = 0;
    while k < v.len()
        invariant
            k <= v@.len(),
            forall|j: int| 0 <= j < k ==> (#[trigger] v@[j])@ != name@,
        decreases v@.len() - k,
    {
        if str_eq(v[k].as_str(), name) {
            return true;
        }
        k = k + 1;
    }
    false
}

/// The type of an expression as lowering guesses it: literals by their
/// kind, names by what was recorded, comparisons are `bool`, other binary
/// operations take the type of their left side, calls the return type of
/// the function called.
pub open spec fn infer_spec(vt: Seq<(String, TypeV)>, ft: Seq<(String, TypeV)>, e: Expr) -> TypeV
    decreases e,
{
    match e {
        Expr::Literal(Literal::Int(s)) => numlit::infer_int_type_spec(numlit::parse_int_literal_spec(s@)),
        Expr::Literal(Literal::Bool(_)) => TypeV::Bool,
        Expr::Literal(Literal::Float(_)) => TypeV::F64,
        Expr::Literal(Literal::String(_)) => TypeV::Custom("String"@),
        Expr::Literal(Literal::NoneLit) => TypeV::Unknown,
        Expr::Variable(name) => match lookup(vt, name@) {
            Some(t) => t,
            None => TypeV::Unknown,
        },
        Expr::BinaryOp { left, op, .. } => match op {
            BinOp::Eq | BinOp::Neq | BinOp::Lt | BinOp::Gt | BinOp::Le | BinOp::Ge => TypeV::Bool,
            _ => infer_spec(vt, ft, *left),
        },
        Expr::Call { callee, .. } => match *callee {
            Expr::Variable(name) => match lookup(ft, name@) {
                Some(t) => t,
                None => TypeV::Unknown,
            },
            _ => TypeV::Unknown,
        },
        _ => TypeV::Unknown,
    }
}

/// A step of lowering ended as the model says: with the model's value and
/// state, or with its error message.
pub open spec fn step_ok<T>(st: (LowV, Result<T, Seq<char>>), r: Result<T, LoweringError>, after: LowV) -> bool {
    match st.1 {
        Ok(v) => r matches Ok(x) && x == v && after == st.0,
        Err(m) => r matches Err(e) && e.message@ == m,
    }
}

/// Entering `name` keeps the entries before the first one with that name.
proof fn lemma_put_split<V>(s: Seq<(String, V)>, n: String, v: V, k: int)
    requires
        0 <= k <= s.len(),
        forall|j: int| 0 <= j < k ==> (#[trigger] s[j]).0@ != n@,
    ensures
        assoc_put(s, n, v) == s.take(k) + assoc_put(s.skip(k), n, v),
    decreases k,
{
    if k == 0 {
        assert(s.skip(0) =~= s);
        assert(s.take(0) + assoc_put(s, n, v) =~= assoc_put(s, n, v));
    } else {
        let t = s.drop_first();
        assert forall|j: int| 0 <= j < k - 1 implies (#[trigger] t[j]).0@ != n@ by {
            assert(t[j] == s[j + 1]);
        }
        lemma_put_split(t, n, v, k - 1);
        assert(t.skip(k - 1) =~= s.skip(k));
        assert(s.take(k) =~= seq![s[0]] + t.take(k - 1));
        assert(s[0].0@ != n@);
        assert(assoc_put(s, n, v) == seq![s[0]] + assoc_put(t, n, v));
        assert(seq![s[0]] + (t.take(k - 1) + assoc_put(s.skip(k), n, v)) =~= s.take(k) + assoc_put(s.skip(k), n, v));
    }
}

/// A table of types with each type by its view.
pub open spec fn tv(s: Seq<(String, Type)>) -> Seq<(String, TypeV)> {
    s.map_values(|p: (String, Type)| (p.0, ast::type_view(p.1)))
}

proof fn lemma_lookup_tv(s: Seq<(String, Type)>, n: Seq<char>)
    ensures
        lookup(tv(s), n) == match lookup(s, n) {
            Some(t) => Some(ast::type_view(t)),
            None => None,
        },
    decreases s.len(),
{
    if s.len() > 0 {
        assert(tv(s).drop_first() =~= tv(s.drop_first()));
        lemma_lookup_tv(s.drop_first(), n);
    }
}

proof fn lemma_put_tv(s: Seq<(String, Type)>, n: String, t: Type)
    ensures
        tv(assoc_put(s, n, t)) == assoc_put(tv(s), n, ast::type_view(t)),
    decreases s.len(),
{
    if s.len() > 0 {
        assert(tv(s).drop_first() =~= tv(s.drop_first()));
        lemma_put_tv(s.drop_first(), n, t);
        if s[0].0@ != n@ {
            assert(tv(assoc_put(s, n, t)) =~= seq![tv(s)[0]] + tv(assoc_put(s.drop_first(), n, t)));
        } else {
            assert(tv(assoc_put(s, n, t)) =~= tv(s).update(0, (n, ast::type_view(t))));
        }
    } else {
        assert(tv(assoc_put(s, n, t)) =~= seq![(n, ast::type_view(t))]);
    }
}

/// The locals of a function, each name by its characters.
pub open spec fn locals_v(s: Seq<(String, Type)>) -> Seq<(Seq<char>, Type)> {
    s.map_values(|p: (String, Type)| (p.0@, p.1))
}

/// A function of the intermediate representation as lowering models it.
pub open spec fn fn_v(f: IrFunction) -> FnV {
    FnV {
        name: f.name@,
        params: f.params@,
        ret: f.return_type,
        locals: locals_v(f.locals@),
        body: optimize::body(f),
        next_temp: f.next_temp,
    }
}

pub open spec fn opt_fn_v(f: Option<IrFunction>) -> Option<FnV> {
    match f {
        Some(g) => Some(fn_v(g)),
        None => None,
    }
}

/// What a function declares: its name, its parameters and its return type.
pub open spec fn sig_of(f: IrFunction) -> (Seq<char>, Seq<(Seq<char>, TypeV)>, Option<TypeV>) {
    (f.name@, ast::params_view(f.params@), ast::opt_type_view(f.return_type))
}

/// What the function definitions among `ss` declare, in order.
pub open spec fn def_sigs(ss: Seq<Stmt>) -> Seq<(Seq<char>, Seq<(Seq<char>, TypeV)>, Option<TypeV>)>
    decreases ss.len(),
{
    if ss.len() == 0 {
        Seq::empty()
    } else {
        def_sigs(ss.drop_last()) + match ss.last() {
            Stmt::FnDef { name, params, return_type, .. } => seq![
                (name@, ast::params_view(params@), ast::opt_type_view(return_type)),
            ],
            _ => Seq::empty(),
        }
    }
}

pub open spec fn sigs_of(fs: Seq<IrFunction>) -> Seq<(Seq<char>, Seq<(Seq<char>, TypeV)>, Option<TypeV>)> {
    fs.map_values(|f: IrFunction| sig_of(f))
}

pub open spec fn opt_seq(f: Option<IrFunction>) -> Seq<IrFunction> {
    match f {
        Some(g) => seq![g],
        None => Seq::empty(),
    }
}

/// A function's last instruction is a return.
pub open spec fn ends_with_return(f: IrFunction) -> bool {
    optimize::body(f).len() > 0 && optimize::body(f).last() is Return
}

/// A function definition whose return type is an array, which lowering
/// does not support.
pub open spec fn returns_array(s: Stmt) -> bool {
    s matches Stmt::FnDef { return_type: Some(t), .. } && t is Array
}

/// At the top level of the program stands no `let` and no expression, whose
/// code would go on at the end of the function defined before it.
pub open spec fn defs_only(p: Program) -> bool {
    forall|k: int| 0 <= k < p.stmts@.len() ==> !(#[trigger] p.stmts@[k] is Let) && !(p.stmts@[k] is Expr)
}

/// Instructions `1 + 2 * i` and `2 + 2 * i` of `s` read parameter `i` into
/// temporary `i` and store it in slot `-8 * (i + 1)`.
pub open spec fn param_read(s: Seq<InstrV>, i: int) -> bool {
    &&& s[1 + 2 * i] == InstrV::LoadParam { dst: Temp(i as u32), index: i as usize }
    &&& s[2 + 2 * i] == InstrV::StoreMem { dst: Location::StackSlot((-8 * (i + 1)) as i32), src: Temp(i as u32) }
}

/// A function opens with the label that carries its name, then reads each
/// of its parameters into its slot; its first locals are its parameters.
pub open spec fn opens_with_prologue(f: IrFunction) -> bool {
    &&& optimize::body(f).len() >= 1 + 2 * f.params@.len()
    &&& optimize::body(f)[0] == InstrV::Label("func_"@ + f.name@)
    &&& f.locals@.len() >= f.params@.len()
    &&& f.locals@.take(f.params@.len() as int) == f.params@
    &&& forall|i: int| 0 <= i < f.params@.len() ==> #[trigger] param_read(optimize::body(f), i)
}

proof fn lemma_extends_label(b: Option<IrFunction>, a: Option<IrFunction>)
    requires
        cur_extends(b, a),
        a matches Some(f) && opens_with_prologue(f),
    ensures
        b matches Some(g) && opens_with_prologue(g) && g.name == a->Some_0.name && g.params == a->Some_0.params
            && g.return_type == a->Some_0.return_type,
{
    let f = a->Some_0;
    let g = b->Some_0;
    let (bf, bg) = (optimize::body(f), optimize::body(g));
    assert forall|j: int| 0 <= j < bf.len() implies bg[j] == bf[j] by {
        assert(bg.take(bf.len() as int)[j] == bg[j]);
    }
    assert(g.locals@.take(f.params@.len() as int) =~= g.locals@.take(f.locals@.len() as int).take(
        f.params@.len() as int,
    ));
    assert forall|i: int| 0 <= i < f.params@.len() implies #[trigger] param_read(bg, i) by {
        assert(param_read(bf, i));
        assert(bg[1 + 2 * i] == bf[1 + 2 * i]);
        assert(bg[2 + 2 * i] == bf[2 + 2 * i]);
    }
}

/// The function `b` goes on from `a`: same name, parameters and return
/// type, more locals and more instructions after the old ones, more
/// temporaries.
pub open spec fn cur_extends(b: Option<IrFunction>, a: Option<IrFunction>) -> bool {
    &&& a is None ==> b is None
    &&& a matches Some(f) ==> b matches Some(g) && {
        &&& g.name == f.name
        &&& g.params == f.params
        &&& g.return_type == f.return_type
        &&& g.locals@.len() >= f.locals@.len()
        &&& g.locals@.take(f.locals@.len() as int) == f.locals@
        &&& optimize::body(g).len() >= optimize::body(f).len()
        &&& optimize::body(g).take(optimize::body(f).len() as int) == optimize::body(f)
        &&& g.next_temp >= f.next_temp
    }
}

proof fn lemma_extends_refl(a: Option<IrFunction>)
    ensures
        cur_extends(a, a),
{
    if let Some(f) = a {
        assert(optimize::body(f).take(optimize::body(f).len() as int) =~= optimize::body(f));
        assert(f.locals@.take(f.locals@.len() as int) =~= f.locals@);
    }
}

proof fn lemma_extends_trans(c: Option<IrFunction>, b: Option<IrFunction>, a: Option<IrFunction>)
    requires
        cur_extends(c, b),
        cur_extends(b, a),
    ensures
        cur_extends(c, a),
{
    if let Some(f) = a {
        let g = b->Some_0;
        let h = c->Some_0;
        let (bf, bg, bh) = (optimize::body(f), optimize::body(g), optimize::body(h));
        assert(bh.take(bf.len() as int) =~= bh.take(bg.len() as int).take(bf.len() as int));
        assert(h.locals@.take(f.locals@.len() as int) =~= h.locals@.take(g.locals@.len() as int).take(
            f.locals@.len() as int,
        ));
    }
}

/// A temporary defined in `a` stays defined in a function that goes on from it.
proof fn lemma_carry(b: Option<IrFunction>, a: Option<IrFunction>, t: Temp)
    requires
        cur_extends(b, a),
        a matches Some(f) && defined_in(optimize::body(f), t),
    ensures
        b matches Some(g) && defined_in(optimize::body(g), t),
{
    let f = a->Some_0;
    let g = b->Some_0;
    lemma_defined_extend(optimize::body(f), optimize::body(g), t);
}

impl Lowering {
    /// The function being built and all functions done are well formed.
    pub closed spec fn wf(&self) -> bool {
        &&& forall|k: int| 0 <= k < self.functions@.len() ==> func_wf(#[trigger] self.functions@[k])
        &&& self.current_func matches Some(f) ==> func_wf(f)
    }

    /// The state of lowering as the model of `lower_model` sees it.
    pub closed spec fn lv(&self) -> LowV {
        LowV {
            cur: opt_fn_v(self.current_func),
            done: self.functions@.map_values(|f: IrFunction| fn_v(f)),
            vars: self.var_map@,
            arrays: self.array_map@,
            ptrs: self.ptr_array_params@,
            types: tv(self.var_types@),
            fns: tv(self.fn_return_types@),
            floats: self.float_values@,
            offset: self.stack_offset,
            label: self.next_label_id,
        }
    }

    pub closed spec fn cur(&self) -> Option<IrFunction> {
        self.current_func
    }

    pub closed spec fn done(&self) -> Seq<IrFunction> {
        self.functions@
    }

    /// The values given for floating-point literals, by their text.
    pub closed spec fn floats(&self) -> Seq<(String, FloatImm)> {
        self.float_values@
    }

    /// The current function goes on from where it was.
    pub open spec fn extends(&self, old: &Self) -> bool {
        cur_extends(self.cur(), old.cur())
    }

    pub fn new() -> (r: Self)
        ensures
            r.wf(),
            r.cur() is None,
            r.done().len() == 0,
            r.lv() == lower_model::fresh(),
    {
        let r = Lowering {
            functions: Vec::new(),
            current_func: None,
            var_map: Vec::new(),
            array_map: Vec::new(),
            ptr_array_params: Vec::new(),
            var_types: Vec::new(),
            fn_return_types: Vec::new(),
            float_values: Vec::new(),
            stack_offset: 0,
            next_label_id: 0,
        };
        assert(r.functions@.map_values(|f: IrFunction| fn_v(f)) =~= Seq::<FnV>::empty());
        assert(tv(r.var_types@) =~= Seq::<(String, TypeV)>::empty());
        assert(tv(r.fn_return_types@) =~= Seq::<(String, TypeV)>::empty());
        r
    }

    /// Gives the value of each floating-point literal by its text (a text
    /// not listed stands for 0).
    pub fn set_float_values(&mut self, values: Vec<(String, FloatImm)>)
        ensures
            old(self).wf() ==> final(self).wf(),
            final(self).cur() == old(self).cur(),
            final(self).done() == old(self).done(),
            final(self).floats() == values@,
            final(self).lv() == (LowV { floats: values@, ..old(self).lv() }),
    {
        self.float_values = values;
        assert(self.functions@ == old(self).functions@);
    }

    fn emit(&mut self, instr: IrInstruction)
        ensures
            final(self).stack_offset == old(self).stack_offset,
            final(self).done() == old(self).done(),
            final(self).cur() is Some <==> old(self).cur() is Some,
            old(self).cur() matches Some(f) ==> final(self).cur() matches Some(g) && {
                &&& g.name == f.name
                &&& g.next_temp == f.next_temp
                &&& g.locals == f.locals
                &&& optimize::body(g) == optimize::body(f).push(ir::instr_view(instr))
            },
            old(self).wf() && (old(self).cur() matches Some(f) ==> fits(
                optimize::body(f),
                f.next_temp,
                ir::instr_view(instr),
            )) ==> final(self).wf(),
            final(self).extends(old(self)),
            final(self).lv() == lower_model::emit_s(old(self).lv(), ir::instr_view(instr)),
    {
        let ghost iv = ir::instr_view(instr);
        match self.current_func.take() {
            Some(mut func) => {
                let ghost before = optimize::body(func);
                func.instructions.push(instr);
                proof {
                    assert(func.locals@.take(func.locals@.len() as int) =~= func.locals@);
                    assert(optimize::body(func) =~= before.push(iv));
                    if old(self).wf() && fits(before, func.next_temp, iv) {
                        lemma_wf_push(before, func.next_temp, iv);
                    }
                    assert(optimize::body(func).take(before.len() as int) =~= before);
                }
                self.current_func = Some(func);
                assert(self.lv() =~= lower_model::emit_s(old(self).lv(), iv));
            },
            None => {},
        }
    }

    /// A fresh temporary of the current function; an error where there is
    /// no function or no temporary number is left.
    fn new_temp(&mut self) -> (r: Result<Temp, LoweringError>)
        ensures
            final(self).stack_offset == old(self).stack_offset,
            final(self).done() == old(self).done(),
            match r {
                Ok(t) => old(self).cur() matches Some(f) && final(self).cur() matches Some(g) && {
                    &&& g.name == f.name
                    &&& optimize::body(g) == optimize::body(f)
                    &&& g.locals == f.locals
                    &&& t.0 == f.next_temp
                    &&& g.next_temp == f.next_temp + 1
                },
                Err(_) => final(self).cur() == old(self).cur(),
            },
            old(self).wf() ==> final(self).wf(),
            old(self).wf() && r is Ok ==> (final(self).cur() matches Some(g) && !defined_in(
                optimize::body(g),
                r->Ok_0,
            )),
            final(self).extends(old(self)),
            step_ok(lower_model::temp_s(old(self).lv()), r, final(self).lv()),
    {
        match self.current_func.take() {
            Some(mut func) => {
                if func.next_temp == u32::MAX {
                    proof {
                        assert(optimize::body(func).take(optimize::body(func).len() as int) =~= optimize::body(func));
                        assert(func.locals@.take(func.locals@.len() as int) =~= func.locals@);
                    }
                    self.current_func = Some(func);
                    return Err(LoweringError { message: String::from_str("Too many temporaries") });
                }
                let ghost n = func.next_temp;
                let t = func.new_temp();
                proof {
                    if old(self).wf() {
                        lemma_fresh(optimize::body(func), n, t);
                        lemma_wf_more(optimize::body(func), n, func.next_temp);
                    }
                    assert(optimize::body(func).take(optimize::body(func).len() as int) =~= optimize::body(func));
                    assert(func.locals@.take(func.locals@.len() as int) =~= func.locals@);
                }
                self.current_func = Some(func);
                assert(self.lv() =~= lower_model::temp_s(old(self).lv()).0);
                Ok(t)
            },
            None => Err(LoweringError { message: String::from_str("No current function") }),
        }
    }

    /// A fresh label `L<n>`.
    fn new_label(&mut self) -> (r: Result<String, LoweringError>)
        ensures
            final(self).done() == old(self).done(),
            final(self).cur() == old(self).cur(),
            old(self).wf() ==> final(self).wf(),
            match lower_model::label_s(old(self).lv()) {
                (st, Ok(l)) => r matches Ok(x) && x@ == l && final(self).lv() == st,
                (_, Err(m)) => r matches Err(e) && e.message@ == m,
            },
    {
        if self.next_label_id == u32::MAX {
            return Err(LoweringError { message: String::from_str("Too many labels") });
        }
        let mut label = String::new();
        push_str(&mut label, "L");
        push_decimal(&mut label, self.next_label_id as u64);
        self.next_label_id = self.next_label_id + 1;
        Ok(label)
    }

    /// Takes the next stack slot of 8 bytes.
    fn next_slot(&mut self) -> (r: Result<i32, LoweringError>)
        ensures
            final(self).done() == old(self).done(),
            final(self).cur() == old(self).cur(),
            old(self).wf() ==> final(self).wf(),
            r matches Ok(o) ==> o == old(self).stack_offset - 8 && final(self).stack_offset == o,
            step_ok(lower_model::slot_s(old(self).lv()), r, final(self).lv()),
    {
        match self.stack_offset.checked_sub(8) {
            Some(o) => {
                self.stack_offset = o;
                Ok(o)
            },
            None => Err(LoweringError { message: String::from_str("Stack frame too large") }),
        }
    }

    /// Adds a local to the current function.
    fn add_local(&mut self, name: String, ty: Type)
        ensures
            final(self).stack_offset == old(self).stack_offset,
            final(self).done() == old(self).done(),
            final(self).cur() is Some <==> old(self).cur() is Some,
            old(self).cur() matches Some(f) ==> final(self).cur() matches Some(g) && {
                &&& g.name == f.name
                &&& g.next_temp == f.next_temp
                &&& optimize::body(g) == optimize::body(f)
                &&& g.locals@ == f.locals@.push((name, ty))
            },
            old(self).wf() ==> final(self).wf(),
            final(self).extends(old(self)),
            final(self).lv() == lower_model::local_s(old(self).lv(), name@, ty),
    {
        match self.current_func.take() {
            Some(mut func) => {
                let ghost l0 = func.locals@;
                func.locals.push((name, ty));
                assert(func.locals@.take(l0.len() as int) =~= l0);
                proof {
                    assert(optimize::body(func).take(optimize::body(func).len() as int) =~= optimize::body(func));
                    assert(locals_v(func.locals@) =~= locals_v(l0).push((name@, ty)));
                }
                self.current_func = Some(func);
                assert(self.lv() =~= lower_model::local_s(old(self).lv(), name@, ty));
            },
            None => {},
        }
    }

    /// The types recorded for the names of the current function.
    pub closed spec fn var_types_spec(&self) -> Seq<(String, TypeV)> {
        tv(self.var_types@)
    }

    /// The return types of the functions of the program.
    pub closed spec fn fn_types_spec(&self) -> Seq<(String, TypeV)> {
        tv(self.fn_return_types@)
    }

    /// The guessed type of an expression (see `infer_spec`).
    fn infer_expr_type(&self, expr: &Expr) -> (r: Type)
        ensures
            ast::type_view(r) == infer_spec(self.var_types_spec(), self.fn_types_spec(), *expr),
        decreases expr,
    {
        match expr {
            Expr::Literal(Literal::Int(s)) => numlit::infer_int_type(&numlit::parse_int_literal(s.as_str())),
            Expr::Literal(Literal::Bool(_)) => Type::Bool,
            Expr::Literal(Literal::Float(_)) => Type::F64,
            Expr::Literal(Literal::String(_)) => Type::Custom(String::from_str("String")),
            Expr::Literal(Literal::NoneLit) => Type::Unknown,
            Expr::Variable(name) => {
                proof {
                    lemma_lookup_tv(self.var_types@, name@);
                }
                match type_get(&self.var_types, name.as_str()) {
                    Some(t) => t,
                    None => Type::Unknown,
                }
            },
            Expr::BinaryOp { left, op, .. } => match op {
                BinOp::Eq | BinOp::Neq | BinOp::Lt | BinOp::Gt | BinOp::Le | BinOp::Ge => Type::Bool,
                _ => self.infer_expr_type(left),
            },
            Expr::Call { callee, .. } => match &**callee {
                Expr::Variable(name) => {
                    proof {
                        lemma_lookup_tv(self.fn_return_types@, name@);
                    }
                    match type_get(&self.fn_return_types, name.as_str()) {
                        Some(t) => t,
                        None => Type::Unknown,
                    }
                },
                _ => Type::Unknown,
            },
            _ => Type::Unknown,
        }
    }

    fn err(msg: String) -> (r: Result<Temp, LoweringError>)
        ensures
            r matches Err(e) && e.message@ == msg@,
    {
        Err(LoweringError { message: msg })
    }

    /// Lowers an expression; its value ends up in the temporary returned.
    fn lower_expr(&mut self, expr: &Expr) -> (r: Result<Temp, LoweringError>)
        ensures
            fn_free_expr(*expr) && old(self).wf() ==> {
                &&& final(self).wf()
                &&& final(self).extends(old(self))
                &&& final(self).done() == old(self).done()
                &&& r matches Ok(t) ==> (final(self).cur() matches Some(g) && defined_in(optimize::body(g), t))
            },
            step_ok(lower_model::ex(old(self).lv(), *expr), r, final(self).lv()),
        decreases expr, 2nat,
    {
        let ghost c0 = self.cur();
        proof {
            lemma_extends_refl(c0);
        }
        match expr {
            Expr::Literal(lit) => {
                let dst = match self.new_temp() {
                    Ok(t) => t,
                    Err(e) => {
                        return Err(e);
                    },
                };
                let value = match lit {
                    Literal::Int(s) => Operand::ImmInt(numlit::parse_int_literal(s.as_str()).bits),
                    Literal::Float(s) => Operand::ImmFloat(float_get(&self.float_values, s.as_str())),
                    Literal::String(s) => Operand::ImmString(s.clone()),
                    _ => Operand::ImmInt(0),
                };
                let ghost c1 = self.cur();
                self.emit(IrInstruction::LoadImm { dst, value });
                proof {
                    lemma_extends_trans(self.cur(), c1, c0);
                    if old(self).wf() {
                        let g = self.cur()->Some_0;
                        assert(optimize::body(g).last() == ir::instr_view(IrInstruction::LoadImm { dst, value }));
                        assert(regalloc::defines(optimize::body(g)[optimize::body(g).len() - 1]) == Some(dst));
                    }
                }
                Ok(dst)
            },
            Expr::Variable(name) => {
                if let Some(loc) = assoc_get(&self.var_map, name.as_str()) {
                    let dst = match self.new_temp() {
                        Ok(t) => t,
                        Err(e) => {
                            return Err(e);
                        },
                    };
                    let ghost c1 = self.cur();
                    self.emit(IrInstruction::LoadMem { dst, src: loc });
                    proof {
                        lemma_extends_trans(self.cur(), c1, c0);
                        if old(self).wf() {
                            let g = self.cur()->Some_0;
                            assert(regalloc::defines(optimize::body(g)[optimize::body(g).len() - 1]) == Some(dst));
                        }
                    }
                    Ok(dst)
                } else if let Some((elem0_offset, _len)) = assoc_get(&self.array_map, name.as_str()) {
                    let dst = match self.new_temp() {
                        Ok(t) => t,
                        Err(e) => {
                            return Err(e);
                        },
                    };
                    let ghost c1 = self.cur();
                    self.emit(IrInstruction::LoadAddr { dst, base_offset: elem0_offset });
                    proof {
                        lemma_extends_trans(self.cur(), c1, c0);
                        if old(self).wf() {
                            let g = self.cur()->Some_0;
                            assert(regalloc::defines(optimize::body(g)[optimize::body(g).len() - 1]) == Some(dst));
                        }
                    }
                    Ok(dst)
                } else {
                    let mut m = String::new();
                    push_str(&mut m, "Undefined variable: ");
                    push_str(&mut m, name.as_str());
                    Self::err(m)
                }
            },
            Expr::BinaryOp { left, op, right, .. } => self.lower_binary(expr),
            Expr::If { .. } => self.lower_if(expr),
            Expr::Call { .. } => self.lower_call(expr),
            Expr::ArrayInit { .. } => {
                let dst = match self.new_temp() {
                    Ok(t) => t,
                    Err(e) => {
                        return Err(e);
                    },
                };
                let ghost c1 = self.cur();
                self.emit(IrInstruction::LoadImm { dst, value: Operand::ImmInt(0) });
                proof {
                    lemma_extends_trans(self.cur(), c1, c0);
                    if old(self).wf() {
                        let g = self.cur()->Some_0;
                        assert(regalloc::defines(optimize::body(g)[optimize::body(g).len() - 1]) == Some(dst));
                    }
                }
                Ok(dst)
            },
            Expr::Index { .. } => self.lower_index(expr),
        }
    }

    /// A binary operation; `v $~ x` stores `v` in the variable or array
    /// element `x` and is worth `v`.
    fn lower_binary(&mut self, expr: &Expr) -> (r: Result<Temp, LoweringError>)
        requires
            *expr is BinaryOp,
        ensures
            fn_free_expr(*expr) && old(self).wf() ==> {
                &&& final(self).wf()
                &&& final(self).extends(old(self))
                &&& final(self).done() == old(self).done()
                &&& r matches Ok(t) ==> (final(self).cur() matches Some(g) && defined_in(optimize::body(g), t))
            },
            step_ok(lower_model::bin_s(old(self).lv(), *expr), r, final(self).lv()),
        decreases expr, 1nat,
    {
        let ghost c0 = self.cur();
        let (left, op, right) = match expr {
            Expr::BinaryOp { left, op, right, .. } => (left, *op, right),
            _ => {
                proof {
                    assert(false);
                }
                return Self::err(String::new());
            },
        };
        let left_temp = match self.lower_expr(left) {
            Ok(t) => t,
            Err(e) => {
                return Err(e);
            },
        };
        let ghost c1 = self.cur();
        let right_temp = match self.lower_expr(right) {
            Ok(t) => t,
            Err(e) => {
                proof {
                    if fn_free_expr(*expr) && old(self).wf() {
                        lemma_extends_trans(self.cur(), c1, c0);
                    }
                }
                return Err(e);
            },
        };
        let ghost c2 = self.cur();
        proof {
            if fn_free_expr(*expr) && old(self).wf() {
                lemma_extends_trans(c2, c1, c0);
                lemma_carry(c2, c1, left_temp);
            }
        }
        if matches!(op, BinOp::SyncAssign) {
            match &**right {
                Expr::Variable(right_name) => {
                    if let Some(loc) = assoc_get(&self.var_map, right_name.as_str()) {
                        proof {
                            if fn_free_expr(*expr) && old(self).wf() {
                                let g = c2->Some_0;
                                lemma_defined_below(optimize::body(g), g.next_temp, left_temp);
                            }
                        }
                        self.emit(IrInstruction::StoreMem { dst: loc, src: left_temp });
                        proof {
                            if fn_free_expr(*expr) && old(self).wf() {
                                lemma_extends_trans(self.cur(), c2, c0);
                                lemma_carry(self.cur(), c2, left_temp);
                            }
                        }
                        Ok(left_temp)
                    } else {
                        let mut m = String::new();
                        push_str(&mut m, "Undefined variable: ");
                        push_str(&mut m, right_name.as_str());
                        Self::err(m)
                    }
                },
                Expr::Index { array, index, .. } => {
                    proof {
                        if fn_free_expr(*expr) && old(self).wf() {
                            assert(fn_free_expr(**right));
                            assert(fn_free_expr(**index));
                        }
                    }
                    match self.lower_index_store(array, index, left_temp) {
                        Ok(()) => {},
                        Err(e) => {
                            proof {
                                if fn_free_expr(*expr) && old(self).wf() {
                                    lemma_extends_trans(self.cur(), c2, c0);
                                }
                            }
                            return Err(e);
                        },
                    }
                    proof {
                        if fn_free_expr(*expr) && old(self).wf() {
                            lemma_extends_trans(self.cur(), c2, c0);
                            lemma_carry(self.cur(), c2, left_temp);
                        }
                    }
                    Ok(left_temp)
                },
                _ => Self::err(String::from_str("Right side of $~ must be a variable or an array element")),
            }
        } else {
            proof {
                if fn_free_expr(*expr) && old(self).wf() {
                    lemma_carry(c2, c1, left_temp);
                }
            }
            let dst = match self.new_temp() {
                Ok(t) => t,
                Err(e) => {
                    return Err(e);
                },
            };
            let ghost c3 = self.cur();
            let unsigned = numlit::is_unsigned(&self.infer_expr_type(left));
            let ir_op = match op {
                BinOp::Add => IrBinOp::Add,
                BinOp::Sub => IrBinOp::Sub,
                BinOp::Mul => IrBinOp::Mul,
                BinOp::Div => if unsigned {
                    IrBinOp::DivU
                } else {
                    IrBinOp::Div
                },
                BinOp::Mod => if unsigned {
                    IrBinOp::ModU
                } else {
                    IrBinOp::Mod
                },
                BinOp::Eq => IrBinOp::Eq,
                BinOp::Neq => IrBinOp::Neq,
                BinOp::Lt => if unsigned {
                    IrBinOp::LtU
                } else {
                    IrBinOp::Lt
                },
                BinOp::Gt => if unsigned {
                    IrBinOp::GtU
                } else {
                    IrBinOp::Gt
                },
                BinOp::Le => if unsigned {
                    IrBinOp::LeU
                } else {
                    IrBinOp::Le
                },
                BinOp::Ge => if unsigned {
                    IrBinOp::GeU
                } else {
                    IrBinOp::Ge
                },
                _ => {
                    let mut m = String::new();
                    push_str(&mut m, "Unsupported operator: ");
                    checker::push_binop_debug(&mut m, op);
                    proof {
                        if fn_free_expr(*expr) && old(self).wf() {
                            lemma_extends_trans(c3, c2, c0);
                        }
                    }
                    return Self::err(m);
                },
            };
            proof {
                if fn_free_expr(*expr) && old(self).wf() {
                    lemma_extends_trans(c3, c2, c0);
                    lemma_carry(c3, c2, left_temp);
                    lemma_carry(c3, c2, right_temp);
                    let g = c3->Some_0;
                    lemma_defined_below(optimize::body(g), g.next_temp, left_temp);
                    lemma_defined_below(optimize::body(g), g.next_temp, right_temp);
                }
            }
            self.emit(IrInstruction::BinaryOp { dst, left: left_temp, op: ir_op, right: right_temp });
            proof {
                if fn_free_expr(*expr) && old(self).wf() {
                    lemma_extends_trans(self.cur(), c3, c0);
                    let g = self.cur()->Some_0;
                    assert(regalloc::defines(optimize::body(g)[optimize::body(g).len() - 1]) == Some(dst));
                }
            }
            Ok(dst)
        }
    }

    /// The slot of element `idx` of an array whose element 0 is at `elem0`.
    fn element_slot(elem0: i32, idx: i64) -> (r: Location)
        ensures
            r == lower_model::element_slot_s(elem0, idx),
    {
        let i32_idx = #[verifier::truncate] (idx as i32);
        Location::StackSlot(elem0.wrapping_sub(i32_idx.wrapping_mul(8)))
    }

    fn not_an_array(name: &String) -> (r: String)
        ensures
            r@ == lower_model::msg_not_array(name@),
    {
        let mut m = String::new();
        push_str(&mut m, "'");
        push_str(&mut m, name.as_str());
        push_str(&mut m, "' nie jest ani zainicjalizowaną tablicą lokalną, ani parametrem tablicowym");
        m
    }

    fn missing_param(name: &String) -> (r: String)
        ensures
            r@ == lower_model::msg_missing_param(name@),
    {
        let mut m = String::new();
        push_str(&mut m, "Wewnętrzny błąd: brak lokalizacji parametru '");
        push_str(&mut m, name.as_str());
        push_str(&mut m, "'");
        m
    }

    /// Reading `array[index]`.
    fn lower_index(&mut self, expr: &Expr) -> (r: Result<Temp, LoweringError>)
        requires
            *expr is Index,
        ensures
            fn_free_expr(*expr) && old(self).wf() ==> {
                &&& final(self).wf()
                &&& final(self).extends(old(self))
                &&& final(self).done() == old(self).done()
                &&& r matches Ok(t) ==> (final(self).cur() matches Some(g) && defined_in(optimize::body(g), t))
            },
            step_ok(lower_model::index_s(old(self).lv(), *expr), r, final(self).lv()),
        decreases expr, 1nat,
    {
        let ghost c0 = self.cur();
        proof {
            lemma_extends_refl(c0);
        }
        let (array, index) = match expr {
            Expr::Index { array, index, .. } => (array, index),
            _ => {
                proof {
                    assert(false);
                }
                return Self::err(String::new());
            },
        };
        let name = match &**array {
            Expr::Variable(n) => n,
            _ => {
                return Self::err(
                    String::from_str(
                        "Indeksowanie jest dziś obsługiwane tylko bezpośrednio na zmiennej tablicowej (np. `arr[i]`, nie `f()[i]`)",
                    ),
                );
            },
        };
        if let Some((elem0_offset, _len)) = assoc_get(&self.array_map, name.as_str()) {
            if let Expr::Literal(Literal::Int(s)) = &**index {
                let idx = numlit::parse_int_literal(s.as_str()).bits;
                let dst = match self.new_temp() {
                    Ok(t) => t,
                    Err(e) => {
                        return Err(e);
                    },
                };
                let ghost c1 = self.cur();
                self.emit(IrInstruction::LoadMem { dst, src: Self::element_slot(elem0_offset, idx) });
                proof {
                    lemma_extends_trans(self.cur(), c1, c0);
                    if old(self).wf() {
                        let g = self.cur()->Some_0;
                        assert(regalloc::defines(optimize::body(g)[optimize::body(g).len() - 1]) == Some(dst));
                    }
                }
                return Ok(dst);
            }
            let idx_temp = match self.lower_expr(index) {
                Ok(t) => t,
                Err(e) => {
                    return Err(e);
                },
            };
            let ghost c1 = self.cur();
            let dst = match self.new_temp() {
                Ok(t) => t,
                Err(e) => {
                    return Err(e);
                },
            };
            let ghost c2 = self.cur();
            proof {
                if fn_free_expr(*expr) && old(self).wf() {
                    lemma_extends_trans(c2, c1, c0);
                    lemma_carry(c2, c1, idx_temp);
                    let g = c2->Some_0;
                    lemma_defined_below(optimize::body(g), g.next_temp, idx_temp);
                }
            }
            self.emit(IrInstruction::LoadIndexed { dst, base_offset: elem0_offset, index: idx_temp, elem_size: 8 });
            proof {
                if fn_free_expr(*expr) && old(self).wf() {
                    lemma_extends_trans(self.cur(), c2, c0);
                    let g = self.cur()->Some_0;
                    assert(regalloc::defines(optimize::body(g)[optimize::body(g).len() - 1]) == Some(dst));
                }
            }
            return Ok(dst);
        }
        if name_in(&self.ptr_array_params, name.as_str()) {
            let base_loc = match assoc_get(&self.var_map, name.as_str()) {
                Some(l) => l,
                None => {
                    return Self::err(Self::missing_param(name));
                },
            };
            let base_temp = match self.new_temp() {
                Ok(t) => t,
                Err(e) => {
                    return Err(e);
                },
            };
            let ghost c1 = self.cur();
            self.emit(IrInstruction::LoadMem { dst: base_temp, src: base_loc });
            let ghost c2 = self.cur();
            proof {
                lemma_extends_trans(c2, c1, c0);
                if old(self).wf() {
                    let g = c2->Some_0;
                    assert(regalloc::defines(optimize::body(g)[optimize::body(g).len() - 1]) == Some(base_temp));
                }
            }
            let idx_temp = match self.lower_expr(index) {
                Ok(t) => t,
                Err(e) => {
                    proof {
                        if fn_free_expr(*expr) && old(self).wf() {
                            lemma_extends_trans(self.cur(), c2, c0);
                        }
                    }
                    return Err(e);
                },
            };
            let ghost c3 = self.cur();
            let dst = match self.new_temp() {
                Ok(t) => t,
                Err(e) => {
                    proof {
                        if fn_free_expr(*expr) && old(self).wf() {
                            lemma_extends_trans(self.cur(), c3, c2);
                            lemma_extends_trans(self.cur(), c2, c0);
                        }
                    }
                    return Err(e);
                },
            };
            let ghost c4 = self.cur();
            proof {
                if fn_free_expr(*expr) && old(self).wf() {
                    lemma_extends_trans(c4, c3, c2);
                    lemma_extends_trans(c4, c2, c0);
                    lemma_carry(c4, c2, base_temp);
                    lemma_carry(c4, c3, idx_temp);
                    let g = c4->Some_0;
                    lemma_defined_below(optimize::body(g), g.next_temp, idx_temp);
                    lemma_defined_below(optimize::body(g), g.next_temp, base_temp);
                }
            }
            self.emit(IrInstruction::LoadIndexedPtr { dst, base: base_temp, index: idx_temp, elem_size: 8 });
            proof {
                if fn_free_expr(*expr) && old(self).wf() {
                    lemma_extends_trans(self.cur(), c4, c0);
                    let g = self.cur()->Some_0;
                    assert(regalloc::defines(optimize::body(g)[optimize::body(g).len() - 1]) == Some(dst));
                }
            }
            return Ok(dst);
        }
        Self::err(Self::not_an_array(name))
    }

    fn unit_err(msg: String) -> (r: Result<(), LoweringError>)
        ensures
            r matches Err(e) && e.message@ == msg@,
    {
        Err(LoweringError { message: msg })
    }

    /// Writing `src` to `array[index]`.
    #[verifier::rlimit(60)]
    fn lower_index_store(&mut self, array: &Expr, index: &Expr, src: Temp) -> (r: Result<(), LoweringError>)
        ensures
            fn_free_expr(*index) && old(self).wf() && (old(self).cur() matches Some(f) && defined_in(
                optimize::body(f),
                src,
            )) ==> {
                &&& final(self).wf()
                &&& final(self).extends(old(self))
                &&& final(self).done() == old(self).done()
            },
            step_ok(lower_model::index_store_s(old(self).lv(), *array, *index, src), r, final(self).lv()),
        decreases index, 3nat,
    {
        let ghost c0 = self.cur();
        proof {
            lemma_extends_refl(c0);
        }
        let name = match array {
            Expr::Variable(n) => n,
            _ => {
                return Self::unit_err(
                    String::from_str("Zapis przez indeks jest dziś obsługiwany tylko bezpośrednio na zmiennej tablicowej"),
                );
            },
        };
        if let Some((elem0_offset, _len)) = assoc_get(&self.array_map, name.as_str()) {
            if let Expr::Literal(Literal::Int(s)) = index {
                let idx = numlit::parse_int_literal(s.as_str()).bits;
                proof {
                    if old(self).wf() && (c0 matches Some(f) && defined_in(optimize::body(f), src)) {
                        let g = c0->Some_0;
                        lemma_defined_below(optimize::body(g), g.next_temp, src);
                    }
                }
                self.emit(IrInstruction::StoreMem { dst: Self::element_slot(elem0_offset, idx), src });
                return Ok(());
            }
            let idx_temp = match self.lower_expr(index) {
                Ok(t) => t,
                Err(e) => {
                    return Err(e);
                },
            };
            let ghost c1 = self.cur();
            proof {
                if fn_free_expr(*index) && old(self).wf() && (c0 matches Some(f) && defined_in(optimize::body(f), src)) {
                    lemma_carry(c1, c0, src);
                    let g = c1->Some_0;
                    lemma_defined_below(optimize::body(g), g.next_temp, src);
                    lemma_defined_below(optimize::body(g), g.next_temp, idx_temp);
                }
            }
            self.emit(IrInstruction::StoreIndexed { base_offset: elem0_offset, index: idx_temp, src, elem_size: 8 });
            proof {
                if fn_free_expr(*index) && old(self).wf() {
                    lemma_extends_trans(self.cur(), c1, c0);
                }
            }
            return Ok(());
        }
        if name_in(&self.ptr_array_params, name.as_str()) {
            let base_loc = match assoc_get(&self.var_map, name.as_str()) {
                Some(l) => l,
                None => {
                    return Self::unit_err(Self::missing_param(name));
                },
            };
            let base_temp = match self.new_temp() {
                Ok(t) => t,
                Err(e) => {
                    return Err(e);
                },
            };
            let ghost c1 = self.cur();
            self.emit(IrInstruction::LoadMem { dst: base_temp, src: base_loc });
            let ghost c2 = self.cur();
            proof {
                lemma_extends_trans(c2, c1, c0);
                if old(self).wf() {
                    let g = c2->Some_0;
                    assert(regalloc::defines(optimize::body(g)[optimize::body(g).len() - 1]) == Some(base_temp));
                }
            }
            let idx_temp = match self.lower_expr(index) {
                Ok(t) => t,
                Err(e) => {
                    proof {
                        if fn_free_expr(*index) && old(self).wf() {
                            lemma_extends_trans(self.cur(), c2, c0);
                        }
                    }
                    return Err(e);
                },
            };
            let ghost c3 = self.cur();
            proof {
                if fn_free_expr(*index) && old(self).wf() && (c0 matches Some(f) && defined_in(optimize::body(f), src)) {
                    lemma_extends_trans(c3, c2, c0);
                    lemma_carry(c3, c0, src);
                    lemma_carry(c3, c2, base_temp);
                    let g = c3->Some_0;
                    lemma_defined_below(optimize::body(g), g.next_temp, src);
                    lemma_defined_below(optimize::body(g), g.next_temp, idx_temp);
                    lemma_defined_below(optimize::body(g), g.next_temp, base_temp);
                }
            }
            self.emit(IrInstruction::StoreIndexedPtr { base: base_temp, index: idx_temp, src, elem_size: 8 });
            proof {
                if fn_free_expr(*index) && old(self).wf() {
                    lemma_extends_trans(self.cur(), c3, c2);
                    lemma_extends_trans(self.cur(), c2, c0);
                }
            }
            return Ok(());
        }
        Self::unit_err(Self::not_an_array(name))
    }

    /// The start of an `if` on `cond_temp`: three fresh labels, a result
    /// slot holding 0, the jump to the `else` part and the `then` label.
    fn if_prologue(&mut self, cond_temp: Temp) -> (r: Result<(String, String, Location), LoweringError>)
        ensures
            old(self).wf() && (old(self).cur() matches Some(f) && defined_in(optimize::body(f), cond_temp)) ==> {
                &&& final(self).wf()
                &&& final(self).extends(old(self))
                &&& final(self).done() == old(self).done()
            },
            match lower_model::if_prologue_s(old(self).lv(), cond_temp) {
                (st, Ok(v)) => r matches Ok(x) && x.0@ == v.0 && x.1@ == v.1 && x.2 == v.2 && final(self).lv() == st,
                (_, Err(m)) => r matches Err(e) && e.message@ == m,
            },
    {
        let ghost c0 = self.cur();
        let ghost ok = old(self).wf() && (c0 matches Some(f) && defined_in(optimize::body(f), cond_temp));
        let then_label = match self.new_label() {
            Ok(l) => l,
            Err(e) => {
                proof {
                    lemma_extends_refl(c0);
                }
                return Err(e);
            },
        };
        let else_label = match self.new_label() {
            Ok(l) => l,
            Err(e) => {
                proof {
                    lemma_extends_refl(c0);
                }
                return Err(e);
            },
        };
        let end_label = match self.new_label() {
            Ok(l) => l,
            Err(e) => {
                proof {
                    lemma_extends_refl(c0);
                }
                return Err(e);
            },
        };
        let off = match self.next_slot() {
            Ok(o) => o,
            Err(e) => {
                proof {
                    lemma_extends_refl(c0);
                }
                return Err(e);
            },
        };
        let result_slot = Location::StackSlot(off);
        self.add_local(String::from_str("<if_result>"), Type::Unknown);
        let ghost c1 = self.cur();
        let zero_temp = match self.new_temp() {
            Ok(t) => t,
            Err(e) => {
                return Err(e);
            },
        };
        let ghost c2 = self.cur();
        self.emit(IrInstruction::LoadImm { dst: zero_temp, value: Operand::ImmInt(0) });
        let ghost c3 = self.cur();
        proof {
            lemma_extends_trans(c2, c1, c0);
            lemma_extends_trans(c3, c2, c0);
            if ok {
                let g = c3->Some_0;
                assert(regalloc::defines(optimize::body(g)[optimize::body(g).len() - 1]) == Some(zero_temp));
                lemma_defined_below(optimize::body(g), g.next_temp, zero_temp);
            }
        }
        self.emit(IrInstruction::StoreMem { dst: result_slot, src: zero_temp });
        let ghost c4 = self.cur();
        proof {
            lemma_extends_trans(c4, c3, c0);
            if ok {
                lemma_carry(c4, c0, cond_temp);
                let g = c4->Some_0;
                lemma_defined_below(optimize::body(g), g.next_temp, cond_temp);
            }
        }
        self.emit(IrInstruction::JumpIfZero { cond: cond_temp, target: else_label.clone() });
        let ghost c5 = self.cur();
        self.emit(IrInstruction::Label(then_label));
        proof {
            lemma_extends_trans(c5, c4, c0);
            lemma_extends_trans(self.cur(), c5, c0);
        }
        Ok((else_label, end_label, result_slot))
    }

    /// A branch of an `if`: its value, if it has one, goes to the slot.
    fn if_branch(&mut self, block: &Block, result_slot: Location) -> (r: Result<(), LoweringError>)
        ensures
            fn_free_block(*block) && old(self).wf() ==> {
                &&& final(self).wf()
                &&& final(self).extends(old(self))
                &&& final(self).done() == old(self).done()
            },
            step_ok(lower_model::if_branch_s(old(self).lv(), *block, result_slot), r, final(self).lv()),
        decreases block, 2nat,
    {
        let ghost c0 = self.cur();
        let v = match self.lower_block_value(&block.stmts) {
            Ok(v) => v,
            Err(e) => {
                return Err(e);
            },
        };
        let ghost c1 = self.cur();
        if let Some(t) = v {
            proof {
                if fn_free_block(*block) && old(self).wf() {
                    let g = c1->Some_0;
                    lemma_defined_below(optimize::body(g), g.next_temp, t);
                }
            }
            self.emit(IrInstruction::StoreMem { dst: result_slot, src: t });
            proof {
                if fn_free_block(*block) && old(self).wf() {
                    lemma_extends_trans(self.cur(), c1, c0);
                }
            }
        }
        Ok(())
    }

    /// `if`: the value of the branch taken goes through a slot of its own,
    /// which holds 0 when that branch gives no value.
    #[verifier::rlimit(60)]
    fn lower_if(&mut self, expr: &Expr) -> (r: Result<Temp, LoweringError>)
        requires
            *expr is If,
        ensures
            fn_free_expr(*expr) && old(self).wf() ==> {
                &&& final(self).wf()
                &&& final(self).extends(old(self))
                &&& final(self).done() == old(self).done()
                &&& r matches Ok(t) ==> (final(self).cur() matches Some(g) && defined_in(optimize::body(g), t))
            },
            step_ok(lower_model::if_s(old(self).lv(), *expr), r, final(self).lv()),
        decreases expr, 1nat,
    {
        let ghost c0 = self.cur();
        let ghost ok = fn_free_expr(*expr) && old(self).wf();
        let (condition, then_branch, else_branch) = match expr {
            Expr::If { condition, then_branch, else_branch, .. } => (condition, then_branch, else_branch),
            _ => {
                proof {
                    assert(false);
                }
                return Self::err(String::new());
            },
        };
        let cond_temp = match self.lower_expr(condition) {
            Ok(t) => t,
            Err(e) => {
                return Err(e);
            },
        };
        let ghost c1 = self.cur();
        let (else_label, end_label, result_slot) = match self.if_prologue(cond_temp) {
            Ok(x) => x,
            Err(e) => {
                proof {
                    if ok {
                        lemma_extends_trans(self.cur(), c1, c0);
                    }
                }
                return Err(e);
            },
        };
        let ghost c2 = self.cur();
        proof {
            if ok {
                lemma_extends_trans(c2, c1, c0);
            }
        }
        match self.if_branch(then_branch, result_slot) {
            Ok(()) => {},
            Err(e) => {
                proof {
                    if ok {
                        lemma_extends_trans(self.cur(), c2, c0);
                    }
                }
                return Err(e);
            },
        }
        let ghost c3 = self.cur();
        self.emit(IrInstruction::Jump(end_label.clone()));
        let ghost c4 = self.cur();
        self.emit(IrInstruction::Label(else_label));
        let ghost c5 = self.cur();
        proof {
            if ok {
                lemma_extends_trans(c3, c2, c0);
                lemma_extends_trans(c4, c3, c0);
                lemma_extends_trans(c5, c4, c0);
            }
        }
        if let Some(b) = else_branch {
            match self.if_branch(b, result_slot) {
                Ok(()) => {},
                Err(e) => {
                    proof {
                        if ok {
                            lemma_extends_trans(self.cur(), c5, c0);
                        }
                    }
                    return Err(e);
                },
            }
        }
        let ghost c6 = self.cur();
        proof {
            if ok {
                if else_branch is None {
                    lemma_extends_refl(c5);
                }
                lemma_extends_trans(c6, c5, c0);
            }
        }
        self.emit(IrInstruction::Label(end_label));
        let ghost c7 = self.cur();
        let dst = match self.new_temp() {
            Ok(t) => t,
            Err(e) => {
                proof {
                    if ok {
                        lemma_extends_trans(c7, c6, c0);
                    }
                }
                return Err(e);
            },
        };
        let ghost c8 = self.cur();
        self.emit(IrInstruction::LoadMem { dst, src: result_slot });
        proof {
            if ok {
                lemma_extends_trans(c7, c6, c0);
                lemma_extends_trans(c8, c7, c0);
                lemma_extends_trans(self.cur(), c8, c0);
                let g = self.cur()->Some_0;
                assert(regalloc::defines(optimize::body(g)[optimize::body(g).len() - 1]) == Some(dst));
            }
        }
        Ok(dst)
    }

    /// Lowers the statements of a block; a last statement that is an
    /// expression gives the block its value.
    fn lower_block_value(&mut self, stmts: &Vec<Stmt>) -> (r: Result<Option<Temp>, LoweringError>)
        ensures
            (forall|k: int| 0 <= k < stmts@.len() ==> fn_free_stmt(#[trigger] stmts@[k])) && old(self).wf() ==> {
                &&& final(self).wf()
                &&& final(self).extends(old(self))
                &&& final(self).done() == old(self).done()
                &&& r matches Ok(Some(t)) ==> (final(self).cur() matches Some(g) && defined_in(optimize::body(g), t))
            },
            step_ok(lower_model::block_s(old(self).lv(), stmts@, 0, None), r, final(self).lv()),
        decreases stmts, 1nat,
    {
        let ghost c0 = self.cur();
        let ghost ok = (forall|k: int| 0 <= k < stmts@.len() ==> fn_free_stmt(#[trigger] stmts@[k])) && old(self).wf();
        proof {
            lemma_extends_refl(c0);
        }
        let mut last_expr_value: Option<Temp> = None;
        let n = stmts.len();
        let mut i: usize = 0;
        while i < n
            invariant
                n == stmts@.len(),
                i <= n,
                ok == ((forall|k: int| 0 <= k < stmts@.len() ==> fn_free_stmt(#[trigger] stmts@[k])) && old(self).wf()),
                c0 == old(self).cur(),
                ok ==> {
                    &&& self.wf()
                    &&& cur_extends(self.cur(), c0)
                    &&& self.done() == old(self).done()
                    &&& last_expr_value matches Some(t) ==> (self.cur() matches Some(g) && defined_in(optimize::body(g), t))
                },
                lower_model::block_s(self.lv(), stmts@, i as int, last_expr_value) == lower_model::block_s(
                    old(self).lv(),
                    stmts@,
                    0,
                    None,
                ),
            decreases n - i,
        {
            let ghost ci = self.cur();
            let ghost si = self.lv();
            let ghost li = last_expr_value;
            let is_last = i + 1 == n;
            if is_last {
                if let Stmt::Expr(e) = &stmts[i] {
                    proof {
                        if ok {
                            assert(fn_free_stmt(stmts@[i as int]));
                        }
                    }
                    match self.lower_expr(e) {
                        Ok(t) => {
                            last_expr_value = Some(t);
                        },
                        Err(err) => {
                            proof {
                                if ok {
                                    lemma_extends_trans(self.cur(), ci, c0);
                                }
                            }
                            return Err(err);
                        },
                    }
                    proof {
                        if ok {
                            lemma_extends_trans(self.cur(), ci, c0);
                        }
                    }
                    assert(lower_model::block_s(si, stmts@, i as int, li) == lower_model::block_s(
                        self.lv(),
                        stmts@,
                        i + 1,
                        last_expr_value,
                    ));
                    i = i + 1;
                    continue;
                }
            }
            last_expr_value = None;
            proof {
                if ok {
                    assert(fn_free_stmt(stmts@[i as int]));
                }
            }
            match self.lower_stmt(&stmts[i]) {
                Ok(()) => {},
                Err(err) => {
                    proof {
                        if ok {
                            lemma_extends_trans(self.cur(), ci, c0);
                        }
                    }
                    return Err(err);
                },
            }
            proof {
                if ok {
                    lemma_extends_trans(self.cur(), ci, c0);
                }
            }
            assert(lower_model::block_s(si, stmts@, i as int, li) == lower_model::block_s(
                self.lv(),
                stmts@,
                i + 1,
                None,
            ));
            i = i + 1;
        }
        Ok(last_expr_value)
    }

    fn element_name(name: &String, i: usize) -> (r: String)
        ensures
            r@ == lower_model::element_name_s(name@, i as nat),
    {
        let mut m = String::new();
        push_str(&mut m, name.as_str());
        push_str(&mut m, "[");
        push_decimal(&mut m, i as u64);
        push_str(&mut m, "]");
        m
    }

    /// Starts the function `name` (finishing the one being built).
    fn start_function(&mut self, name: &String, params: &Vec<(String, Type)>, return_type: &Option<Type>)
        ensures
            old(self).wf() ==> final(self).wf(),
            final(self).cur() matches Some(g) && optimize::body(g).len() == 0 && g.next_temp == 0 && g.name@ == name@
                && g.params@ == params@ && g.return_type == *return_type && g.locals@.len() == 0,
            final(self).stack_offset == 0,
            old(self).cur() matches Some(f) ==> final(self).done() == old(self).done().push(f),
            old(self).cur() is None ==> final(self).done() == old(self).done(),
            final(self).lv() == lower_model::start_s(lower_model::finish_s(old(self).lv()), name@, params@, *return_type),
    {
        let ghost s_old = self.lv();
        if let Some(func) = self.current_func.take() {
            self.functions.push(func);
            assert(self.functions@.map_values(|f: IrFunction| fn_v(f)) =~= s_old.done.push(fn_v(func)));
        }
        assert(self.functions@.map_values(|f: IrFunction| fn_v(f)) == lower_model::finish_s(s_old).done);
        let mut ps: Vec<(String, Type)> = Vec::new();
        let mut k: usize = 0;
        while k < params.len()
            invariant
                k <= params@.len(),
                ps@ == params@.take(k as int),
            decreases params@.len() - k,
        {
            ps.push((params[k].0.clone(), params[k].1.clone()));
            assert(params@.take(k as int + 1) =~= params@.take(k as int).push(params@[k as int]));
            k = k + 1;
        }
        assert(params@.take(k as int) =~= params@);
        let rt = match return_type {
            Some(t) => Some(t.clone()),
            None => None,
        };
        self.current_func = Some(
            IrFunction { name: name.clone(), params: ps, return_type: rt, locals: Vec::new(), instructions: Vec::new(), next_temp: 0 },
        );
        proof {
            let f = self.current_func->Some_0;
            assert(optimize::body(f) =~= Seq::<InstrV>::empty());
        }
        self.var_map = Vec::new();
        self.array_map = Vec::new();
        self.ptr_array_params = Vec::new();
        self.var_types = Vec::new();
        self.stack_offset = 0;
        proof {
            let f = self.current_func->Some_0;
            assert(tv(self.var_types@) =~= Seq::<(String, TypeV)>::empty());
            assert(locals_v(f.locals@) =~= Seq::<(Seq<char>, Type)>::empty());
            assert(fn_v(f) == (FnV {
                name: name@,
                params: params@,
                ret: *return_type,
                locals: Seq::empty(),
                body: Seq::empty(),
                next_temp: 0,
            }));
            assert(self.lv() == lower_model::start_s(lower_model::finish_s(s_old), name@, params@, *return_type));
        }
    }

    /// The parameters of the current function: each gets a slot, and is
    /// read into it from where the caller put it.
    #[verifier::rlimit(50)]
    fn lower_params(&mut self, params: &Vec<(String, Type)>) -> (r: Result<(), LoweringError>)
        ensures
            old(self).wf() ==> final(self).wf() && final(self).extends(old(self)) && final(self).done() == old(self).done(),
            old(self).cur() is Some && optimize::body(old(self).cur()->Some_0).len() == 1 && old(self).cur()->Some_0.next_temp
                == 0 && old(self).cur()->Some_0.locals@.len() == 0 && old(self).stack_offset == 0 && r is Ok
                ==> (final(self).cur() matches Some(g) && {
                &&& g.locals@ == params@
                &&& g.name == old(self).cur()->Some_0.name
                &&& g.params == old(self).cur()->Some_0.params
                &&& optimize::body(g).len() == 1 + 2 * params@.len()
                &&& optimize::body(g)[0] == optimize::body(old(self).cur()->Some_0)[0]
                &&& forall|j: int| 0 <= j < params@.len() ==> #[trigger] param_read(optimize::body(g), j)
            }),
            step_ok(lower_model::params_s(old(self).lv(), params@, 0), r, final(self).lv()),
    {
        let ghost c0 = self.cur();
        let ghost track = c0 matches Some(f) && optimize::body(f).len() == 1 && f.next_temp == 0 && f.locals@.len() == 0
            && old(self).stack_offset == 0;
        let ghost f0 = c0->Some_0;
        proof {
            lemma_extends_refl(c0);
        }
        let mut i: usize = 0;
        while i < params.len()
            invariant
                c0 == old(self).cur(),
                f0 == c0->Some_0,
                track == (c0 matches Some(f) && optimize::body(f).len() == 1 && f.next_temp == 0 && f.locals@.len() == 0
                    && old(self).stack_offset == 0),
                i <= params@.len(),
                old(self).wf() ==> self.wf() && cur_extends(self.cur(), c0) && self.done() == old(self).done(),
                track ==> (self.cur() matches Some(g) && {
                    &&& g.name == f0.name
                    &&& g.params == f0.params
                    &&& g.locals@ == params@.take(i as int)
                    &&& optimize::body(g).len() == 1 + 2 * i
                    &&& optimize::body(g)[0] == optimize::body(f0)[0]
                    &&& g.next_temp == i
                    &&& self.stack_offset == -8 * i
                    &&& forall|j: int| 0 <= j < i ==> #[trigger] param_read(optimize::body(g), j)
                }),
                lower_model::params_s(self.lv(), params@, i as int) == lower_model::params_s(old(self).lv(), params@, 0),
            decreases params@.len() - i,
        {
            let ghost ci = self.cur();
            let ghost bi = optimize::body(ci->Some_0);
            let ghost s0 = self.lv();
            let off = match self.next_slot() {
                Ok(o) => o,
                Err(e) => {
                    return Err(e);
                },
            };
            let ghost s1 = self.lv();
            let loc = Location::StackSlot(off);
            let (param_name, param_type) = (&params[i].0, &params[i].1);
            assoc_set(&mut self.var_map, param_name.clone(), loc);
            proof {
                lemma_put_tv(self.var_types@, *param_name, *param_type);
            }
            assoc_set(&mut self.var_types, param_name.clone(), param_type.clone());
            let ghost s2 = LowV {
                vars: assoc_put(s1.vars, *param_name, loc),
                types: assoc_put(s1.types, *param_name, ast::type_view(*param_type)),
                ..s1
            };
            assert(self.lv() == s2);
            self.add_local(param_name.clone(), param_type.clone());
            let ghost s3 = self.lv();
            let ghost c1 = self.cur();
            proof {
                if old(self).wf() {
                    lemma_extends_trans(c1, ci, c0);
                }
            }
            let ptemp = match self.new_temp() {
                Ok(t) => t,
                Err(e) => {
                    return Err(e);
                },
            };
            let ghost s4 = self.lv();
            let ghost c2 = self.cur();
            self.emit(IrInstruction::LoadParam { dst: ptemp, index: i });
            let ghost c3 = self.cur();
            proof {
                if old(self).wf() {
                    lemma_extends_trans(c2, c1, c0);
                    lemma_extends_trans(c3, c2, c0);
                    let g = c3->Some_0;
                    assert(regalloc::defines(optimize::body(g)[optimize::body(g).len() - 1]) == Some(ptemp));
                    lemma_defined_below(optimize::body(g), g.next_temp, ptemp);
                }
            }
            self.emit(IrInstruction::StoreMem { dst: loc, src: ptemp });
            proof {
                if old(self).wf() {
                    lemma_extends_trans(self.cur(), c3, c0);
                }
                if track {
                    assert(params@.take(i as int + 1) =~= params@.take(i as int).push(params@[i as int]));
                    let b = optimize::body(self.cur()->Some_0);
                    assert(b =~= bi.push(InstrV::LoadParam { dst: ptemp, index: i }).push(
                        InstrV::StoreMem { dst: loc, src: ptemp },
                    ));
                    assert forall|j: int| 0 <= j < i + 1 implies #[trigger] param_read(b, j) by {
                        if j < i {
                            assert(param_read(bi, j));
                            assert(b[1 + 2 * j] == bi[1 + 2 * j]);
                            assert(b[2 + 2 * j] == bi[2 + 2 * j]);
                        }
                    }
                }
            }
            let ghost s5 = self.lv();
            assert(s5 == lower_model::emit_s(
                lower_model::emit_s(s4, InstrV::LoadParam { dst: ptemp, index: i }),
                InstrV::StoreMem { dst: loc, src: ptemp },
            ));
            if matches!(param_type, Type::Array(..)) && !name_in(&self.ptr_array_params, param_name.as_str()) {
                self.ptr_array_params.push(param_name.clone());
                assert(self.lv() == LowV { ptrs: s5.ptrs.push(*param_name), ..s5 });
            }
            assert(params@[i as int] == (*param_name, *param_type));
            assert(lower_model::params_s(s0, params@, i as int) == lower_model::params_s(self.lv(), params@, i + 1));
            i = i + 1;
        }
        assert(params@.take(i as int) =~= params@);
        Ok(())
    }

    /// `let`: an array literal fills one slot per element, a copy of a local
    /// array copies its elements, anything else gets one slot.
    #[verifier::loop_isolation(false)]
    #[verifier::rlimit(80)]
    fn lower_let(&mut self, name: &String, typ: &Option<Type>, value: &Expr) -> (r: Result<(), LoweringError>)
        ensures
            fn_free_expr(*value) && old(self).wf() ==> final(self).wf() && final(self).extends(old(self))
                && final(self).done() == old(self).done(),
            step_ok(lower_model::let_s(old(self).lv(), *name, *typ, *value), r, final(self).lv()),
        decreases value, 4nat,
    {
        let ghost c0 = self.cur();
        let ghost ok = fn_free_expr(*value) && old(self).wf();
        proof {
            lemma_extends_refl(c0);
        }
        if let Expr::ArrayInit { elements, .. } = value {
            let mut elem0_offset: i32 = 0;
            let mut i: usize = 0;
            while i < elements.len()
                invariant
                    c0 == old(self).cur(),
                    ok == (fn_free_expr(*value) && old(self).wf()),
                    *value == (Expr::ArrayInit { elements: *elements, span: value->ArrayInit_span }),
                    ok ==> self.wf() && cur_extends(self.cur(), c0) && self.done() == old(self).done(),
                    lower_model::elems_s(self.lv(), *name, *value, i as int, elem0_offset) == lower_model::elems_s(
                        old(self).lv(),
                        *name,
                        *value,
                        0,
                        0,
                    ),
                decreases elements@.len() - i,
            {
                let ghost ci = self.cur();
                let ghost si = self.lv();
                let ghost ei = elem0_offset;
                let off = match self.next_slot() {
                    Ok(o) => o,
                    Err(e) => {
                        return Err(e);
                    },
                };
                if i == 0 {
                    elem0_offset = off;
                }
                let slot = Location::StackSlot(off);
                self.add_local(Self::element_name(name, i), Type::Unknown);
                let ghost c1 = self.cur();
                proof {
                    if ok {
                        lemma_extends_trans(c1, ci, c0);
                        assert(fn_free_expr(elements@[i as int]));
                    }
                }
                let val_temp = match self.lower_expr(&elements[i]) {
                    Ok(t) => t,
                    Err(e) => {
                        proof {
                            if ok {
                                lemma_extends_trans(self.cur(), c1, c0);
                            }
                        }
                        return Err(e);
                    },
                };
                let ghost c2 = self.cur();
                proof {
                    if ok {
                        lemma_extends_trans(c2, c1, c0);
                        let g = c2->Some_0;
                        lemma_defined_below(optimize::body(g), g.next_temp, val_temp);
                    }
                }
                self.emit(IrInstruction::StoreMem { dst: slot, src: val_temp });
                proof {
                    if ok {
                        lemma_extends_trans(self.cur(), c2, c0);
                    }
                }
                assert(lower_model::elems_s(si, *name, *value, i as int, ei) == lower_model::elems_s(
                    self.lv(),
                    *name,
                    *value,
                    i + 1,
                    elem0_offset,
                ));
                i = i + 1;
            }
            let ghost se = self.lv();
            assert(lower_model::elems_s(se, *name, *value, i as int, elem0_offset) == (se, Ok::<i32, Seq<char>>(elem0_offset)));
            assoc_set(&mut self.array_map, name.clone(), (elem0_offset, elements.len()));
            assert(self.lv() == LowV { arrays: assoc_put(se.arrays, *name, (elem0_offset, elements@.len() as usize)), ..se });
            return Ok(());
        }
        if let Expr::Variable(src_name) = value {
            if let Some((src_elem0, len)) = assoc_get(&self.array_map, src_name.as_str()) {
                let mut dst_elem0_offset: i32 = 0;
                let mut i: usize = 0;
                while i < len
                    invariant
                        c0 == old(self).cur(),
                        old(self).wf() ==> self.wf() && cur_extends(self.cur(), c0) && self.done() == old(self).done(),
                        lower_model::copy_s(self.lv(), name@, src_elem0, len, i as int, dst_elem0_offset)
                            == lower_model::copy_s(old(self).lv(), name@, src_elem0, len, 0, 0),
                    decreases len - i,
                {
                    let ghost ci = self.cur();
                    let ghost si = self.lv();
                    let ghost di = dst_elem0_offset;
                    let val_temp = match self.new_temp() {
                        Ok(t) => t,
                        Err(e) => {
                            return Err(e);
                        },
                    };
                    let ghost c1 = self.cur();
                    let i32_i = #[verifier::truncate] (i as i32);
                    self.emit(
                        IrInstruction::LoadMem {
                            dst: val_temp,
                            src: Location::StackSlot(src_elem0.wrapping_sub(i32_i.wrapping_mul(8))),
                        },
                    );
                    let ghost c2 = self.cur();
                    proof {
                        if old(self).wf() {
                            lemma_extends_trans(c1, ci, c0);
                            lemma_extends_trans(c2, c1, c0);
                            let g = c2->Some_0;
                            assert(regalloc::defines(optimize::body(g)[optimize::body(g).len() - 1]) == Some(val_temp));
                        }
                    }
                    let off = match self.next_slot() {
                        Ok(o) => o,
                        Err(e) => {
                            return Err(e);
                        },
                    };
                    if i == 0 {
                        dst_elem0_offset = off;
                    }
                    self.add_local(Self::element_name(name, i), Type::Unknown);
                    let ghost c3 = self.cur();
                    proof {
                        if old(self).wf() {
                            lemma_extends_trans(c3, c2, c0);
                            lemma_carry(c3, c2, val_temp);
                            let g = c3->Some_0;
                            lemma_defined_below(optimize::body(g), g.next_temp, val_temp);
                        }
                    }
                    self.emit(IrInstruction::StoreMem { dst: Location::StackSlot(off), src: val_temp });
                    proof {
                        if old(self).wf() {
                            lemma_extends_trans(self.cur(), c3, c0);
                        }
                    }
                    assert(lower_model::copy_s(si, name@, src_elem0, len, i as int, di) == lower_model::copy_s(
                        self.lv(),
                        name@,
                        src_elem0,
                        len,
                        i + 1,
                        dst_elem0_offset,
                    ));
                    i = i + 1;
                }
                let ghost se = self.lv();
                assert(lower_model::copy_s(se, name@, src_elem0, len, i as int, dst_elem0_offset) == (
                    se,
                    Ok::<i32, Seq<char>>(dst_elem0_offset),
                ));
                assoc_set(&mut self.array_map, name.clone(), (dst_elem0_offset, len));
                assert(self.lv() == LowV { arrays: assoc_put(se.arrays, *name, (dst_elem0_offset, len)), ..se });
                return Ok(());
            }
        }
        let off = match self.next_slot() {
            Ok(o) => o,
            Err(e) => {
                return Err(e);
            },
        };
        let ghost s1 = self.lv();
        let loc = Location::StackSlot(off);
        assoc_set(&mut self.var_map, name.clone(), loc);
        let var_ty = match typ {
            Some(t) => t.clone(),
            None => self.infer_expr_type(value),
        };
        proof {
            lemma_put_tv(self.var_types@, *name, var_ty);
        }
        assoc_set(&mut self.var_types, name.clone(), var_ty);
        let ghost ty = match typ {
            Some(t) => ast::type_view(*t),
            None => infer_spec(s1.types, s1.fns, *value),
        };
        assert(self.lv() == LowV {
            vars: assoc_put(s1.vars, *name, loc),
            types: assoc_put(s1.types, *name, ty),
            ..s1
        });
        self.add_local(name.clone(), Type::Unknown);
        let ghost c1 = self.cur();
        let val_temp = match self.lower_expr(value) {
            Ok(t) => t,
            Err(e) => {
                proof {
                    if ok {
                        lemma_extends_trans(self.cur(), c1, c0);
                    }
                }
                return Err(e);
            },
        };
        let ghost c2 = self.cur();
        proof {
            if ok {
                lemma_extends_trans(c2, c1, c0);
                let g = c2->Some_0;
                lemma_defined_below(optimize::body(g), g.next_temp, val_temp);
            }
        }
        self.emit(IrInstruction::StoreMem { dst: loc, src: val_temp });
        proof {
            if ok {
                lemma_extends_trans(self.cur(), c2, c0);
            }
        }
        Ok(())
    }

    /// Lowers a statement. A function definition starts a new function.
    fn lower_stmt(&mut self, stmt: &Stmt) -> (r: Result<(), LoweringError>)
        ensures
            fn_free_stmt(*stmt) && old(self).wf() ==> final(self).wf() && final(self).extends(old(self))
                && final(self).done() == old(self).done(),
            (*stmt matches Stmt::FnDef { body, .. } && fn_free_block(body)) && old(self).wf() ==> final(self).wf(),
            match *stmt {
                Stmt::FnDef { name, params, return_type, body, .. } => fn_free_block(body) && old(self).wf() && r is Ok ==> {
                    &&& final(self).done() == old(self).done() + opt_seq(old(self).cur())
                    &&& final(self).cur() matches Some(g) && g.name@ == name@ && g.params@ == params@ && g.return_type
                        == return_type && opens_with_prologue(g) && ends_with_return(g)
                },
                Stmt::Let { .. } | Stmt::Expr(_) => true,
                _ => final(self).cur() == old(self).cur() && final(self).done() == old(self).done(),
            },
            returns_array(*stmt) ==> r is Err && final(self).cur() is None && final(self).done() == old(self).done()
                + opt_seq(old(self).cur()),
            step_ok(lower_model::stmt_s(old(self).lv(), *stmt), r, final(self).lv()),
        decreases stmt, 0nat,
    {
        match stmt {
            Stmt::FnDef { name, params, return_type, body, .. } => {
                let ghost s_in = self.lv();
                if let Some(func) = self.current_func.take() {
                    self.functions.push(func);
                    assert(self.functions@.map_values(|f: IrFunction| fn_v(f)) =~= s_in.done.push(fn_v(func)));
                }
                assert(self.lv() == lower_model::finish_s(s_in));
                assert(self.done() == old(self).done() + opt_seq(old(self).cur()));
                if let Some(Type::Array(..)) = return_type {
                    let mut m = String::new();
                    push_str(&mut m, "Funkcja '");
                    push_str(&mut m, name.as_str());
                    push_str(&mut m, "': zwracanie tablic z funkcji nie jest jeszcze obsługiwane");
                    return Err(LoweringError { message: m });
                }
                self.start_function(name, params, return_type);
                let mut label = String::new();
                push_str(&mut label, "func_");
                push_str(&mut label, name.as_str());
                self.emit(IrInstruction::Label(label));
                assert(lower_model::finish_s(lower_model::finish_s(s_in)) == lower_model::finish_s(s_in));
                assert(self.lv() == lower_model::emit_s(
                    lower_model::start_s(lower_model::finish_s(s_in), name@, params@, *return_type),
                    InstrV::Label("func_"@ + name@),
                ));
                let ghost c_label = self.cur();
                proof {
                    let g = c_label->Some_0;
                    assert(optimize::body(g).len() == 1);
                    assert(optimize::body(g)[0] == InstrV::Label("func_"@ + g.name@));
                }
                match self.lower_params(params) {
                    Ok(()) => {},
                    Err(e) => {
                        return Err(e);
                    },
                }
                let ghost c1 = self.cur();
                proof {
                    let g = c1->Some_0;
                    assert(g.params@ == params@);
                    assert(g.locals@.take(g.params@.len() as int) =~= g.params@);
                    assert(opens_with_prologue(g));
                    if fn_free_block(*body) && old(self).wf() {
                        assert(cur_extends(c1, c_label));
                    }
                }
                let return_value = match self.lower_block_value(&body.stmts) {
                    Ok(v) => v,
                    Err(e) => {
                        return Err(e);
                    },
                };
                let already_returns = match &self.current_func {
                    Some(f) => {
                        let n = f.instructions.len();
                        n > 0 && matches!(f.instructions[n - 1], IrInstruction::Return(_))
                    },
                    None => false,
                };
                let ghost c_body = self.cur();
                proof {
                    if fn_free_block(*body) && old(self).wf() {
                        lemma_extends_trans(c_body, c1, c_label);
                    }
                }
                if !already_returns {
                    if return_type.is_some() {
                        proof {
                            if (fn_free_block(*body)) && old(self).wf() {
                                if let Some(v) = return_value {
                                    let g = self.cur()->Some_0;
                                    lemma_defined_below(optimize::body(g), g.next_temp, v);
                                }
                            }
                        }
                        self.emit(IrInstruction::Return(return_value));
                    } else {
                        self.emit(IrInstruction::Return(None));
                    }
                }
                proof {
                    if fn_free_block(*body) && old(self).wf() {
                        if self.cur() == c_body {
                            lemma_extends_refl(c_body);
                        }
                        lemma_extends_trans(self.cur(), c_body, c1);
                        lemma_extends_label(self.cur(), c1);
                        let g = self.cur()->Some_0;
                        if already_returns {
                            assert(self.cur() == c_body);
                            assert(optimize::body(g).last() == ir::instr_view(g.instructions@[g.instructions@.len() - 1]));
                        }
                    }
                }
                Ok(())
            },
            Stmt::Let { name, typ, value, .. } => self.lower_let(name, typ, value),
            Stmt::Expr(expr) => {
                let ghost c0 = self.cur();
                match self.lower_expr(expr) {
                    Ok(_) => Ok(()),
                    Err(e) => Err(e),
                }
            },
            _ => {
                proof {
                    lemma_extends_refl(self.cur());
                }
                Ok(())
            },
        }
    }

    /// A copy of a function.
    fn copy_function(f: &IrFunction) -> (r: IrFunction)
        ensures
            optimize::body(r) == optimize::body(*f),
            r.next_temp == f.next_temp,
            r.name@ == f.name@,
            r.params@ == f.params@,
            r.return_type == f.return_type,
            r.locals@ == f.locals@,
    {
        let mut ps: Vec<(String, Type)> = Vec::new();
        let mut k: usize = 0;
        while k < f.params.len()
            invariant
                k <= f.params@.len(),
                ps@ == f.params@.take(k as int),
            decreases f.params@.len() - k,
        {
            ps.push((f.params[k].0.clone(), f.params[k].1.clone()));
            assert(f.params@.take(k as int + 1) =~= f.params@.take(k as int).push(f.params@[k as int]));
            k = k + 1;
        }
        assert(f.params@.take(k as int) =~= f.params@);
        let mut ls: Vec<(String, Type)> = Vec::new();
        let mut k: usize = 0;
        while k < f.locals.len()
            invariant
                k <= f.locals@.len(),
                ls@ == f.locals@.take(k as int),
            decreases f.locals@.len() - k,
        {
            ls.push((f.locals[k].0.clone(), f.locals[k].1.clone()));
            assert(f.locals@.take(k as int + 1) =~= f.locals@.take(k as int).push(f.locals@[k as int]));
            k = k + 1;
        }
        assert(f.locals@.take(k as int) =~= f.locals@);
        let mut is: Vec<IrInstruction> = Vec::new();
        let mut k: usize = 0;
        while k < f.instructions.len()
            invariant
                k <= f.instructions@.len(),
                ir::instrs_view(is@) == optimize::body(*f).take(k as int),
            decreases f.instructions@.len() - k,
        {
            let ghost before = ir::instrs_view(is@);
            let c = f.instructions[k].copy();
            assert(ir::instr_view(c) == optimize::body(*f)[k as int]);
            is.push(c);
            assert(ir::instrs_view(is@) =~= before.push(ir::instr_view(c)));
            assert(optimize::body(*f).take(k as int + 1) =~= optimize::body(*f).take(k as int).push(optimize::body(*f)[k as int]));
            k = k + 1;
        }
        assert(optimize::body(*f).take(k as int) =~= optimize::body(*f));
        let rt = match &f.return_type {
            Some(t) => Some(t.clone()),
            None => None,
        };
        IrFunction { name: f.name.clone(), params: ps, return_type: rt, locals: ls, instructions: is, next_temp: f.next_temp }
    }

    /// Lowers a whole program: the result is exactly what `program_s` of
    /// `lower_model` gives (the functions made, or the error and its
    /// message). Moreover, where no function definition stands inside
    /// another, each function of the result defines every temporary once,
    /// before it is read, and below its count of temporaries; and a fresh
    /// lowering gives one function per definition, in order, with its name,
    /// parameters and return type, opening with the label that carries its
    /// name and then reading each parameter into its slot, and with its
    /// parameters as its first locals; where moreover no `let` or expression
    /// stands at the top level, each of them ends with a return. A program
    /// with a function that returns an array is refused.
    pub fn lower_program(&mut self, program: &Program) -> (r: Result<IrProgram, LoweringError>)
        ensures
            fn_free_program(*program) && old(self).wf() ==> (r matches Ok(p) ==> forall|k: int|
                0 <= k < p.functions@.len() ==> func_wf(#[trigger] p.functions@[k])),
            fn_free_program(*program) && old(self).wf() && old(self).cur() is None && old(self).done().len() == 0 ==> (r matches Ok(
                p,
            ) ==> sigs_of(p.functions@) == def_sigs(program.stmts@) && forall|k: int|
                0 <= k < p.functions@.len() ==> opens_with_prologue(#[trigger] p.functions@[k])),
            fn_free_program(*program) && defs_only(*program) && old(self).wf() && old(self).cur() is None && old(
                self,
            ).done().len() == 0 ==> (r matches Ok(p) ==> forall|k: int|
                0 <= k < p.functions@.len() ==> ends_with_return(#[trigger] p.functions@[k])),
            (exists|k: int| 0 <= k < program.stmts@.len() && returns_array(#[trigger] program.stmts@[k])) ==> r is Err,
            match lower_model::program_s(old(self).lv(), *program) {
                (_, Ok(fs)) => r matches Ok(p) && p.functions@.map_values(|f: IrFunction| fn_v(f)) == fs,
                (_, Err(m)) => r matches Err(e) && e.message@ == m,
            },
    {
        let mut i: usize = 0;
        while i < program.stmts.len()
            invariant
                old(self).wf() ==> self.wf(),
                self.cur() == old(self).cur(),
                self.done() == old(self).done(),
                i <= program.stmts@.len(),
                self.lv() == (LowV {
                    fns: lower_model::fn_types_s(old(self).lv().fns, program.stmts@, i as int),
                    ..old(self).lv()
                }),
            decreases program.stmts@.len() - i,
        {
            match &program.stmts[i] {
                Stmt::FnDef { name, return_type, .. } | Stmt::FnDecl { name, return_type, .. } => {
                    let t = match return_type {
                        Some(t) => t.clone(),
                        None => Type::Unknown,
                    };
                    proof {
                        lemma_put_tv(self.fn_return_types@, *name, t);
                    }
                    assoc_set(&mut self.fn_return_types, name.clone(), t);
                },
                _ => {},
            }
            assert(self.lv() == (LowV {
                fns: lower_model::fn_types_s(old(self).lv().fns, program.stmts@, i + 1),
                ..old(self).lv()
            }));
            i = i + 1;
        }
        let ghost s0 = self.lv();
        assert(s0 == (LowV {
            fns: lower_model::fn_types_s(old(self).lv().fns, program.stmts@, program.stmts@.len() as int),
            ..old(self).lv()
        }));
        let ghost ok = fn_free_program(*program) && old(self).wf();
        let ghost fresh = ok && old(self).cur() is None && old(self).done().len() == 0;
        let ghost ss = program.stmts@;
        let mut i: usize = 0;
        proof {
            if fresh {
                assert(ss.take(0) =~= Seq::<Stmt>::empty());
                assert(sigs_of(self.done()) + sigs_of(opt_seq(self.cur())) =~= Seq::<(Seq<char>, Seq<(Seq<char>, TypeV)>, Option<TypeV>)>::empty());
            }
        }
        while i < program.stmts.len()
            invariant
                ok == (fn_free_program(*program) && old(self).wf()),
                ok ==> self.wf(),
                ss == program.stmts@,
                i <= ss.len(),
                fresh ==> ok,
                fresh ==> sigs_of(self.done()) + sigs_of(opt_seq(self.cur())) == def_sigs(ss.take(i as int)),
                fresh ==> forall|q: int| 0 <= q < self.done().len() ==> opens_with_prologue(#[trigger] self.done()[q]),
                fresh ==> (self.cur() matches Some(g) ==> opens_with_prologue(g)),
                fresh && defs_only(*program) ==> forall|q: int|
                    0 <= q < self.done().len() ==> ends_with_return(#[trigger] self.done()[q]),
                fresh && defs_only(*program) ==> (self.cur() matches Some(g) ==> ends_with_return(g)),
                forall|k: int| 0 <= k < i ==> !returns_array(#[trigger] ss[k]),
                lower_model::stmts_s(self.lv(), ss, i as int) == lower_model::stmts_s(s0, ss, 0),
                s0 == (LowV {
                    fns: lower_model::fn_types_s(old(self).lv().fns, program.stmts@, program.stmts@.len() as int),
                    ..old(self).lv()
                }),
            decreases program.stmts@.len() - i,
        {
            let ghost si = self.lv();
            proof {
                if ok {
                    let s = program.stmts@[i as int];
                    assert(match s {
                        Stmt::FnDef { body, .. } => fn_free_block(body),
                        s => fn_free_stmt(s),
                    });
                }
            }
            let ghost d0 = self.done();
            let ghost c0 = self.cur();
            match self.lower_stmt(&program.stmts[i]) {
                Ok(()) => {},
                Err(e) => {
                    return Err(e);
                },
            }
            assert(lower_model::stmts_s(si, ss, i as int) == lower_model::stmts_s(self.lv(), ss, i + 1));
            proof {
                assert(ss.take(i as int + 1).drop_last() =~= ss.take(i as int));
                if fresh {
                    match ss[i as int] {
                        Stmt::FnDef { name, params, return_type, .. } => {
                            assert(sigs_of(d0 + opt_seq(c0)) =~= sigs_of(d0) + sigs_of(opt_seq(c0)));
                            assert(sigs_of(opt_seq(self.cur())) =~= seq![
                                (name@, ast::params_view(params@), ast::opt_type_view(return_type)),
                            ]);
                            assert forall|q: int| 0 <= q < self.done().len() implies opens_with_prologue(#[trigger] self.done()[q]) by {
                                if q >= d0.len() {
                                    assert(self.done()[q] == c0->Some_0);
                                }
                            }
                            if defs_only(*program) {
                                assert forall|q: int| 0 <= q < self.done().len() implies ends_with_return(#[trigger] self.done()[q]) by {
                                    if q >= d0.len() {
                                        assert(self.done()[q] == c0->Some_0);
                                    } else {
                                        assert(self.done()[q] == d0[q]);
                                    }
                                }
                            }
                        },
                        _ => {
                            if c0 is Some {
                                lemma_extends_label(self.cur(), c0);
                                assert(sigs_of(opt_seq(self.cur())) =~= sigs_of(opt_seq(c0)));
                            } else {
                                assert(self.cur() is None);
                            }
                        },
                    }
                }
            }
            i = i + 1;
        }
        let ghost d1 = self.done();
        let ghost c1 = self.cur();
        let ghost s1 = self.lv();
        assert(lower_model::stmts_s(s1, ss, i as int) == (s1, Ok::<(), Seq<char>>(())));
        if let Some(func) = self.current_func.take() {
            self.functions.push(func);
            assert(self.functions@.map_values(|f: IrFunction| fn_v(f)) =~= s1.done.push(fn_v(func)));
        }
        assert(self.functions@.map_values(|f: IrFunction| fn_v(f)) == lower_model::finish_s(s1).done);
        proof {
            assert(ss.take(ss.len() as int) =~= ss);
            if fresh {
                assert(self.done() =~= d1 + opt_seq(c1));
                assert(sigs_of(d1 + opt_seq(c1)) =~= sigs_of(d1) + sigs_of(opt_seq(c1)));
                assert forall|q: int| 0 <= q < self.done().len() implies opens_with_prologue(#[trigger] self.done()[q]) by {
                    if q >= d1.len() {
                        assert(self.done()[q] == c1->Some_0);
                    }
                }
                if defs_only(*program) {
                    assert forall|q: int| 0 <= q < self.done().len() implies ends_with_return(#[trigger] self.done()[q]) by {
                        if q >= d1.len() {
                            assert(self.done()[q] == c1->Some_0);
                        } else {
                            assert(self.done()[q] == d1[q]);
                        }
                    }
                }
            }
        }
        let ghost dn = self.done();
        let mut out: Vec<IrFunction> = Vec::new();
        let mut k: usize = 0;
        while k < self.functions.len()
            invariant
                ok ==> self.wf(),
                ok ==> forall|q: int| 0 <= q < out@.len() ==> func_wf(#[trigger] out@[q]),
                k <= self.functions@.len(),
                out@.len() == k,
                forall|q: int| 0 <= q < k ==> (#[trigger] out@[q]).name@ == self.functions@[q].name@ && optimize::body(out@[q])
                    == optimize::body(self.functions@[q]) && out@[q].params@ == self.functions@[q].params@
                    && out@[q].return_type == self.functions@[q].return_type && out@[q].locals@
                    == self.functions@[q].locals@ && out@[q].next_temp == self.functions@[q].next_temp,
                self.done() == dn,
            decreases self.functions@.len() - k,
        {
            let f = Self::copy_function(&self.functions[k]);
            proof {
                if ok {
                    assert(func_wf(self.functions@[k as int]));
                }
            }
            out.push(f);
            k = k + 1;
        }
        proof {
            if fresh {
                assert forall|q: int| 0 <= q < out@.len() implies #[trigger] sig_of(out@[q]) == sig_of(self.done()[q]) by {
                    assert(ast::params_view(out@[q].params@) =~= ast::params_view(self.done()[q].params@));
                }
                assert(sigs_of(out@) =~= sigs_of(self.done()));
                assert forall|q: int| 0 <= q < out@.len() implies opens_with_prologue(#[trigger] out@[q]) by {
                    assert(opens_with_prologue(self.done()[q]));
                }
                if defs_only(*program) {
                    assert forall|q: int| 0 <= q < out@.len() implies ends_with_return(#[trigger] out@[q]) by {
                        assert(ends_with_return(self.done()[q]));
                    }
                }
            }
        }
        assert forall|q: int| 0 <= q < out@.len() implies #[trigger] fn_v(out@[q]) == fn_v(self.functions@[q]) by {
            assert(locals_v(out@[q].locals@) =~= locals_v(self.functions@[q].locals@));
        }
        assert(out@.map_values(|f: IrFunction| fn_v(f)) =~= self.functions@.map_values(|f: IrFunction| fn_v(f)));
        Ok(IrProgram { functions: out })
    }

    /// A direct call: the arguments in order, then the call.
    #[verifier::loop_isolation(false)]
    fn lower_call(&mut self, expr: &Expr) -> (r: Result<Temp, LoweringError>)
        requires
            *expr is Call,
        ensures
            fn_free_expr(*expr) && old(self).wf() ==> {
                &&& final(self).wf()
                &&& final(self).extends(old(self))
                &&& final(self).done() == old(self).done()
                &&& r matches Ok(t) ==> (final(self).cur() matches Some(g) && defined_in(optimize::body(g), t))
            },
            step_ok(lower_model::call_s(old(self).lv(), *expr), r, final(self).lv()),
        decreases expr, 1nat,
    {
        let ghost c0 = self.cur();
        proof {
            lemma_extends_refl(c0);
        }
        let (callee, args) = match expr {
            Expr::Call { callee, args, .. } => (callee, args),
            _ => {
                proof {
                    assert(false);
                }
                return Self::err(String::new());
            },
        };
        let func_name = match &**callee {
            Expr::Variable(name) => name.clone(),
            _ => {
                return Self::err(String::from_str("Only direct function calls supported"));
            },
        };
        let mut arg_temps: Vec<Temp> = Vec::new();
        let mut i: usize = 0;
        while i < args.len()
            invariant
                i <= args@.len(),
                fn_free_expr(*expr) && old(self).wf() ==> {
                    &&& self.wf()
                    &&& cur_extends(self.cur(), c0)
                    &&& self.done() == old(self).done()
                    &&& forall|k: int|
                        0 <= k < arg_temps@.len() ==> (self.cur() matches Some(g) && defined_in(
                            optimize::body(g),
                            #[trigger] arg_temps@[k],
                        ))
                },
                c0 == old(self).cur(),
                *expr == (Expr::Call { callee: *callee, args: *args, span: expr->Call_span }),
                lower_model::args_s(self.lv(), *expr, i as int, arg_temps@) == lower_model::args_s(
                    old(self).lv(),
                    *expr,
                    0,
                    seq![],
                ),
            decreases args@.len() - i,
        {
            let ghost c1 = self.cur();
            let ghost si = self.lv();
            let ghost ai = arg_temps@;
            let t = match self.lower_expr(&args[i]) {
                Ok(t) => t,
                Err(e) => {
                    proof {
                        if fn_free_expr(*expr) && old(self).wf() {
                            assert(fn_free_expr(args@[i as int]));
                            lemma_extends_trans(self.cur(), c1, c0);
                        }
                    }
                    return Err(e);
                },
            };
            proof {
                if fn_free_expr(*expr) && old(self).wf() {
                    assert(fn_free_expr(args@[i as int]));
                    lemma_extends_trans(self.cur(), c1, c0);
                    assert forall|k: int| 0 <= k < arg_temps@.len() implies self.cur() matches Some(g) && defined_in(
                        optimize::body(g),
                        #[trigger] arg_temps@[k],
                    ) by {
                        lemma_carry(self.cur(), c1, arg_temps@[k]);
                    }
                }
            }
            arg_temps.push(t);
            assert(lower_model::args_s(si, *expr, i as int, ai) == lower_model::args_s(
                self.lv(),
                *expr,
                i + 1,
                arg_temps@,
            ));
            i = i + 1;
        }
        assert(lower_model::args_s(self.lv(), *expr, i as int, arg_temps@) == (self.lv(), Ok::<Seq<Temp>, Seq<char>>(arg_temps@)));
        let ghost c2 = self.cur();
        let dst = match self.new_temp() {
            Ok(t) => t,
            Err(e) => {
                proof {
                    lemma_extends_refl(self.cur());
                }
                return Err(e);
            },
        };
        let ghost c3 = self.cur();
        let ghost av = arg_temps@;
        proof {
            if fn_free_expr(*expr) && old(self).wf() {
                lemma_extends_trans(c3, c2, c0);
                let g = c3->Some_0;
                assert forall|k: int| 0 <= k < av.len() implies defined_in(optimize::body(g), #[trigger] av[k])
                    && av[k].0 < g.next_temp by {
                    lemma_carry(c3, c2, av[k]);
                    lemma_defined_below(optimize::body(g), g.next_temp, av[k]);
                }
                assert forall|x: u32| #[trigger] optimize::uses(InstrV::Call { dst: Some(dst), func: func_name@, args: av }, x)
                    implies defined_in(optimize::body(g), Temp(x)) by {
                    let k = choose|k: int| 0 <= k < av.len() && (#[trigger] av[k]).0 == x;
                    assert(av[k] == Temp(x));
                }
            }
        }
        self.emit(IrInstruction::Call { dst: Some(dst), func: func_name, args: arg_temps });
        proof {
            if fn_free_expr(*expr) && old(self).wf() {
                lemma_extends_trans(c3, c2, c0);
                lemma_extends_trans(self.cur(), c3, c0);
                let g = self.cur()->Some_0;
                assert(regalloc::defines(optimize::body(g)[optimize::body(g).len() - 1]) == Some(dst));
            }
        }
        Ok(dst)
        }
}

} // verus!
