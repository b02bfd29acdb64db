//! Semantic checking: scopes of variables, function signatures and the
//! typing rules of Xore expressions.
use vstd::prelude::*;
use vstd::string::*;
use crate::ast;
use crate::ast::{Type, TypeV, Expr, ExprV, Stmt, StmtV, Program, BinOp, LiteralV, Literal};
use crate::lexer::Span;
use crate::text;
use crate::numlit;
use crate::text::{push_str, push_decimal, push_debug_str, str_chars};

verus! {

#[derive(Debug)]
pub struct CheckError {
    pub message: String,
    pub span: Span,
}

impl Clone for CheckError {
    fn clone(&self) -> (r: Self)
        ensures
            r == *self,
    {
        CheckError { message: self.message.clone(), span: self.span }
    }
}

struct FunctionInfo {
    params: Vec<Type>,
    return_type: Type,
}

struct VariableInfo {
    typ: Type,
    is_mut: bool,
}

/// The semantic checker. Scopes and the function table are association
/// lists: a later entry for a name shadows an earlier one, exactly as an
/// insertion into a map replaces the previous value.
pub struct SemanticChecker {
    scopes: Vec<Vec<(String, VariableInfo)>>,
    functions: Vec<(String, FunctionInfo)>,
    pub errors: Vec<CheckError>,
}

// ---------------------------------------------------------------------------
// Model
// ---------------------------------------------------------------------------

/// A diagnostic: its message and its position.
pub type ErrV = (Seq<char>, Span);

/// A variable: its type and whether it may be assigned.
pub type VarV = (TypeV, bool);

/// A function signature: parameter types and return type.
pub type FuncV = (Seq<TypeV>, TypeV);

pub open spec fn err_view(e: CheckError) -> ErrV {
    (e.message@, e.span)
}

pub open spec fn errs_view(v: Seq<CheckError>) -> Seq<ErrV> {
    Seq::new(v.len(), |i: int| err_view(v[i]))
}

spec fn var_entry_view(e: (String, VariableInfo)) -> (Seq<char>, VarV) {
    (e.0@, (ast::type_view(e.1.typ), e.1.is_mut))
}

spec fn scope_view(s: Seq<(String, VariableInfo)>) -> Seq<(Seq<char>, VarV)> {
    Seq::new(s.len(), |j: int| var_entry_view(s[j]))
}

spec fn types_view(v: Seq<Type>) -> Seq<TypeV> {
    Seq::new(v.len(), |i: int| ast::type_view(v[i]))
}

spec fn fn_entry_view(e: (String, FunctionInfo)) -> (Seq<char>, FuncV) {
    (e.0@, (types_view(e.1.params@), ast::type_view(e.1.return_type)))
}

/// The most recent binding of `name` in an association list.
pub open spec fn assoc_lookup<T>(s: Seq<(Seq<char>, T)>, name: Seq<char>) -> Option<T>
    decreases s.len(),
{
    if s.len() == 0 {
        None
    } else if s.last().0 == name {
        Some(s.last().1)
    } else {
        assoc_lookup(s.drop_last(), name)
    }
}

/// Looks a variable up from the innermost scope outwards.
pub open spec fn scopes_lookup(sc: Seq<Seq<(Seq<char>, VarV)>>, name: Seq<char>) -> Option<VarV>
    decreases sc.len(),
{
    if sc.len() == 0 {
        None
    } else {
        match assoc_lookup(sc.last(), name) {
            Some(v) => Some(v),
            None => scopes_lookup(sc.drop_last(), name),
        }
    }
}

pub open spec fn is_numeric_v(t: TypeV) -> bool {
    match t {
        TypeV::I32 | TypeV::I64 | TypeV::U32 | TypeV::U64 | TypeV::F32 | TypeV::F64 => true,
        _ => false,
    }
}

/// The type of a literal; an integer literal is typed as `numlit` reads it.
pub open spec fn literal_type(l: LiteralV) -> TypeV {
    match l {
        LiteralV::Int(s) => numlit::infer_int_type_spec(numlit::parse_int_literal_spec(s)),
        LiteralV::Float(_) => TypeV::F64,
        LiteralV::Str(_) => TypeV::Custom("String"@),
        LiteralV::Bool(_) => TypeV::Bool,
        LiteralV::NoneLit => TypeV::Unknown,
    }
}

// --- Debug text of types and operators ---

pub open spec fn opt_usize_debug(n: Option<usize>) -> Seq<char> {
    match n {
        Some(k) => "Some("@ + text::decimal(k as nat) + ")"@,
        None => "None"@,
    }
}

/// What `{:?}` prints for a type.
pub open spec fn type_debug(t: TypeV) -> Seq<char>
    decreases t,
{
    match t {
        TypeV::I32 => "I32"@,
        TypeV::I64 => "I64"@,
        TypeV::U32 => "U32"@,
        TypeV::U64 => "U64"@,
        TypeV::F32 => "F32"@,
        TypeV::F64 => "F64"@,
        TypeV::Bool => "Bool"@,
        TypeV::Array(e, n) => "Array("@ + type_debug(*e) + ", "@ + opt_usize_debug(n) + ")"@,
        TypeV::Custom(s) => "Custom("@ + text::debug_str(s) + ")"@,
        TypeV::Pointer(e) => "Pointer("@ + type_debug(*e) + ")"@,
        TypeV::Unknown => "Unknown"@,
    }
}

/// What `{:?}` prints for an operator.
pub open spec fn binop_debug(op: BinOp) -> Seq<char> {
    match op {
        BinOp::Add => "Add"@,
        BinOp::Sub => "Sub"@,
        BinOp::Mul => "Mul"@,
        BinOp::Div => "Div"@,
        BinOp::Mod => "Mod"@,
        BinOp::Eq => "Eq"@,
        BinOp::Neq => "Neq"@,
        BinOp::Lt => "Lt"@,
        BinOp::Gt => "Gt"@,
        BinOp::Le => "Le"@,
        BinOp::Ge => "Ge"@,
        BinOp::Spaceship => "Spaceship"@,
        BinOp::HashEqEq => "HashEqEq"@,
        BinOp::PipeEq => "PipeEq"@,
        BinOp::TildeEq => "TildeEq"@,
        BinOp::At => "At"@,
        BinOp::AtSlash => "AtSlash"@,
        BinOp::AtEq => "AtEq"@,
        BinOp::MinusEq => "MinusEq"@,
        BinOp::SyncAssign => "SyncAssign"@,
    }
}

// --- Diagnostic messages ---

pub open spec fn msg_let_mismatch(expected: TypeV, found: TypeV) -> Seq<char> {
    "Niezgodność typów: oczekiwano "@ + type_debug(expected) + ", znaleziono "@ + type_debug(found)
}

pub open spec fn msg_undefined_var(name: Seq<char>) -> Seq<char> {
    "Niezdefiniowana zmienna: '"@ + name + "'"@
}

pub open spec fn msg_sync_types(l: TypeV, r: TypeV) -> Seq<char> {
    "Operator $~ wymaga identycznych typów po obu stronach. Otrzymano: "@ + type_debug(l) + " i "@
        + type_debug(r)
}

pub open spec fn msg_sync_not_mut(name: Seq<char>) -> Seq<char> {
    "Prawa strona operatora $~ ('"@ + name + "') musi być modyfikowalna"@
}

pub open spec fn msg_sync_array_not_mut(name: Seq<char>) -> Seq<char> {
    "Tablica '"@ + name + "' po prawej stronie $~ musi być modyfikowalna"@
}

pub open spec fn msg_undefined_array(name: Seq<char>) -> Seq<char> {
    "Niezdefiniowana tablica: '"@ + name + "'"@
}

pub open spec fn msg_sync_index_target() -> Seq<char> {
    "Indeksowanie po prawej stronie $~ jest obsługiwane tylko bezpośrednio na zmiennej tablicowej"@
}

pub open spec fn msg_sync_lvalue() -> Seq<char> {
    "Prawa strona operatora $~ musi być zmienną albo elementem tablicy (l-value)"@
}

pub open spec fn msg_compare(l: TypeV, r: TypeV) -> Seq<char> {
    "Nie można porównać typów "@ + type_debug(l) + " i "@ + type_debug(r)
}

pub open spec fn msg_not_numeric(op: BinOp, t: TypeV) -> Seq<char> {
    "Operator "@ + binop_debug(op) + " wymaga typu liczbowego, znaleziono "@ + type_debug(t)
}

pub open spec fn msg_operand_mismatch(op: BinOp, l: TypeV, r: TypeV) -> Seq<char> {
    "Niezgodność typów operandów "@ + binop_debug(op) + ": "@ + type_debug(l) + " i "@ + type_debug(r)
}

pub open spec fn msg_if_cond(t: TypeV) -> Seq<char> {
    "Warunek if musi być typu bool, znaleziono "@ + type_debug(t)
}

pub open spec fn msg_arity(name: Seq<char>, expected: nat, found: nat) -> Seq<char> {
    "Funkcja '"@ + name + "' oczekuje "@ + text::decimal(expected) + " argumentów, otrzymano "@ + text::decimal(found)
}

pub open spec fn msg_arg(k: nat, name: Seq<char>, expected: TypeV, found: TypeV) -> Seq<char> {
    "Argument "@ + text::decimal(k) + " funkcji '"@ + name + "': oczekiwano "@ + type_debug(expected)
        + ", znaleziono "@ + type_debug(found)
}

pub open spec fn msg_unknown_fn(name: Seq<char>) -> Seq<char> {
    "Wywołanie nieznanej funkcji: '"@ + name + "'"@
}

pub open spec fn msg_array_elems(expected: TypeV, found: TypeV) -> Seq<char> {
    "Niezgodne typy elementów tablicy: oczekiwano "@ + type_debug(expected) + ", znaleziono "@
        + type_debug(found)
}

pub open spec fn msg_index_type(t: TypeV) -> Seq<char> {
    "Indeks tablicy musi być liczbą całkowitą, znaleziono "@ + type_debug(t)
}

pub open spec fn msg_not_array(t: TypeV) -> Seq<char> {
    "Nie można indeksować wartości typu "@ + type_debug(t) + " - to nie tablica"@
}

// --- Typing rules ---

pub type ScopesV = Seq<Seq<(Seq<char>, VarV)>>;

pub type FuncsV = Seq<(Seq<char>, FuncV)>;

/// Diagnostics of `l $~ r` that depend on the target `r`.
pub open spec fn sync_errors(sc: ScopesV, lt: TypeV, rt: TypeV, right: ExprV, span: Span) -> Seq<ErrV> {
    let e1: Seq<ErrV> = if lt != rt { seq![(msg_sync_types(lt, rt), span)] } else { seq![] };
    let e2: Seq<ErrV> = match right {
        ExprV::Variable(n) => {
            let is_mut = match scopes_lookup(sc, n) {
                Some(v) => v.1,
                None => false,
            };
            if !is_mut { seq![(msg_sync_not_mut(n), span)] } else { seq![] }
        },
        ExprV::Index { array, .. } => match *array {
            ExprV::Variable(a) => match scopes_lookup(sc, a) {
                Some(v) => if v.1 { seq![] } else { seq![(msg_sync_array_not_mut(a), span)] },
                None => seq![(msg_undefined_array(a), span)],
            },
            _ => seq![(msg_sync_index_target(), span)],
        },
        _ => seq![(msg_sync_lvalue(), span)],
    };
    e1 + e2
}

/// Result type and diagnostics that depend only on the operator and the operand types.
pub open spec fn binop_typing(op: BinOp, lt: TypeV, rt: TypeV, span: Span) -> (TypeV, Seq<ErrV>) {
    match op {
        BinOp::SyncAssign => (lt, seq![]),
        BinOp::Eq | BinOp::Neq | BinOp::Lt | BinOp::Gt | BinOp::Le | BinOp::Ge | BinOp::Spaceship => (
            TypeV::Bool,
            if lt != TypeV::Unknown && rt != TypeV::Unknown && lt != rt {
                seq![(msg_compare(lt, rt), span)]
            } else {
                seq![]
            },
        ),
        BinOp::Add | BinOp::Sub | BinOp::Mul | BinOp::Div | BinOp::Mod | BinOp::HashEqEq | BinOp::PipeEq
        | BinOp::MinusEq => {
            let e1: Seq<ErrV> = if lt != TypeV::Unknown && !is_numeric_v(lt) {
                seq![(msg_not_numeric(op, lt), span)]
            } else {
                seq![]
            };
            let e2: Seq<ErrV> = if lt != TypeV::Unknown && rt != TypeV::Unknown && lt != rt {
                seq![(msg_operand_mismatch(op, lt, rt), span)]
            } else {
                seq![]
            };
            (lt, e1 + e2)
        },
        _ => (lt, seq![]),
    }
}

/// The integer and floating-point types are numeric: an arithmetic operator
/// on two operands of one such type is accepted without a diagnostic and
/// has that type, while on two booleans it is reported.
pub proof fn lemma_arith_on_numbers(op: BinOp, t: TypeV, span: Span)
    requires
        op is Add || op is Sub || op is Mul || op is Div || op is Mod,
        t is I32 || t is I64 || t is U32 || t is U64 || t is F32 || t is F64,
    ensures
        binop_typing(op, t, t, span).0 == t,
        binop_typing(op, t, t, span).1.len() == 0,
        binop_typing(op, TypeV::Bool, TypeV::Bool, span).1.len() == 1,
{
}

/// A comparison has type `bool`; it is accepted on two operands of one
/// type and reported once on two known types that differ. An arithmetic
/// operator on two different numeric types is reported as a mismatch.
pub proof fn lemma_comparison_typing(op: BinOp, a: TypeV, b: TypeV, span: Span)
    requires
        op is Eq || op is Neq || op is Lt || op is Gt || op is Le || op is Ge,
    ensures
        binop_typing(op, a, b, span).0 == TypeV::Bool,
        binop_typing(op, a, a, span).1.len() == 0,
        a != TypeV::Unknown && b != TypeV::Unknown && a != b ==> binop_typing(op, a, b, span).1.len() == 1,
        binop_typing(BinOp::Add, TypeV::I32, TypeV::I64, span).1.len() == 1,
        binop_typing(BinOp::Add, TypeV::I32, TypeV::I64, span).0 == TypeV::I32,
{
}

/// Diagnostics for the arguments `0..k` of a call with the right arity.
pub open spec fn arg_errors(name: Seq<char>, ps: Seq<TypeV>, ats: Seq<TypeV>, span: Span, k: nat) -> Seq<ErrV>
    decreases k,
{
    if k == 0 {
        seq![]
    } else {
        let prev = arg_errors(name, ps, ats, span, (k - 1) as nat);
        if ps[k - 1] != ats[k - 1] {
            prev.push((msg_arg(k, name, ps[k - 1], ats[k - 1]), span))
        } else {
            prev
        }
    }
}

pub open spec fn call_errors(name: Seq<char>, ps: Seq<TypeV>, ats: Seq<TypeV>, span: Span) -> Seq<ErrV> {
    if ps.len() != ats.len() {
        seq![(msg_arity(name, ps.len(), ats.len()), span)]
    } else {
        arg_errors(name, ps, ats, span, ps.len())
    }
}

/// The type of an expression and the diagnostics that checking it reports, in order.
pub open spec fn chk_expr(sc: ScopesV, fs: FuncsV, e: ExprV) -> (TypeV, Seq<ErrV>)
    decreases e,
{
    match e {
        ExprV::Literal(l) => (literal_type(l), seq![]),
        ExprV::Variable(n) => match scopes_lookup(sc, n) {
            Some(v) => (v.0, seq![]),
            None => (TypeV::Unknown, seq![(msg_undefined_var(n), Span { start: 0, end: 0 })]),
        },
        ExprV::BinaryOp { left, op, right, span } => {
            let l = chk_expr(sc, fs, *left);
            let r = chk_expr(sc, fs, *right);
            let e3 = if op == BinOp::SyncAssign {
                sync_errors(sc, l.0, r.0, *right, span)
            } else {
                seq![]
            };
            let res = binop_typing(op, l.0, r.0, span);
            (res.0, l.1 + r.1 + e3 + res.1)
        },
        ExprV::If { condition, then_branch, else_branch, span } => {
            let c = chk_expr(sc, fs, *condition);
            let e2: Seq<ErrV> = if c.0 != TypeV::Bool { seq![(msg_if_cond(c.0), span)] } else { seq![] };
            let e3 = chk_stmts(sc.push(seq![]), fs, then_branch.stmts).1;
            let e4 = match else_branch {
                Some(b) => chk_stmts(sc.push(seq![]), fs, b.stmts).1,
                None => seq![],
            };
            (TypeV::Unknown, c.1 + e2 + e3 + e4)
        },
        ExprV::Call { callee, args, span } => {
            let a = chk_exprs(sc, fs, args);
            match *callee {
                ExprV::Variable(name) => match assoc_lookup(fs, name) {
                    Some(info) => (info.1, a.1 + call_errors(name, info.0, a.0, span)),
                    None => (TypeV::Unknown, a.1.push((msg_unknown_fn(name), span))),
                },
                _ => (TypeV::Unknown, a.1 + chk_expr(sc, fs, *callee).1),
            }
        },
        ExprV::ArrayInit { elements, span } => {
            if elements.len() == 0 {
                (TypeV::Array(Box::new(TypeV::Unknown), Some(0)), seq![])
            } else {
                let first = chk_expr(sc, fs, elements[0]);
                let rest = chk_array_rest(sc, fs, first.0, elements.drop_first(), span);
                (TypeV::Array(Box::new(first.0), Some(elements.len() as usize)), first.1 + rest)
            }
        },
        ExprV::Index { array, index, span } => {
            let a = chk_expr(sc, fs, *array);
            let i = chk_expr(sc, fs, *index);
            let e3: Seq<ErrV> = if i.0 != TypeV::Unknown && !is_numeric_v(i.0) {
                seq![(msg_index_type(i.0), span)]
            } else {
                seq![]
            };
            match a.0 {
                TypeV::Array(el, _) => (*el, a.1 + i.1 + e3),
                TypeV::Unknown => (TypeV::Unknown, a.1 + i.1 + e3),
                other => (TypeV::Unknown, (a.1 + i.1 + e3).push((msg_not_array(other), span))),
            }
        },
    }
}

/// Checks the elements after the first of an array literal against the first one's type.
pub open spec fn chk_array_rest(sc: ScopesV, fs: FuncsV, t0: TypeV, es: Seq<ExprV>, span: Span) -> Seq<ErrV>
    decreases es,
{
    if es.len() == 0 {
        seq![]
    } else {
        let prev = chk_array_rest(sc, fs, t0, es.drop_last(), span);
        let c = chk_expr(sc, fs, es.last());
        if c.0 != t0 {
            (prev + c.1).push((msg_array_elems(t0, c.0), span))
        } else {
            prev + c.1
        }
    }
}

/// Checks expressions left to right: their types and all their diagnostics.
pub open spec fn chk_exprs(sc: ScopesV, fs: FuncsV, es: Seq<ExprV>) -> (Seq<TypeV>, Seq<ErrV>)
    decreases es,
{
    if es.len() == 0 {
        (seq![], seq![])
    } else {
        let prev = chk_exprs(sc, fs, es.drop_last());
        let c = chk_expr(sc, fs, es.last());
        (prev.0.push(c.0), prev.1 + c.1)
    }
}

pub open spec fn params_scope(ps: Seq<(Seq<char>, TypeV)>) -> Seq<(Seq<char>, VarV)> {
    Seq::new(ps.len(), |i: int| (ps[i].0, (ps[i].1, false)))
}

/// The scopes after a statement and the diagnostics it reports.
pub open spec fn chk_stmt(sc: ScopesV, fs: FuncsV, s: StmtV) -> (ScopesV, Seq<ErrV>)
    decreases s,
{
    match s {
        StmtV::Let { name, typ, value, span } => {
            let v = chk_expr(sc, fs, *value);
            let e2: Seq<ErrV> = match typ {
                Some(t) => if t != v.0 { seq![(msg_let_mismatch(t, v.0), span)] } else { seq![] },
                None => seq![],
            };
            let declared = match typ {
                Some(t) => t,
                None => v.0,
            };
            (sc.update(sc.len() - 1, sc.last().push((name, (declared, true)))), v.1 + e2)
        },
        StmtV::FnDef { params, body, .. } => (sc, chk_stmts(sc.push(params_scope(params)), fs, body.stmts).1),
        StmtV::Expr(e) => (sc, chk_expr(sc, fs, *e).1),
        _ => (sc, seq![]),
    }
}

pub open spec fn chk_stmts(sc: ScopesV, fs: FuncsV, ss: Seq<StmtV>) -> (ScopesV, Seq<ErrV>)
    decreases ss,
{
    if ss.len() == 0 {
        (sc, seq![])
    } else {
        let prev = chk_stmts(sc, fs, ss.drop_last());
        let c = chk_stmt(prev.0, fs, ss.last());
        (c.0, prev.1 + c.1)
    }
}

/// The function table after registering the signatures of a program.
pub open spec fn collect_signatures(fs: FuncsV, ss: Seq<StmtV>) -> FuncsV
    decreases ss.len(),
{
    if ss.len() == 0 {
        fs
    } else {
        let prev = collect_signatures(fs, ss.drop_last());
        match ss.last() {
            StmtV::FnDef { name, params, return_type, .. } | StmtV::FnDecl {
                name,
                params,
                return_type,
                ..
            } => prev.push(
                (
                    name,
                    (
                        Seq::new(params.len(), |i: int| params[i].1),
                        match return_type {
                            Some(t) => t,
                            None => TypeV::Unknown,
                        },
                    ),
                ),
            ),
            _ => prev,
        }
    }
}

impl SemanticChecker {
    pub closed spec fn scopes_v(&self) -> ScopesV {
        Seq::new(self.scopes@.len(), |i: int| scope_view(self.scopes@[i]@))
    }

    pub closed spec fn funcs_v(&self) -> FuncsV {
        Seq::new(self.functions@.len(), |i: int| fn_entry_view(self.functions@[i]))
    }

    pub closed spec fn errors_v(&self) -> Seq<ErrV> {
        errs_view(self.errors@)
    }

    /// The checker always has at least the global scope.
    pub closed spec fn wf(&self) -> bool {
        self.scopes@.len() > 0
    }

    pub fn new() -> (r: Self)
        ensures
            r.wf(),
            r.scopes_v() == seq![Seq::<(Seq<char>, VarV)>::empty()],
            r.funcs_v() == Seq::<(Seq<char>, FuncV)>::empty(),
            r.errors_v() == Seq::<ErrV>::empty(),
    {
        let mut scopes: Vec<Vec<(String, VariableInfo)>> = Vec::new();
        scopes.push(Vec::new());
        let r = Self { scopes, functions: Vec::new(), errors: Vec::new() };
        assert(scope_view(r.scopes@[0]@) =~= Seq::<(Seq<char>, VarV)>::empty());
        assert(r.scopes_v() =~= seq![Seq::<(Seq<char>, VarV)>::empty()]);
        assert(r.funcs_v() =~= Seq::<(Seq<char>, FuncV)>::empty());
        assert(r.errors_v() =~= Seq::<ErrV>::empty());
        r
    }

    pub fn has_errors(&self) -> (r: bool)
        ensures
            r == (self.errors_v().len() > 0),
    {
        !self.errors.is_empty()
    }

    pub fn get_errors(&self) -> (r: &[CheckError])
        ensures
            errs_view(r@) == self.errors_v(),
    {
        self.errors.as_slice()
    }
}

// ---------------------------------------------------------------------------
// Executable helpers
// ---------------------------------------------------------------------------

proof fn lemma_assoc_lookup_take<T>(s: Seq<(Seq<char>, T)>, name: Seq<char>, j: int)
    requires
        0 <= j <= s.len(),
        forall|k: int| j <= k < s.len() ==> #[trigger] s[k].0 != name,
    ensures
        assoc_lookup(s, name) == assoc_lookup(s.take(j), name),
    decreases s.len() - j,
{
    if j < s.len() {
        assert(s.drop_last().take(j) =~= s.take(j));
        lemma_assoc_lookup_take(s.drop_last(), name, j);
    } else {
        assert(s.take(j) =~= s);
    }
}

proof fn lemma_scopes_lookup_take(sc: ScopesV, name: Seq<char>, i: int)
    requires
        0 <= i <= sc.len(),
        forall|k: int| i <= k < sc.len() ==> assoc_lookup(#[trigger] sc[k], name) is None,
    ensures
        scopes_lookup(sc, name) == scopes_lookup(sc.take(i), name),
    decreases sc.len() - i,
{
    if i < sc.len() {
        assert(sc.drop_last().take(i) =~= sc.take(i));
        lemma_scopes_lookup_take(sc.drop_last(), name, i);
    } else {
        assert(sc.take(i) =~= sc);
    }
}

/// Structural equality of types (strings compared by content).
pub fn type_eq(a: &Type, b: &Type) -> (r: bool)
    ensures
        r == (ast::type_view(*a) == ast::type_view(*b)),
    decreases a,
{
    match (a, b) {
        (Type::I32, Type::I32) => true,
        (Type::I64, Type::I64) => true,
        (Type::U32, Type::U32) => true,
        (Type::U64, Type::U64) => true,
        (Type::F32, Type::F32) => true,
        (Type::F64, Type::F64) => true,
        (Type::Bool, Type::Bool) => true,
        (Type::Unknown, Type::Unknown) => true,
        (Type::Array(x, n), Type::Array(y, m)) => {
            let same_len = match (n, m) {
                (Some(p), Some(q)) => *p == *q,
                (None, None) => true,
                _ => false,
            };
            same_len && type_eq(x, y)
        },
        (Type::Custom(x), Type::Custom(y)) => *x == *y,
        (Type::Pointer(x), Type::Pointer(y)) => type_eq(x, y),
        _ => false,
    }
}

fn push_opt_usize_debug(out: &mut String, n: Option<usize>)
    ensures
        final(out)@ == old(out)@ + opt_usize_debug(n),
{
    match n {
        Some(k) => {
            push_str(out, "Some(");
            push_decimal(out, k as u64);
            push_str(out, ")");
            assert(final(out)@ =~= old(out)@ + opt_usize_debug(n));
        },
        None => push_str(out, "None"),
    }
}

/// Appends the `{:?}` text of a type.
pub fn push_type_debug(out: &mut String, t: &Type)
    ensures
        final(out)@ == old(out)@ + type_debug(ast::type_view(*t)),
    decreases t,
{
    match t {
        Type::I32 => push_str(out, "I32"),
        Type::I64 => push_str(out, "I64"),
        Type::U32 => push_str(out, "U32"),
        Type::U64 => push_str(out, "U64"),
        Type::F32 => push_str(out, "F32"),
        Type::F64 => push_str(out, "F64"),
        Type::Bool => push_str(out, "Bool"),
        Type::Array(e, n) => {
            push_str(out, "Array(");
            push_type_debug(out, e);
            push_str(out, ", ");
            push_opt_usize_debug(out, *n);
            push_str(out, ")");
            assert(final(out)@ =~= old(out)@ + type_debug(ast::type_view(*t)));
        },
        Type::Custom(s) => {
            push_str(out, "Custom(");
            push_debug_str(out, s.as_str());
            push_str(out, ")");
            assert(final(out)@ =~= old(out)@ + type_debug(ast::type_view(*t)));
        },
        Type::Pointer(e) => {
            push_str(out, "Pointer(");
            push_type_debug(out, e);
            push_str(out, ")");
            assert(final(out)@ =~= old(out)@ + type_debug(ast::type_view(*t)));
        },
        Type::Unknown => push_str(out, "Unknown"),
    }
}

pub fn push_binop_debug(out: &mut String, op: BinOp)
    ensures
        final(out)@ == old(out)@ + binop_debug(op),
{
    let s = match op {
        BinOp::Add => "Add",
        BinOp::Sub => "Sub",
        BinOp::Mul => "Mul",
        BinOp::Div => "Div",
        BinOp::Mod => "Mod",
        BinOp::Eq => "Eq",
        BinOp::Neq => "Neq",
        BinOp::Lt => "Lt",
        BinOp::Gt => "Gt",
        BinOp::Le => "Le",
        BinOp::Ge => "Ge",
        BinOp::Spaceship => "Spaceship",
        BinOp::HashEqEq => "HashEqEq",
        BinOp::PipeEq => "PipeEq",
        BinOp::TildeEq => "TildeEq",
        BinOp::At => "At",
        BinOp::AtSlash => "AtSlash",
        BinOp::AtEq => "AtEq",
        BinOp::MinusEq => "MinusEq",
        BinOp::SyncAssign => "SyncAssign",
    };
    push_str(out, s);
}

fn literal_type_of(lit: &Literal) -> (r: Type)
    ensures
        ast::type_view(r) == literal_type(ast::literal_view(*lit)),
{
    match lit {
        Literal::Int(s) => numlit::infer_int_type(&numlit::parse_int_literal(s.as_str())),
        Literal::Float(_) => Type::F64,
        Literal::String(_) => Type::Custom(String::from_str("String")),
        Literal::Bool(_) => Type::Bool,
        Literal::NoneLit => Type::Unknown,
    }
}

impl SemanticChecker {
    /// Registers the signatures of all functions of `program` and then checks
    /// each statement in order. Returns whether no diagnostic has been reported.
    pub fn check_program(&mut self, program: &Program) -> (r: bool)
        requires
            old(self).wf(),
        ensures
            final(self).wf(),
            final(self).funcs_v() == collect_signatures(old(self).funcs_v(), ast::program_view(*program)),
            final(self).scopes_v() == chk_stmts(
                old(self).scopes_v(),
                final(self).funcs_v(),
                ast::program_view(*program),
            ).0,
            final(self).errors_v() == old(self).errors_v() + chk_stmts(
                old(self).scopes_v(),
                final(self).funcs_v(),
                ast::program_view(*program),
            ).1,
            r == (final(self).errors_v().len() == 0),
    {
        let ghost pv = ast::program_view(*program);
        proof {
            ast::lemma_stmts_view(program.stmts@);
        }
        let n = program.stmts.len();
        let mut i: usize = 0;
        while i < n
            invariant
                n == program.stmts@.len(),
                pv == ast::program_view(*program),
                pv.len() == n,
                forall|k: int| 0 <= k < n ==> #[trigger] pv[k] == ast::stmt_view(program.stmts@[k]),
                i <= n,
                self.wf(),
                self.scopes_v() == old(self).scopes_v(),
                self.errors_v() == old(self).errors_v(),
                self.funcs_v() == collect_signatures(old(self).funcs_v(), pv.take(i as int)),
            decreases n - i,
        {
            let stmt = &program.stmts[i];
            let ghost before = self.funcs_v();
            proof {
                assert(pv.take(i + 1).drop_last() =~= pv.take(i as int));
            }
            match stmt {
                Stmt::FnDef { name, params, return_type, .. } | Stmt::FnDecl {
                    name,
                    params,
                    return_type,
                    ..
                } => {
                    let mut ptys: Vec<Type> = Vec::new();
                    let pn = params.len();
                    let mut j: usize = 0;
                    while j < pn
                        invariant
                            pn == params@.len(),
                            j <= pn,
                            ptys@.len() == j,
                            forall|k: int| 0 <= k < j ==> #[trigger] ptys@[k] == params@[k].1,
                        decreases pn - j,
                    {
                        ptys.push(params[j].1.clone());
                        j = j + 1;
                    }
                    let ret = match return_type {
                        Some(t) => t.clone(),
                        None => Type::Unknown,
                    };
                    self.functions.push((name.clone(), FunctionInfo { params: ptys, return_type: ret }));
                    proof {
                        let sv = ast::stmt_view(*stmt);
                        let ps = ast::params_view(params@);
                        assert(Seq::new(ps.len(), |k: int| ps[k].1) =~= types_view(ptys@));
                        assert(self.funcs_v() =~= before.push(fn_entry_view(self.functions@.last())));
                    }
                },
                _ => {},
            }
            i = i + 1;
        }
        proof {
            assert(pv.take(n as int) =~= pv);
        }
        let ghost fs = self.funcs_v();
        let mut i: usize = 0;
        while i < n
            invariant
                n == program.stmts@.len(),
                pv == ast::program_view(*program),
                pv.len() == n,
                forall|k: int| 0 <= k < n ==> #[trigger] pv[k] == ast::stmt_view(program.stmts@[k]),
                i <= n,
                self.wf(),
                self.funcs_v() == fs,
                self.scopes_v() == chk_stmts(old(self).scopes_v(), fs, pv.take(i as int)).0,
                self.errors_v() == old(self).errors_v() + chk_stmts(old(self).scopes_v(), fs, pv.take(i as int)).1,
            decreases n - i,
        {
            proof {
                assert(pv.take(i + 1).drop_last() =~= pv.take(i as int));
            }
            self.check_stmt(&program.stmts[i]);
            i = i + 1;
            proof {
                assert(self.errors_v() =~= old(self).errors_v() + chk_stmts(old(self).scopes_v(), fs, pv.take(i as int)).1);
            }
        }
        proof {
            assert(pv.take(n as int) =~= pv);
        }
        self.errors.is_empty()
    }

    fn report(&mut self, message: String, span: Span)
        ensures
            final(self).wf() == old(self).wf(),
            final(self).scopes_v() == old(self).scopes_v(),
            final(self).funcs_v() == old(self).funcs_v(),
            final(self).errors_v() == old(self).errors_v().push((message@, span)),
    {
        self.errors.push(CheckError { message, span });
        assert(self.errors_v() =~= old(self).errors_v().push((message@, span)));
        assert(self.scopes_v() =~= old(self).scopes_v());
        assert(self.funcs_v() =~= old(self).funcs_v());
    }

    fn current_scope_mut(&mut self) -> (r: &mut Vec<(String, VariableInfo)>)
        requires
            old(self).wf(),
        ensures
            *r == old(self).scopes@.last(),
            final(self).scopes@ == old(self).scopes@.update(old(self).scopes@.len() - 1, *final(r)),
            final(self).functions == old(self).functions,
            final(self).errors == old(self).errors,
    {
        let n = self.scopes.len();
        &mut self.scopes[n - 1]
    }

    fn insert_var(&mut self, name: String, info: VariableInfo)
        requires
            old(self).wf(),
        ensures
            final(self).wf(),
            final(self).scopes_v() == old(self).scopes_v().update(
                old(self).scopes_v().len() - 1,
                old(self).scopes_v().last().push((name@, (ast::type_view(info.typ), info.is_mut))),
            ),
            final(self).funcs_v() == old(self).funcs_v(),
            final(self).errors_v() == old(self).errors_v(),
    {
        let ghost e = (name@, (ast::type_view(info.typ), info.is_mut));
        let scope = self.current_scope_mut();
        let ghost before = *scope;
        scope.push((name, info));
        proof {
            let n = old(self).scopes@.len();
            assert(scope_view(self.scopes@[n - 1]@) =~= scope_view(before@).push(e));
            assert(self.scopes_v() =~= old(self).scopes_v().update(
                old(self).scopes_v().len() - 1,
                old(self).scopes_v().last().push(e),
            ));
            assert(self.funcs_v() =~= old(self).funcs_v());
            assert(self.errors_v() =~= old(self).errors_v());
        }
    }

    fn push_scope(&mut self)
        ensures
            final(self).wf(),
            final(self).scopes_v() == old(self).scopes_v().push(seq![]),
            final(self).funcs_v() == old(self).funcs_v(),
            final(self).errors_v() == old(self).errors_v(),
    {
        self.scopes.push(Vec::new());
        proof {
            let n = old(self).scopes@.len();
            assert(scope_view(self.scopes@[n as int]@) =~= Seq::<(Seq<char>, VarV)>::empty());
            assert(self.scopes_v() =~= old(self).scopes_v().push(seq![]));
            assert(self.funcs_v() =~= old(self).funcs_v());
            assert(self.errors_v() =~= old(self).errors_v());
        }
    }

    fn pop_scope(&mut self)
        requires
            old(self).scopes@.len() > 1,
        ensures
            final(self).wf(),
            final(self).scopes_v() == old(self).scopes_v().drop_last(),
            final(self).funcs_v() == old(self).funcs_v(),
            final(self).errors_v() == old(self).errors_v(),
    {
        self.scopes.pop();
        proof {
            assert(self.scopes_v() =~= old(self).scopes_v().drop_last());
            assert(self.funcs_v() =~= old(self).funcs_v());
            assert(self.errors_v() =~= old(self).errors_v());
        }
    }

    fn lookup_var(&self, name: &String) -> (r: Option<&VariableInfo>)
        ensures
            match r {
                Some(v) => scopes_lookup(self.scopes_v(), name@) == Some((ast::type_view(v.typ), v.is_mut)),
                None => scopes_lookup(self.scopes_v(), name@) is None,
            },
    {
        let ghost sc = self.scopes_v();
        let mut i = self.scopes.len();
        while i > 0
            invariant
                i <= self.scopes@.len(),
                sc == self.scopes_v(),
                forall|k: int| i <= k < sc.len() ==> assoc_lookup(#[trigger] sc[k], name@) is None,
            decreases i,
        {
            let scope = &self.scopes[i - 1];
            let ghost sv = sc[i - 1];
            let mut j = scope.len();
            while j > 0
                invariant
                    0 < i <= self.scopes@.len(),
                    sc == self.scopes_v(),
                    forall|k: int| i <= k < sc.len() ==> assoc_lookup(#[trigger] sc[k], name@) is None,
                    *scope == self.scopes@[i - 1],
                    j <= scope@.len(),
                    sv == scope_view(scope@),
                    forall|k: int| j <= k < sv.len() ==> #[trigger] sv[k].0 != name@,
                decreases j,
            {
                if scope[j - 1].0 == *name {
                    proof {
                        lemma_assoc_lookup_take(sv, name@, j as int);
                        lemma_scopes_lookup_take(sc, name@, i as int);
                        assert(sc.take(i as int).last() == sv);
                        assert(sv.take(j as int).last() == sv[j - 1]);
                    }
                    return Some(&scope[j - 1].1);
                }
                j = j - 1;
            }
            proof {
                lemma_assoc_lookup_take(sv, name@, 0);
                assert(sv.take(0) =~= Seq::<(Seq<char>, VarV)>::empty());
            }
            i = i - 1;
        }
        proof {
            lemma_scopes_lookup_take(sc, name@, 0);
            assert(sc.take(0) =~= Seq::<Seq<(Seq<char>, VarV)>>::empty());
        }
        None
    }

    fn lookup_fn(&self, name: &String) -> (r: Option<&FunctionInfo>)
        ensures
            match r {
                Some(f) => assoc_lookup(self.funcs_v(), name@) == Some(
                    (types_view(f.params@), ast::type_view(f.return_type)),
                ),
                None => assoc_lookup(self.funcs_v(), name@) is None,
            },
    {
        let ghost fv = self.funcs_v();
        let mut j = self.functions.len();
        while j > 0
            invariant
                j <= self.functions@.len(),
                fv == self.funcs_v(),
                forall|k: int| j <= k < fv.len() ==> #[trigger] fv[k].0 != name@,
            decreases j,
        {
            if self.functions[j - 1].0 == *name {
                proof {
                    lemma_assoc_lookup_take(fv, name@, j as int);
                    assert(fv.take(j as int).last() == fv[j - 1]);
                }
                return Some(&self.functions[j - 1].1);
            }
            j = j - 1;
        }
        proof {
            lemma_assoc_lookup_take(fv, name@, 0);
            assert(fv.take(0) =~= Seq::<(Seq<char>, FuncV)>::empty());
        }
        None
    }

    fn types_match(&self, t1: &Type, t2: &Type) -> (r: bool)
        ensures
            r == (ast::type_view(*t1) == ast::type_view(*t2)),
    {
        type_eq(t1, t2)
    }

    fn is_numeric(&self, t: &Type) -> (r: bool)
        ensures
            r == is_numeric_v(ast::type_view(*t)),
    {
        matches!(t, Type::I32 | Type::I64 | Type::U32 | Type::U64 | Type::F32 | Type::F64)
    }
}

// --- Building the diagnostic messages ---

fn msg_two_types(prefix: &str, a: &Type, middle: &str, b: &Type) -> (r: String)
    ensures
        r@ == prefix@ + type_debug(ast::type_view(*a)) + middle@ + type_debug(ast::type_view(*b)),
{
    let mut m = String::new();
    push_str(&mut m, prefix);
    push_type_debug(&mut m, a);
    push_str(&mut m, middle);
    push_type_debug(&mut m, b);
    assert(m@ =~= prefix@ + type_debug(ast::type_view(*a)) + middle@ + type_debug(ast::type_view(*b)));
    m
}

fn msg_one_type(prefix: &str, a: &Type, suffix: &str) -> (r: String)
    ensures
        r@ == prefix@ + type_debug(ast::type_view(*a)) + suffix@,
{
    let mut m = String::new();
    push_str(&mut m, prefix);
    push_type_debug(&mut m, a);
    push_str(&mut m, suffix);
    assert(m@ =~= prefix@ + type_debug(ast::type_view(*a)) + suffix@);
    m
}

fn msg_name(prefix: &str, name: &String, suffix: &str) -> (r: String)
    ensures
        r@ == prefix@ + name@ + suffix@,
{
    let mut m = String::new();
    push_str(&mut m, prefix);
    push_str(&mut m, name.as_str());
    push_str(&mut m, suffix);
    assert(m@ =~= prefix@ + name@ + suffix@);
    m
}

fn msg_op_types(prefix: &str, op: BinOp, middle: &str, a: &Type, middle2: &str, b: &Type, two: bool) -> (r: String)
    ensures
        two ==> r@ == prefix@ + binop_debug(op) + middle@ + type_debug(ast::type_view(*a)) + middle2@
            + type_debug(ast::type_view(*b)),
        !two ==> r@ == prefix@ + binop_debug(op) + middle@ + type_debug(ast::type_view(*a)),
{
    let mut m = String::new();
    push_str(&mut m, prefix);
    push_binop_debug(&mut m, op);
    push_str(&mut m, middle);
    push_type_debug(&mut m, a);
    if two {
        push_str(&mut m, middle2);
        push_type_debug(&mut m, b);
        assert(m@ =~= prefix@ + binop_debug(op) + middle@ + type_debug(ast::type_view(*a)) + middle2@
            + type_debug(ast::type_view(*b)));
    } else {
        assert(m@ =~= prefix@ + binop_debug(op) + middle@ + type_debug(ast::type_view(*a)));
    }
    m
}

fn build_msg_arity(name: &String, expected: usize, found: usize) -> (r: String)
    ensures
        r@ == msg_arity(name@, expected as nat, found as nat),
{
    let mut m = String::new();
    push_str(&mut m, "Funkcja '");
    push_str(&mut m, name.as_str());
    push_str(&mut m, "' oczekuje ");
    push_decimal(&mut m, expected as u64);
    push_str(&mut m, " argumentów, otrzymano ");
    push_decimal(&mut m, found as u64);
    assert(m@ =~= msg_arity(name@, expected as nat, found as nat));
    m
}

fn build_msg_arg(k: usize, name: &String, expected: &Type, found: &Type) -> (r: String)
    ensures
        r@ == msg_arg(k as nat, name@, ast::type_view(*expected), ast::type_view(*found)),
{
    let mut m = String::new();
    push_str(&mut m, "Argument ");
    push_decimal(&mut m, k as u64);
    push_str(&mut m, " funkcji '");
    push_str(&mut m, name.as_str());
    push_str(&mut m, "': oczekiwano ");
    push_type_debug(&mut m, expected);
    push_str(&mut m, ", znaleziono ");
    push_type_debug(&mut m, found);
    assert(m@ =~= msg_arg(k as nat, name@, ast::type_view(*expected), ast::type_view(*found)));
    m
}

fn clone_types(v: &Vec<Type>) -> (r: Vec<Type>)
    ensures
        r@ == v@,
{
    let mut r: Vec<Type> = Vec::new();
    let n = v.len();
    let mut i: usize = 0;
    while i < n
        invariant
            n == v@.len(),
            i <= n,
            r@ == v@.take(i as int),
        decreases n - i,
    {
        r.push(v[i].clone());
        i = i + 1;
        assert(r@ =~= v@.take(i as int));
    }
    assert(v@.take(n as int) =~= v@);
    r
}

proof fn lemma_chk_exprs_len(sc: ScopesV, fs: FuncsV, es: Seq<ExprV>)
    ensures
        chk_exprs(sc, fs, es).0.len() == es.len(),
    decreases es.len(),
{
    if es.len() > 0 {
        lemma_chk_exprs_len(sc, fs, es.drop_last());
    }
}

proof fn lemma_chk_stmts_prefix(sc: ScopesV, fs: FuncsV, ss: Seq<StmtV>)
    requires
        sc.len() > 0,
    ensures
        chk_stmts(sc, fs, ss).0.len() == sc.len(),
        chk_stmts(sc, fs, ss).0.drop_last() == sc.drop_last(),
    decreases ss.len(),
{
    if ss.len() > 0 {
        lemma_chk_stmts_prefix(sc, fs, ss.drop_last());
        let prev = chk_stmts(sc, fs, ss.drop_last()).0;
        let c = chk_stmt(prev, fs, ss.last()).0;
        assert(c.drop_last() =~= prev.drop_last());
    }
}

impl SemanticChecker {
    fn check_stmt(&mut self, stmt: &Stmt)
        requires
            old(self).wf(),
        ensures
            final(self).wf(),
            final(self).funcs_v() == old(self).funcs_v(),
            final(self).scopes_v() == chk_stmt(old(self).scopes_v(), old(self).funcs_v(), ast::stmt_view(*stmt)).0,
            final(self).errors_v() == old(self).errors_v() + chk_stmt(
                old(self).scopes_v(),
                old(self).funcs_v(),
                ast::stmt_view(*stmt),
            ).1,
        decreases stmt, 1nat,
    {
        let ghost sc = self.scopes_v();
        let ghost fs = self.funcs_v();
        match stmt {
            Stmt::Let { name, typ, value, span } => {
                let inferred = self.check_expr(value);
                let ghost e1 = self.errors_v();
                if let Some(expected) = typ {
                    if !self.types_match(&inferred, expected) {
                        let m = msg_two_types("Niezgodność typów: oczekiwano ", expected, ", znaleziono ", &inferred);
                        self.report(m, *span);
                    }
                }
                let declared = match typ {
                    Some(t) => t.clone(),
                    None => inferred,
                };
                self.insert_var(name.clone(), VariableInfo { typ: declared, is_mut: true });
                assert(self.errors_v() =~= old(self).errors_v() + chk_stmt(sc, fs, ast::stmt_view(*stmt)).1);
            },
            Stmt::FnDef { params, body, .. } => {
                self.push_scope();
                let ghost pv = ast::params_view(params@);
                proof {
                    assert(params_scope(pv.take(0)) =~= seq![]);
                }
                let pn = params.len();
                let mut j: usize = 0;
                while j < pn
                    invariant
                        pn == params@.len(),
                        pv == ast::params_view(params@),
                        j <= pn,
                        self.wf(),
                        self.funcs_v() == fs,
                        self.errors_v() == old(self).errors_v(),
                        self.scopes_v() == sc.push(params_scope(pv.take(j as int))),
                    decreases pn - j,
                {
                    let (pname, ptype) = &params[j];
                    self.insert_var(pname.clone(), VariableInfo { typ: ptype.clone(), is_mut: false });
                    j = j + 1;
                    proof {
                        assert(params_scope(pv.take(j as int)) =~= params_scope(pv.take(j - 1)).push(
                            (pv[j - 1].0, (pv[j - 1].1, false)),
                        ));
                        assert(self.scopes_v() =~= sc.push(params_scope(pv.take(j as int))));
                    }
                }
                proof {
                    assert(pv.take(pn as int) =~= pv);
                }
                let ghost inner = self.scopes_v();
                self.check_stmt_list(&body.stmts);
                proof {
                    lemma_chk_stmts_prefix(inner, fs, ast::stmts_view(body.stmts@));
                }
                self.pop_scope();
                proof {
                    assert(self.scopes_v() =~= sc);
                }
            },
            Stmt::FnDecl { .. } => {
                assert(old(self).errors_v() + seq![] =~= old(self).errors_v());
            },
            Stmt::Include { .. } => {
                assert(old(self).errors_v() + seq![] =~= old(self).errors_v());
            },
            Stmt::EnumDef { .. } => {
                assert(old(self).errors_v() + seq![] =~= old(self).errors_v());
            },
            Stmt::Expr(e) => {
                self.check_expr(e);
            },
        }
    }

    fn check_stmt_list(&mut self, stmts: &Vec<Stmt>)
        requires
            old(self).wf(),
        ensures
            final(self).wf(),
            final(self).funcs_v() == old(self).funcs_v(),
            final(self).scopes_v() == chk_stmts(old(self).scopes_v(), old(self).funcs_v(), ast::stmts_view(stmts@)).0,
            final(self).errors_v() == old(self).errors_v() + chk_stmts(
                old(self).scopes_v(),
                old(self).funcs_v(),
                ast::stmts_view(stmts@),
            ).1,
        decreases stmts, 0nat,
    {
        let ghost sv = ast::stmts_view(stmts@);
        let ghost sc = self.scopes_v();
        let ghost fs = self.funcs_v();
        proof {
            ast::lemma_stmts_view(stmts@);
            assert(sv.take(0) =~= Seq::<StmtV>::empty());
            assert(old(self).errors_v() + seq![] =~= old(self).errors_v());
        }
        let n = stmts.len();
        let mut i: usize = 0;
        while i < n
            invariant
                n == stmts@.len(),
                sv == ast::stmts_view(stmts@),
                sv.len() == n,
                forall|k: int| 0 <= k < n ==> #[trigger] sv[k] == ast::stmt_view(stmts@[k]),
                i <= n,
                self.wf(),
                self.funcs_v() == fs,
                self.scopes_v() == chk_stmts(sc, fs, sv.take(i as int)).0,
                self.errors_v() == old(self).errors_v() + chk_stmts(sc, fs, sv.take(i as int)).1,
            decreases n - i,
        {
            proof {
                assert(sv.take(i + 1).drop_last() =~= sv.take(i as int));
            }
            self.check_stmt(&stmts[i]);
            i = i + 1;
            proof {
                assert(self.errors_v() =~= old(self).errors_v() + chk_stmts(sc, fs, sv.take(i as int)).1);
            }
        }
        proof {
            assert(sv.take(n as int) =~= sv);
        }
    }

    /// Infers the type of an expression, reporting what is wrong with it.
    fn check_expr(&mut self, expr: &Expr) -> (r: Type)
        requires
            old(self).wf(),
        ensures
            final(self).wf(),
            final(self).funcs_v() == old(self).funcs_v(),
            final(self).scopes_v() == old(self).scopes_v(),
            ast::type_view(r) == chk_expr(old(self).scopes_v(), old(self).funcs_v(), ast::expr_view(*expr)).0,
            final(self).errors_v() == old(self).errors_v() + chk_expr(
                old(self).scopes_v(),
                old(self).funcs_v(),
                ast::expr_view(*expr),
            ).1,
        decreases expr, 2nat,
    {
        match expr {
            Expr::Literal(lit) => {
                assert(old(self).errors_v() + seq![] =~= old(self).errors_v());
                literal_type_of(lit)
            },
            Expr::Variable(name) => {
                match self.lookup_var(name) {
                    Some(info) => {
                        assert(old(self).errors_v() + seq![] =~= old(self).errors_v());
                        info.typ.clone()
                    },
                    None => {
                        let m = msg_name("Niezdefiniowana zmienna: '", name, "'");
                        let sp = match expr.span() {
                            Some(s) => s,
                            None => Span::default(),
                        };
                        self.report(m, sp);
                        assert(self.errors_v() =~= old(self).errors_v() + chk_expr(
                            old(self).scopes_v(),
                            old(self).funcs_v(),
                            ast::expr_view(*expr),
                        ).1);
                        Type::Unknown
                    },
                }
            },
            Expr::BinaryOp { .. } => self.check_binary(expr),
            Expr::If { .. } => self.check_if(expr),
            Expr::Call { .. } => self.check_call(expr),
            Expr::ArrayInit { .. } => self.check_array(expr),
            Expr::Index { .. } => self.check_index(expr),
        }
    }

    fn check_binary(&mut self, expr: &Expr) -> (r: Type)
        requires
            old(self).wf(),
            expr is BinaryOp,
        ensures
            final(self).wf(),
            final(self).funcs_v() == old(self).funcs_v(),
            final(self).scopes_v() == old(self).scopes_v(),
            ast::type_view(r) == chk_expr(old(self).scopes_v(), old(self).funcs_v(), ast::expr_view(*expr)).0,
            final(self).errors_v() == old(self).errors_v() + chk_expr(
                old(self).scopes_v(),
                old(self).funcs_v(),
                ast::expr_view(*expr),
            ).1,
        decreases expr, 1nat,
    {
        match expr {
            Expr::BinaryOp { left, op, right, span } => {
                let ghost sc = self.scopes_v();
                let ghost fs = self.funcs_v();
                let lt = self.check_expr(left);
                let ghost e1 = self.errors_v();
                let rt = self.check_expr(right);
                let ghost e2 = self.errors_v();
                if matches!(op, BinOp::SyncAssign) {
                    self.check_sync_target(&lt, &rt, right, *span);
                } else {
                    assert(e2 + seq![] =~= e2);
                }
                let ghost e3 = self.errors_v();
                let t = self.apply_binop(*op, lt, rt, *span);
                assert(self.errors_v() =~= old(self).errors_v() + chk_expr(sc, fs, ast::expr_view(*expr)).1);
                t
            },
            _ => Type::Unknown,
        }
    }

    fn check_sync_target(&mut self, lt: &Type, rt: &Type, right: &Expr, span: Span)
        requires
            old(self).wf(),
        ensures
            final(self).wf(),
            final(self).funcs_v() == old(self).funcs_v(),
            final(self).scopes_v() == old(self).scopes_v(),
            final(self).errors_v() == old(self).errors_v() + sync_errors(
                old(self).scopes_v(),
                ast::type_view(*lt),
                ast::type_view(*rt),
                ast::expr_view(*right),
                span,
            ),
    {
        let ghost sc = self.scopes_v();
        if !type_eq(lt, rt) {
            let m = msg_two_types(
                "Operator $~ wymaga identycznych typów po obu stronach. Otrzymano: ",
                lt,
                " i ",
                rt,
            );
            self.report(m, span);
        }
        let ghost e1 = self.errors_v();
        let ghost lv = ast::type_view(*lt);
        let ghost rv = ast::type_view(*rt);
        assert(e1 =~= old(self).errors_v() + (if lv != rv { seq![(msg_sync_types(lv, rv), span)] } else { seq![] }));
        match right {
            Expr::Variable(right_name) => {
                let is_mut = match self.lookup_var(right_name) {
                    Some(info) => info.is_mut,
                    None => false,
                };
                if !is_mut {
                    let m = msg_name("Prawa strona operatora $~ ('", right_name, "') musi być modyfikowalna");
                    self.report(m, span);
                }
                assert(ast::expr_view(*right) == ExprV::Variable(right_name@));
                assert(self.errors_v() =~= e1 + (if !is_mut { seq![(msg_sync_not_mut(right_name@), span)] } else { seq![] }));
                assert(self.errors_v() =~= old(self).errors_v() + sync_errors(sc, lv, rv, ast::expr_view(*right), span));
            },
            Expr::Index { array, .. } => {
                assert(ast::expr_view(*right) matches ExprV::Index { array: a, .. } && *a == ast::expr_view(**array));
                match &**array {
                    Expr::Variable(arr_name) => {
                        assert(ast::expr_view(**array) == ExprV::Variable(arr_name@));
                        let found = match self.lookup_var(arr_name) {
                            Some(info) => Some(info.is_mut),
                            None => None,
                        };
                        match found {
                            Some(true) => {},
                            Some(false) => {
                                let m = msg_name("Tablica '", arr_name, "' po prawej stronie $~ musi być modyfikowalna");
                                self.report(m, span);
                            },
                            None => {
                                let m = msg_name("Niezdefiniowana tablica: '", arr_name, "'");
                                self.report(m, span);
                            },
                        }
                        assert(self.errors_v() =~= old(self).errors_v() + sync_errors(sc, lv, rv, ast::expr_view(*right), span));
                    },
                    _ => {
                        self.report(
                            String::from_str(
                                "Indeksowanie po prawej stronie $~ jest obsługiwane tylko bezpośrednio na zmiennej tablicowej",
                            ),
                            span,
                        );
                        assert(self.errors_v() =~= old(self).errors_v() + sync_errors(sc, lv, rv, ast::expr_view(*right), span));
                    },
                }
            },
            _ => {
                self.report(
                    String::from_str("Prawa strona operatora $~ musi być zmienną albo elementem tablicy (l-value)"),
                    span,
                );
                assert(self.errors_v() =~= old(self).errors_v() + sync_errors(sc, lv, rv, ast::expr_view(*right), span));
            },
        }
    }

    fn apply_binop(&mut self, op: BinOp, lt: Type, rt: Type, span: Span) -> (r: Type)
        requires
            old(self).wf(),
        ensures
            final(self).wf(),
            final(self).funcs_v() == old(self).funcs_v(),
            final(self).scopes_v() == old(self).scopes_v(),
            ast::type_view(r) == binop_typing(op, ast::type_view(lt), ast::type_view(rt), span).0,
            final(self).errors_v() == old(self).errors_v() + binop_typing(
                op,
                ast::type_view(lt),
                ast::type_view(rt),
                span,
            ).1,
    {
        let lu = matches!(lt, Type::Unknown);
        let ru = matches!(rt, Type::Unknown);
        match op {
            BinOp::SyncAssign => {
                assert(old(self).errors_v() + seq![] =~= old(self).errors_v());
                lt
            },
            BinOp::Eq | BinOp::Neq | BinOp::Lt | BinOp::Gt | BinOp::Le | BinOp::Ge | BinOp::Spaceship => {
                if !lu && !ru && !self.types_match(&lt, &rt) {
                    let m = msg_two_types("Nie można porównać typów ", &lt, " i ", &rt);
                    self.report(m, span);
                    assert(self.errors_v() =~= old(self).errors_v() + binop_typing(
                        op,
                        ast::type_view(lt),
                        ast::type_view(rt),
                        span,
                    ).1);
                } else {
                    assert(old(self).errors_v() + seq![] =~= old(self).errors_v());
                }
                Type::Bool
            },
            BinOp::Add | BinOp::Sub | BinOp::Mul | BinOp::Div | BinOp::Mod | BinOp::HashEqEq | BinOp::PipeEq
        | BinOp::MinusEq => {
                if !lu && !self.is_numeric(&lt) {
                    let m = msg_op_types("Operator ", op, " wymaga typu liczbowego, znaleziono ", &lt, "", &lt, false);
                    self.report(m, span);
                }
                if !lu && !ru && !self.types_match(&lt, &rt) {
                    let m = msg_op_types("Niezgodność typów operandów ", op, ": ", &lt, " i ", &rt, true);
                    self.report(m, span);
                }
                assert(self.errors_v() =~= old(self).errors_v() + binop_typing(
                    op,
                    ast::type_view(lt),
                    ast::type_view(rt),
                    span,
                ).1);
                lt
            },
            _ => {
                assert(old(self).errors_v() + seq![] =~= old(self).errors_v());
                lt
            },
        }
    }

    fn check_if(&mut self, expr: &Expr) -> (r: Type)
        requires
            old(self).wf(),
            expr is If,
        ensures
            final(self).wf(),
            final(self).funcs_v() == old(self).funcs_v(),
            final(self).scopes_v() == old(self).scopes_v(),
            ast::type_view(r) == chk_expr(old(self).scopes_v(), old(self).funcs_v(), ast::expr_view(*expr)).0,
            final(self).errors_v() == old(self).errors_v() + chk_expr(
                old(self).scopes_v(),
                old(self).funcs_v(),
                ast::expr_view(*expr),
            ).1,
        decreases expr, 1nat,
    {
        match expr {
            Expr::If { condition, then_branch, else_branch, span } => {
                let ghost sc = self.scopes_v();
                let ghost fs = self.funcs_v();
                let cond_type = self.check_expr(condition);
                if !matches!(cond_type, Type::Bool) {
                    let m = msg_one_type("Warunek if musi być typu bool, znaleziono ", &cond_type, "");
                    self.report(m, *span);
                    proof {
                        reveal_strlit("");
                    }
                    assert(m@ =~= msg_if_cond(ast::type_view(cond_type)));
                }
                let ghost e2 = self.errors_v();
                let ghost c = chk_expr(sc, fs, ast::expr_view(**condition));
                assert(e2 =~= old(self).errors_v() + c.1 + (if c.0 != TypeV::Bool {
                    seq![(msg_if_cond(c.0), *span)]
                } else {
                    seq![]
                }));
                assert(ast::block_view(*then_branch).stmts == ast::stmts_view(then_branch.stmts@));
                self.push_scope();
                self.check_stmt_list(&then_branch.stmts);
                proof {
                    lemma_chk_stmts_prefix(sc.push(seq![]), fs, ast::stmts_view(then_branch.stmts@));
                }
                self.pop_scope();
                proof {
                    assert(self.scopes_v() =~= sc);
                }
                let ghost e3 = self.errors_v();
                assert(e3 =~= e2 + chk_stmts(sc.push(seq![]), fs, ast::stmts_view(then_branch.stmts@)).1);
                if let Some(else_block) = else_branch {
                    assert(ast::block_view(*else_block).stmts == ast::stmts_view(else_block.stmts@));
                    self.push_scope();
                    self.check_stmt_list(&else_block.stmts);
                    proof {
                        lemma_chk_stmts_prefix(sc.push(seq![]), fs, ast::stmts_view(else_block.stmts@));
                    }
                    self.pop_scope();
                    proof {
                        assert(self.scopes_v() =~= sc);
                    }
                } else {
                    assert(e3 + seq![] =~= e3);
                }
                assert(self.errors_v() =~= old(self).errors_v() + chk_expr(sc, fs, ast::expr_view(*expr)).1);
                Type::Unknown
            },
            _ => Type::Unknown,
        }
    }

    fn check_call(&mut self, expr: &Expr) -> (r: Type)
        requires
            old(self).wf(),
            expr is Call,
        ensures
            final(self).wf(),
            final(self).funcs_v() == old(self).funcs_v(),
            final(self).scopes_v() == old(self).scopes_v(),
            ast::type_view(r) == chk_expr(old(self).scopes_v(), old(self).funcs_v(), ast::expr_view(*expr)).0,
            final(self).errors_v() == old(self).errors_v() + chk_expr(
                old(self).scopes_v(),
                old(self).funcs_v(),
                ast::expr_view(*expr),
            ).1,
        decreases expr, 1nat,
    {
        match expr {
            Expr::Call { callee, args, span } => {
                let ghost sc = self.scopes_v();
                let ghost fs = self.funcs_v();
                let ghost av = ast::exprs_view(args@);
                proof {
                    ast::lemma_exprs_view(args@);
                    assert(av.take(0) =~= Seq::<ExprV>::empty());
                    assert(old(self).errors_v() + seq![] =~= old(self).errors_v());
                }
                let n = args.len();
                let mut arg_types: Vec<Type> = Vec::new();
                let mut i: usize = 0;
                #[verifier::loop_isolation(false)]
                while i < n
                    invariant
                        n == args@.len(),
                        av == ast::exprs_view(args@),
                        av.len() == n,
                        forall|k: int| 0 <= k < n ==> #[trigger] av[k] == ast::expr_view(args@[k]),
                        i <= n,
                        self.wf(),
                        self.funcs_v() == fs,
                        self.scopes_v() == sc,
                        types_view(arg_types@) == chk_exprs(sc, fs, av.take(i as int)).0,
                        self.errors_v() == old(self).errors_v() + chk_exprs(sc, fs, av.take(i as int)).1,
                    decreases n - i,
                {
                    proof {
                        assert(av.take(i + 1).drop_last() =~= av.take(i as int));
                    }
                    let t = self.check_expr(&args[i]);
                    arg_types.push(t);
                    i = i + 1;
                    proof {
                        assert(types_view(arg_types@) =~= chk_exprs(sc, fs, av.take(i as int)).0);
                        assert(self.errors_v() =~= old(self).errors_v() + chk_exprs(sc, fs, av.take(i as int)).1);
                    }
                }
                proof {
                    assert(av.take(n as int) =~= av);
                    lemma_chk_exprs_len(sc, fs, av);
                }
                let ghost ats = types_view(arg_types@);
                let ghost ea = self.errors_v();
                assert(ast::expr_view(*expr) == (ExprV::Call {
                    callee: Box::new(ast::expr_view(**callee)),
                    args: av,
                    span: *span,
                }));
                assert(ats == chk_exprs(sc, fs, av).0);
                assert(ea == old(self).errors_v() + chk_exprs(sc, fs, av).1);
                match &**callee {
                    Expr::Variable(name) => {
                        assert(ast::expr_view(**callee) == ExprV::Variable(name@));
                        let found = match self.lookup_fn(name) {
                            Some(info) => Some((clone_types(&info.params), info.return_type.clone())),
                            None => None,
                        };
                        match found {
                            Some((params, ret)) => {
                                let ghost ps = types_view(params@);
                                if params.len() != n {
                                    let m = build_msg_arity(name, params.len(), n);
                                    self.report(m, *span);
                                } else {
                                    let mut k: usize = 0;
                                    while k < n
                                        invariant
                                            params@.len() == n,
                                            arg_types@.len() == n,
                                            ps == types_view(params@),
                                            ats == types_view(arg_types@),
                                            k <= n,
                                            self.wf(),
                                            self.funcs_v() == fs,
                                            self.scopes_v() == sc,
                                            self.errors_v() == ea + arg_errors(name@, ps, ats, *span, k as nat),
                                        decreases n - k,
                                    {
                                        if !self.types_match(&params[k], &arg_types[k]) {
                                            let m = build_msg_arg(k + 1, name, &params[k], &arg_types[k]);
                                            self.report(m, *span);
                                        }
                                        k = k + 1;
                                    }
                                    assert(ea + arg_errors(name@, ps, ats, *span, 0) =~= ea);
                                }
                                assert(self.errors_v() =~= old(self).errors_v() + chk_expr(sc, fs, ast::expr_view(*expr)).1);
                                ret
                            },
                            None => {
                                let m = msg_name("Wywołanie nieznanej funkcji: '", name, "'");
                                self.report(m, *span);
                                Type::Unknown
                            },
                        }
                    },
                    _ => {
                        self.check_expr(callee);
                        Type::Unknown
                    },
                }
            },
            _ => Type::Unknown,
        }
    }

    fn check_array(&mut self, expr: &Expr) -> (r: Type)
        requires
            old(self).wf(),
            expr is ArrayInit,
        ensures
            final(self).wf(),
            final(self).funcs_v() == old(self).funcs_v(),
            final(self).scopes_v() == old(self).scopes_v(),
            ast::type_view(r) == chk_expr(old(self).scopes_v(), old(self).funcs_v(), ast::expr_view(*expr)).0,
            final(self).errors_v() == old(self).errors_v() + chk_expr(
                old(self).scopes_v(),
                old(self).funcs_v(),
                ast::expr_view(*expr),
            ).1,
        decreases expr, 1nat,
    {
        match expr {
            Expr::ArrayInit { elements, span } => {
                let ghost sc = self.scopes_v();
                let ghost fs = self.funcs_v();
                let ghost ev = ast::exprs_view(elements@);
                proof {
                    ast::lemma_exprs_view(elements@);
                }
                let n = elements.len();
                if n == 0 {
                    assert(ev.len() == 0);
                    assert(ast::type_view(Type::Unknown) == TypeV::Unknown);
                    assert(ast::expr_view(*expr) == (ExprV::ArrayInit { elements: ev, span: *span }));
                    assert(old(self).errors_v() + seq![] =~= old(self).errors_v());
                    return Type::Array(Box::new(Type::Unknown), Some(0));
                }
                let elem_type = self.check_expr(&elements[0]);
                let ghost t0 = ast::type_view(elem_type);
                let ghost e1 = self.errors_v();
                let ghost rest = ev.drop_first();
                proof {
                    assert(rest.take(0) =~= Seq::<ExprV>::empty());
                    assert(e1 + seq![] =~= e1);
                }
                let mut i: usize = 1;
                #[verifier::loop_isolation(false)]
                while i < n
                    invariant
                        n == elements@.len(),
                        ev == ast::exprs_view(elements@),
                        ev.len() == n,
                        rest == ev.drop_first(),
                        forall|k: int| 0 <= k < n ==> #[trigger] ev[k] == ast::expr_view(elements@[k]),
                        1 <= i <= n,
                        t0 == ast::type_view(elem_type),
                        self.wf(),
                        self.funcs_v() == fs,
                        self.scopes_v() == sc,
                        self.errors_v() == e1 + chk_array_rest(sc, fs, t0, rest.take(i - 1), *span),
                    decreases n - i,
                {
                    proof {
                        assert(rest.take(i as int).drop_last() =~= rest.take(i - 1));
                        assert(rest.take(i as int).last() == ev[i as int]);
                    }
                    let t = self.check_expr(&elements[i]);
                    if !self.types_match(&elem_type, &t) {
                        let m = msg_two_types("Niezgodne typy elementów tablicy: oczekiwano ", &elem_type, ", znaleziono ", &t);
                        self.report(m, *span);
                    }
                    i = i + 1;
                    proof {
                        assert(self.errors_v() =~= e1 + chk_array_rest(sc, fs, t0, rest.take(i - 1), *span));
                    }
                }
                proof {
                    assert(rest.take(n - 1) =~= rest);
                    assert(self.errors_v() =~= old(self).errors_v() + chk_expr(sc, fs, ast::expr_view(*expr)).1);
                }
                Type::Array(Box::new(elem_type), Some(n))
            },
            _ => Type::Unknown,
        }
    }

    fn check_index(&mut self, expr: &Expr) -> (r: Type)
        requires
            old(self).wf(),
            expr is Index,
        ensures
            final(self).wf(),
            final(self).funcs_v() == old(self).funcs_v(),
            final(self).scopes_v() == old(self).scopes_v(),
            ast::type_view(r) == chk_expr(old(self).scopes_v(), old(self).funcs_v(), ast::expr_view(*expr)).0,
            final(self).errors_v() == old(self).errors_v() + chk_expr(
                old(self).scopes_v(),
                old(self).funcs_v(),
                ast::expr_view(*expr),
            ).1,
        decreases expr, 1nat,
    {
        match expr {
            Expr::Index { array, index, span } => {
                let ghost sc = self.scopes_v();
                let ghost fs = self.funcs_v();
                let arr_type = self.check_expr(array);
                let idx_type = self.check_expr(index);
                if !matches!(idx_type, Type::Unknown) && !self.is_numeric(&idx_type) {
                    let m = msg_one_type("Indeks tablicy musi być liczbą całkowitą, znaleziono ", &idx_type, "");
                    self.report(m, *span);
                    proof {
                        reveal_strlit("");
                    }
                    assert(m@ =~= msg_index_type(ast::type_view(idx_type)));
                }
                let r = match arr_type {
                    Type::Array(elem, _) => *elem,
                    Type::Unknown => Type::Unknown,
                    other => {
                        let m = msg_one_type("Nie można indeksować wartości typu ", &other, " - to nie tablica");
                        self.report(m, *span);
                        Type::Unknown
                    },
                };
                assert(self.errors_v() =~= old(self).errors_v() + chk_expr(sc, fs, ast::expr_view(*expr)).1);
                r
            },
            _ => Type::Unknown,
        }
    }
}

} // verus!
