use vstd::prelude::*;
use crate::lexer::Span;

verus! {

/// A type as written in Xore source (or inferred by the checker).
#[derive(Debug, PartialEq)]
pub enum Type {
    I32,
    I64,
    U32,
    U64,
    F32,
    F64,
    Bool,
    Array(Box<Type>, Option<usize>),
    Custom(String),
    Pointer(Box<Type>),
    Unknown,
}

#[derive(Debug, Clone, Copy, PartialEq)]
pub enum Visibility {
    Public,
    Private,
}

#[derive(Debug, PartialEq)]
pub enum Stmt {
    Let { name: String, typ: Option<Type>, value: Box<Expr>, span: Span },
    FnDef {
        visibility: Visibility,
        name: String,
        params: Vec<(String, Type)>,
        return_type: Option<Type>,
        body: Block,
        span: Span,
    },
    FnDecl {
        visibility: Visibility,
        name: String,
        params: Vec<(String, Type)>,
        return_type: Option<Type>,
        span: Span,
    },
    Include { path: String, span: Span },
    EnumDef { name: String, variants: Vec<String>, span: Span },
    Expr(Box<Expr>),
}

#[derive(Debug, PartialEq)]
pub struct Block {
    pub stmts: Vec<Stmt>,
    pub span: Span,
}

#[derive(Debug, PartialEq)]
pub enum Expr {
    Literal(Literal),
    Variable(String),
    BinaryOp { left: Box<Expr>, op: BinOp, right: Box<Expr>, span: Span },
    Call { callee: Box<Expr>, args: Vec<Expr>, span: Span },
    ArrayInit { elements: Vec<Expr>, span: Span },
    /// `array[index]`: reads an element (and, on the right of `$~`, writes it).
    Index { array: Box<Expr>, index: Box<Expr>, span: Span },
    If { condition: Box<Expr>, then_branch: Block, else_branch: Option<Block>, span: Span },
}

#[derive(Debug, PartialEq)]
pub enum Literal {
    Int(String),
    Float(String),
    String(String),
    Bool(bool),
    NoneLit,
}

#[derive(Debug, Clone, Copy, PartialEq, Eq)]
pub enum BinOp {
    Add,
    Sub,
    Mul,
    Div,
    Mod,
    Eq,
    Neq,
    Lt,
    Gt,
    Le,
    Ge,
    Spaceship,
    HashEqEq,
    PipeEq,
    TildeEq,
    At,
    AtSlash,
    AtEq,
    MinusEq,
    SyncAssign,
}

#[derive(Debug, PartialEq)]
pub struct Program {
    pub stmts: Vec<Stmt>,
}

// ---------------------------------------------------------------------------
// Mathematical models of the syntax tree: strings become character sequences
// and vectors become sequences.
// ---------------------------------------------------------------------------

pub enum TypeV {
    I32,
    I64,
    U32,
    U64,
    F32,
    F64,
    Bool,
    Array(Box<TypeV>, Option<usize>),
    Custom(Seq<char>),
    Pointer(Box<TypeV>),
    Unknown,
}

pub enum LiteralV {
    Int(Seq<char>),
    Float(Seq<char>),
    Str(Seq<char>),
    Bool(bool),
    NoneLit,
}

pub enum ExprV {
    Literal(LiteralV),
    Variable(Seq<char>),
    BinaryOp { left: Box<ExprV>, op: BinOp, right: Box<ExprV>, span: Span },
    Call { callee: Box<ExprV>, args: Seq<ExprV>, span: Span },
    ArrayInit { elements: Seq<ExprV>, span: Span },
    Index { array: Box<ExprV>, index: Box<ExprV>, span: Span },
    If { condition: Box<ExprV>, then_branch: BlockV, else_branch: Option<BlockV>, span: Span },
}

pub struct BlockV {
    pub stmts: Seq<StmtV>,
    pub span: Span,
}

pub enum StmtV {
    Let { name: Seq<char>, typ: Option<TypeV>, value: Box<ExprV>, span: Span },
    FnDef {
        visibility: Visibility,
        name: Seq<char>,
        params: Seq<(Seq<char>, TypeV)>,
        return_type: Option<TypeV>,
        body: BlockV,
        span: Span,
    },
    FnDecl {
        visibility: Visibility,
        name: Seq<char>,
        params: Seq<(Seq<char>, TypeV)>,
        return_type: Option<TypeV>,
        span: Span,
    },
    Include { path: Seq<char>, span: Span },
    EnumDef { name: Seq<char>, variants: Seq<Seq<char>>, span: Span },
    Expr(Box<ExprV>),
}

pub open spec fn type_view(t: Type) -> TypeV
    decreases t,
{
    match t {
        Type::I32 => TypeV::I32,
        Type::I64 => TypeV::I64,
        Type::U32 => TypeV::U32,
        Type::U64 => TypeV::U64,
        Type::F32 => TypeV::F32,
        Type::F64 => TypeV::F64,
        Type::Bool => TypeV::Bool,
        Type::Array(e, n) => TypeV::Array(Box::new(type_view(*e)), n),
        Type::Custom(s) => TypeV::Custom(s@),
        Type::Pointer(e) => TypeV::Pointer(Box::new(type_view(*e))),
        Type::Unknown => TypeV::Unknown,
    }
}

pub open spec fn opt_type_view(t: Option<Type>) -> Option<TypeV> {
    match t {
        Some(t) => Some(type_view(t)),
        None => None,
    }
}

pub open spec fn literal_view(l: Literal) -> LiteralV {
    match l {
        Literal::Int(s) => LiteralV::Int(s@),
        Literal::Float(s) => LiteralV::Float(s@),
        Literal::String(s) => LiteralV::Str(s@),
        Literal::Bool(b) => LiteralV::Bool(b),
        Literal::NoneLit => LiteralV::NoneLit,
    }
}

pub open spec fn params_view(p: Seq<(String, Type)>) -> Seq<(Seq<char>, TypeV)> {
    Seq::new(p.len(), |i: int| (p[i].0@, type_view(p[i].1)))
}

pub open spec fn strings_view(v: Seq<String>) -> Seq<Seq<char>> {
    Seq::new(v.len(), |i: int| v[i]@)
}

pub open spec fn expr_view(e: Expr) -> ExprV
    decreases e,
{
    match e {
        Expr::Literal(l) => ExprV::Literal(literal_view(l)),
        Expr::Variable(s) => ExprV::Variable(s@),
        Expr::BinaryOp { left, op, right, span } => ExprV::BinaryOp {
            left: Box::new(expr_view(*left)),
            op,
            right: Box::new(expr_view(*right)),
            span,
        },
        Expr::Call { callee, args, span } => ExprV::Call {
            callee: Box::new(expr_view(*callee)),
            args: exprs_view(args@),
            span,
        },
        Expr::ArrayInit { elements, span } => ExprV::ArrayInit {
            elements: exprs_view(elements@),
            span,
        },
        Expr::Index { array, index, span } => ExprV::Index {
            array: Box::new(expr_view(*array)),
            index: Box::new(expr_view(*index)),
            span,
        },
        Expr::If { condition, then_branch, else_branch, span } => ExprV::If {
            condition: Box::new(expr_view(*condition)),
            then_branch: block_view(then_branch),
            else_branch: match else_branch {
                Some(b) => Some(block_view(b)),
                None => None,
            },
            span,
        },
    }
}

pub open spec fn exprs_view(s: Seq<Expr>) -> Seq<ExprV>
    decreases s,
{
    if s.len() == 0 {
        Seq::empty()
    } else {
        exprs_view(s.drop_last()).push(expr_view(s.last()))
    }
}

pub open spec fn block_view(b: Block) -> BlockV
    decreases b,
{
    BlockV { stmts: stmts_view(b.stmts@), span: b.span }
}

pub open spec fn stmt_view(s: Stmt) -> StmtV
    decreases s,
{
    match s {
        Stmt::Let { name, typ, value, span } => StmtV::Let {
            name: name@,
            typ: opt_type_view(typ),
            value: Box::new(expr_view(*value)),
            span,
        },
        Stmt::FnDef { visibility, name, params, return_type, body, span } => StmtV::FnDef {
            visibility,
            name: name@,
            params: params_view(params@),
            return_type: opt_type_view(return_type),
            body: block_view(body),
            span,
        },
        Stmt::FnDecl { visibility, name, params, return_type, span } => StmtV::FnDecl {
            visibility,
            name: name@,
            params: params_view(params@),
            return_type: opt_type_view(return_type),
            span,
        },
        Stmt::Include { path, span } => StmtV::Include { path: path@, span },
        Stmt::EnumDef { name, variants, span } => StmtV::EnumDef {
            name: name@,
            variants: strings_view(variants@),
            span,
        },
        Stmt::Expr(e) => StmtV::Expr(Box::new(expr_view(*e))),
    }
}

pub open spec fn stmts_view(s: Seq<Stmt>) -> Seq<StmtV>
    decreases s,
{
    if s.len() == 0 {
        Seq::empty()
    } else {
        stmts_view(s.drop_last()).push(stmt_view(s.last()))
    }
}

pub open spec fn program_view(p: Program) -> Seq<StmtV> {
    stmts_view(p.stmts@)
}

pub proof fn lemma_exprs_view(s: Seq<Expr>)
    ensures
        exprs_view(s).len() == s.len(),
        forall|i: int| 0 <= i < s.len() ==> #[trigger] exprs_view(s)[i] == expr_view(s[i]),
    decreases s.len(),
{
    if s.len() > 0 {
        lemma_exprs_view(s.drop_last());
    }
}

pub proof fn lemma_stmts_view(s: Seq<Stmt>)
    ensures
        stmts_view(s).len() == s.len(),
        forall|i: int| 0 <= i < s.len() ==> #[trigger] stmts_view(s)[i] == stmt_view(s[i]),
    decreases s.len(),
{
    if s.len() > 0 {
        lemma_stmts_view(s.drop_last());
    }
}

// ---------------------------------------------------------------------------
// Cloning (written out by hand: the types are recursive through `Box`).
// ---------------------------------------------------------------------------

impl Clone for Type {
    fn clone(&self) -> (r: Self)
        ensures
            r == *self,
        decreases self,
    {
        match self {
            Type::I32 => Type::I32,
            Type::I64 => Type::I64,
            Type::U32 => Type::U32,
            Type::U64 => Type::U64,
            Type::F32 => Type::F32,
            Type::F64 => Type::F64,
            Type::Bool => Type::Bool,
            Type::Array(t, n) => Type::Array(Box::new((**t).clone()), *n),
            Type::Custom(s) => Type::Custom(s.clone()),
            Type::Pointer(t) => Type::Pointer(Box::new((**t).clone())),
            Type::Unknown => Type::Unknown,
        }
    }
}

impl Expr {
    /// The source position recorded in the expression, for the variants that carry one.
    pub fn span(&self) -> (r: Option<Span>)
        ensures
            r == match *self {
                Expr::BinaryOp { span, .. } => Some(span),
                Expr::Call { span, .. } => Some(span),
                Expr::ArrayInit { span, .. } => Some(span),
                Expr::Index { span, .. } => Some(span),
                Expr::If { span, .. } => Some(span),
                _ => None,
            },
    {
        match self {
            Expr::BinaryOp { span, .. } => Some(*span),
            Expr::Call { span, .. } => Some(*span),
            Expr::ArrayInit { span, .. } => Some(*span),
            Expr::Index { span, .. } => Some(*span),
            Expr::If { span, .. } => Some(*span),
            _ => None,
        }
    }
}

} // verus!
