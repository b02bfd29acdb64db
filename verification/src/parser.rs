//! The parser: a recursive-descent parser with precedence climbing for
//! binary operators and statement-level error recovery.
use vstd::prelude::*;
use vstd::string::*;
use crate::ast;
use crate::ast::{
    Type, TypeV, Visibility, Stmt, StmtV, Block, BlockV, Expr, ExprV, Literal, LiteralV, BinOp, Program,
};
use crate::lexer;
use crate::lexer::{Lexer, Token, TokenKind, KindV, TokV, Span};
use crate::numlit;
use crate::text;
use crate::text::{push_str, push_debug_str, str_chars, str_eq};

verus! {

#[derive(Debug)]
pub struct ParseError {
    pub message: String,
    pub span: Span,
}

impl Clone for ParseError {
    fn clone(&self) -> (r: Self)
        ensures
            r == *self,
    {
        ParseError { message: self.message.clone(), span: self.span }
    }
}

/// A parse error of the model.
pub type PErrV = (Seq<char>, Span);

pub open spec fn perr_view(e: ParseError) -> PErrV {
    (e.message@, e.span)
}

pub open spec fn perrs_view(v: Seq<ParseError>) -> Seq<PErrV> {
    Seq::new(v.len(), |i: int| perr_view(v[i]))
}

#[derive(Debug, Clone, Copy, PartialEq, Eq)]
enum Associativity {
    Left,
    Right,
}

// ---------------------------------------------------------------------------
// Debug text of token kinds
// ---------------------------------------------------------------------------

/// What `{:?}` prints for a token kind.
#[verifier::opaque]
pub open spec fn kind_debug(k: KindV) -> Seq<char> {
    match k {
        KindV::Identifier(s) => "Identifier("@ + text::debug_str(s) + ")"@,
        KindV::KwPublic => "KwPublic"@,
        KindV::KwFn => "KwFn"@,
        KindV::KwLet => "KwLet"@,
        KindV::KwIf => "KwIf"@,
        KindV::KwElse => "KwElse"@,
        KindV::KwWhile => "KwWhile"@,
        KindV::KwFor => "KwFor"@,
        KindV::KwIn => "KwIn"@,
        KindV::KwRange => "KwRange"@,
        KindV::KwEnum => "KwEnum"@,
        KindV::KwSelf => "KwSelf"@,
        KindV::KwEnd => "KwEnd"@,
        KindV::KwTrue => "KwTrue"@,
        KindV::KwFalse => "KwFalse"@,
        KindV::KwNone => "KwNone"@,
        KindV::KwInclude => "KwInclude"@,
        KindV::IntLiteral(s) => "IntLiteral("@ + text::debug_str(s) + ")"@,
        KindV::FloatLiteral(s) => "FloatLiteral("@ + text::debug_str(s) + ")"@,
        KindV::StringLiteral(s) => "StringLiteral("@ + text::debug_str(s) + ")"@,
        KindV::RawStringLiteral(s) => "RawStringLiteral("@ + text::debug_str(s) + ")"@,
        KindV::CharLiteral(s) => "CharLiteral("@ + text::debug_str(s) + ")"@,
        KindV::Spaceship => "Spaceship"@,
        KindV::HashEqEq => "HashEqEq"@,
        KindV::DollarTilde => "DollarTilde"@,
        KindV::FatArrow => "FatArrow"@,
        KindV::ThinArrow => "ThinArrow"@,
        KindV::PipeEq => "PipeEq"@,
        KindV::TildeEq => "TildeEq"@,
        KindV::ColonEq => "ColonEq"@,
        KindV::AtSlash => "AtSlash"@,
        KindV::AtEq => "AtEq"@,
        KindV::MinusEq => "MinusEq"@,
        KindV::EqEq => "EqEq"@,
        KindV::NotEq => "NotEq"@,
        KindV::LessEq => "LessEq"@,
        KindV::GreaterEq => "GreaterEq"@,
        KindV::At => "At"@,
        KindV::Question => "Question"@,
        KindV::Plus => "Plus"@,
        KindV::Minus => "Minus"@,
        KindV::Star => "Star"@,
        KindV::Slash => "Slash"@,
        KindV::Percent => "Percent"@,
        KindV::Eq => "Eq"@,
        KindV::Less => "Less"@,
        KindV::Greater => "Greater"@,
        KindV::Tilde => "Tilde"@,
        KindV::Pipe => "Pipe"@,
        KindV::Ampersand => "Ampersand"@,
        KindV::Hash => "Hash"@,
        KindV::Dollar => "Dollar"@,
        KindV::LParen => "LParen"@,
        KindV::RParen => "RParen"@,
        KindV::LBrace => "LBrace"@,
        KindV::RBrace => "RBrace"@,
        KindV::LBracket => "LBracket"@,
        KindV::RBracket => "RBracket"@,
        KindV::Comma => "Comma"@,
        KindV::Semicolon => "Semicolon"@,
        KindV::Colon => "Colon"@,
        KindV::Dot => "Dot"@,
        KindV::Comment(s) => "Comment("@ + text::debug_str(s) + ")"@,
        KindV::Whitespace(s) => "Whitespace("@ + text::debug_str(s) + ")"@,
        KindV::Eof => "Eof"@,
    }
}

// ---------------------------------------------------------------------------
// The grammar, as functions of the token sequence `t`, the position `p` and
// the errors `es` reported so far. Each returns its result, the position
// after it and the errors after it. A step that would not move forward is
// cut short (`stuck`); the parser itself always moves forward there.
// ---------------------------------------------------------------------------

pub type PRes<T> = (Result<T, PErrV>, int, Seq<PErrV>);

pub open spec fn stuck<T>(p: int, es: Seq<PErrV>) -> PRes<T> {
    (Err((seq![], Span { start: 0, end: 0 })), p, es)
}

pub open spec fn pk(t: Seq<TokV>, p: int) -> KindV {
    if 0 <= p < t.len() {
        t[p].kind
    } else {
        KindV::Eof
    }
}

pub open spec fn psp(t: Seq<TokV>, p: int) -> Span {
    if 0 <= p < t.len() {
        t[p].span
    } else {
        Span { start: 0, end: 0 }
    }
}

pub open spec fn adv(t: Seq<TokV>, p: int) -> int {
    if 0 <= p < t.len() {
        p + 1
    } else {
        p
    }
}

pub open spec fn msg_expected(expected: KindV, found: KindV) -> Seq<char> {
    "Expected "@ + kind_debug(expected) + ", found "@ + kind_debug(found)
}

pub open spec fn expect_s(t: Seq<TokV>, p: int, es: Seq<PErrV>, k: KindV) -> PRes<()> {
    if pk(t, p) == k {
        (Ok(()), adv(t, p), es)
    } else {
        let e = (msg_expected(k, pk(t, p)), psp(t, p));
        (Err(e), p, es.push(e))
    }
}

/// Error recovery: skips to just after the next `;` or `}` (or to the end).
pub open spec fn sync_s(t: Seq<TokV>, p: int) -> int
    decreases t.len() - p,
{
    if p < 0 || p >= t.len() || pk(t, p) == KindV::Eof {
        p
    } else if pk(t, p) == KindV::Semicolon || pk(t, p) == KindV::RBrace {
        p + 1
    } else {
        sync_s(t, p + 1)
    }
}

/// Binary operators: operator, precedence and whether it groups to the left.
pub open spec fn infix_info(k: KindV) -> Option<(BinOp, u8, bool)> {
    match k {
        KindV::DollarTilde => Some((BinOp::SyncAssign, 10, false)),
        KindV::ColonEq => Some((BinOp::TildeEq, 15, false)),
        KindV::Spaceship => Some((BinOp::Spaceship, 20, true)),
        KindV::HashEqEq => Some((BinOp::HashEqEq, 20, true)),
        KindV::EqEq => Some((BinOp::Eq, 20, true)),
        KindV::NotEq => Some((BinOp::Neq, 20, true)),
        KindV::Less => Some((BinOp::Lt, 20, true)),
        KindV::Greater => Some((BinOp::Gt, 20, true)),
        KindV::LessEq => Some((BinOp::Le, 20, true)),
        KindV::GreaterEq => Some((BinOp::Ge, 20, true)),
        KindV::PipeEq => Some((BinOp::PipeEq, 30, true)),
        KindV::TildeEq => Some((BinOp::TildeEq, 30, true)),
        KindV::Plus => Some((BinOp::Add, 40, true)),
        KindV::Minus => Some((BinOp::Sub, 40, true)),
        KindV::Star => Some((BinOp::Mul, 50, true)),
        KindV::Slash => Some((BinOp::Div, 50, true)),
        KindV::Percent => Some((BinOp::Mod, 50, true)),
        KindV::At => Some((BinOp::At, 60, true)),
        KindV::AtSlash => Some((BinOp::AtSlash, 60, true)),
        KindV::AtEq => Some((BinOp::AtEq, 60, true)),
        KindV::MinusEq => Some((BinOp::MinusEq, 60, true)),
        _ => None,
    }
}

/// The text between the outermost double quotes (all leading and trailing `"` removed).
pub open spec fn trim_quotes_start(s: Seq<char>) -> Seq<char>
    decreases s.len(),
{
    if s.len() > 0 && s[0] == '"' {
        trim_quotes_start(s.drop_first())
    } else {
        s
    }
}

pub open spec fn trim_quotes_end(s: Seq<char>) -> Seq<char>
    decreases s.len(),
{
    if s.len() > 0 && s.last() == '"' {
        trim_quotes_end(s.drop_last())
    } else {
        s
    }
}

pub open spec fn trim_quotes(s: Seq<char>) -> Seq<char> {
    trim_quotes_end(trim_quotes_start(s))
}

pub open spec fn named_type(n: Seq<char>) -> TypeV {
    if n == "i32"@ {
        TypeV::I32
    } else if n == "i64"@ {
        TypeV::I64
    } else if n == "u32"@ {
        TypeV::U32
    } else if n == "u64"@ {
        TypeV::U64
    } else if n == "f32"@ {
        TypeV::F32
    } else if n == "f64"@ {
        TypeV::F64
    } else if n == "bool"@ {
        TypeV::Bool
    } else if n == "Self"@ {
        TypeV::Custom("Self"@)
    } else {
        TypeV::Custom(n)
    }
}

/// `usize::from_str` on a decimal text.
pub open spec fn parse_usize_spec(s: Seq<char>) -> Option<usize> {
    match numlit::u64_from_radix_spec(s, 10) {
        Some(v) => if v <= usize::MAX { Some(v as usize) } else { None },
        None => None,
    }
}

pub open spec fn not_underscore_pred() -> spec_fn(char) -> bool {
    |c: char| c != '_'
}

pub open spec fn type_s(t: Seq<TokV>, p: int, es: Seq<PErrV>) -> PRes<TypeV>
    decreases t.len() - p,
{
    if p < 0 || p > t.len() {
        stuck(p, es)
    } else if pk(t, p) == KindV::LBracket {
        let (r1, p1, es1) = type_s(t, p + 1, es);
        match r1 {
            Err(e) => (Err(e), p1, es1),
            Ok(elem) => {
                let (r2, p2, es2) = expect_s(t, p1, es1, KindV::Semicolon);
                match r2 {
                    Err(e) => (Err(e), p2, es2),
                    Ok(_) => match pk(t, p2) {
                        KindV::IntLiteral(n) => match parse_usize_spec(n.filter(not_underscore_pred())) {
                            None => (
                                Err(("Nieprawidłowy rozmiar tablicy: "@ + text::debug_str(n), psp(t, p2))),
                                p2,
                                es2,
                            ),
                            Some(v) => {
                                let (r3, p3, es3) = expect_s(t, adv(t, p2), es2, KindV::RBracket);
                                match r3 {
                                    Err(e) => (Err(e), p3, es3),
                                    Ok(_) => (Ok(TypeV::Array(Box::new(elem), Some(v))), p3, es3),
                                }
                            },
                        },
                        _ => (Err(("Expected array size (integer literal)"@, psp(t, p2))), p2, es2),
                    },
                }
            },
        }
    } else {
        match pk(t, p) {
            KindV::Identifier(n) => (Ok(named_type(n)), p + 1, es),
            _ => (Err(("Expected type"@, psp(t, p))), p, es),
        }
    }
}

pub open spec fn lit_expr(l: LiteralV) -> ExprV {
    ExprV::Literal(l)
}

/// Expressions (rank 1): a prefix expression, then binary operators that bind at least `min`.
pub open spec fn expr_s(t: Seq<TokV>, p: int, es: Seq<PErrV>, min: u8) -> PRes<ExprV>
    decreases t.len() - p, 2nat,
{
    if p < 0 || p > t.len() {
        stuck(p, es)
    } else {
        let (r1, p1, es1) = prefix_s(t, p, es);
        match r1 {
            Err(e) => (Err(e), p1, es1),
            Ok(left) => if p < p1 <= t.len() {
                infix_s(t, p1, es1, left, min)
            } else {
                stuck(p1, es1)
            },
        }
    }
}

/// The operator loop of precedence climbing.
pub open spec fn infix_s(t: Seq<TokV>, p: int, es: Seq<PErrV>, left: ExprV, min: u8) -> PRes<ExprV>
    decreases t.len() - p, 6nat,
{
    if p < 0 || p > t.len() {
        stuck(p, es)
    } else {
        match infix_info(pk(t, p)) {
            None => (Ok(left), p, es),
            Some((op, prec, left_assoc)) => if prec < min {
                (Ok(left), p, es)
            } else {
                let next_min: u8 = if left_assoc { (prec + 1) as u8 } else { prec };
                let (r2, p2, es2) = expr_s(t, p + 1, es, next_min);
                match r2 {
                    Err(e) => (Err(e), p2, es2),
                    Ok(right) => if p < p2 <= t.len() {
                        infix_s(
                            t,
                            p2,
                            es2,
                            ExprV::BinaryOp {
                                left: Box::new(left),
                                op,
                                right: Box::new(right),
                                span: psp(t, p),
                            },
                            min,
                        )
                    } else {
                        stuck(p2, es2)
                    },
                }
            },
        }
    }
}

/// Primary expressions (rank 0): literals, variables, calls, `if`, parentheses, array literals.
pub open spec fn primary_s(t: Seq<TokV>, p: int, es: Seq<PErrV>) -> PRes<ExprV>
    decreases t.len() - p, 0nat,
{
    if p < 0 || p > t.len() {
        stuck(p, es)
    } else {
        let span = psp(t, p);
        match pk(t, p) {
            KindV::Identifier(n) => {
                if pk(t, p + 1) == KindV::Dollar {
                    let (r1, p1, es1) = expect_s(t, p + 2, es, KindV::LParen);
                    match r1 {
                        Err(e) => (Err(e), p1, es1),
                        Ok(_) => {
                            let (r2, p2, es2) = args_s(t, p1, es1);
                            match r2 {
                                Err(e) => (Err(e), p2, es2),
                                Ok(args) => {
                                    let (r3, p3, es3) = expect_s(t, p2, es2, KindV::RParen);
                                    match r3 {
                                        Err(e) => (Err(e), p3, es3),
                                        Ok(_) => (
                                            Ok(ExprV::Call { callee: Box::new(ExprV::Variable(n)), args, span }),
                                            p3,
                                            es3,
                                        ),
                                    }
                                },
                            }
                        },
                    }
                } else {
                    (Ok(ExprV::Variable(n)), p + 1, es)
                }
            },
            KindV::IntLiteral(n) => (Ok(lit_expr(LiteralV::Int(n))), p + 1, es),
            KindV::FloatLiteral(n) => (Ok(lit_expr(LiteralV::Float(n))), p + 1, es),
            KindV::StringLiteral(n) => (Ok(lit_expr(LiteralV::Str(n))), p + 1, es),
            KindV::RawStringLiteral(n) => (Ok(lit_expr(LiteralV::Str(n))), p + 1, es),
            KindV::KwTrue => (Ok(lit_expr(LiteralV::Bool(true))), p + 1, es),
            KindV::KwFalse => (Ok(lit_expr(LiteralV::Bool(false))), p + 1, es),
            KindV::KwNone => (Ok(lit_expr(LiteralV::NoneLit)), p + 1, es),
            KindV::KwIf => if_s(t, p + 1, es, span),
            KindV::LParen => {
                let (r1, p1, es1) = expr_s(t, p + 1, es, 0);
                match r1 {
                    Err(e) => (Err(e), p1, es1),
                    Ok(x) => {
                        let (r2, p2, es2) = expect_s(t, p1, es1, KindV::RParen);
                        match r2 {
                            Err(e) => (Err(e), p2, es2),
                            Ok(_) => (Ok(x), p2, es2),
                        }
                    },
                }
            },
            KindV::LBracket => {
                let (r1, p1, es1) = if pk(t, p + 1) != KindV::RBracket {
                    list_s(t, p + 1, es, seq![])
                } else {
                    (Ok(seq![]), p + 1, es)
                };
                match r1 {
                    Err(e) => (Err(e), p1, es1),
                    Ok(elements) => {
                        let (r2, p2, es2) = expect_s(t, p1, es1, KindV::RBracket);
                        match r2 {
                            Err(e) => (Err(e), p2, es2),
                            Ok(_) => (Ok(ExprV::ArrayInit { elements, span }), p2, es2),
                        }
                    },
                }
            },
            _ => (Err(("Unexpected token in expression: "@ + kind_debug(pk(t, p)), span)), p, es),
        }
    }
}

/// Prefix expressions (rank 1): a primary expression followed by any number of `[index]` suffixes.
pub open spec fn prefix_s(t: Seq<TokV>, p: int, es: Seq<PErrV>) -> PRes<ExprV>
    decreases t.len() - p, 1nat,
{
    if p < 0 || p > t.len() {
        stuck(p, es)
    } else {
        let (rb, pb, esb) = primary_s(t, p, es);
        match rb {
            Err(e) => (Err(e), pb, esb),
            Ok(base) => if p < pb <= t.len() {
                index_s(t, pb, esb, base)
            } else {
                stuck(pb, esb)
            },
        }
    }
}

/// Postfix indexing `base[index]`, repeated.
pub open spec fn index_s(t: Seq<TokV>, p: int, es: Seq<PErrV>, base: ExprV) -> PRes<ExprV>
    decreases t.len() - p, 7nat,
{
    if p < 0 || p > t.len() {
        stuck(p, es)
    } else if pk(t, p) == KindV::LBracket {
        let (r1, p1, es1) = expr_s(t, p + 1, es, 0);
        match r1 {
            Err(e) => (Err(e), p1, es1),
            Ok(index) => {
                let (r2, p2, es2) = expect_s(t, p1, es1, KindV::RBracket);
                match r2 {
                    Err(e) => (Err(e), p2, es2),
                    Ok(_) => if p < p2 <= t.len() {
                        index_s(
                            t,
                            p2,
                            es2,
                            ExprV::Index { array: Box::new(base), index: Box::new(index), span: psp(t, p) },
                        )
                    } else {
                        stuck(p2, es2)
                    },
                }
            },
        }
    } else {
        (Ok(base), p, es)
    }
}

/// A comma-separated list of at least one expression (rank 2).
pub open spec fn list_s(t: Seq<TokV>, p: int, es: Seq<PErrV>, acc: Seq<ExprV>) -> PRes<Seq<ExprV>>
    decreases t.len() - p, 3nat,
{
    if p < 0 || p > t.len() {
        stuck(p, es)
    } else {
        let (r1, p1, es1) = expr_s(t, p, es, 0);
        match r1 {
            Err(e) => (Err(e), p1, es1),
            Ok(x) => if pk(t, p1) == KindV::Comma {
                if p < p1 + 1 <= t.len() {
                    list_s(t, p1 + 1, es1, acc.push(x))
                } else {
                    stuck(p1, es1)
                }
            } else {
                (Ok(acc.push(x)), p1, es1)
            },
        }
    }
}

/// Call arguments: empty before `)`, else a list.
pub open spec fn args_s(t: Seq<TokV>, p: int, es: Seq<PErrV>) -> PRes<Seq<ExprV>>
    decreases t.len() - p, 4nat,
{
    if pk(t, p) != KindV::RParen {
        list_s(t, p, es, seq![])
    } else {
        (Ok(seq![]), p, es)
    }
}

/// `if cond { ... } else { ... }` after the `if` (rank 2).
pub open spec fn if_s(t: Seq<TokV>, p: int, es: Seq<PErrV>, span: Span) -> PRes<ExprV>
    decreases t.len() - p, 3nat,
{
    if p < 0 || p > t.len() {
        stuck(p, es)
    } else {
        let (r1, p1, es1) = expr_s(t, p, es, 0);
        match r1 {
            Err(e) => (Err(e), p1, es1),
            Ok(condition) => if p < p1 <= t.len() {
                let (r2, p2, es2) = block_s(t, p1, es1);
                match r2 {
                    Err(e) => (Err(e), p2, es2),
                    Ok(then_branch) => if pk(t, p2) == KindV::KwElse {
                        if p < p2 + 1 <= t.len() {
                            let (r3, p3, es3) = block_s(t, p2 + 1, es2);
                            match r3 {
                                Err(e) => (Err(e), p3, es3),
                                Ok(b) => (
                                    Ok(ExprV::If { condition: Box::new(condition), then_branch, else_branch: Some(b), span }),
                                    p3,
                                    es3,
                                ),
                            }
                        } else {
                            stuck(p2, es2)
                        }
                    } else {
                        (Ok(ExprV::If { condition: Box::new(condition), then_branch, else_branch: None, span }), p2, es2)
                    },
                }
            } else {
                stuck(p1, es1)
            },
        }
    }
}

/// `{ statements }` (rank 0).
pub open spec fn block_s(t: Seq<TokV>, p: int, es: Seq<PErrV>) -> PRes<BlockV>
    decreases t.len() - p, 0nat,
{
    if p < 0 || p > t.len() {
        stuck(p, es)
    } else {
        let span = psp(t, p);
        let (r1, p1, es1) = expect_s(t, p, es, KindV::LBrace);
        match r1 {
            Err(e) => (Err(e), p1, es1),
            Ok(_) => if p < p1 <= t.len() {
                let (ss, p2, es2) = stmts_s(t, p1, es1, seq![], false);
                let (r3, p3, es3) = expect_s(t, p2, es2, KindV::RBrace);
                match r3 {
                    Err(e) => (Err(e), p3, es3),
                    Ok(_) => (Ok(BlockV { stmts: ss, span }), p3, es3),
                }
            } else {
                stuck(p1, es1)
            },
        }
    }
}

/// A sequence of statements up to the end (`top`) or up to `}` (in a block).
/// A statement that fails is dropped and the parser resynchronizes (rank 4).
pub open spec fn stmts_s(t: Seq<TokV>, p: int, es: Seq<PErrV>, acc: Seq<StmtV>, top: bool) -> (
    Seq<StmtV>,
    int,
    Seq<PErrV>,
)
    decreases t.len() - p, 5nat,
{
    if p < 0 || p > t.len() || pk(t, p) == KindV::Eof || (!top && pk(t, p) == KindV::RBrace) {
        (acc, p, es)
    } else {
        let (r1, p1, es1) = stmt_s(t, p, es);
        let (acc2, p2) = match r1 {
            Ok(st) => (acc.push(st), p1),
            Err(_) => (acc, sync_s(t, p1)),
        };
        if p < p2 <= t.len() {
            stmts_s(t, p2, es1, acc2, top)
        } else {
            (acc2, p2, es1)
        }
    }
}

/// A statement (rank 3).
pub open spec fn stmt_s(t: Seq<TokV>, p: int, es: Seq<PErrV>) -> PRes<StmtV>
    decreases t.len() - p, 4nat,
{
    if p < 0 || p > t.len() {
        stuck(p, es)
    } else {
        let span = psp(t, p);
        match pk(t, p) {
            KindV::KwPublic => if pk(t, p + 1) == KindV::KwFn {
                fn_s(t, p + 2, es, Visibility::Public, span)
            } else {
                (Err(("Expected 'fn' after 'public'"@, span)), p + 1, es)
            },
            KindV::KwFn => fn_s(t, p + 1, es, Visibility::Private, span),
            KindV::KwLet => let_s(t, p + 1, es, span),
            KindV::KwEnum => enum_s(t, p + 1, es, span),
            KindV::KwInclude => include_s(t, p + 1, es, span),
            _ => {
                let (r1, p1, es1) = expr_s(t, p, es, 0);
                match r1 {
                    Err(e) => (Err(e), p1, es1),
                    Ok(x) => {
                        let (r2, p2, es2) = expect_s(t, p1, es1, KindV::Semicolon);
                        match r2 {
                            Err(e) => (Err(e), p2, es2),
                            Ok(_) => (Ok(StmtV::Expr(Box::new(x))), p2, es2),
                        }
                    },
                }
            },
        }
    }
}

/// `let name [: type] = value;` after the `let` (rank 0).
pub open spec fn let_s(t: Seq<TokV>, p: int, es: Seq<PErrV>, span: Span) -> PRes<StmtV>
    decreases t.len() - p, 1nat,
{
    if p < 0 || p > t.len() {
        stuck(p, es)
    } else {
        match pk(t, p) {
            KindV::Identifier(name) => {
                let (rt, pt, est) = let_type_s(t, p + 1, es);
                match rt {
                    Err(e) => (Err(e), pt, est),
                    Ok(typ) => if p < pt <= t.len() {
                        let (rv, pv, esv) = let_value_s(t, pt, est);
                        match rv {
                            Err(e) => (Err(e), pv, esv),
                            Ok(value) => (Ok(StmtV::Let { name, typ, value: Box::new(value), span }), pv, esv),
                        }
                    } else {
                        stuck(pt, est)
                    },
                }
            },
            _ => (Err(("Expected identifier after let"@, span)), p, es),
        }
    }
}

/// The optional `: type` of a `let`.
pub open spec fn let_type_s(t: Seq<TokV>, p: int, es: Seq<PErrV>) -> PRes<Option<TypeV>> {
    if pk(t, p) == KindV::Colon {
        let (r1, p1, es1) = type_s(t, p + 1, es);
        match r1 {
            Err(e) => (Err(e), p1, es1),
            Ok(ty) => (Ok(Some(ty)), p1, es1),
        }
    } else {
        (Ok(None), p, es)
    }
}

/// `= value;` of a `let` (rank 0).
pub open spec fn let_value_s(t: Seq<TokV>, p: int, es: Seq<PErrV>) -> PRes<ExprV>
    decreases t.len() - p, 0nat,
{
    if p < 0 || p > t.len() {
        stuck(p, es)
    } else {
        let (r2, p2, es2) = expect_s(t, p, es, KindV::Eq);
        match r2 {
            Err(e) => (Err(e), p2, es2),
            Ok(_) => if p < p2 <= t.len() {
                let (r3, p3, es3) = expr_s(t, p2, es2, 0);
                match r3 {
                    Err(e) => (Err(e), p3, es3),
                    Ok(value) => {
                        let (r4, p4, es4) = expect_s(t, p3, es3, KindV::Semicolon);
                        match r4 {
                            Err(e) => (Err(e), p4, es4),
                            Ok(_) => (Ok(value), p4, es4),
                        }
                    },
                }
            } else {
                stuck(p2, es2)
            },
        }
    }
}

/// Parameters `name: type, ...` (at least one), up to where the list ends.
pub open spec fn params_s(t: Seq<TokV>, p: int, es: Seq<PErrV>, acc: Seq<(Seq<char>, TypeV)>) -> PRes<
    Seq<(Seq<char>, TypeV)>,
>
    decreases t.len() - p,
{
    if p < 0 || p > t.len() {
        stuck(p, es)
    } else {
        match pk(t, p) {
            KindV::Identifier(name) => {
                let (r1, p1, es1) = expect_s(t, p + 1, es, KindV::Colon);
                match r1 {
                    Err(e) => (Err(e), p1, es1),
                    Ok(_) => {
                        let (r2, p2, es2) = type_s(t, p1, es1);
                        match r2 {
                            Err(e) => (Err(e), p2, es2),
                            Ok(ty) => {
                                let acc2 = acc.push((name, ty));
                                if pk(t, p2) == KindV::Comma {
                                    if p < p2 + 1 <= t.len() {
                                        params_s(t, p2 + 1, es2, acc2)
                                    } else {
                                        stuck(p2, es2)
                                    }
                                } else {
                                    (Ok(acc2), p2, es2)
                                }
                            },
                        }
                    },
                }
            },
            _ => (Err(("Expected parameter name"@, psp(t, p))), p, es),
        }
    }
}

/// `name(params) [-> type] (; | block)` after `fn` (rank 0).
pub open spec fn fn_s(t: Seq<TokV>, p: int, es: Seq<PErrV>, vis: Visibility, span: Span) -> PRes<StmtV>
    decreases t.len() - p, 0nat,
{
    if p < 0 || p > t.len() {
        stuck(p, es)
    } else {
        match pk(t, p) {
            KindV::Identifier(name) => {
                let (r1, p1, es1) = expect_s(t, p + 1, es, KindV::LParen);
                match r1 {
                    Err(e) => (Err(e), p1, es1),
                    Ok(_) => {
                        let (r2, p2, es2) = if pk(t, p1) != KindV::RParen {
                            params_s(t, p1, es1, seq![])
                        } else {
                            (Ok(seq![]), p1, es1)
                        };
                        match r2 {
                            Err(e) => (Err(e), p2, es2),
                            Ok(params) => {
                                let (r3, p3, es3) = expect_s(t, p2, es2, KindV::RParen);
                                match r3 {
                                    Err(e) => (Err(e), p3, es3),
                                    Ok(_) => {
                                        let (r4, p4, es4) = if pk(t, p3) == KindV::ThinArrow {
                                            if p < p3 + 1 <= t.len() {
                                                let (ra, pa, esa) = type_s(t, p3 + 1, es3);
                                                match ra {
                                                    Err(e) => (Err(e), pa, esa),
                                                    Ok(ty) => (Ok(Some(ty)), pa, esa),
                                                }
                                            } else {
                                                stuck(p3, es3)
                                            }
                                        } else {
                                            (Ok(None), p3, es3)
                                        };
                                        match r4 {
                                            Err(e) => (Err(e), p4, es4),
                                            Ok(return_type) => if pk(t, p4) == KindV::Semicolon {
                                                (
                                                    Ok(StmtV::FnDecl { visibility: vis, name, params, return_type, span }),
                                                    adv(t, p4),
                                                    es4,
                                                )
                                            } else if p < p4 <= t.len() {
                                                let (r5, p5, es5) = block_s(t, p4, es4);
                                                match r5 {
                                                    Err(e) => (Err(e), p5, es5),
                                                    Ok(body) => (
                                                        Ok(
                                                            StmtV::FnDef {
                                                                visibility: vis,
                                                                name,
                                                                params,
                                                                return_type,
                                                                body,
                                                                span,
                                                            },
                                                        ),
                                                        p5,
                                                        es5,
                                                    ),
                                                }
                                            } else {
                                                stuck(p4, es4)
                                            },
                                        }
                                    },
                                }
                            },
                        }
                    },
                }
            },
            _ => (Err(("Expected function name"@, span)), p, es),
        }
    }
}

/// `include "path";` after `include`.
pub open spec fn include_s(t: Seq<TokV>, p: int, es: Seq<PErrV>, span: Span) -> PRes<StmtV> {
    match pk(t, p) {
        KindV::StringLiteral(s) => {
            let (r1, p1, es1) = expect_s(t, p + 1, es, KindV::Semicolon);
            match r1 {
                Err(e) => (Err(e), p1, es1),
                Ok(_) => (Ok(StmtV::Include { path: trim_quotes(s), span }), p1, es1),
            }
        },
        _ => (Err(("Expected string literal after 'include'"@, span)), p, es),
    }
}

/// The variants of an enum: identifiers, commas skipped, up to `}` or the end.
pub open spec fn variants_s(t: Seq<TokV>, p: int, acc: Seq<Seq<char>>) -> (Seq<Seq<char>>, int)
    decreases t.len() - p,
{
    if p < 0 || p >= t.len() || pk(t, p) == KindV::RBrace || pk(t, p) == KindV::Eof {
        (acc, p)
    } else {
        let (acc1, p1) = match pk(t, p) {
            KindV::Identifier(n) => (acc.push(n), p + 1),
            _ => (acc, p),
        };
        let p2 = if pk(t, p1) == KindV::Comma { adv(t, p1) } else { p1 };
        if p < p2 {
            variants_s(t, p2, acc1)
        } else {
            (acc1, p2)
        }
    }
}

/// `enum Name { A, B, ... }` after `enum`.
pub open spec fn enum_s(t: Seq<TokV>, p: int, es: Seq<PErrV>, span: Span) -> PRes<StmtV> {
    match pk(t, p) {
        KindV::Identifier(name) => {
            let (r1, p1, es1) = expect_s(t, p + 1, es, KindV::LBrace);
            match r1 {
                Err(e) => (Err(e), p1, es1),
                Ok(_) => {
                    let (vs, p2) = variants_s(t, p1, seq![]);
                    let (r3, p3, es3) = expect_s(t, p2, es1, KindV::RBrace);
                    match r3 {
                        Err(e) => (Err(e), p3, es3),
                        Ok(_) => (Ok(StmtV::EnumDef { name, variants: vs, span }), p3, es3),
                    }
                },
            }
        },
        _ => (Err(("Expected enum name"@, span)), p, es),
    }
}

/// Whether a token is kept by the parser (whitespace and comments are dropped).
pub open spec fn significant(t: TokV) -> bool {
    !(t.kind is Whitespace || t.kind is Comment)
}

/// The tokens of a sequence that are neither whitespace nor comments.
pub open spec fn keep_significant(t: Seq<TokV>) -> Seq<TokV>
    decreases t.len(),
{
    if t.len() == 0 {
        t
    } else {
        let r = keep_significant(t.drop_last());
        if significant(t.last()) {
            r.push(t.last())
        } else {
            r
        }
    }
}

/// The tokens the parser works on.
pub open spec fn parser_tokens(src: Seq<char>) -> Seq<TokV> {
    keep_significant(lexer::lex_all(src, 0)->Some_0)
}

/// The views of a sequence of tokens.
pub open spec fn toks_of(v: Seq<Token>) -> Seq<TokV> {
    Seq::new(v.len(), |i: int| lexer::token_view(v[i]))
}

/// No token of the sequence is the end marker.
pub open spec fn no_eof(t: Seq<TokV>) -> bool {
    forall|i: int| 0 <= i < t.len() ==> !(#[trigger] t[i].kind is Eof)
}

proof fn lemma_sync_progress(t: Seq<TokV>, q: int)
    requires
        0 <= q <= t.len(),
        no_eof(t),
    ensures
        sync_s(t, q) >= q,
        sync_s(t, q) <= t.len(),
        q < t.len() ==> sync_s(t, q) > q,
    decreases t.len() - q,
{
    if q < t.len() && !(pk(t, q) == KindV::Eof) && !(pk(t, q) == KindV::Semicolon || pk(t, q) == KindV::RBrace) {
        lemma_sync_progress(t, q + 1);
    }
}

/// The text with all leading and trailing `"` removed (`str::trim_matches`).
pub fn trim_quotes_str(s: &str) -> (r: String)
    ensures
        r@ == trim_quotes(s@),
{
    let c = str_chars(s);
    let n = c.len();
    let mut a: usize = 0;
    assert(s@.subrange(0, n as int) =~= s@);
    while a < n && c[a] == '"'
        invariant
            c@ == s@,
            n == c@.len(),
            a <= n,
            trim_quotes_start(s@) == trim_quotes_start(s@.subrange(a as int, n as int)),
        decreases n - a,
    {
        assert(s@.subrange(a as int, n as int).drop_first() =~= s@.subrange(a + 1, n as int));
        a = a + 1;
    }
    assert(trim_quotes_start(s@.subrange(a as int, n as int)) == s@.subrange(a as int, n as int));
    let mut b: usize = n;
    while b > a && c[b - 1] == '"'
        invariant
            c@ == s@,
            n == c@.len(),
            a <= b <= n,
            trim_quotes(s@) == trim_quotes_end(s@.subrange(a as int, b as int)),
        decreases b - a,
    {
        assert(s@.subrange(a as int, b as int).drop_last() =~= s@.subrange(a as int, b - 1));
        b = b - 1;
    }
    assert(trim_quotes_end(s@.subrange(a as int, b as int)) == s@.subrange(a as int, b as int));
    String::from_str(s.substring_char(a, b))
}

/// Equality of token kinds (payload texts compared by content).
fn kind_eq(a: &TokenKind, b: &TokenKind) -> (r: bool)
    ensures
        r == (lexer::kind_view(*a) == lexer::kind_view(*b)),
{
    match (a, b) {
        (TokenKind::Identifier(x), TokenKind::Identifier(y)) => str_eq(x, y),
        (TokenKind::KwPublic, TokenKind::KwPublic) => true,
        (TokenKind::KwFn, TokenKind::KwFn) => true,
        (TokenKind::KwLet, TokenKind::KwLet) => true,
        (TokenKind::KwIf, TokenKind::KwIf) => true,
        (TokenKind::KwElse, TokenKind::KwElse) => true,
        (TokenKind::KwWhile, TokenKind::KwWhile) => true,
        (TokenKind::KwFor, TokenKind::KwFor) => true,
        (TokenKind::KwIn, TokenKind::KwIn) => true,
        (TokenKind::KwRange, TokenKind::KwRange) => true,
        (TokenKind::KwEnum, TokenKind::KwEnum) => true,
        (TokenKind::KwSelf, TokenKind::KwSelf) => true,
        (TokenKind::KwEnd, TokenKind::KwEnd) => true,
        (TokenKind::KwTrue, TokenKind::KwTrue) => true,
        (TokenKind::KwFalse, TokenKind::KwFalse) => true,
        (TokenKind::KwNone, TokenKind::KwNone) => true,
        (TokenKind::KwInclude, TokenKind::KwInclude) => true,
        (TokenKind::IntLiteral(x), TokenKind::IntLiteral(y)) => str_eq(x, y),
        (TokenKind::FloatLiteral(x), TokenKind::FloatLiteral(y)) => str_eq(x, y),
        (TokenKind::StringLiteral(x), TokenKind::StringLiteral(y)) => str_eq(x, y),
        (TokenKind::RawStringLiteral(x), TokenKind::RawStringLiteral(y)) => str_eq(x, y),
        (TokenKind::CharLiteral(x), TokenKind::CharLiteral(y)) => str_eq(x, y),
        (TokenKind::Spaceship, TokenKind::Spaceship) => true,
        (TokenKind::HashEqEq, TokenKind::HashEqEq) => true,
        (TokenKind::DollarTilde, TokenKind::DollarTilde) => true,
        (TokenKind::FatArrow, TokenKind::FatArrow) => true,
        (TokenKind::ThinArrow, TokenKind::ThinArrow) => true,
        (TokenKind::PipeEq, TokenKind::PipeEq) => true,
        (TokenKind::TildeEq, TokenKind::TildeEq) => true,
        (TokenKind::ColonEq, TokenKind::ColonEq) => true,
        (TokenKind::AtSlash, TokenKind::AtSlash) => true,
        (TokenKind::AtEq, TokenKind::AtEq) => true,
        (TokenKind::MinusEq, TokenKind::MinusEq) => true,
        (TokenKind::EqEq, TokenKind::EqEq) => true,
        (TokenKind::NotEq, TokenKind::NotEq) => true,
        (TokenKind::LessEq, TokenKind::LessEq) => true,
        (TokenKind::GreaterEq, TokenKind::GreaterEq) => true,
        (TokenKind::At, TokenKind::At) => true,
        (TokenKind::Question, TokenKind::Question) => true,
        (TokenKind::Plus, TokenKind::Plus) => true,
        (TokenKind::Minus, TokenKind::Minus) => true,
        (TokenKind::Star, TokenKind::Star) => true,
        (TokenKind::Slash, TokenKind::Slash) => true,
        (TokenKind::Percent, TokenKind::Percent) => true,
        (TokenKind::Eq, TokenKind::Eq) => true,
        (TokenKind::Less, TokenKind::Less) => true,
        (TokenKind::Greater, TokenKind::Greater) => true,
        (TokenKind::Tilde, TokenKind::Tilde) => true,
        (TokenKind::Pipe, TokenKind::Pipe) => true,
        (TokenKind::Ampersand, TokenKind::Ampersand) => true,
        (TokenKind::Hash, TokenKind::Hash) => true,
        (TokenKind::Dollar, TokenKind::Dollar) => true,
        (TokenKind::LParen, TokenKind::LParen) => true,
        (TokenKind::RParen, TokenKind::RParen) => true,
        (TokenKind::LBrace, TokenKind::LBrace) => true,
        (TokenKind::RBrace, TokenKind::RBrace) => true,
        (TokenKind::LBracket, TokenKind::LBracket) => true,
        (TokenKind::RBracket, TokenKind::RBracket) => true,
        (TokenKind::Comma, TokenKind::Comma) => true,
        (TokenKind::Semicolon, TokenKind::Semicolon) => true,
        (TokenKind::Colon, TokenKind::Colon) => true,
        (TokenKind::Dot, TokenKind::Dot) => true,
        (TokenKind::Comment(x), TokenKind::Comment(y)) => str_eq(x, y),
        (TokenKind::Whitespace(x), TokenKind::Whitespace(y)) => str_eq(x, y),
        (TokenKind::Eof, TokenKind::Eof) => true,
        _ => false,
    }
}

/// Appends the `{:?}` text of a token kind.
fn push_kind_debug(out: &mut String, k: &TokenKind)
    ensures
        final(out)@ == old(out)@ + kind_debug(lexer::kind_view(*k)),
{
    proof {
        reveal(kind_debug);
    }
    match k {
        TokenKind::Identifier(s) => {
            push_str(out, "Identifier(");
            push_debug_str(out, s);
            push_str(out, ")");
            assert(final(out)@ =~= old(out)@ + kind_debug(lexer::kind_view(*k)));
        },
        TokenKind::KwPublic => push_str(out, "KwPublic"),
        TokenKind::KwFn => push_str(out, "KwFn"),
        TokenKind::KwLet => push_str(out, "KwLet"),
        TokenKind::KwIf => push_str(out, "KwIf"),
        TokenKind::KwElse => push_str(out, "KwElse"),
        TokenKind::KwWhile => push_str(out, "KwWhile"),
        TokenKind::KwFor => push_str(out, "KwFor"),
        TokenKind::KwIn => push_str(out, "KwIn"),
        TokenKind::KwRange => push_str(out, "KwRange"),
        TokenKind::KwEnum => push_str(out, "KwEnum"),
        TokenKind::KwSelf => push_str(out, "KwSelf"),
        TokenKind::KwEnd => push_str(out, "KwEnd"),
        TokenKind::KwTrue => push_str(out, "KwTrue"),
        TokenKind::KwFalse => push_str(out, "KwFalse"),
        TokenKind::KwNone => push_str(out, "KwNone"),
        TokenKind::KwInclude => push_str(out, "KwInclude"),
        TokenKind::IntLiteral(s) => {
            push_str(out, "IntLiteral(");
            push_debug_str(out, s);
            push_str(out, ")");
            assert(final(out)@ =~= old(out)@ + kind_debug(lexer::kind_view(*k)));
        },
        TokenKind::FloatLiteral(s) => {
            push_str(out, "FloatLiteral(");
            push_debug_str(out, s);
            push_str(out, ")");
            assert(final(out)@ =~= old(out)@ + kind_debug(lexer::kind_view(*k)));
        },
        TokenKind::StringLiteral(s) => {
            push_str(out, "StringLiteral(");
            push_debug_str(out, s);
            push_str(out, ")");
            assert(final(out)@ =~= old(out)@ + kind_debug(lexer::kind_view(*k)));
        },
        TokenKind::RawStringLiteral(s) => {
            push_str(out, "RawStringLiteral(");
            push_debug_str(out, s);
            push_str(out, ")");
            assert(final(out)@ =~= old(out)@ + kind_debug(lexer::kind_view(*k)));
        },
        TokenKind::CharLiteral(s) => {
            push_str(out, "CharLiteral(");
            push_debug_str(out, s);
            push_str(out, ")");
            assert(final(out)@ =~= old(out)@ + kind_debug(lexer::kind_view(*k)));
        },
        TokenKind::Spaceship => push_str(out, "Spaceship"),
        TokenKind::HashEqEq => push_str(out, "HashEqEq"),
        TokenKind::DollarTilde => push_str(out, "DollarTilde"),
        TokenKind::FatArrow => push_str(out, "FatArrow"),
        TokenKind::ThinArrow => push_str(out, "ThinArrow"),
        TokenKind::PipeEq => push_str(out, "PipeEq"),
        TokenKind::TildeEq => push_str(out, "TildeEq"),
        TokenKind::ColonEq => push_str(out, "ColonEq"),
        TokenKind::AtSlash => push_str(out, "AtSlash"),
        TokenKind::AtEq => push_str(out, "AtEq"),
        TokenKind::MinusEq => push_str(out, "MinusEq"),
        TokenKind::EqEq => push_str(out, "EqEq"),
        TokenKind::NotEq => push_str(out, "NotEq"),
        TokenKind::LessEq => push_str(out, "LessEq"),
        TokenKind::GreaterEq => push_str(out, "GreaterEq"),
        TokenKind::At => push_str(out, "At"),
        TokenKind::Question => push_str(out, "Question"),
        TokenKind::Plus => push_str(out, "Plus"),
        TokenKind::Minus => push_str(out, "Minus"),
        TokenKind::Star => push_str(out, "Star"),
        TokenKind::Slash => push_str(out, "Slash"),
        TokenKind::Percent => push_str(out, "Percent"),
        TokenKind::Eq => push_str(out, "Eq"),
        TokenKind::Less => push_str(out, "Less"),
        TokenKind::Greater => push_str(out, "Greater"),
        TokenKind::Tilde => push_str(out, "Tilde"),
        TokenKind::Pipe => push_str(out, "Pipe"),
        TokenKind::Ampersand => push_str(out, "Ampersand"),
        TokenKind::Hash => push_str(out, "Hash"),
        TokenKind::Dollar => push_str(out, "Dollar"),
        TokenKind::LParen => push_str(out, "LParen"),
        TokenKind::RParen => push_str(out, "RParen"),
        TokenKind::LBrace => push_str(out, "LBrace"),
        TokenKind::RBrace => push_str(out, "RBrace"),
        TokenKind::LBracket => push_str(out, "LBracket"),
        TokenKind::RBracket => push_str(out, "RBracket"),
        TokenKind::Comma => push_str(out, "Comma"),
        TokenKind::Semicolon => push_str(out, "Semicolon"),
        TokenKind::Colon => push_str(out, "Colon"),
        TokenKind::Dot => push_str(out, "Dot"),
        TokenKind::Comment(s) => {
            push_str(out, "Comment(");
            push_debug_str(out, s);
            push_str(out, ")");
            assert(final(out)@ =~= old(out)@ + kind_debug(lexer::kind_view(*k)));
        },
        TokenKind::Whitespace(s) => {
            push_str(out, "Whitespace(");
            push_debug_str(out, s);
            push_str(out, ")");
            assert(final(out)@ =~= old(out)@ + kind_debug(lexer::kind_view(*k)));
        },
        TokenKind::Eof => push_str(out, "Eof"),
    }
}


pub open spec fn unit_res(r: Result<(), ParseError>, rs: Result<(), PErrV>) -> bool {
    match (r, rs) {
        (Ok(_), Ok(_)) => true,
        (Err(a), Err(b)) => perr_view(a) == b,
        _ => false,
    }
}

pub open spec fn type_res(r: Result<Type, ParseError>, rs: Result<TypeV, PErrV>) -> bool {
    match (r, rs) {
        (Ok(a), Ok(b)) => ast::type_view(a) == b,
        (Err(a), Err(b)) => perr_view(a) == b,
        _ => false,
    }
}

pub open spec fn expr_res(r: Result<Expr, ParseError>, rs: Result<ExprV, PErrV>) -> bool {
    match (r, rs) {
        (Ok(a), Ok(b)) => ast::expr_view(a) == b,
        (Err(a), Err(b)) => perr_view(a) == b,
        _ => false,
    }
}

pub open spec fn exprs_res(r: Result<Vec<Expr>, ParseError>, rs: Result<Seq<ExprV>, PErrV>) -> bool {
    match (r, rs) {
        (Ok(a), Ok(b)) => ast::exprs_view(a@) == b,
        (Err(a), Err(b)) => perr_view(a) == b,
        _ => false,
    }
}

pub open spec fn block_res(r: Result<Block, ParseError>, rs: Result<BlockV, PErrV>) -> bool {
    match (r, rs) {
        (Ok(a), Ok(b)) => ast::block_view(a) == b,
        (Err(a), Err(b)) => perr_view(a) == b,
        _ => false,
    }
}

pub open spec fn stmt_res(r: Result<Stmt, ParseError>, rs: Result<StmtV, PErrV>) -> bool {
    match (r, rs) {
        (Ok(a), Ok(b)) => ast::stmt_view(a) == b,
        (Err(a), Err(b)) => perr_view(a) == b,
        _ => false,
    }
}

pub struct Parser<'src> {
    tokens: Vec<Token<'src>>,
    current: usize,
    pub errors: Vec<ParseError>,
}

impl<'src> Parser<'src> {
    /// The tokens being parsed.
    pub closed spec fn toks(&self) -> Seq<TokV> {
        toks_of(self.tokens@)
    }

    /// The index of the next token.
    pub closed spec fn pos(&self) -> int {
        self.current as int
    }

    /// The errors reported so far.
    pub closed spec fn errs(&self) -> Seq<PErrV> {
        perrs_view(self.errors@)
    }

    pub closed spec fn wf(&self) -> bool {
        &&& self.current <= self.tokens@.len()
        &&& forall|i: int| 0 <= i < self.tokens@.len() ==> !(#[trigger] self.tokens@[i].kind is Eof)
    }

    proof fn lemma_wf_no_eof(&self)
        requires
            self.wf(),
        ensures
            no_eof(self.toks()),
            self.pos() <= self.toks().len(),
    {
        assert forall|i: int| 0 <= i < self.toks().len() implies !(#[trigger] self.toks()[i].kind is Eof) by {
            assert(self.toks()[i] == lexer::token_view(self.tokens@[i]));
        }
    }

    /// A parser over the significant tokens of `source`, or `None` where the
    /// lexer reports an error or cannot lex the text.
    pub fn try_new(source: &'src str) -> (r: Option<Self>)
        ensures
            r is Some <==> lexer::lex_all(source@, 0) is Some,
            r matches Some(p) ==> {
                &&& p.wf()
                &&& p.toks() == parser_tokens(source@)
                &&& p.pos() == 0
                &&& p.errs() == Seq::<PErrV>::empty()
            },
    {
        let ghost s = source@;
        let mut lex = Lexer::new(source);
        let mut tokens: Vec<Token<'src>> = Vec::new();
        let ghost mut done: Seq<TokV> = seq![];
        proof {
            assert(done + lexer::lex_all(s, 0)->Some_0 =~= lexer::lex_all(s, 0)->Some_0);
            assert(toks_of(tokens@) =~= keep_significant(done));
        }
        loop
            invariant
                s == source@,
                lex.wf(),
                lex.text() == s,
                0 <= lex.pos() <= s.len(),
                lexer::lex_all(s, 0) == match lexer::lex_all(s, lex.pos()) {
                    Some(rest) => Some(done + rest),
                    None => None::<Seq<TokV>>,
                },
                toks_of(tokens@) == keep_significant(done),
                forall|k: int| 0 <= k < tokens@.len() ==> !(#[trigger] tokens@[k].kind is Eof),
            decreases s.len() - lex.pos(),
        {
            let ghost before = lex.pos();
            proof {
                lexer::lemma_lex_all_step(s, before);
            }
            if lex.next_fails_here() {
                return None;
            }
            proof {
                lexer::lemma_next_item_not_eof(s, before);
            }
            match lex.next() {
                None => {
                    assert(done + Seq::<TokV>::empty() =~= done);
                    let p = Self { tokens, current: 0, errors: Vec::new() };
                    proof {
                        assert(p.errs() =~= Seq::<PErrV>::empty());
                    }
                    return Some(p);
                },
                Some(Err(_)) => {
                    return None;
                },
                Some(Ok(t)) => {
                    let ghost tv = lexer::token_view(t);
                    let ghost rest = lexer::lex_all(s, lex.pos());
                    proof {
                        if rest is Some {
                            assert(done + (seq![tv] + rest->Some_0) =~= done.push(tv) + rest->Some_0);
                        }
                        assert(done.push(tv).drop_last() =~= done);
                    }
                    if !matches!(t.kind, TokenKind::Whitespace(_) | TokenKind::Comment(_)) {
                        let ghost prev = tokens@;
                        tokens.push(t);
                        proof {
                            assert(toks_of(tokens@) =~= toks_of(prev).push(tv));
                        }
                    }
                    proof {
                        done = done.push(tv);
                    }
                },
            }
        }
    }

    /// A parser over the significant tokens of `source`. Lexing must succeed.
    pub fn new(source: &'src str) -> (r: Self)
        requires
            lexer::lex_all(source@, 0) is Some,
        ensures
            r.wf(),
            r.toks() == parser_tokens(source@),
            r.pos() == 0,
            r.errs() == Seq::<PErrV>::empty(),
    {
        match Self::try_new(source) {
            Some(p) => p,
            None => {
                proof {
                    assert(false);
                }
                Self { tokens: Vec::new(), current: 0, errors: Vec::new() }
            },
        }
    }

    pub fn has_errors(&self) -> (r: bool)
        ensures
            r == (self.errs().len() > 0),
    {
        !self.errors.is_empty()
    }

    pub fn get_errors(&self) -> (r: &[ParseError])
        ensures
            perrs_view(r@) == self.errs(),
    {
        self.errors.as_slice()
    }

    fn peek(&self) -> (r: TokenKind<'src>)
        requires
            self.wf(),
        ensures
            lexer::kind_view(r) == pk(self.toks(), self.pos()),
            (r is Eof) <==> self.pos() >= self.toks().len(),
    {
        if self.current < self.tokens.len() {
            self.tokens[self.current].kind
        } else {
            TokenKind::Eof
        }
    }

    fn peek_span(&self) -> (r: Span)
        requires
            self.wf(),
        ensures
            r == psp(self.toks(), self.pos()),
    {
        if self.current < self.tokens.len() {
            self.tokens[self.current].span
        } else {
            Span { start: 0, end: 0 }
        }
    }

    fn advance(&mut self) -> (r: TokenKind<'src>)
        requires
            old(self).wf(),
        ensures
            final(self).wf(),
            final(self).toks() == old(self).toks(),
            final(self).errs() == old(self).errs(),
            final(self).pos() == adv(old(self).toks(), old(self).pos()),
            lexer::kind_view(r) == pk(final(self).toks(), final(self).pos()),
    {
        if self.current < self.tokens.len() {
            self.current = self.current + 1;
        }
        self.peek()
    }

    fn expect(&mut self, expected: TokenKind<'src>) -> (r: Result<(), ParseError>)
        requires
            old(self).wf(),
        ensures
            final(self).wf(),
            final(self).toks() == old(self).toks(),
            ({
                let (rs, p, es) = expect_s(old(self).toks(), old(self).pos(), old(self).errs(), lexer::kind_view(expected));
                final(self).pos() == p && final(self).errs() == es && unit_res(r, rs)
            }),
            final(self).pos() >= old(self).pos(),
            r is Ok && !(expected is Eof) ==> final(self).pos() == old(self).pos() + 1,
    {
        let found = self.peek();
        if kind_eq(&found, &expected) {
            self.advance();
            Ok(())
        } else {
            let mut message = String::new();
            push_str(&mut message, "Expected ");
            push_kind_debug(&mut message, &expected);
            push_str(&mut message, ", found ");
            push_kind_debug(&mut message, &found);
            let err = ParseError { message, span: self.peek_span() };
            let ghost before = self.errs();
            self.errors.push(err.clone());
            proof {
                assert(message@ =~= msg_expected(lexer::kind_view(expected), lexer::kind_view(found)));
                assert(self.errs() =~= before.push(perr_view(err)));
            }
            Err(err)
        }
    }

    fn synchronize(&mut self)
        requires
            old(self).wf(),
        ensures
            final(self).wf(),
            final(self).toks() == old(self).toks(),
            final(self).errs() == old(self).errs(),
            final(self).pos() == sync_s(old(self).toks(), old(self).pos()),
    {
        let ghost t = self.toks();
        loop
            invariant
                self.wf(),
                self.toks() == t,
                t == old(self).toks(),
                self.errs() == old(self).errs(),
                sync_s(t, old(self).pos()) == sync_s(t, self.pos()),
            ensures
                self.wf(),
                self.toks() == t,
                self.errs() == old(self).errs(),
                sync_s(t, old(self).pos()) == self.pos(),
            decreases t.len() - self.pos(),
        {
            let k = self.peek();
            if matches!(k, TokenKind::Eof) {
                break;
            }
            if matches!(k, TokenKind::Semicolon) || matches!(k, TokenKind::RBrace) {
                self.advance();
                return;
            }
            self.advance();
        }
    }

    fn get_infix_precedence(&self) -> (r: Option<(BinOp, u8, Associativity)>)
        requires
            self.wf(),
        ensures
            match (r, infix_info(pk(self.toks(), self.pos()))) {
                (Some((op, prec, assoc)), Some((op2, prec2, left2))) => op == op2 && prec == prec2 && (
                assoc == Associativity::Left) == left2,
                (None, None) => true,
                _ => false,
            },
    {
        match self.peek() {
            TokenKind::DollarTilde => Some((BinOp::SyncAssign, 10, Associativity::Right)),
            TokenKind::ColonEq => Some((BinOp::TildeEq, 15, Associativity::Right)),
            TokenKind::Spaceship => Some((BinOp::Spaceship, 20, Associativity::Left)),
            TokenKind::HashEqEq => Some((BinOp::HashEqEq, 20, Associativity::Left)),
            TokenKind::EqEq => Some((BinOp::Eq, 20, Associativity::Left)),
            TokenKind::NotEq => Some((BinOp::Neq, 20, Associativity::Left)),
            TokenKind::Less => Some((BinOp::Lt, 20, Associativity::Left)),
            TokenKind::Greater => Some((BinOp::Gt, 20, Associativity::Left)),
            TokenKind::LessEq => Some((BinOp::Le, 20, Associativity::Left)),
            TokenKind::GreaterEq => Some((BinOp::Ge, 20, Associativity::Left)),
            TokenKind::PipeEq => Some((BinOp::PipeEq, 30, Associativity::Left)),
            TokenKind::TildeEq => Some((BinOp::TildeEq, 30, Associativity::Left)),
            TokenKind::Plus => Some((BinOp::Add, 40, Associativity::Left)),
            TokenKind::Minus => Some((BinOp::Sub, 40, Associativity::Left)),
            TokenKind::Star => Some((BinOp::Mul, 50, Associativity::Left)),
            TokenKind::Slash => Some((BinOp::Div, 50, Associativity::Left)),
            TokenKind::Percent => Some((BinOp::Mod, 50, Associativity::Left)),
            TokenKind::At => Some((BinOp::At, 60, Associativity::Left)),
            TokenKind::AtSlash => Some((BinOp::AtSlash, 60, Associativity::Left)),
            TokenKind::AtEq => Some((BinOp::AtEq, 60, Associativity::Left)),
            TokenKind::MinusEq => Some((BinOp::MinusEq, 60, Associativity::Left)),
            _ => None,
        }
    }

    fn parse_type(&mut self) -> (r: Result<Type, ParseError>)
        requires
            old(self).wf(),
        ensures
            final(self).wf(),
            final(self).toks() == old(self).toks(),
            ({
                let (rs, p, es) = type_s(old(self).toks(), old(self).pos(), old(self).errs());
                final(self).pos() == p && final(self).errs() == es && type_res(r, rs)
            }),
            final(self).pos() >= old(self).pos(),
            r is Ok ==> final(self).pos() > old(self).pos(),
        decreases old(self).toks().len() - old(self).pos(),
    {
        let ghost t = self.toks();
        if matches!(self.peek(), TokenKind::LBracket) {
            self.advance();
            let elem_type = self.parse_type()?;
            self.expect(TokenKind::Semicolon)?;
            let size = if let TokenKind::IntLiteral(n) = self.peek() {
                let chars = str_chars(n);
                let mut clean: Vec<char> = Vec::new();
                let mut i: usize = 0;
                while i < chars.len()
                    invariant
                        i <= chars@.len(),
                        chars@ == n@,
                        clean@ == n@.take(i as int).filter(not_underscore_pred()),
                    decreases chars@.len() - i,
                {
                    let c = chars[i];
                    proof {
                        reveal(Seq::filter);
                        assert(n@.take(i + 1).drop_last() =~= n@.take(i as int));
                    }
                    if c != '_' {
                        clean.push(c);
                    }
                    i = i + 1;
                }
                assert(n@.take(chars@.len() as int) =~= n@);
                let parsed = match numlit::u64_from_decimal(&clean) {
                    Some(v) => if v <= usize::MAX as u64 { Some(v as usize) } else { None },
                    None => None,
                };
                match parsed {
                    Some(v) => {
                        self.advance();
                        v
                    },
                    None => {
                        let mut message = String::new();
                        push_str(&mut message, "Nieprawidłowy rozmiar tablicy: ");
                        push_debug_str(&mut message, n);
                        return Err(ParseError { message, span: self.peek_span() });
                    },
                }
            } else {
                return Err(
                    ParseError {
                        message: String::from_str("Expected array size (integer literal)"),
                        span: self.peek_span(),
                    },
                );
            };
            self.expect(TokenKind::RBracket)?;
            return Ok(Type::Array(Box::new(elem_type), Some(size)));
        }
        match self.peek() {
            TokenKind::Identifier(name) => {
                self.advance();
                let ty = if str_eq(name, "i32") {
                    Type::I32
                } else if str_eq(name, "i64") {
                    Type::I64
                } else if str_eq(name, "u32") {
                    Type::U32
                } else if str_eq(name, "u64") {
                    Type::U64
                } else if str_eq(name, "f32") {
                    Type::F32
                } else if str_eq(name, "f64") {
                    Type::F64
                } else if str_eq(name, "bool") {
                    Type::Bool
                } else if str_eq(name, "Self") {
                    Type::Custom(String::from_str("Self"))
                } else {
                    Type::Custom(String::from_str(name))
                };
                Ok(ty)
            },
            _ => Err(ParseError { message: String::from_str("Expected type"), span: self.peek_span() }),
        }
    }
}


impl<'src> Parser<'src> {
    fn parse_expr(&mut self, min_precedence: u8) -> (r: Result<Expr, ParseError>)
        requires
            old(self).wf(),
        ensures
            final(self).wf(),
            final(self).toks() == old(self).toks(),
            ({
                let (rs, p, es) = expr_s(old(self).toks(), old(self).pos(), old(self).errs(), min_precedence);
                final(self).pos() == p && final(self).errs() == es && expr_res(r, rs)
            }),
            final(self).pos() >= old(self).pos(),
            r is Ok ==> final(self).pos() > old(self).pos(),
        decreases old(self).toks().len() - old(self).pos(), 3nat,
    {
        let ghost t = self.toks();
        let ghost p0 = self.pos();
        let mut left = self.parse_prefix()?;
        loop
            invariant
                self.wf(),
                self.toks() == t,
                t == old(self).toks(),
                p0 == old(self).pos(),
                self.pos() > p0,
                expr_s(t, p0, old(self).errs(), min_precedence) == infix_s(
                    t,
                    self.pos(),
                    self.errs(),
                    ast::expr_view(left),
                    min_precedence,
                ),
            ensures
                self.wf(),
                self.toks() == t,
                self.pos() > p0,
                expr_s(t, p0, old(self).errs(), min_precedence) == (
                    Ok::<ExprV, PErrV>(ast::expr_view(left)),
                    self.pos(),
                    self.errs(),
                ),
            decreases t.len() - self.pos(),
        {
            let info = self.get_infix_precedence();
            match info {
                None => {
                    break;
                },
                Some((op, precedence, associativity)) => {
                    if precedence < min_precedence {
                        break;
                    }
                    let op_span = self.peek_span();
                    self.advance();
                    let next_min_prec = if matches!(associativity, Associativity::Left) {
                        precedence + 1
                    } else {
                        precedence
                    };
                    let right = self.parse_expr(next_min_prec)?;
                    left = Expr::BinaryOp { left: Box::new(left), op, right: Box::new(right), span: op_span };
                },
            }
        }
        Ok(left)
    }

    fn parse_args(&mut self) -> (r: Result<Vec<Expr>, ParseError>)
        requires
            old(self).wf(),
        ensures
            final(self).wf(),
            final(self).toks() == old(self).toks(),
            ({
                let (rs, p, es) = args_s(old(self).toks(), old(self).pos(), old(self).errs());
                final(self).pos() == p && final(self).errs() == es && exprs_res(r, rs)
            }),
            final(self).pos() >= old(self).pos(),
        decreases old(self).toks().len() - old(self).pos(), 5nat,
    {
        let ghost t = self.toks();
        let mut args: Vec<Expr> = Vec::new();
        if !matches!(self.peek(), TokenKind::RParen) {
            self.parse_list(&mut args)?;
        }
        proof {
            assert(ast::exprs_view(Seq::<Expr>::empty()) =~= Seq::<ExprV>::empty());
        }
        Ok(args)
    }

    fn parse_primary(&mut self) -> (r: Result<Expr, ParseError>)
        requires
            old(self).wf(),
        ensures
            final(self).wf(),
            final(self).toks() == old(self).toks(),
            ({
                let (rs, p, es) = primary_s(old(self).toks(), old(self).pos(), old(self).errs());
                final(self).pos() == p && final(self).errs() == es && expr_res(r, rs)
            }),
            final(self).pos() >= old(self).pos(),
            r is Ok ==> final(self).pos() > old(self).pos(),
        decreases old(self).toks().len() - old(self).pos(), 1nat,
    {
        let span = self.peek_span();
        match self.peek() {
            TokenKind::Identifier(_) => self.parse_name_or_call(),
            TokenKind::IntLiteral(n) => {
                let val = String::from_str(n);
                self.advance();
                Ok(Expr::Literal(Literal::Int(val)))
            },
            TokenKind::FloatLiteral(n) => {
                let val = String::from_str(n);
                self.advance();
                Ok(Expr::Literal(Literal::Float(val)))
            },
            TokenKind::StringLiteral(n) => {
                let val = String::from_str(n);
                self.advance();
                Ok(Expr::Literal(Literal::String(val)))
            },
            TokenKind::RawStringLiteral(n) => {
                let val = String::from_str(n);
                self.advance();
                Ok(Expr::Literal(Literal::String(val)))
            },
            TokenKind::KwTrue => {
                self.advance();
                Ok(Expr::Literal(Literal::Bool(true)))
            },
            TokenKind::KwFalse => {
                self.advance();
                Ok(Expr::Literal(Literal::Bool(false)))
            },
            TokenKind::KwNone => {
                self.advance();
                Ok(Expr::Literal(Literal::NoneLit))
            },
            TokenKind::KwIf => {
                self.advance();
                self.parse_if_expr(span)
            },
            TokenKind::LParen => self.parse_paren(),
            TokenKind::LBracket => self.parse_array_literal(),
            other => {
                let mut message = String::new();
                push_str(&mut message, "Unexpected token in expression: ");
                push_kind_debug(&mut message, &other);
                assert(message@ =~= "Unexpected token in expression: "@ + kind_debug(lexer::kind_view(other)));
                Err(ParseError { message, span })
            },
        }
    }

    /// A variable, or a call `name$(args)`.
    fn parse_name_or_call(&mut self) -> (r: Result<Expr, ParseError>)
        requires
            old(self).wf(),
            pk(old(self).toks(), old(self).pos()) is Identifier,
        ensures
            final(self).wf(),
            final(self).toks() == old(self).toks(),
            ({
                let (rs, p, es) = primary_s(old(self).toks(), old(self).pos(), old(self).errs());
                final(self).pos() == p && final(self).errs() == es && expr_res(r, rs)
            }),
            final(self).pos() >= old(self).pos(),
            r is Ok ==> final(self).pos() > old(self).pos(),
        decreases old(self).toks().len() - old(self).pos(), 0nat,
    {
        let ghost t = self.toks();
        let ghost p0 = self.pos();
        let ghost e0 = self.errs();
        let span = self.peek_span();
        let n = match self.peek() {
            TokenKind::Identifier(name) => String::from_str(name),
            _ => String::new(),
        };
        let ghost nm = pk(t, p0)->Identifier_0;
        assert(n@ == nm);
        self.advance();
        if matches!(self.peek(), TokenKind::Dollar) {
            self.advance();
            let ghost (r1, p1, es1) = expect_s(t, p0 + 2, e0, KindV::LParen);
            self.expect(TokenKind::LParen)?;
            let ghost (r2, p2, es2) = args_s(t, p1, es1);
            let args = self.parse_args()?;
            let ghost (r3, p3, es3) = expect_s(t, p2, es2, KindV::RParen);
            self.expect(TokenKind::RParen)?;
            let callee = Box::new(Expr::Variable(n));
            assert(ast::expr_view(*callee) == ExprV::Variable(nm));
            let e = Expr::Call { callee, args, span };
            assert(ast::expr_view(e) == ExprV::Call {
                callee: Box::new(ExprV::Variable(nm)),
                args: ast::exprs_view(args@),
                span,
            });
            assert(primary_s(t, p0, e0) == (Ok::<ExprV, PErrV>(ast::expr_view(e)), p3, es3));
            Ok(e)
        } else {
            Ok(Expr::Variable(n))
        }
    }

    /// `( expr )`.
    fn parse_paren(&mut self) -> (r: Result<Expr, ParseError>)
        requires
            old(self).wf(),
            pk(old(self).toks(), old(self).pos()) is LParen,
        ensures
            final(self).wf(),
            final(self).toks() == old(self).toks(),
            ({
                let (rs, p, es) = primary_s(old(self).toks(), old(self).pos(), old(self).errs());
                final(self).pos() == p && final(self).errs() == es && expr_res(r, rs)
            }),
            final(self).pos() >= old(self).pos(),
            r is Ok ==> final(self).pos() > old(self).pos(),
        decreases old(self).toks().len() - old(self).pos(), 0nat,
    {
        self.advance();
        let expr = self.parse_expr(0)?;
        self.expect(TokenKind::RParen)?;
        Ok(expr)
    }

    /// `[e1, e2, ...]`.
    fn parse_array_literal(&mut self) -> (r: Result<Expr, ParseError>)
        requires
            old(self).wf(),
            pk(old(self).toks(), old(self).pos()) is LBracket,
        ensures
            final(self).wf(),
            final(self).toks() == old(self).toks(),
            ({
                let (rs, p, es) = primary_s(old(self).toks(), old(self).pos(), old(self).errs());
                final(self).pos() == p && final(self).errs() == es && expr_res(r, rs)
            }),
            final(self).pos() >= old(self).pos(),
            r is Ok ==> final(self).pos() > old(self).pos(),
        decreases old(self).toks().len() - old(self).pos(), 0nat,
    {
        let span = self.peek_span();
        self.advance();
        let mut elements: Vec<Expr> = Vec::new();
        if !matches!(self.peek(), TokenKind::RBracket) {
            self.parse_list(&mut elements)?;
        }
        proof {
            assert(ast::exprs_view(Seq::<Expr>::empty()) =~= Seq::<ExprV>::empty());
        }
        self.expect(TokenKind::RBracket)?;
        Ok(Expr::ArrayInit { elements, span })
    }

    fn parse_prefix(&mut self) -> (r: Result<Expr, ParseError>)
        requires
            old(self).wf(),
        ensures
            final(self).wf(),
            final(self).toks() == old(self).toks(),
            ({
                let (rs, p, es) = prefix_s(old(self).toks(), old(self).pos(), old(self).errs());
                final(self).pos() == p && final(self).errs() == es && expr_res(r, rs)
            }),
            final(self).pos() >= old(self).pos(),
            r is Ok ==> final(self).pos() > old(self).pos(),
        decreases old(self).toks().len() - old(self).pos(), 2nat,
    {
        let ghost t = self.toks();
        let ghost p0 = self.pos();
        let ghost e0 = self.errs();
        let base = self.parse_primary()?;
        let ghost pb = self.pos();
        let mut result = base;
        loop
            invariant
                self.wf(),
                self.toks() == t,
                t == old(self).toks(),
                p0 == old(self).pos(),
                e0 == old(self).errs(),
                self.pos() > p0,
                prefix_s(t, p0, e0) == index_s(t, self.pos(), self.errs(), ast::expr_view(result)),
            ensures
                self.wf(),
                self.toks() == t,
                self.pos() > p0,
                prefix_s(t, p0, e0) == (Ok::<ExprV, PErrV>(ast::expr_view(result)), self.pos(), self.errs()),
            decreases t.len() - self.pos(),
        {
            if !matches!(self.peek(), TokenKind::LBracket) {
                break;
            }
            let idx_span = self.peek_span();
            self.advance();
            let index = self.parse_expr(0)?;
            self.expect(TokenKind::RBracket)?;
            result = Expr::Index { array: Box::new(result), index: Box::new(index), span: idx_span };
        }
        Ok(result)
    }

    fn parse_if_expr(&mut self, span: Span) -> (r: Result<Expr, ParseError>)
        requires
            old(self).wf(),
        ensures
            final(self).wf(),
            final(self).toks() == old(self).toks(),
            ({
                let (rs, p, es) = if_s(old(self).toks(), old(self).pos(), old(self).errs(), span);
                final(self).pos() == p && final(self).errs() == es && expr_res(r, rs)
            }),
            final(self).pos() >= old(self).pos(),
            r is Ok ==> final(self).pos() > old(self).pos(),
        decreases old(self).toks().len() - old(self).pos(), 4nat,
    {
        let condition = Box::new(self.parse_expr(0)?);
        let then_branch = self.parse_block()?;
        let else_branch = if matches!(self.peek(), TokenKind::KwElse) {
            self.advance();
            Some(self.parse_block()?)
        } else {
            None
        };
        Ok(Expr::If { condition, then_branch, else_branch, span })
    }

    fn parse_block(&mut self) -> (r: Result<Block, ParseError>)
        requires
            old(self).wf(),
        ensures
            final(self).wf(),
            final(self).toks() == old(self).toks(),
            ({
                let (rs, p, es) = block_s(old(self).toks(), old(self).pos(), old(self).errs());
                final(self).pos() == p && final(self).errs() == es && block_res(r, rs)
            }),
            final(self).pos() >= old(self).pos(),
            r is Ok ==> final(self).pos() > old(self).pos(),
        decreases old(self).toks().len() - old(self).pos(), 0nat,
    {
        let span = self.peek_span();
        self.expect(TokenKind::LBrace)?;
        let mut stmts: Vec<Stmt> = Vec::new();
        self.parse_stmt_list(&mut stmts, false);
        self.expect(TokenKind::RBrace)?;
        Ok(Block { stmts, span })
    }

    /// Statements up to the end (`top`) or up to `}`; failed statements are
    /// skipped by resynchronizing.
    fn parse_stmt_list(&mut self, stmts: &mut Vec<Stmt>, top: bool)
        requires
            old(self).wf(),
            old(stmts)@.len() == 0,
        ensures
            final(self).wf(),
            final(self).toks() == old(self).toks(),
            ({
                let (ss, p, es) = stmts_s(old(self).toks(), old(self).pos(), old(self).errs(), seq![], top);
                final(self).pos() == p && final(self).errs() == es && ast::stmts_view(final(stmts)@) == ss
            }),
            final(self).pos() >= old(self).pos(),
        decreases old(self).toks().len() - old(self).pos(), 6nat,
    {
        let ghost t = self.toks();
        let ghost p0 = self.pos();
        let ghost e0 = self.errs();
        proof {
            assert(ast::stmts_view(stmts@) =~= Seq::<StmtV>::empty());
        }
        loop
            invariant
                self.wf(),
                self.toks() == t,
                t == old(self).toks(),
                p0 == old(self).pos(),
                e0 == old(self).errs(),
                self.pos() >= p0,
                stmts_s(t, p0, e0, seq![], top) == stmts_s(t, self.pos(), self.errs(), ast::stmts_view(stmts@), top),
            ensures
                self.wf(),
                self.toks() == t,
                self.pos() >= p0,
                stmts_s(t, p0, e0, seq![], top) == (ast::stmts_view(stmts@), self.pos(), self.errs()),
            decreases t.len() - self.pos(),
        {
            let k = self.peek();
            if matches!(k, TokenKind::Eof) || (!top && matches!(k, TokenKind::RBrace)) {
                break;
            }
            let ghost before = self.pos();
            match self.parse_stmt() {
                Ok(stmt) => {
                    let ghost prev = stmts@;
                    stmts.push(stmt);
                    proof {
                        assert(stmts@.drop_last() =~= prev);
                    }
                },
                Err(_) => {
                    proof {
                        self.lemma_wf_no_eof();
                        lemma_sync_progress(t, self.pos());
                    }
                    self.synchronize();
                },
            }
        }
    }

    #[verifier::rlimit(80)]
    #[verifier::spinoff_prover]
    fn parse_stmt(&mut self) -> (r: Result<Stmt, ParseError>)
        requires
            old(self).wf(),
        ensures
            final(self).wf(),
            final(self).toks() == old(self).toks(),
            ({
                let (rs, p, es) = stmt_s(old(self).toks(), old(self).pos(), old(self).errs());
                final(self).pos() == p && final(self).errs() == es && stmt_res(r, rs)
            }),
            final(self).pos() >= old(self).pos(),
            r is Ok ==> final(self).pos() > old(self).pos(),
        decreases old(self).toks().len() - old(self).pos(), 5nat,
    {
        let span = self.peek_span();
        match self.peek() {
            TokenKind::KwPublic => {
                self.advance();
                if matches!(self.peek(), TokenKind::KwFn) {
                    self.advance();
                    self.parse_fn_def_or_decl(Visibility::Public, span)
                } else {
                    Err(ParseError { message: String::from_str("Expected 'fn' after 'public'"), span })
                }
            },
            TokenKind::KwFn => {
                self.advance();
                self.parse_fn_def_or_decl(Visibility::Private, span)
            },
            TokenKind::KwLet => {
                self.advance();
                self.parse_let(span)
            },
            TokenKind::KwEnum => {
                self.advance();
                self.parse_enum_def(span)
            },
            TokenKind::KwInclude => {
                self.advance();
                self.parse_include(span)
            },
            _ => {
                let expr = self.parse_expr(0)?;
                self.expect(TokenKind::Semicolon)?;
                Ok(Stmt::Expr(Box::new(expr)))
            },
        }
    }

    #[verifier::rlimit(80)]
    #[verifier::spinoff_prover]
    fn parse_let(&mut self, span: Span) -> (r: Result<Stmt, ParseError>)
        requires
            old(self).wf(),
        ensures
            final(self).wf(),
            final(self).toks() == old(self).toks(),
            ({
                let (rs, p, es) = let_s(old(self).toks(), old(self).pos(), old(self).errs(), span);
                final(self).pos() == p && final(self).errs() == es && stmt_res(r, rs)
            }),
            final(self).pos() >= old(self).pos(),
            r is Ok ==> final(self).pos() > old(self).pos(),
        decreases old(self).toks().len() - old(self).pos(), 1nat,
    {
        let ghost t = self.toks();
        let ghost p0 = self.pos();
        let ghost e0 = self.errs();
        let name = match self.peek() {
            TokenKind::Identifier(n) => String::from_str(n),
            _ => {
                proof {
                    reveal_strlit("Expected identifier after let");
                }
                assert(let_s(t, p0, e0, span).1 == p0);
                return Err(ParseError { message: String::from_str("Expected identifier after let"), span });
            },
        };
        self.advance();
        let ghost p1 = self.pos();
        let typ = match self.parse_let_type() {
            Ok(ty) => ty,
            Err(e) => {
                assert(let_s(t, p0, e0, span).1 == let_type_s(t, p1, e0).1);
                return Err(e);
            },
        };
        assert(p0 < self.pos() <= t.len());
        let ghost pt = self.pos();
        let ghost est = self.errs();
        let value = match self.parse_let_value() {
            Ok(v) => v,
            Err(e) => {
                assert(let_s(t, p0, e0, span).1 == let_value_s(t, pt, est).1);
                return Err(e);
            },
        };
        Ok(Stmt::Let { name, typ, value: Box::new(value), span })
    }

    /// The optional `: type` of a `let`.
    fn parse_let_type(&mut self) -> (r: Result<Option<Type>, ParseError>)
        requires
            old(self).wf(),
        ensures
            final(self).wf(),
            final(self).toks() == old(self).toks(),
            ({
                let (rs, p, es) = let_type_s(old(self).toks(), old(self).pos(), old(self).errs());
                &&& final(self).pos() == p
                &&& final(self).errs() == es
                &&& match (r, rs) {
                    (Ok(a), Ok(b)) => ast::opt_type_view(a) == b,
                    (Err(a), Err(b)) => perr_view(a) == b,
                    _ => false,
                }
            }),
            final(self).pos() >= old(self).pos(),
    {
        if matches!(self.peek(), TokenKind::Colon) {
            self.advance();
            match self.parse_type() {
                Ok(ty) => Ok(Some(ty)),
                Err(e) => Err(e),
            }
        } else {
            Ok(None)
        }
    }

    /// `= value;` of a `let`.
    fn parse_let_value(&mut self) -> (r: Result<Expr, ParseError>)
        requires
            old(self).wf(),
        ensures
            final(self).wf(),
            final(self).toks() == old(self).toks(),
            ({
                let (rs, p, es) = let_value_s(old(self).toks(), old(self).pos(), old(self).errs());
                final(self).pos() == p && final(self).errs() == es && expr_res(r, rs)
            }),
            final(self).pos() >= old(self).pos(),
            r is Ok ==> final(self).pos() > old(self).pos(),
        decreases old(self).toks().len() - old(self).pos(), 0nat,
    {
        let ghost t = self.toks();
        let ghost p0 = self.pos();
        let ghost e0 = self.errs();
        assert(lexer::kind_view(TokenKind::Eq) == KindV::Eq);
        assert(lexer::kind_view(TokenKind::Semicolon) == KindV::Semicolon);
        match self.expect(TokenKind::Eq) {
            Ok(_) => {},
            Err(e) => {
                assert(let_value_s(t, p0, e0).1 == expect_s(t, p0, e0, KindV::Eq).1);
                return Err(e);
            },
        }
        assert(p0 < self.pos() <= t.len());
        let ghost p2 = self.pos();
        let ghost es2 = self.errs();
        let v = match self.parse_expr(0) {
            Ok(v) => v,
            Err(e) => {
                assert(let_value_s(t, p0, e0) == expr_s(t, p2, es2, 0));
                return Err(e);
            },
        };
        let ghost p3 = self.pos();
        let ghost es3 = self.errs();
        assert(let_value_s(t, p0, e0).1 == expect_s(t, p3, es3, KindV::Semicolon).1);
        match self.expect(TokenKind::Semicolon) {
            Ok(_) => Ok(v),
            Err(e) => Err(e),
        }
    }

    fn parse_params(&mut self, params: &mut Vec<(String, Type)>) -> (r: Result<(), ParseError>)
        requires
            old(self).wf(),
            old(params)@.len() == 0,
        ensures
            final(self).wf(),
            final(self).toks() == old(self).toks(),
            ({
                let (rs, p, es) = params_s(old(self).toks(), old(self).pos(), old(self).errs(), seq![]);
                &&& final(self).pos() == p
                &&& final(self).errs() == es
                &&& match rs {
                    Ok(v) => r is Ok && ast::params_view(final(params)@) == v,
                    Err(e) => r matches Err(x) && perr_view(x) == e,
                }
            }),
            final(self).pos() >= old(self).pos(),
    {
        let ghost t = self.toks();
        let ghost p0 = self.pos();
        let ghost e0 = self.errs();
        proof {
            assert(ast::params_view(params@) =~= Seq::<(Seq<char>, TypeV)>::empty());
        }
        loop
            invariant_except_break
                params_s(t, p0, e0, seq![]) == params_s(t, self.pos(), self.errs(), ast::params_view(params@)),
            invariant
                self.wf(),
                self.toks() == t,
                t == old(self).toks(),
                p0 == old(self).pos(),
                e0 == old(self).errs(),
                self.pos() >= p0,
            ensures
                self.wf(),
                self.toks() == t,
                self.pos() >= p0,
                params_s(t, p0, e0, seq![]) == (
                    Ok::<Seq<(Seq<char>, TypeV)>, PErrV>(ast::params_view(params@)),
                    self.pos(),
                    self.errs(),
                ),
            decreases t.len() - self.pos(),
        {
            let ghost before = self.pos();
            let ghost eb = self.errs();
            let ghost vb = ast::params_view(params@);
            let param_name = if let TokenKind::Identifier(n) = self.peek() {
                String::from_str(n)
            } else {
                return Err(
                    ParseError { message: String::from_str("Expected parameter name"), span: self.peek_span() },
                );
            };
            self.advance();
            self.expect(TokenKind::Colon)?;
            let param_type = self.parse_type()?;
            let ghost prev = params@;
            params.push((param_name, param_type));
            proof {
                assert(ast::params_view(params@) =~= ast::params_view(prev).push(
                    (param_name@, ast::type_view(param_type)),
                ));
            }
            if matches!(self.peek(), TokenKind::Comma) {
                self.advance();
                assert(params_s(t, before, eb, vb) == params_s(t, self.pos(), self.errs(), ast::params_view(params@)));
            } else {
                assert(params_s(t, before, eb, vb) == (
                    Ok::<Seq<(Seq<char>, TypeV)>, PErrV>(ast::params_view(params@)),
                    self.pos(),
                    self.errs(),
                ));
                break;
            }
        }
        Ok(())
    }

    #[verifier::rlimit(40)]
    fn parse_fn_def_or_decl(&mut self, vis: Visibility, span: Span) -> (r: Result<Stmt, ParseError>)
        requires
            old(self).wf(),
        ensures
            final(self).wf(),
            final(self).toks() == old(self).toks(),
            ({
                let (rs, p, es) = fn_s(old(self).toks(), old(self).pos(), old(self).errs(), vis, span);
                final(self).pos() == p && final(self).errs() == es && stmt_res(r, rs)
            }),
            final(self).pos() >= old(self).pos(),
            r is Ok ==> final(self).pos() > old(self).pos(),
        decreases old(self).toks().len() - old(self).pos(), 0nat,
    {
        let name = if let TokenKind::Identifier(n) = self.peek() {
            String::from_str(n)
        } else {
            return Err(ParseError { message: String::from_str("Expected function name"), span });
        };
        self.advance();
        self.expect(TokenKind::LParen)?;
        let mut params: Vec<(String, Type)> = Vec::new();
        if !matches!(self.peek(), TokenKind::RParen) {
            self.parse_params(&mut params)?;
        }
        proof {
            assert(ast::params_view(Seq::<(String, Type)>::empty()) =~= Seq::<(Seq<char>, TypeV)>::empty());
        }
        self.expect(TokenKind::RParen)?;
        let return_type = if matches!(self.peek(), TokenKind::ThinArrow) {
            self.advance();
            Some(self.parse_type()?)
        } else {
            None
        };
        if matches!(self.peek(), TokenKind::Semicolon) {
            self.advance();
            Ok(Stmt::FnDecl { visibility: vis, name, params, return_type, span })
        } else {
            let body = self.parse_block()?;
            Ok(Stmt::FnDef { visibility: vis, name, params, return_type, body, span })
        }
    }

    fn parse_include(&mut self, span: Span) -> (r: Result<Stmt, ParseError>)
        requires
            old(self).wf(),
        ensures
            final(self).wf(),
            final(self).toks() == old(self).toks(),
            ({
                let (rs, p, es) = include_s(old(self).toks(), old(self).pos(), old(self).errs(), span);
                final(self).pos() == p && final(self).errs() == es && stmt_res(r, rs)
            }),
            final(self).pos() >= old(self).pos(),
            r is Ok ==> final(self).pos() > old(self).pos(),
    {
        let path = if let TokenKind::StringLiteral(s) = self.peek() {
            trim_quotes_str(s)
        } else {
            return Err(ParseError { message: String::from_str("Expected string literal after 'include'"), span });
        };
        self.advance();
        self.expect(TokenKind::Semicolon)?;
        Ok(Stmt::Include { path, span })
    }

    fn parse_enum_def(&mut self, span: Span) -> (r: Result<Stmt, ParseError>)
        requires
            old(self).wf(),
        ensures
            final(self).wf(),
            final(self).toks() == old(self).toks(),
            ({
                let (rs, p, es) = enum_s(old(self).toks(), old(self).pos(), old(self).errs(), span);
                final(self).pos() == p && final(self).errs() == es && stmt_res(r, rs)
            }),
            final(self).pos() >= old(self).pos(),
            r is Ok ==> final(self).pos() > old(self).pos(),
    {
        let ghost t = self.toks();
        let name = if let TokenKind::Identifier(n) = self.peek() {
            String::from_str(n)
        } else {
            return Err(ParseError { message: String::from_str("Expected enum name"), span });
        };
        self.advance();
        self.expect(TokenKind::LBrace)?;
        let ghost p1 = self.pos();
        let ghost e1 = self.errs();
        let mut variants: Vec<String> = Vec::new();
        proof {
            assert(ast::strings_view(variants@) =~= Seq::<Seq<char>>::empty());
        }
        loop
            invariant
                self.wf(),
                self.toks() == t,
                self.pos() >= p1,
                variants_s(t, p1, seq![]) == variants_s(t, self.pos(), ast::strings_view(variants@)),
                self.errs() == e1,
                t == old(self).toks(),
            ensures
                self.wf(),
                self.toks() == t,
                self.pos() >= p1,
                variants_s(t, p1, seq![]) == (ast::strings_view(variants@), self.pos()),
                self.errs() == e1,
            decreases t.len() - self.pos(),
        {
            let k = self.peek();
            if matches!(k, TokenKind::RBrace) || matches!(k, TokenKind::Eof) {
                break;
            }
            let before = self.current;
            if let TokenKind::Identifier(n) = k {
                let ghost prev = variants@;
                variants.push(String::from_str(n));
                self.advance();
                proof {
                    assert(ast::strings_view(variants@) =~= ast::strings_view(prev).push(n@));
                }
            }
            if matches!(self.peek(), TokenKind::Comma) {
                self.advance();
            }
            if self.current == before {
                break;
            }
        }
        self.expect(TokenKind::RBrace)?;
        Ok(Stmt::EnumDef { name, variants, span })
    }

    /// Parses the whole token sequence into a program; statements that fail
    /// to parse are skipped.
    pub fn parse_program(&mut self) -> (r: Program)
        requires
            old(self).wf(),
        ensures
            final(self).wf(),
            final(self).toks() == old(self).toks(),
            ({
                let (ss, p, es) = stmts_s(old(self).toks(), old(self).pos(), old(self).errs(), seq![], true);
                final(self).pos() == p && final(self).errs() == es && ast::program_view(r) == ss
            }),
    {
        let mut stmts: Vec<Stmt> = Vec::new();
        self.parse_stmt_list(&mut stmts, true);
        Program { stmts }
    }

    /// A comma-separated list of expressions (at least one), appended to `items`.
    fn parse_list(&mut self, items: &mut Vec<Expr>) -> (r: Result<(), ParseError>)
        requires
            old(self).wf(),
        ensures
            final(self).wf(),
            final(self).toks() == old(self).toks(),
            ({
                let (rs, p, es) = list_s(old(self).toks(), old(self).pos(), old(self).errs(), ast::exprs_view(old(items)@));
                &&& final(self).pos() == p
                &&& final(self).errs() == es
                &&& match rs {
                    Ok(v) => r is Ok && ast::exprs_view(final(items)@) == v,
                    Err(e) => r matches Err(x) && perr_view(x) == e,
                }
            }),
            final(self).pos() >= old(self).pos(),
            r is Ok ==> final(self).pos() > old(self).pos(),
        decreases old(self).toks().len() - old(self).pos(), 4nat,
    {
        let ghost t = self.toks();
        let ghost p0 = self.pos();
        let ghost e0 = self.errs();
        let ghost i0 = ast::exprs_view(items@);
        loop
            invariant_except_break
                list_s(t, p0, e0, i0) == list_s(t, self.pos(), self.errs(), ast::exprs_view(items@)),
            invariant
                self.wf(),
                self.toks() == t,
                t == old(self).toks(),
                p0 == old(self).pos(),
                e0 == old(self).errs(),
                i0 == ast::exprs_view(old(items)@),
                self.pos() >= p0,
            ensures
                self.wf(),
                self.toks() == t,
                self.pos() > p0,
                list_s(t, p0, e0, i0) == (Ok::<Seq<ExprV>, PErrV>(ast::exprs_view(items@)), self.pos(), self.errs()),
            decreases t.len() - self.pos(),
        {
            let ghost before = self.pos();
            let ghost eb = self.errs();
            let ghost vb = ast::exprs_view(items@);
            let x = self.parse_expr(0)?;
            let ghost prev = items@;
            items.push(x);
            proof {
                assert(items@.drop_last() =~= prev);
                assert(ast::exprs_view(items@) == vb.push(ast::expr_view(x)));
            }
            if matches!(self.peek(), TokenKind::Comma) {
                self.advance();
                assert(list_s(t, before, eb, vb) == list_s(t, self.pos(), self.errs(), ast::exprs_view(items@)));
            } else {
                assert(list_s(t, before, eb, vb) == (Ok::<Seq<ExprV>, PErrV>(ast::exprs_view(items@)), self.pos(), self.errs()));
                break;
            }
        }
        Ok(())
    }
}

} // verus!
