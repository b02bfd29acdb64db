//! The lexer: turns Xore source text into tokens with byte-offset spans.
use vstd::prelude::*;
use vstd::string::*;
use crate::text::str_chars;

verus! {

/// A half-open range of byte offsets into the source text.
#[derive(Debug, Clone, Copy, PartialEq, Eq)]
pub struct Span {
    pub start: usize,
    pub end: usize,
}

impl Default for Span {
    fn default() -> (r: Self)
        ensures
            r == (Span { start: 0, end: 0 }),
    {
        Span { start: 0, end: 0 }
    }
}

impl Span {
    /// Number of bytes covered by the span.
    pub fn len(&self) -> (r: usize)
        requires
            self.start <= self.end,
        ensures
            r == self.end - self.start,
    {
        self.end - self.start
    }
}

#[derive(Debug)]
pub struct LexError {
    pub span: Span,
    pub message: String,
}

#[derive(Debug, Clone, Copy, PartialEq)]
pub enum TokenKind<'src> {
    Identifier(&'src str),
    KwPublic,
    KwFn,
    KwLet,
    KwIf,
    KwElse,
    KwWhile,
    KwFor,
    KwIn,
    KwRange,
    KwEnum,
    KwSelf,
    KwEnd,
    KwTrue,
    KwFalse,
    KwNone,
    KwInclude,
    IntLiteral(&'src str),
    FloatLiteral(&'src str),
    StringLiteral(&'src str),
    RawStringLiteral(&'src str),
    CharLiteral(&'src str),
    Spaceship,
    HashEqEq,
    DollarTilde,
    FatArrow,
    ThinArrow,
    PipeEq,
    TildeEq,
    ColonEq,
    AtSlash,
    AtEq,
    MinusEq,
    EqEq,
    NotEq,
    LessEq,
    GreaterEq,
    At,
    Question,
    Plus,
    Minus,
    Star,
    Slash,
    Percent,
    Eq,
    Less,
    Greater,
    Tilde,
    Pipe,
    Ampersand,
    Hash,
    Dollar,
    LParen,
    RParen,
    LBrace,
    RBrace,
    LBracket,
    RBracket,
    Comma,
    Semicolon,
    Colon,
    Dot,
    Comment(&'src str),
    Whitespace(&'src str),
    Eof,
}

pub enum KindV {
    Identifier(Seq<char>),
    KwPublic,
    KwFn,
    KwLet,
    KwIf,
    KwElse,
    KwWhile,
    KwFor,
    KwIn,
    KwRange,
    KwEnum,
    KwSelf,
    KwEnd,
    KwTrue,
    KwFalse,
    KwNone,
    KwInclude,
    IntLiteral(Seq<char>),
    FloatLiteral(Seq<char>),
    StringLiteral(Seq<char>),
    RawStringLiteral(Seq<char>),
    CharLiteral(Seq<char>),
    Spaceship,
    HashEqEq,
    DollarTilde,
    FatArrow,
    ThinArrow,
    PipeEq,
    TildeEq,
    ColonEq,
    AtSlash,
    AtEq,
    MinusEq,
    EqEq,
    NotEq,
    LessEq,
    GreaterEq,
    At,
    Question,
    Plus,
    Minus,
    Star,
    Slash,
    Percent,
    Eq,
    Less,
    Greater,
    Tilde,
    Pipe,
    Ampersand,
    Hash,
    Dollar,
    LParen,
    RParen,
    LBrace,
    RBrace,
    LBracket,
    RBracket,
    Comma,
    Semicolon,
    Colon,
    Dot,
    Comment(Seq<char>),
    Whitespace(Seq<char>),
    Eof,
}

pub open spec fn kind_view(k: TokenKind) -> KindV {
    match k {
        TokenKind::Identifier(s) => KindV::Identifier(s@),
        TokenKind::KwPublic => KindV::KwPublic,
        TokenKind::KwFn => KindV::KwFn,
        TokenKind::KwLet => KindV::KwLet,
        TokenKind::KwIf => KindV::KwIf,
        TokenKind::KwElse => KindV::KwElse,
        TokenKind::KwWhile => KindV::KwWhile,
        TokenKind::KwFor => KindV::KwFor,
        TokenKind::KwIn => KindV::KwIn,
        TokenKind::KwRange => KindV::KwRange,
        TokenKind::KwEnum => KindV::KwEnum,
        TokenKind::KwSelf => KindV::KwSelf,
        TokenKind::KwEnd => KindV::KwEnd,
        TokenKind::KwTrue => KindV::KwTrue,
        TokenKind::KwFalse => KindV::KwFalse,
        TokenKind::KwNone => KindV::KwNone,
        TokenKind::KwInclude => KindV::KwInclude,
        TokenKind::IntLiteral(s) => KindV::IntLiteral(s@),
        TokenKind::FloatLiteral(s) => KindV::FloatLiteral(s@),
        TokenKind::StringLiteral(s) => KindV::StringLiteral(s@),
        TokenKind::RawStringLiteral(s) => KindV::RawStringLiteral(s@),
        TokenKind::CharLiteral(s) => KindV::CharLiteral(s@),
        TokenKind::Spaceship => KindV::Spaceship,
        TokenKind::HashEqEq => KindV::HashEqEq,
        TokenKind::DollarTilde => KindV::DollarTilde,
        TokenKind::FatArrow => KindV::FatArrow,
        TokenKind::ThinArrow => KindV::ThinArrow,
        TokenKind::PipeEq => KindV::PipeEq,
        TokenKind::TildeEq => KindV::TildeEq,
        TokenKind::ColonEq => KindV::ColonEq,
        TokenKind::AtSlash => KindV::AtSlash,
        TokenKind::AtEq => KindV::AtEq,
        TokenKind::MinusEq => KindV::MinusEq,
        TokenKind::EqEq => KindV::EqEq,
        TokenKind::NotEq => KindV::NotEq,
        TokenKind::LessEq => KindV::LessEq,
        TokenKind::GreaterEq => KindV::GreaterEq,
        TokenKind::At => KindV::At,
        TokenKind::Question => KindV::Question,
        TokenKind::Plus => KindV::Plus,
        TokenKind::Minus => KindV::Minus,
        TokenKind::Star => KindV::Star,
        TokenKind::Slash => KindV::Slash,
        TokenKind::Percent => KindV::Percent,
        TokenKind::Eq => KindV::Eq,
        TokenKind::Less => KindV::Less,
        TokenKind::Greater => KindV::Greater,
        TokenKind::Tilde => KindV::Tilde,
        TokenKind::Pipe => KindV::Pipe,
        TokenKind::Ampersand => KindV::Ampersand,
        TokenKind::Hash => KindV::Hash,
        TokenKind::Dollar => KindV::Dollar,
        TokenKind::LParen => KindV::LParen,
        TokenKind::RParen => KindV::RParen,
        TokenKind::LBrace => KindV::LBrace,
        TokenKind::RBrace => KindV::RBrace,
        TokenKind::LBracket => KindV::LBracket,
        TokenKind::RBracket => KindV::RBracket,
        TokenKind::Comma => KindV::Comma,
        TokenKind::Semicolon => KindV::Semicolon,
        TokenKind::Colon => KindV::Colon,
        TokenKind::Dot => KindV::Dot,
        TokenKind::Comment(s) => KindV::Comment(s@),
        TokenKind::Whitespace(s) => KindV::Whitespace(s@),
        TokenKind::Eof => KindV::Eof,
    }
}

#[derive(Debug, Clone, Copy)]
pub struct Token<'src> {
    pub kind: TokenKind<'src>,
    pub span: Span,
}

/// A token of the model: its kind and its byte span.
pub struct TokV {
    pub kind: KindV,
    pub span: Span,
}

/// A lexical error of the model.
pub struct LexErrV {
    pub span: Span,
    pub message: Seq<char>,
}

pub open spec fn token_view(t: Token) -> TokV {
    TokV { kind: kind_view(t.kind), span: t.span }
}

pub open spec fn lex_error_view(e: LexError) -> LexErrV {
    LexErrV { span: e.span, message: e.message@ }
}

// ---------------------------------------------------------------------------
// Character classes
// ---------------------------------------------------------------------------

/// Whether `c` has the Unicode `White_Space` property, which is what
/// `char::is_whitespace` tests: tab to carriage return, space, next line,
/// no-break space, ogham space, the spaces U+2000 to U+200A, the line and
/// paragraph separators, the narrow no-break space, the medium mathematical
/// space and the ideographic space.
pub open spec fn char_is_whitespace(c: char) -> bool {
    let u = c as u32;
    ||| 0x09 <= u <= 0x0D
    ||| u == 0x20
    ||| u == 0x85
    ||| u == 0xA0
    ||| u == 0x1680
    ||| 0x2000 <= u <= 0x200A
    ||| u == 0x2028
    ||| u == 0x2029
    ||| u == 0x202F
    ||| u == 0x205F
    ||| u == 0x3000
}

/// `char::is_whitespace`, written out.
fn is_whitespace(c: char) -> (r: bool)
    ensures
        r == char_is_whitespace(c),
{
    let u = c as u32;
    (0x09 <= u && u <= 0x0D) || u == 0x20 || u == 0x85 || u == 0xA0 || u == 0x1680 || (0x2000 <= u && u <= 0x200A)
        || u == 0x2028 || u == 0x2029 || u == 0x202F || u == 0x205F || u == 0x3000
}

pub open spec fn is_ascii_letter(c: char) -> bool {
    ('a' <= c && c <= 'z') || ('A' <= c && c <= 'Z')
}

/// The result of `char::is_alphabetic` on a character beyond ASCII (the
/// Unicode `Alphabetic` property).
pub uninterp spec fn nonascii_alphabetic(c: char) -> bool;

/// The result of `char::is_alphanumeric` on a character beyond ASCII.
pub uninterp spec fn nonascii_alphanumeric(c: char) -> bool;

/// What `char::is_alphabetic` gives: on ASCII, the letters.
pub open spec fn char_is_alphabetic(c: char) -> bool {
    if (c as u32) < 128 {
        is_ascii_letter(c)
    } else {
        nonascii_alphabetic(c)
    }
}

/// What `char::is_alphanumeric` gives: on ASCII, the letters and digits.
pub open spec fn char_is_alphanumeric(c: char) -> bool {
    if (c as u32) < 128 {
        is_ascii_letter(c) || ('0' <= c && c <= '9')
    } else {
        nonascii_alphanumeric(c)
    }
}

/// Calls `char::is_alphabetic`. On an ASCII character the result is stated
/// (the letters, as std documents and implements it); beyond ASCII it is
/// named, the Unicode tables not being restated.
#[verifier::external_body]
fn is_alphabetic(c: char) -> (r: bool)
    ensures
        (c as u32) < 128 ==> r == is_ascii_letter(c),
        (c as u32) >= 128 ==> r == nonascii_alphabetic(c),
{
    c.is_alphabetic()
}

/// Calls `char::is_alphanumeric`. On an ASCII character the result is
/// stated (letters and digits); beyond ASCII it is named, and, as its
/// documentation says, it holds of every alphabetic character.
#[verifier::external_body]
fn is_alphanumeric(c: char) -> (r: bool)
    ensures
        (c as u32) < 128 ==> r == (is_ascii_letter(c) || ('0' <= c && c <= '9')),
        (c as u32) >= 128 ==> r == nonascii_alphanumeric(c),
        (c as u32) >= 128 && nonascii_alphabetic(c) ==> r,
{
    c.is_alphanumeric()
}

pub open spec fn is_ascii_digit_spec(c: char) -> bool {
    '0' <= c && c <= '9'
}

pub open spec fn is_ascii_hexdigit_spec(c: char) -> bool {
    ('0' <= c && c <= '9') || ('a' <= c && c <= 'f') || ('A' <= c && c <= 'F')
}

fn is_ascii_digit(c: char) -> (r: bool)
    ensures
        r == is_ascii_digit_spec(c),
{
    '0' <= c && c <= '9'
}

fn is_ascii_hexdigit(c: char) -> (r: bool)
    ensures
        r == is_ascii_hexdigit_spec(c),
{
    ('0' <= c && c <= '9') || ('a' <= c && c <= 'f') || ('A' <= c && c <= 'F')
}

// ---------------------------------------------------------------------------
// Byte offsets
// ---------------------------------------------------------------------------

/// Number of bytes of the UTF-8 encoding of a character.
pub open spec fn char_width(c: char) -> nat {
    if (c as u32) < 0x80 {
        1
    } else if (c as u32) < 0x800 {
        2
    } else if (c as u32) < 0x10000 {
        3
    } else {
        4
    }
}

/// Number of bytes of the UTF-8 encoding of a text.
pub open spec fn byte_len(s: Seq<char>) -> nat
    decreases s.len(),
{
    if s.len() == 0 {
        0
    } else {
        char_width(s[0]) + byte_len(s.drop_first())
    }
}

/// The byte offset of the character at index `i`.
pub open spec fn byte_pos(s: Seq<char>, i: int) -> nat {
    byte_len(s.take(i))
}

pub proof fn lemma_byte_len_add(a: Seq<char>, b: Seq<char>)
    ensures
        byte_len(a + b) == byte_len(a) + byte_len(b),
    decreases a.len(),
{
    if a.len() > 0 {
        assert((a + b).drop_first() =~= a.drop_first() + b);
        lemma_byte_len_add(a.drop_first(), b);
    } else {
        assert(a + b =~= b);
    }
}

pub proof fn lemma_byte_pos_step(s: Seq<char>, i: int)
    requires
        0 <= i < s.len(),
    ensures
        byte_pos(s, i + 1) == byte_pos(s, i) + char_width(s[i]),
{
    assert(s.take(i + 1) =~= s.take(i) + seq![s[i]]);
    lemma_byte_len_add(s.take(i), seq![s[i]]);
    assert(seq![s[i]].drop_first() =~= Seq::<char>::empty());
    assert(byte_len(Seq::<char>::empty()) == 0);
    assert(byte_len(seq![s[i]]) == char_width(s[i]) + byte_len(seq![s[i]].drop_first()));
}

pub proof fn lemma_byte_pos_mono(s: Seq<char>, i: int, j: int)
    requires
        0 <= i <= j <= s.len(),
    ensures
        byte_pos(s, i) <= byte_pos(s, j),
        byte_pos(s, j) <= byte_len(s),
        i < j ==> byte_pos(s, i) < byte_pos(s, j),
    decreases j - i,
{
    lemma_byte_pos_rest(s, j);
    if i < j {
        lemma_byte_pos_mono(s, i, j - 1);
        lemma_byte_pos_step(s, j - 1);
    }
}

proof fn lemma_byte_pos_rest(s: Seq<char>, j: int)
    requires
        0 <= j <= s.len(),
    ensures
        byte_pos(s, j) <= byte_len(s),
{
    assert(s =~= s.take(j) + s.skip(j));
    lemma_byte_len_add(s.take(j), s.skip(j));
}

/// The width agrees with the UTF-8 encoding of `vstd`.
pub proof fn lemma_byte_len_is_utf8_len(s: Seq<char>)
    ensures
        byte_len(s) == vstd::utf8::encode_utf8(s).len(),
    decreases s.len(),
{
    if s.len() > 0 {
        lemma_byte_len_is_utf8_len(s.drop_first());
        vstd::utf8::char_is_scalar(s[0]);
        let c = s[0] as u32;
        assert(vstd::utf8::encode_scalar(c).len() == char_width(s[0]));
    }
}

fn len_utf8(c: char) -> (r: usize)
    ensures
        r == char_width(c),
{
    let v = c as u32;
    if v < 0x80 {
        1
    } else if v < 0x800 {
        2
    } else if v < 0x10000 {
        3
    } else {
        4
    }
}

// ---------------------------------------------------------------------------
// The lexical grammar
// ---------------------------------------------------------------------------

/// The first index at or after `i` whose character does not satisfy `p`.
pub open spec fn scan_while(s: Seq<char>, i: int, p: spec_fn(char) -> bool) -> int
    decreases s.len() - i,
{
    if i >= s.len() || i < 0 {
        i
    } else if p(s[i]) {
        scan_while(s, i + 1, p)
    } else {
        i
    }
}

pub proof fn lemma_scan_while(s: Seq<char>, i: int, p: spec_fn(char) -> bool)
    requires
        0 <= i <= s.len(),
    ensures
        i <= scan_while(s, i, p) <= s.len(),
        scan_while(s, i, p) < s.len() ==> !p(s[scan_while(s, i, p)]),
        scan_while(s, scan_while(s, i, p), p) == scan_while(s, i, p),
        forall|k: int| i <= k < scan_while(s, i, p) ==> #[trigger] p(s[k]),
    decreases s.len() - i,
{
    if i < s.len() && p(s[i]) {
        lemma_scan_while(s, i + 1, p);
    }
}

pub open spec fn ws_pred() -> spec_fn(char) -> bool {
    |c: char| char_is_whitespace(c)
}

pub open spec fn not_newline_pred() -> spec_fn(char) -> bool {
    |c: char| c != '\n'
}

pub open spec fn ident_pred() -> spec_fn(char) -> bool {
    |c: char| char_is_alphanumeric(c) || c == '_'
}

pub open spec fn alnum_pred() -> spec_fn(char) -> bool {
    |c: char| char_is_alphanumeric(c)
}

pub open spec fn radix_digit_pred(kind: char) -> spec_fn(char) -> bool {
    |c: char| c == '_' || if kind == 'x' || kind == 'X' {
        is_ascii_hexdigit_spec(c)
    } else if kind == 'b' || kind == 'B' {
        c == '0' || c == '1'
    } else {
        '0' <= c && c <= '7'
    }
}

pub open spec fn is_radix_marker(c: char) -> bool {
    c == 'x' || c == 'X' || c == 'b' || c == 'B' || c == 'o' || c == 'O'
}

pub open spec fn span_of(s: Seq<char>, i: int, j: int) -> Span {
    Span { start: byte_pos(s, i) as usize, end: byte_pos(s, j) as usize }
}

pub open spec fn tok(s: Seq<char>, kind: KindV, i: int, j: int) -> TokV {
    TokV { kind, span: span_of(s, i, j) }
}

/// The keyword a word is, if any.
pub open spec fn keyword(w: Seq<char>) -> Option<KindV> {
    if w == "public"@ {
        Some(KindV::KwPublic)
    } else if w == "fn"@ {
        Some(KindV::KwFn)
    } else if w == "let"@ {
        Some(KindV::KwLet)
    } else if w == "if"@ {
        Some(KindV::KwIf)
    } else if w == "else"@ {
        Some(KindV::KwElse)
    } else if w == "while"@ {
        Some(KindV::KwWhile)
    } else if w == "for"@ {
        Some(KindV::KwFor)
    } else if w == "in"@ {
        Some(KindV::KwIn)
    } else if w == "range"@ {
        Some(KindV::KwRange)
    } else if w == "end"@ {
        Some(KindV::KwEnd)
    } else if w == "enum"@ {
        Some(KindV::KwEnum)
    } else if w == "Self"@ {
        Some(KindV::KwSelf)
    } else if w == "True"@ {
        Some(KindV::KwTrue)
    } else if w == "False"@ {
        Some(KindV::KwFalse)
    } else if w == "None"@ {
        Some(KindV::KwNone)
    } else if w == "include"@ {
        Some(KindV::KwInclude)
    } else {
        None
    }
}

/// A word starting at `i`: a keyword or an identifier.
pub open spec fn lex_word(s: Seq<char>, i: int) -> (TokV, int) {
    let e = scan_while(s, i, ident_pred());
    let w = s.subrange(i, e);
    let kind = match keyword(w) {
        Some(k) => k,
        None => KindV::Identifier(w),
    };
    (tok(s, kind, i, e), e)
}

/// Whether a type suffix `_i32`, `_i64`, `_u32` or `_u64` starts at `k`.
pub open spec fn at_type_suffix(s: Seq<char>, k: int) -> bool {
    &&& 0 <= k && k + 4 <= s.len()
    &&& s[k] == '_'
    &&& (s[k + 1] == 'i' || s[k + 1] == 'u')
    &&& ((s[k + 2] == '3' && s[k + 3] == '2') || (s[k + 2] == '6' && s[k + 3] == '4'))
}

/// An `_` among the digits: any `_` but one that starts a type suffix.
pub open spec fn is_digit_sep(s: Seq<char>, k: int) -> bool {
    s[k] == '_' && !at_type_suffix(s, k)
}

/// The decimal part of a number from `k`: where it ends and whether it is a float.
pub open spec fn scan_decimal(s: Seq<char>, k: int, is_float: bool) -> (int, bool)
    decreases s.len() - k,
{
    if k < 0 || k >= s.len() {
        (k, is_float)
    } else {
        let ch = s[k];
        if is_digit_sep(s, k) || is_ascii_digit_spec(ch) {
            scan_decimal(s, k + 1, is_float)
        } else if ch == '.' && !is_float {
            if k + 1 < s.len() && is_ascii_digit_spec(s[k + 1]) {
                scan_decimal(s, k + 1, true)
            } else {
                (k, is_float)
            }
        } else if ch == 'e' || ch == 'E' {
            if k + 1 < s.len() && (s[k + 1] == '+' || s[k + 1] == '-') {
                scan_decimal(s, k + 2, true)
            } else {
                scan_decimal(s, k + 1, true)
            }
        } else {
            (k, is_float)
        }
    }
}

/// A number starting at `i`.
pub open spec fn lex_number_spec(s: Seq<char>, i: int) -> (TokV, int) {
    if s[i] == '0' && i + 1 < s.len() && is_radix_marker(s[i + 1]) {
        let e = scan_while(s, i + 2, radix_digit_pred(s[i + 1]));
        (tok(s, KindV::IntLiteral(s.subrange(i, e)), i, e), e)
    } else {
        let (k, is_float) = scan_decimal(s, i, false);
        let e = if k < s.len() && s[k] == '_' { scan_while(s, k + 1, alnum_pred()) } else { k };
        let text = s.subrange(i, e);
        let kind = if is_float { KindV::FloatLiteral(text) } else { KindV::IntLiteral(text) };
        (tok(s, kind, i, e), e)
    }
}

/// Where the string body from `k` ends: the index after its closing quote.
pub open spec fn scan_string(s: Seq<char>, k: int, escaped: bool) -> Option<int>
    decreases s.len() - k,
{
    if k < 0 || k >= s.len() {
        None
    } else if escaped {
        scan_string(s, k + 1, false)
    } else if s[k] == '\\' {
        scan_string(s, k + 1, true)
    } else if s[k] == '"' {
        Some(k + 1)
    } else {
        scan_string(s, k + 1, false)
    }
}

pub open spec fn lex_string_spec(s: Seq<char>, i: int) -> (Result<TokV, LexErrV>, int) {
    match scan_string(s, i + 1, false) {
        Some(e) => (Ok(tok(s, KindV::StringLiteral(s.subrange(i, e)), i, e)), e),
        None => (
            Err(LexErrV { span: span_of(s, i, s.len() as int), message: "Unterminated string literal"@ }),
            s.len() as int,
        ),
    }
}

pub open spec fn not_quote_pred() -> spec_fn(char) -> bool {
    |c: char| c != '"'
}

pub open spec fn lex_raw_string_spec(s: Seq<char>, i: int) -> (Result<TokV, LexErrV>, int) {
    if !(i + 1 < s.len() && s[i + 1] == '"') {
        (
            Err(
                LexErrV {
                    span: span_of(s, i, i + 1),
                    message: "Expected '\"' after 'r' for raw string"@,
                },
            ),
            i + 1,
        )
    } else {
        let q = scan_while(s, i + 2, not_quote_pred());
        if q < s.len() {
            (Ok(tok(s, KindV::RawStringLiteral(s.subrange(i, q + 1)), i, q + 1)), q + 1)
        } else {
            (
                Err(LexErrV { span: span_of(s, i, q), message: "Unterminated raw string literal"@ }),
                q,
            )
        }
    }
}

pub open spec fn lex_char_spec(s: Seq<char>, i: int) -> (Result<TokV, LexErrV>, int) {
    let k = i + 1;
    let k2 = if k < s.len() {
        if s[k] == '\\' {
            if k + 1 < s.len() { k + 2 } else { k + 1 }
        } else {
            k + 1
        }
    } else {
        k
    };
    if k2 < s.len() && s[k2] == '\'' {
        (Ok(tok(s, KindV::CharLiteral(s.subrange(i, k2 + 1)), i, k2 + 1)), k2 + 1)
    } else {
        (Err(LexErrV { span: span_of(s, i, k2), message: "Unterminated char literal"@ }), k2)
    }
}

pub open spec fn at_text(s: Seq<char>, i: int, t: Seq<char>) -> bool {
    0 <= i && i + t.len() <= s.len() && s.subrange(i, i + t.len()) == t
}

/// The operator made of the two characters `a`, `b`, if any.
pub open spec fn two_char_op(a: char, b: char) -> Option<KindV> {
    if a == '=' && b == '>' {
        Some(KindV::FatArrow)
    } else if a == '-' && b == '>' {
        Some(KindV::ThinArrow)
    } else if a == '|' && b == '=' {
        Some(KindV::PipeEq)
    } else if a == '~' && b == '=' {
        Some(KindV::TildeEq)
    } else if a == ':' && b == '=' {
        Some(KindV::ColonEq)
    } else if a == '@' && b == '/' {
        Some(KindV::AtSlash)
    } else if a == '@' && b == '=' {
        Some(KindV::AtEq)
    } else if a == '-' && b == '=' {
        Some(KindV::MinusEq)
    } else if a == '=' && b == '=' {
        Some(KindV::EqEq)
    } else if a == '!' && b == '=' {
        Some(KindV::NotEq)
    } else if a == '<' && b == '=' {
        Some(KindV::LessEq)
    } else if a == '>' && b == '=' {
        Some(KindV::GreaterEq)
    } else {
        None
    }
}

/// The punctuation a single character is, if any.
pub open spec fn one_char_op(c: char) -> Option<KindV> {
    if c == '@' {
        Some(KindV::At)
    } else if c == '?' {
        Some(KindV::Question)
    } else if c == '+' {
        Some(KindV::Plus)
    } else if c == '-' {
        Some(KindV::Minus)
    } else if c == '*' {
        Some(KindV::Star)
    } else if c == '/' {
        Some(KindV::Slash)
    } else if c == '%' {
        Some(KindV::Percent)
    } else if c == '=' {
        Some(KindV::Eq)
    } else if c == '<' {
        Some(KindV::Less)
    } else if c == '>' {
        Some(KindV::Greater)
    } else if c == '~' {
        Some(KindV::Tilde)
    } else if c == '|' {
        Some(KindV::Pipe)
    } else if c == '&' {
        Some(KindV::Ampersand)
    } else if c == '#' {
        Some(KindV::Hash)
    } else if c == '$' {
        Some(KindV::Dollar)
    } else if c == '(' {
        Some(KindV::LParen)
    } else if c == ')' {
        Some(KindV::RParen)
    } else if c == '{' {
        Some(KindV::LBrace)
    } else if c == '}' {
        Some(KindV::RBrace)
    } else if c == '[' {
        Some(KindV::LBracket)
    } else if c == ']' {
        Some(KindV::RBracket)
    } else if c == ',' {
        Some(KindV::Comma)
    } else if c == ';' {
        Some(KindV::Semicolon)
    } else if c == ':' {
        Some(KindV::Colon)
    } else if c == '.' {
        Some(KindV::Dot)
    } else {
        None
    }
}

/// Whether the two bytes after the start of the character at `i` are taken
/// as one text (there are at least two bytes from there on).
pub open spec fn has_two_bytes(s: Seq<char>, i: int) -> bool {
    char_width(s[i]) >= 2 || i + 1 < s.len()
}

/// Whether taking the two bytes from the character at `i` cuts a character.
pub open spec fn two_bytes_cut(s: Seq<char>, i: int) -> bool {
    char_width(s[i]) >= 3 || (char_width(s[i]) == 1 && i + 1 < s.len() && char_width(s[i + 1]) >= 2)
}

/// The two-character operator at `i`, when the two bytes there form one.
pub open spec fn two_char_at(s: Seq<char>, i: int) -> Option<KindV> {
    if char_width(s[i]) == 1 && i + 1 < s.len() {
        two_char_op(s[i], s[i + 1])
    } else {
        None
    }
}

/// Whether lexing an operator at `i` fails: a cut character or an unknown symbol.
pub open spec fn operator_panics(s: Seq<char>, i: int) -> bool {
    !at_text(s, i, "<=>"@) && !at_text(s, i, "#=="@) && !at_text(s, i, "$~"@) && (
    (has_two_bytes(s, i) && two_bytes_cut(s, i)) || (two_char_at(s, i) is None && one_char_op(s[i]) is None))
}

pub open spec fn lex_operator_spec(s: Seq<char>, i: int) -> (TokV, int) {
    if at_text(s, i, "<=>"@) {
        (tok(s, KindV::Spaceship, i, i + 3), i + 3)
    } else if at_text(s, i, "#=="@) {
        (tok(s, KindV::HashEqEq, i, i + 3), i + 3)
    } else if at_text(s, i, "$~"@) {
        (tok(s, KindV::DollarTilde, i, i + 2), i + 2)
    } else {
        match two_char_at(s, i) {
            Some(k) => (tok(s, k, i, i + 2), i + 2),
            None => (tok(s, one_char_op(s[i])->Some_0, i, i + 1), i + 1),
        }
    }
}

/// What the lexer does from position `i`: the next item (none at the end of the
/// text) and the position after it. Whitespace is skipped first.
#[verifier::opaque]
pub open spec fn next_item(s: Seq<char>, i: int) -> (Option<Result<TokV, LexErrV>>, int) {
    let j = scan_while(s, i, ws_pred());
    if j >= s.len() {
        (None, j)
    } else if s[j] == '/' && j + 1 < s.len() && s[j + 1] == '/' {
        let e = scan_while(s, j + 2, not_newline_pred());
        (Some(Ok(tok(s, KindV::Comment(s.subrange(j, e)), j, e))), e)
    } else {
        let c = s[j];
        if char_is_alphabetic(c) || c == '_' {
            if c == 'r' && j + 1 < s.len() && s[j + 1] == '"' {
                let (r, e) = lex_raw_string_spec(s, j);
                (Some(r), e)
            } else {
                let (t, e) = lex_word(s, j);
                (Some(Ok(t)), e)
            }
        } else if is_ascii_digit_spec(c) {
            let (t, e) = lex_number_spec(s, j);
            (Some(Ok(t)), e)
        } else if c == '"' {
            let (r, e) = lex_string_spec(s, j);
            (Some(r), e)
        } else if c == '\'' {
            let (r, e) = lex_char_spec(s, j);
            (Some(r), e)
        } else {
            let (t, e) = lex_operator_spec(s, j);
            (Some(Ok(t)), e)
        }
    }
}

/// Whether the lexer stops with a failure (rather than an error value) at `i`:
/// an operator position whose symbol it does not know or whose bytes it cuts.
#[verifier::opaque]
pub open spec fn next_fails(s: Seq<char>, i: int) -> bool {
    let j = scan_while(s, i, ws_pred());
    &&& j < s.len()
    &&& !(s[j] == '/' && j + 1 < s.len() && s[j + 1] == '/')
    &&& !(char_is_alphabetic(s[j]) || s[j] == '_')
    &&& !is_ascii_digit_spec(s[j])
    &&& s[j] != '"'
    &&& s[j] != '\''
    &&& operator_panics(s, j)
}

/// All tokens of a text from position `i` on, or `None` when lexing
/// reports an error or fails on the way.
pub open spec fn lex_all(s: Seq<char>, i: int) -> Option<Seq<TokV>>
    decreases s.len() - i,
{
    if i < 0 || i > s.len() || next_fails(s, i) {
        None
    } else {
        let (item, e) = next_item(s, i);
        match item {
            None => Some(seq![]),
            Some(Err(_)) => None,
            Some(Ok(t)) => if i < e <= s.len() {
                match lex_all(s, e) {
                    Some(rest) => Some(seq![t] + rest),
                    None => None,
                }
            } else {
                None
            },
        }
    }
}

/// One step of `lex_all`.
pub proof fn lemma_lex_all_step(s: Seq<char>, i: int)
    requires
        0 <= i <= s.len(),
    ensures
        next_fails(s, i) ==> lex_all(s, i) is None,
        !next_fails(s, i) ==> match next_item(s, i) {
            (None, _) => lex_all(s, i) == Some(Seq::<TokV>::empty()),
            (Some(Err(_)), _) => lex_all(s, i) is None,
            (Some(Ok(t)), e) => i < e <= s.len() ==> lex_all(s, i) == match lex_all(s, e) {
                Some(rest) => Some(seq![t] + rest),
                None => None::<Seq<TokV>>,
            },
        },
{
}

/// The lexer reports the end of the text exactly when only whitespace is
/// left; it then stands at the end, and asking again reports the end again.
pub proof fn lemma_next_exhausted(s: Seq<char>, i: int)
    requires
        0 <= i <= s.len(),
    ensures
        next_item(s, i).0 is None <==> forall|k: int| i <= k < s.len() ==> char_is_whitespace(#[trigger] s[k]),
        next_item(s, i).0 is None ==> next_item(s, i).1 == s.len() && next_item(s, s.len() as int).0 is None
            && next_item(s, s.len() as int).1 == s.len(),
{
    reveal(next_item);
    lemma_scan_while(s, i, ws_pred());
    let j = scan_while(s, i, ws_pred());
    if j < s.len() {
        assert(!char_is_whitespace(s[j]));
    } else {
        assert forall|k: int| i <= k < s.len() implies char_is_whitespace(#[trigger] s[k]) by {
            assert(ws_pred()(s[k]));
        }
    }
    lemma_scan_while(s, s.len() as int, ws_pred());
}

/// The text a token kind carries, if any.
pub open spec fn kind_text(k: KindV) -> Option<Seq<char>> {
    match k {
        KindV::Identifier(x) => Some(x),
        KindV::IntLiteral(x) => Some(x),
        KindV::FloatLiteral(x) => Some(x),
        KindV::StringLiteral(x) => Some(x),
        KindV::RawStringLiteral(x) => Some(x),
        KindV::CharLiteral(x) => Some(x),
        KindV::Comment(x) => Some(x),
        _ => None,
    }
}

/// Text of ASCII characters only.
pub open spec fn all_ascii(s: Seq<char>) -> bool {
    forall|k: int| 0 <= k < s.len() ==> (#[trigger] s[k] as u32) < 128
}

/// One call of `next` from position `i` of an ASCII text on which it does
/// not fail: a token starts at or after `i` (past the whitespace), ends
/// where the lexer stops, is not the end marker and carries exactly its
/// own text; an error also moves the lexer on and ends where it stops; and
/// the end is reported exactly when only whitespace is left, from then on
/// at every call (see `lemma_next_exhausted`).
/// Operators carry no text.
proof fn lemma_ops_no_text(s: Seq<char>, i: int)
    requires
        0 <= i < s.len(),
    ensures
        one_char_op(s[i]) matches Some(k) ==> kind_text(k) is None,
        two_char_at(s, i) matches Some(k) ==> kind_text(k) is None,
{
}

#[verifier::rlimit(60)]
pub proof fn lemma_next_step(s: Seq<char>, i: int)
    requires
        0 <= i <= s.len(),
        all_ascii(s),
        byte_len(s) <= usize::MAX,
        !next_fails(s, i),
    ensures
        ({
            let j = scan_while(s, i, ws_pred());
            match next_item(s, i) {
                (Some(Ok(t)), e) => {
                    &&& i <= j < e <= s.len()
                    &&& t.span == span_of(s, j, e)
                    &&& byte_pos(s, i) <= t.span.start < t.span.end
                    &&& !(t.kind is Eof)
                    &&& kind_text(t.kind) matches Some(x) ==> x == s.subrange(j, e)
                },
                (Some(Err(x)), e) => i < e <= s.len() && x.span.end == byte_pos(s, e),
                (None, e) => e == s.len() && forall|k: int| i <= k < s.len() ==> char_is_whitespace(#[trigger] s[k]),
            }
        }),
{
    lemma_next_item_not_eof(s, i);
    lemma_next_exhausted(s, i);
    reveal(next_item);
    lemma_scan_while(s, i, ws_pred());
    let j = scan_while(s, i, ws_pred());
    if j < s.len() {
        assert((s[j] as u32) < 128);
        let e = next_item(s, i).1;
        let c = s[j];
        if c == '/' && j + 1 < s.len() && s[j + 1] == '/' {
            lemma_scan_while(s, j + 2, not_newline_pred());
        } else if char_is_alphabetic(c) || c == '_' {
            if c == 'r' && j + 1 < s.len() && s[j + 1] == '"' {
                lemma_scan_while(s, j + 2, not_quote_pred());
            } else {
                lemma_scan_while(s, j + 1, ident_pred());
                assert(ident_pred()(c));
                assert(scan_while(s, j, ident_pred()) == scan_while(s, j + 1, ident_pred()));
                let w = s.subrange(j, e);
                assert(kind_text(lex_word(s, j).0.kind) matches Some(x) ==> x == w);
            }
        } else if is_ascii_digit_spec(c) {
            if c == '0' && j + 1 < s.len() && is_radix_marker(s[j + 1]) {
                lemma_scan_while(s, j + 2, radix_digit_pred(s[j + 1]));
            } else {
                lemma_scan_decimal_bounds(s, j, false);
                let k = scan_decimal(s, j, false).0;
                if k < s.len() {
                    lemma_scan_while(s, k + 1, alnum_pred());
                }
                let (tn, en) = lex_number_spec(s, j);
                assert(kind_text(tn.kind) matches Some(x) ==> x == s.subrange(j, en));
            assert(next_item(s, i).0 matches Some(Ok(t)) ==> (kind_text(t.kind) matches Some(x) ==> x == s.subrange(j, next_item(s, i).1)));
            }
        } else if c == '\'' {
            let (rc, ec) = lex_char_spec(s, j);
            assert(rc matches Ok(t) ==> (kind_text(t.kind) matches Some(x) ==> x == s.subrange(j, ec)));
            assert(next_item(s, i).0 matches Some(Ok(t)) ==> (kind_text(t.kind) matches Some(x) ==> x == s.subrange(j, next_item(s, i).1)));
        } else if c == '"' {
            lemma_scan_string_bounds(s, j + 1, false);
        } else {
            reveal(next_fails);
            lemma_ops_no_text(s, j);
            assert(next_item(s, i).0 matches Some(Ok(t)) ==> (kind_text(t.kind) matches Some(x) ==> x == s.subrange(j, next_item(s, i).1)));
        }
        assert(j < e <= s.len());
        lemma_byte_pos_mono(s, i, j);
        lemma_byte_pos_mono(s, j, e);
        lemma_byte_pos_mono(s, e, s.len() as int);
        match next_item(s, i).0 {
            Some(Ok(t)) => {
                assert(t.span == span_of(s, j, e));
                assert(byte_pos(s, i) <= t.span.start);
                assert(t.span.start < t.span.end);
                assert(!(t.kind is Eof));
                assert(kind_text(t.kind) matches Some(x) ==> x == s.subrange(j, e));
            },
            Some(Err(x)) => {
                assert(x.span.end == byte_pos(s, e));
            },
            None => {},
        }
    }
}

/// A token that `next` produces is never the end marker, and it is read
/// from at least one character.
pub proof fn lemma_next_item_not_eof(s: Seq<char>, i: int)
    requires
        !next_fails(s, i),
        0 <= i <= s.len(),
    ensures
        match next_item(s, i).0 {
            Some(Ok(t)) => !(t.kind is Eof),
            _ => true,
        },
        ({
            let j = scan_while(s, i, ws_pred());
            let word = j < s.len() && char_is_alphabetic(s[j]) && !(s[j] == '/' && j + 1 < s.len() && s[j + 1] == '/')
                && !(s[j] == 'r' && j + 1 < s.len() && s[j + 1] == '"');
            next_item(s, i).0 matches Some(Ok(_)) && (word ==> char_is_alphanumeric(s[j])) ==> i < next_item(s, i).1
                <= s.len()
        }),
{
    reveal(next_item);
    reveal(next_fails);
    reveal_strlit("<=>");
    reveal_strlit("#==");
    reveal_strlit("$~");
    lemma_scan_while(s, i, ws_pred());
    let j = scan_while(s, i, ws_pred());
    if j < s.len() {
        let c = s[j];
        if c == '/' && j + 1 < s.len() && s[j + 1] == '/' {
            lemma_scan_while(s, j + 2, not_newline_pred());
            assert(i < next_item(s, i).1 <= s.len());
        } else if char_is_alphabetic(c) || c == '_' {
            if c == 'r' && j + 1 < s.len() && s[j + 1] == '"' {
                lemma_scan_while(s, j + 2, not_quote_pred());
                assert(next_item(s, i).0 matches Some(Ok(_)) ==> i < next_item(s, i).1 <= s.len());
            } else {
                lemma_scan_while(s, j + 1, ident_pred());
                if char_is_alphanumeric(c) || c == '_' {
                    assert(ident_pred()(c));
                    assert(scan_while(s, j, ident_pred()) == scan_while(s, j + 1, ident_pred()));
                    assert(i < next_item(s, i).1 <= s.len());
                }
            }
        } else if is_ascii_digit_spec(c) {
            if c == '0' && j + 1 < s.len() && is_radix_marker(s[j + 1]) {
                lemma_scan_while(s, j + 2, radix_digit_pred(s[j + 1]));
            } else {
                lemma_scan_decimal_bounds(s, j, false);
                let k = scan_decimal(s, j, false).0;
                if k < s.len() {
                    lemma_scan_while(s, k + 1, alnum_pred());
                }
                assert(i < next_item(s, i).1 <= s.len());
            }
        } else if c == '"' {
            lemma_scan_string_bounds(s, j + 1, false);
            assert(next_item(s, i).0 matches Some(Ok(_)) ==> i < next_item(s, i).1 <= s.len());
        } else if c == '\'' {
            assert(next_item(s, i).0 matches Some(Ok(_)) ==> i < next_item(s, i).1 <= s.len());
        } else {
            assert(i < next_item(s, i).1 <= s.len());
        }
    }
}

proof fn lemma_scan_decimal_bounds(s: Seq<char>, k: int, is_float: bool)
    requires
        0 <= k <= s.len(),
    ensures
        k <= scan_decimal(s, k, is_float).0 <= s.len(),
        k < s.len() && is_ascii_digit_spec(s[k]) ==> k < scan_decimal(s, k, is_float).0,
    decreases s.len() - k,
{
    if k < s.len() {
        let ch = s[k];
        if is_digit_sep(s, k) || is_ascii_digit_spec(ch) {
            lemma_scan_decimal_bounds(s, k + 1, is_float);
        } else if ch == '.' && !is_float {
            if k + 1 < s.len() && is_ascii_digit_spec(s[k + 1]) {
                lemma_scan_decimal_bounds(s, k + 1, true);
            }
        } else if ch == 'e' || ch == 'E' {
            if k + 1 < s.len() && (s[k + 1] == '+' || s[k + 1] == '-') {
                lemma_scan_decimal_bounds(s, k + 2, true);
            } else {
                lemma_scan_decimal_bounds(s, k + 1, true);
            }
        }
    }
}

proof fn lemma_scan_string_bounds(s: Seq<char>, k: int, escaped: bool)
    requires
        0 <= k,
    ensures
        scan_string(s, k, escaped) matches Some(e) ==> k < e <= s.len(),
    decreases s.len() - k,
{
    if k < s.len() {
        if escaped || s[k] == '\\' || s[k] != '"' {
            lemma_scan_string_bounds(s, k + 1, !escaped && s[k] == '\\');
        }
    }
}

// ---------------------------------------------------------------------------
// The lexer
// ---------------------------------------------------------------------------

/// Reads tokens off a source text. `pos` counts characters, `current`
/// counts bytes; the spans of tokens are in bytes.
pub struct Lexer<'src> {
    source: &'src str,
    chars: Vec<char>,
    pos: usize,
    current: usize,
}

fn radix_digit(kind: char, c: char) -> (r: bool)
    ensures
        r == (radix_digit_pred(kind))(c),
{
    c == '_' || if kind == 'x' || kind == 'X' {
        is_ascii_hexdigit(c)
    } else if kind == 'b' || kind == 'B' {
        c == '0' || c == '1'
    } else {
        '0' <= c && c <= '7'
    }
}

fn two_char_kind<'src>(a: char, b: char) -> (r: Option<TokenKind<'src>>)
    ensures
        match r {
            Some(k) => two_char_op(a, b) == Some(kind_view(k)),
            None => two_char_op(a, b) is None,
        },
{
    if a == '=' && b == '>' {
        Some(TokenKind::FatArrow)
    } else if a == '-' && b == '>' {
        Some(TokenKind::ThinArrow)
    } else if a == '|' && b == '=' {
        Some(TokenKind::PipeEq)
    } else if a == '~' && b == '=' {
        Some(TokenKind::TildeEq)
    } else if a == ':' && b == '=' {
        Some(TokenKind::ColonEq)
    } else if a == '@' && b == '/' {
        Some(TokenKind::AtSlash)
    } else if a == '@' && b == '=' {
        Some(TokenKind::AtEq)
    } else if a == '-' && b == '=' {
        Some(TokenKind::MinusEq)
    } else if a == '=' && b == '=' {
        Some(TokenKind::EqEq)
    } else if a == '!' && b == '=' {
        Some(TokenKind::NotEq)
    } else if a == '<' && b == '=' {
        Some(TokenKind::LessEq)
    } else if a == '>' && b == '=' {
        Some(TokenKind::GreaterEq)
    } else {
        None
    }
}

fn one_char_kind<'src>(c: char) -> (r: Option<TokenKind<'src>>)
    ensures
        match r {
            Some(k) => one_char_op(c) == Some(kind_view(k)),
            None => one_char_op(c) is None,
        },
{
    if c == '@' {
        Some(TokenKind::At)
    } else if c == '?' {
        Some(TokenKind::Question)
    } else if c == '+' {
        Some(TokenKind::Plus)
    } else if c == '-' {
        Some(TokenKind::Minus)
    } else if c == '*' {
        Some(TokenKind::Star)
    } else if c == '/' {
        Some(TokenKind::Slash)
    } else if c == '%' {
        Some(TokenKind::Percent)
    } else if c == '=' {
        Some(TokenKind::Eq)
    } else if c == '<' {
        Some(TokenKind::Less)
    } else if c == '>' {
        Some(TokenKind::Greater)
    } else if c == '~' {
        Some(TokenKind::Tilde)
    } else if c == '|' {
        Some(TokenKind::Pipe)
    } else if c == '&' {
        Some(TokenKind::Ampersand)
    } else if c == '#' {
        Some(TokenKind::Hash)
    } else if c == '$' {
        Some(TokenKind::Dollar)
    } else if c == '(' {
        Some(TokenKind::LParen)
    } else if c == ')' {
        Some(TokenKind::RParen)
    } else if c == '{' {
        Some(TokenKind::LBrace)
    } else if c == '}' {
        Some(TokenKind::RBrace)
    } else if c == '[' {
        Some(TokenKind::LBracket)
    } else if c == ']' {
        Some(TokenKind::RBracket)
    } else if c == ',' {
        Some(TokenKind::Comma)
    } else if c == ';' {
        Some(TokenKind::Semicolon)
    } else if c == ':' {
        Some(TokenKind::Colon)
    } else if c == '.' {
        Some(TokenKind::Dot)
    } else {
        None
    }
}

impl<'src> Lexer<'src> {
    /// The text being read.
    pub closed spec fn text(&self) -> Seq<char> {
        self.source@
    }

    /// The index of the next character to read.
    pub closed spec fn pos(&self) -> int {
        self.pos as int
    }

    pub closed spec fn wf(&self) -> bool {
        &&& self.chars@ == self.source@
        &&& self.pos <= self.chars@.len()
        &&& self.current == byte_pos(self.chars@, self.pos as int)
        &&& byte_len(self.chars@) <= usize::MAX
    }

    /// A lexer at the start of `source`.
    pub fn new(source: &'src str) -> (r: Self)
        ensures
            r.wf(),
            r.text() == source@,
            r.pos() == 0,
    {
        let bytes = source.as_bytes();
        let n = bytes.len();
        proof {
            lemma_byte_len_is_utf8_len(source@);
        }
        assert(byte_len(source@) == n);
        let chars = str_chars(source);
        assert(chars@.take(0) =~= Seq::<char>::empty());
        Self { source, chars, pos: 0, current: 0 }
    }

    fn peek(&self) -> (r: Option<char>)
        requires
            self.wf(),
        ensures
            r == if self.pos() < self.text().len() { Some(self.text()[self.pos()]) } else { None::<char> },
    {
        if self.pos < self.chars.len() {
            Some(self.chars[self.pos])
        } else {
            None
        }
    }

    /// Whether a type suffix `_i32`, `_i64`, `_u32` or `_u64` starts here.
    fn at_type_suffix(&self) -> (r: bool)
        requires
            self.wf(),
        ensures
            r == at_type_suffix(self.text(), self.pos()),
    {
        let k = self.pos;
        if k >= self.chars.len() || self.chars.len() - k < 4 {
            return false;
        }
        let c1 = self.chars[k + 1];
        let c2 = self.chars[k + 2];
        let c3 = self.chars[k + 3];
        self.chars[k] == '_' && (c1 == 'i' || c1 == 'u') && ((c2 == '3' && c3 == '2') || (c2 == '6' && c3 == '4'))
    }

    fn peek_is(&self, c: char) -> (r: bool)
        requires
            self.wf(),
        ensures
            r == (self.pos() < self.text().len() && self.text()[self.pos()] == c),
    {
        self.pos < self.chars.len() && self.chars[self.pos] == c
    }

    fn peek_next(&self) -> (r: Option<char>)
        requires
            self.wf(),
        ensures
            r == if self.pos() + 1 < self.text().len() {
                Some(self.text()[self.pos() + 1])
            } else {
                None::<char>
            },
    {
        if self.pos < self.chars.len() && self.pos + 1 < self.chars.len() {
            Some(self.chars[self.pos + 1])
        } else {
            None
        }
    }

    fn advance(&mut self) -> (r: Option<char>)
        requires
            old(self).wf(),
        ensures
            final(self).wf(),
            final(self).text() == old(self).text(),
            final(self).pos() == if old(self).pos() < old(self).text().len() {
                old(self).pos() + 1
            } else {
                old(self).pos()
            },
            r == if old(self).pos() < old(self).text().len() {
                Some(old(self).text()[old(self).pos()])
            } else {
                None::<char>
            },
    {
        if self.pos < self.chars.len() {
            let c = self.chars[self.pos];
            proof {
                lemma_byte_pos_step(self.chars@, self.pos as int);
                lemma_byte_pos_mono(self.chars@, self.pos + 1, self.chars@.len() as int);
            }
            self.current = self.current + len_utf8(c);
            self.pos = self.pos + 1;
            Some(c)
        } else {
            None
        }
    }

    fn match_char(&mut self, expected: char) -> (r: bool)
        requires
            old(self).wf(),
        ensures
            final(self).wf(),
            final(self).text() == old(self).text(),
            r == (old(self).pos() < old(self).text().len() && old(self).text()[old(self).pos()] == expected),
            final(self).pos() == if r { old(self).pos() + 1 } else { old(self).pos() },
    {
        if self.peek_is(expected) {
            self.advance();
            true
        } else {
            false
        }
    }

    fn slice(&self, start: usize, end: usize) -> (r: &'src str)
        requires
            self.wf(),
            start <= end <= self.text().len(),
        ensures
            r@ == self.text().subrange(start as int, end as int),
    {
        self.source.substring_char(start, end)
    }

    fn byte_offset(&self) -> (r: usize)
        requires
            self.wf(),
        ensures
            r == byte_pos(self.text(), self.pos()),
    {
        self.current
    }

    fn span_from(&self, start: usize, start_byte: usize) -> (r: Span)
        requires
            self.wf(),
            start <= self.pos(),
            start_byte == byte_pos(self.text(), start as int),
        ensures
            r == span_of(self.text(), start as int, self.pos()),
    {
        proof {
            lemma_byte_pos_mono(self.chars@, start as int, self.pos as int);
            lemma_byte_pos_mono(self.chars@, self.pos as int, self.chars@.len() as int);
        }
        Span { start: start_byte, end: self.current }
    }

    fn skip_whitespace(&mut self) -> (r: Option<Token<'src>>)
        requires
            old(self).wf(),
        ensures
            final(self).wf(),
            final(self).text() == old(self).text(),
            final(self).pos() == scan_while(old(self).text(), old(self).pos(), ws_pred()),
            match r {
                Some(t) => final(self).pos() > old(self).pos() && token_view(t) == tok(
                    old(self).text(),
                    KindV::Whitespace(old(self).text().subrange(old(self).pos(), final(self).pos())),
                    old(self).pos(),
                    final(self).pos(),
                ),
                None => final(self).pos() == old(self).pos(),
            },
    {
        let ghost s = self.text();
        let start = self.pos;
        let start_byte = self.current;
        loop
            invariant
                self.wf(),
                self.text() == s,
                start <= self.pos(),
                start_byte == byte_pos(s, start as int),
                scan_while(s, start as int, ws_pred()) == scan_while(s, self.pos(), ws_pred()),
            ensures
                self.wf(),
                self.text() == s,
                start <= self.pos(),
                scan_while(s, start as int, ws_pred()) == self.pos(),
            decreases s.len() - self.pos(),
        {
            match self.peek() {
                Some(ch) => {
                    if is_whitespace(ch) {
                        self.advance();
                    } else {
                        break;
                    }
                },
                None => {
                    break;
                },
            }
        }
        if self.pos > start {
            let sp = self.span_from(start, start_byte);
            Some(Token { kind: TokenKind::Whitespace(self.slice(start, self.pos)), span: sp })
        } else {
            None
        }
    }

    /// Whether the characters `start..end` spell `lit`.
    fn text_is(&self, start: usize, end: usize, lit: &str) -> (r: bool)
        requires
            self.wf(),
            start <= end <= self.text().len(),
        ensures
            r == (self.text().subrange(start as int, end as int) == lit@),
    {
        let l = str_chars(lit);
        if end - start != l.len() {
            return false;
        }
        let mut k: usize = 0;
        while k < l.len()
            invariant
                self.wf(),
                start <= end <= self.text().len(),
                end - start == l@.len(),
                l@ == lit@,
                k <= l@.len(),
                forall|q: int| 0 <= q < k ==> self.chars@[start + q] == l@[q],
            decreases l@.len() - k,
        {
            if self.chars[start + k] != l[k] {
                assert(self.text().subrange(start as int, end as int)[k as int] != lit@[k as int]);
                return false;
            }
            k = k + 1;
        }
        assert(self.text().subrange(start as int, end as int) =~= lit@);
        true
    }

    fn keyword_kind(&self, start: usize, end: usize) -> (r: Option<TokenKind<'src>>)
        requires
            self.wf(),
            start <= end <= self.text().len(),
        ensures
            match r {
                Some(k) => keyword(self.text().subrange(start as int, end as int)) == Some(kind_view(k)),
                None => keyword(self.text().subrange(start as int, end as int)) is None,
            },
    {
        if self.text_is(start, end, "public") {
            Some(TokenKind::KwPublic)
        } else if self.text_is(start, end, "fn") {
            Some(TokenKind::KwFn)
        } else if self.text_is(start, end, "let") {
            Some(TokenKind::KwLet)
        } else if self.text_is(start, end, "if") {
            Some(TokenKind::KwIf)
        } else if self.text_is(start, end, "else") {
            Some(TokenKind::KwElse)
        } else if self.text_is(start, end, "while") {
            Some(TokenKind::KwWhile)
        } else if self.text_is(start, end, "for") {
            Some(TokenKind::KwFor)
        } else if self.text_is(start, end, "in") {
            Some(TokenKind::KwIn)
        } else if self.text_is(start, end, "range") {
            Some(TokenKind::KwRange)
        } else if self.text_is(start, end, "end") {
            Some(TokenKind::KwEnd)
        } else if self.text_is(start, end, "enum") {
            Some(TokenKind::KwEnum)
        } else if self.text_is(start, end, "Self") {
            Some(TokenKind::KwSelf)
        } else if self.text_is(start, end, "True") {
            Some(TokenKind::KwTrue)
        } else if self.text_is(start, end, "False") {
            Some(TokenKind::KwFalse)
        } else if self.text_is(start, end, "None") {
            Some(TokenKind::KwNone)
        } else if self.text_is(start, end, "include") {
            Some(TokenKind::KwInclude)
        } else {
            None
        }
    }

    fn lex_identifier_or_keyword(&mut self) -> (r: Token<'src>)
        requires
            old(self).wf(),
            old(self).pos() < old(self).text().len(),
            char_is_alphabetic(old(self).text()[old(self).pos()]) || old(self).text()[old(self).pos()] == '_',
        ensures
            final(self).wf(),
            final(self).text() == old(self).text(),
            (token_view(r), final(self).pos()) == lex_word(old(self).text(), old(self).pos()),
            final(self).pos() > old(self).pos(),
    {
        let ghost s = self.text();
        let start = self.pos;
        let start_byte = self.current;
        loop
            invariant
                self.wf(),
                self.text() == s,
                start <= self.pos(),
                start < s.len(),
                char_is_alphabetic(s[start as int]) || s[start as int] == '_',
                start_byte == byte_pos(s, start as int),
                scan_while(s, start as int, ident_pred()) == scan_while(s, self.pos(), ident_pred()),
            ensures
                self.wf(),
                self.text() == s,
                start < self.pos(),
                scan_while(s, start as int, ident_pred()) == self.pos(),
            decreases s.len() - self.pos(),
        {
            match self.peek() {
                Some(ch) => {
                    if is_alphanumeric(ch) || ch == '_' {
                        self.advance();
                    } else {
                        break;
                    }
                },
                None => {
                    break;
                },
            }
        }
        let kind = match self.keyword_kind(start, self.pos) {
            Some(k) => k,
            None => TokenKind::Identifier(self.slice(start, self.pos)),
        };
        let sp = self.span_from(start, start_byte);
        Token { kind, span: sp }
    }

    fn lex_number(&mut self) -> (r: Token<'src>)
        requires
            old(self).wf(),
            old(self).pos() < old(self).text().len(),
        ensures
            final(self).wf(),
            final(self).text() == old(self).text(),
            (token_view(r), final(self).pos()) == lex_number_spec(old(self).text(), old(self).pos()),
    {
        let ghost s = self.text();
        let start = self.pos;
        let start_byte = self.current;
        let mut is_float = false;
        if self.peek_is('0') {
            if let Some(next) = self.peek_next() {
                if next == 'x' || next == 'X' || next == 'b' || next == 'B' || next == 'o' || next == 'O' {
                    self.advance();
                    self.advance();
                    loop
                        invariant
                            self.wf(),
                            self.text() == s,
                            start + 2 <= self.pos(),
                            start_byte == byte_pos(s, start as int),
                            scan_while(s, start + 2, radix_digit_pred(next)) == scan_while(
                                s,
                                self.pos(),
                                radix_digit_pred(next),
                            ),
                        ensures
                            self.wf(),
                            self.text() == s,
                            start + 2 <= self.pos(),
                            scan_while(s, start + 2, radix_digit_pred(next)) == self.pos(),
                        decreases s.len() - self.pos(),
                    {
                        match self.peek() {
                            Some(ch) => {
                                if radix_digit(next, ch) {
                                    self.advance();
                                } else {
                                    break;
                                }
                            },
                            None => {
                                break;
                            },
                        }
                    }
                    let sp = self.span_from(start, start_byte);
                    return Token { kind: TokenKind::IntLiteral(self.slice(start, self.pos)), span: sp };
                }
            }
        }
        loop
            invariant
                self.wf(),
                self.text() == s,
                start <= self.pos(),
                start_byte == byte_pos(s, start as int),
                scan_decimal(s, start as int, false) == scan_decimal(s, self.pos(), is_float),
            ensures
                self.wf(),
                self.text() == s,
                start <= self.pos(),
                scan_decimal(s, start as int, false) == (self.pos(), is_float),
            decreases s.len() - self.pos(),
        {
            match self.peek() {
                Some(ch) => {
                    let sep = ch == '_' && !self.at_type_suffix();
                    if sep || is_ascii_digit(ch) {
                        self.advance();
                    } else if ch == '.' && !is_float {
                        match self.peek_next() {
                            Some(next) => {
                                if is_ascii_digit(next) {
                                    is_float = true;
                                    self.advance();
                                } else {
                                    break;
                                }
                            },
                            None => {
                                break;
                            },
                        }
                    } else if ch == 'e' || ch == 'E' {
                        is_float = true;
                        self.advance();
                        if self.peek_is('+') || self.peek_is('-') {
                            self.advance();
                        }
                    } else {
                        break;
                    }
                },
                None => {
                    break;
                },
            }
        }
        if self.peek_is('_') {
            self.advance();
            loop
                invariant
                    self.wf(),
                    self.text() == s,
                    start < self.pos(),
                    start_byte == byte_pos(s, start as int),
                    scan_while(s, scan_decimal(s, start as int, false).0 + 1, alnum_pred()) == scan_while(
                        s,
                        self.pos(),
                        alnum_pred(),
                    ),
                ensures
                    self.wf(),
                    self.text() == s,
                    start < self.pos(),
                    scan_while(s, scan_decimal(s, start as int, false).0 + 1, alnum_pred()) == self.pos(),
                decreases s.len() - self.pos(),
            {
                match self.peek() {
                    Some(ch) => {
                        if is_alphanumeric(ch) {
                            self.advance();
                        } else {
                            break;
                        }
                    },
                    None => {
                        break;
                    },
                }
            }
        }
        let text = self.slice(start, self.pos);
        let kind = if is_float {
            TokenKind::FloatLiteral(text)
        } else {
            TokenKind::IntLiteral(text)
        };
        let sp = self.span_from(start, start_byte);
        Token { kind, span: sp }
    }

    fn lex_string(&mut self) -> (r: Result<Token<'src>, LexError>)
        requires
            old(self).wf(),
            old(self).pos() < old(self).text().len(),
        ensures
            final(self).wf(),
            final(self).text() == old(self).text(),
            ({
                let (sr, e) = lex_string_spec(old(self).text(), old(self).pos());
                &&& final(self).pos() == e
                &&& match (r, sr) {
                    (Ok(t), Ok(st)) => token_view(t) == st,
                    (Err(x), Err(sx)) => lex_error_view(x) == sx,
                    _ => false,
                }
            }),
    {
        let ghost s = self.text();
        let start = self.pos;
        let start_byte = self.current;
        self.advance();
        let mut escaped = false;
        loop
            invariant
                self.wf(),
                self.text() == s,
                start < self.pos(),
                start_byte == byte_pos(s, start as int),
                s == old(self).text(),
                start == old(self).pos(),
                scan_string(s, start + 1, false) == scan_string(s, self.pos(), escaped),
            ensures
                self.wf(),
                self.text() == s,
                start < self.pos(),
                self.pos() == s.len(),
                scan_string(s, start + 1, false) is None,
            decreases s.len() - self.pos(),
        {
            match self.peek() {
                Some(ch) => {
                    if escaped {
                        escaped = false;
                        self.advance();
                    } else if ch == '\\' {
                        escaped = true;
                        self.advance();
                    } else if ch == '"' {
                        self.advance();
                        let sp = self.span_from(start, start_byte);
                        return Ok(Token { kind: TokenKind::StringLiteral(self.slice(start, self.pos)), span: sp });
                    } else {
                        self.advance();
                    }
                },
                None => {
                    break;
                },
            }
        }
        let sp = self.span_from(start, start_byte);
        Err(LexError { span: sp, message: String::from_str("Unterminated string literal") })
    }

    fn lex_raw_string(&mut self) -> (r: Result<Token<'src>, LexError>)
        requires
            old(self).wf(),
            old(self).pos() < old(self).text().len(),
        ensures
            final(self).wf(),
            final(self).text() == old(self).text(),
            ({
                let (sr, e) = lex_raw_string_spec(old(self).text(), old(self).pos());
                &&& final(self).pos() == e
                &&& match (r, sr) {
                    (Ok(t), Ok(st)) => token_view(t) == st,
                    (Err(x), Err(sx)) => lex_error_view(x) == sx,
                    _ => false,
                }
            }),
    {
        let ghost s = self.text();
        let start = self.pos;
        let start_byte = self.current;
        self.advance();
        if !self.peek_is('"') {
            let sp = self.span_from(start, start_byte);
            return Err(
                LexError { span: sp, message: String::from_str("Expected '\"' after 'r' for raw string") },
            );
        }
        self.advance();
        loop
            invariant
                self.wf(),
                self.text() == s,
                start + 2 <= self.pos(),
                start_byte == byte_pos(s, start as int),
                s == old(self).text(),
                start == old(self).pos(),
                s[start + 1] == '"',
                scan_while(s, start + 2, not_quote_pred()) == scan_while(s, self.pos(), not_quote_pred()),
            ensures
                self.wf(),
                self.text() == s,
                start + 2 <= self.pos(),
                self.pos() == s.len(),
                scan_while(s, start + 2, not_quote_pred()) == s.len(),
            decreases s.len() - self.pos(),
        {
            match self.peek() {
                Some(ch) => {
                    if ch == '"' {
                        self.advance();
                        let sp = self.span_from(start, start_byte);
                        return Ok(
                            Token { kind: TokenKind::RawStringLiteral(self.slice(start, self.pos)), span: sp },
                        );
                    } else {
                        self.advance();
                    }
                },
                None => {
                    break;
                },
            }
        }
        let sp = self.span_from(start, start_byte);
        Err(LexError { span: sp, message: String::from_str("Unterminated raw string literal") })
    }

    fn lex_char(&mut self) -> (r: Result<Token<'src>, LexError>)
        requires
            old(self).wf(),
            old(self).pos() < old(self).text().len(),
        ensures
            final(self).wf(),
            final(self).text() == old(self).text(),
            ({
                let (sr, e) = lex_char_spec(old(self).text(), old(self).pos());
                &&& final(self).pos() == e
                &&& match (r, sr) {
                    (Ok(t), Ok(st)) => token_view(t) == st,
                    (Err(x), Err(sx)) => lex_error_view(x) == sx,
                    _ => false,
                }
            }),
    {
        let start = self.pos;
        let start_byte = self.current;
        self.advance();
        if let Some(ch) = self.peek() {
            if ch == '\\' {
                self.advance();
                self.advance();
            } else {
                self.advance();
            }
        }
        if self.peek_is('\'') {
            self.advance();
            let sp = self.span_from(start, start_byte);
            return Ok(Token { kind: TokenKind::CharLiteral(self.slice(start, self.pos)), span: sp });
        }
        let sp = self.span_from(start, start_byte);
        Err(LexError { span: sp, message: String::from_str("Unterminated char literal") })
    }

    fn advance_n(&mut self, n: usize)
        requires
            old(self).wf(),
            old(self).pos() + n <= old(self).text().len(),
        ensures
            final(self).wf(),
            final(self).text() == old(self).text(),
            final(self).pos() == old(self).pos() + n,
    {
        let mut k: usize = 0;
        while k < n
            invariant
                self.wf(),
                self.text() == old(self).text(),
                k <= n,
                self.pos() == old(self).pos() + k,
                old(self).pos() + n <= old(self).text().len(),
            decreases n - k,
        {
            self.advance();
            k = k + 1;
        }
    }

    fn lex_operator_or_punct(&mut self) -> (r: Token<'src>)
        requires
            old(self).wf(),
            old(self).pos() < old(self).text().len(),
            !operator_panics(old(self).text(), old(self).pos()),
        ensures
            final(self).wf(),
            final(self).text() == old(self).text(),
            (token_view(r), final(self).pos()) == lex_operator_spec(old(self).text(), old(self).pos()),
    {
        let ghost s = self.text();
        let start = self.pos;
        let start_byte = self.current;
        let n = self.chars.len();
        proof {
            reveal_strlit("<=>");
            reveal_strlit("#==");
            reveal_strlit("$~");
        }
        if n - start >= 3 && self.text_is(start, start + 3, "<=>") {
            self.advance_n(3);
            let sp = self.span_from(start, start_byte);
            return Token { kind: TokenKind::Spaceship, span: sp };
        }
        if n - start >= 3 && self.text_is(start, start + 3, "#==") {
            self.advance_n(3);
            let sp = self.span_from(start, start_byte);
            return Token { kind: TokenKind::HashEqEq, span: sp };
        }
        if n - start >= 2 && self.text_is(start, start + 2, "$~") {
            self.advance_n(2);
            let sp = self.span_from(start, start_byte);
            return Token { kind: TokenKind::DollarTilde, span: sp };
        }
        let c = self.chars[start];
        if len_utf8(c) == 1 && start + 1 < n {
            if let Some(kind) = two_char_kind(c, self.chars[start + 1]) {
                self.advance_n(2);
                let sp = self.span_from(start, start_byte);
                return Token { kind, span: sp };
            }
        }
        self.advance();
        let kind = match one_char_kind(c) {
            Some(k) => k,
            None => {
                proof {
                    assert(false);
                }
                TokenKind::Eof
            },
        };
        let sp = self.span_from(start, start_byte);
        Token { kind, span: sp }
    }

    /// The next token (comments included, whitespace skipped), an error, or
    /// `None` at the end of the text.
    pub fn next(&mut self) -> (r: Option<Result<Token<'src>, LexError>>)
        requires
            old(self).wf(),
            !next_fails(old(self).text(), old(self).pos()),
        ensures
            final(self).wf(),
            final(self).text() == old(self).text(),
            ({
                let (item, e) = next_item(old(self).text(), old(self).pos());
                &&& final(self).pos() == e
                &&& match (r, item) {
                    (None, None) => true,
                    (Some(Ok(t)), Some(Ok(st))) => token_view(t) == st,
                    (Some(Err(x)), Some(Err(sx))) => lex_error_view(x) == sx,
                    _ => false,
                }
            }),
            r matches Some(Ok(_)) ==> old(self).pos() < final(self).pos() <= final(self).text().len(),
    {
        proof {
            reveal(next_item);
            reveal(next_fails);
        }
        let ghost s = self.text();
        let ghost i0 = self.pos();
        loop
            invariant
                self.wf(),
                self.text() == s,
                s == old(self).text(),
                i0 == old(self).pos(),
                i0 <= self.pos(),
                scan_while(s, i0, ws_pred()) == scan_while(s, self.pos(), ws_pred()),
            ensures
                self.wf(),
                self.text() == s,
                scan_while(s, i0, ws_pred()) == self.pos(),
            decreases s.len() - self.pos(),
        {
            let before = self.pos;
            match self.skip_whitespace() {
                Some(_) => {
                    proof {
                        lemma_scan_while(s, before as int, ws_pred());
                    }
                },
                None => {
                    break;
                },
            }
        }
        if self.pos >= self.chars.len() {
            return None;
        }
        proof {
            lemma_next_item_not_eof(s, i0);
        }
        if let Some(comment) = self.lex_comment() {
            return Some(Ok(comment));
        }
        let ch = self.chars[self.pos];
        if is_alphabetic(ch) || ch == '_' {
            if ch == 'r' && matches!(self.peek_next(), Some('"')) {
                return Some(self.lex_raw_string());
            }
            return Some(Ok(self.lex_identifier_or_keyword()));
        }
        if is_ascii_digit(ch) {
            return Some(Ok(self.lex_number()));
        }
        if ch == '"' {
            return Some(self.lex_string());
        }
        if ch == '\'' {
            return Some(self.lex_char());
        }
        Some(Ok(self.lex_operator_or_punct()))
    }

    /// Whether `next` cannot lex the text at the current position: the
    /// symbol there is no operator, or its first two bytes cut a character.
    pub fn next_fails_here(&self) -> (r: bool)
        requires
            self.wf(),
        ensures
            r == next_fails(self.text(), self.pos()),
    {
        proof {
            reveal(next_fails);
        }
        let ghost s = self.text();
        let n = self.chars.len();
        let mut j = self.pos;
        while j < n && is_whitespace(self.chars[j])
            invariant
                self.wf(),
                s == self.text(),
                n == s.len(),
                self.pos() <= j <= n,
                scan_while(s, self.pos(), ws_pred()) == scan_while(s, j as int, ws_pred()),
            decreases n - j,
        {
            proof {
                lemma_scan_while(s, j as int, ws_pred());
            }
            j = j + 1;
        }
        proof {
            lemma_scan_while(s, j as int, ws_pred());
        }
        if j >= n {
            return false;
        }
        let c = self.chars[j];
        if c == '/' && j + 1 < n && self.chars[j + 1] == '/' {
            return false;
        }
        if is_alphabetic(c) || c == '_' || is_ascii_digit(c) || c == '"' || c == '\'' {
            return false;
        }
        proof {
            reveal_strlit("<=>");
            reveal_strlit("#==");
            reveal_strlit("$~");
        }
        if n - j >= 3 && self.text_is(j, j + 3, "<=>") {
            return false;
        }
        if n - j >= 3 && self.text_is(j, j + 3, "#==") {
            return false;
        }
        if n - j >= 2 && self.text_is(j, j + 2, "$~") {
            return false;
        }
        let w = len_utf8(c);
        let two = w >= 2 || j + 1 < n;
        let cut = w >= 3 || (w == 1 && j + 1 < n && len_utf8(self.chars[j + 1]) >= 2);
        if two && cut {
            return true;
        }
        let pair = w == 1 && j + 1 < n && two_char_kind(c, self.chars[j + 1]).is_some();
        !pair && one_char_kind(c).is_none()
    }

    fn lex_comment(&mut self) -> (r: Option<Token<'src>>)
        requires
            old(self).wf(),
        ensures
            final(self).wf(),
            final(self).text() == old(self).text(),
            ({
                let s = old(self).text();
                let i = old(self).pos();
                if i < s.len() && s[i] == '/' && i + 1 < s.len() && s[i + 1] == '/' {
                    let e = scan_while(s, i + 2, not_newline_pred());
                    r is Some && token_view(r->Some_0) == tok(s, KindV::Comment(s.subrange(i, e)), i, e)
                        && final(self).pos() == e
                } else {
                    r is None && final(self).pos() == i
                }
            }),
    {
        let ghost s = self.text();
        if self.peek_is('/') && matches!(self.peek_next(), Some('/')) {
            let start = self.pos;
            let start_byte = self.current;
            self.advance();
            self.advance();
            loop
                invariant
                    self.wf(),
                    self.text() == s,
                    start + 2 <= self.pos(),
                    start_byte == byte_pos(s, start as int),
                    scan_while(s, start + 2, not_newline_pred()) == scan_while(s, self.pos(), not_newline_pred()),
                ensures
                    self.wf(),
                    self.text() == s,
                    start + 2 <= self.pos(),
                    scan_while(s, start + 2, not_newline_pred()) == self.pos(),
                decreases s.len() - self.pos(),
            {
                match self.peek() {
                    Some(ch) => {
                        if ch == '\n' {
                            break;
                        }
                        self.advance();
                    },
                    None => {
                        break;
                    },
                }
            }
            let sp = self.span_from(start, start_byte);
            return Some(Token { kind: TokenKind::Comment(self.slice(start, self.pos)), span: sp });
        }
        None
    }
}

} // verus!
