//! Integer literals: the value and the explicit type suffix of a literal as the
//! lexer produces it (optional `0x`/`0b`/`0o` prefix, `_` separators between
//! digits, optional `_i32`/`_i64`/`_u32`/`_u64` suffix). The checker and the
//! lowering both read literals through these functions, so they always agree
//! on what a literal means.
use vstd::prelude::*;
use crate::ast;
use crate::ast::{Type, TypeV};
use crate::text::str_chars;

verus! {

#[derive(Debug, Clone, Copy, PartialEq, Eq)]
pub enum IntSuffix {
    I32,
    I64,
    U32,
    U64,
}

#[derive(Debug, Clone, Copy)]
pub struct ParsedInt {
    /// The 64 bits of the value. An unsigned literal too large for `i64` is
    /// kept as the bit pattern of its `u64` value.
    pub bits: i64,
    /// The value of the literal as a number (0 when it is malformed or
    /// beyond `u64`).
    pub value: i128,
    /// The explicit type suffix, if any.
    pub suffix: Option<IntSuffix>,
}

// ---------------------------------------------------------------------------
// Model
// ---------------------------------------------------------------------------

pub open spec fn ends_with(s: Seq<char>, suf: Seq<char>) -> bool {
    s.len() >= suf.len() && s.subrange(s.len() - suf.len(), s.len() as int) == suf
}

pub open spec fn starts_with(s: Seq<char>, pre: Seq<char>) -> bool {
    s.len() >= pre.len() && s.subrange(0, pre.len() as int) == pre
}

/// The numeric part of a literal and its suffix: the first of `_i32`, `_i64`,
/// `_u32`, `_u64` that ends the text is removed.
pub open spec fn split_suffix_spec(t: Seq<char>) -> (Seq<char>, Option<IntSuffix>) {
    if ends_with(t, "_i32"@) {
        (t.subrange(0, t.len() - 4), Some(IntSuffix::I32))
    } else if ends_with(t, "_i64"@) {
        (t.subrange(0, t.len() - 4), Some(IntSuffix::I64))
    } else if ends_with(t, "_u32"@) {
        (t.subrange(0, t.len() - 4), Some(IntSuffix::U32))
    } else if ends_with(t, "_u64"@) {
        (t.subrange(0, t.len() - 4), Some(IntSuffix::U64))
    } else {
        (t, None)
    }
}

/// The value of a digit character in bases up to 36 (36 when it is no digit).
pub open spec fn digit_val(c: char) -> nat {
    if '0' <= c && c <= '9' {
        ((c as int) - ('0' as int)) as nat
    } else if 'a' <= c && c <= 'z' {
        ((c as int) - ('a' as int) + 10) as nat
    } else if 'A' <= c && c <= 'Z' {
        ((c as int) - ('A' as int) + 10) as nat
    } else {
        36
    }
}

pub open spec fn all_digits(s: Seq<char>, radix: nat) -> bool {
    forall|i: int| 0 <= i < s.len() ==> #[trigger] digit_val(s[i]) < radix
}

/// The value of a string of digits, most significant first.
pub open spec fn digits_value(s: Seq<char>, radix: nat) -> nat
    decreases s.len(),
{
    if s.len() == 0 {
        0
    } else {
        digits_value(s.drop_last(), radix) * radix + digit_val(s.last())
    }
}

/// `i64::from_str_radix`: an optional sign, then at least one digit of the base;
/// `None` when the text is malformed or the value is out of range.
pub open spec fn i64_from_radix_spec(s: Seq<char>, radix: nat) -> Option<i64> {
    if s.len() == 0 {
        None
    } else {
        let neg = s[0] == '-';
        let body = if s[0] == '-' || s[0] == '+' { s.drop_first() } else { s };
        if body.len() == 0 || !all_digits(body, radix) {
            None
        } else {
            let v = digits_value(body, radix) as int;
            if neg {
                if v <= 0x8000_0000_0000_0000 { Some((-v) as i64) } else { None }
            } else {
                if v <= 0x7FFF_FFFF_FFFF_FFFF { Some(v as i64) } else { None }
            }
        }
    }
}

/// `u64::from_str_radix`: an optional `+`, then at least one digit of the base.
pub open spec fn u64_from_radix_spec(s: Seq<char>, radix: nat) -> Option<u64> {
    if s.len() == 0 {
        None
    } else {
        let body = if s[0] == '+' { s.drop_first() } else { s };
        if body.len() == 0 || !all_digits(body, radix) {
            None
        } else {
            let v = digits_value(body, radix);
            if v <= 0xFFFF_FFFF_FFFF_FFFF { Some(v as u64) } else { None }
        }
    }
}

/// The base selected by a `0x`/`0X`, `0b`/`0B` or `0o`/`0O` prefix (10 without one)
/// and the digits after the prefix.
pub open spec fn radix_split(s: Seq<char>) -> (nat, Seq<char>) {
    if starts_with(s, "0x"@) || starts_with(s, "0X"@) {
        (16, s.subrange(2, s.len() as int))
    } else if starts_with(s, "0b"@) || starts_with(s, "0B"@) {
        (2, s.subrange(2, s.len() as int))
    } else if starts_with(s, "0o"@) || starts_with(s, "0O"@) {
        (8, s.subrange(2, s.len() as int))
    } else {
        (10, s)
    }
}

/// Keeps every character but `_`.
pub open spec fn not_underscore() -> spec_fn(char) -> bool {
    |c: char| c != '_'
}

/// The 64-bit value of the numeric part of a literal: read as `i64` when it
/// fits, else as `u64` reinterpreted bit for bit, else 0.
pub open spec fn parse_value_spec(s: Seq<char>) -> i64 {
    let clean = s.filter(not_underscore());
    let (radix, digits) = radix_split(clean);
    match i64_from_radix_spec(digits, radix) {
        Some(v) => v,
        None => match u64_from_radix_spec(digits, radix) {
            Some(v) => v as i64,
            None => 0,
        },
    }
}

/// The number that the numeric part of a literal denotes: its value when it
/// reads as `i64` or as `u64`, else 0.
pub open spec fn value_spec(s: Seq<char>) -> int {
    let clean = s.filter(not_underscore());
    let (radix, digits) = radix_split(clean);
    match i64_from_radix_spec(digits, radix) {
        Some(v) => v as int,
        None => match u64_from_radix_spec(digits, radix) {
            Some(v) => v as int,
            None => 0,
        },
    }
}

pub open spec fn parse_int_literal_spec(t: Seq<char>) -> ParsedInt {
    let (num, suffix) = split_suffix_spec(t);
    ParsedInt { bits: parse_value_spec(num), value: value_spec(num) as i128, suffix }
}

pub open spec fn infer_int_type_spec(p: ParsedInt) -> TypeV {
    match p.suffix {
        Some(IntSuffix::I32) => TypeV::I32,
        Some(IntSuffix::I64) => TypeV::I64,
        Some(IntSuffix::U32) => TypeV::U32,
        Some(IntSuffix::U64) => TypeV::U64,
        None => if i32::MIN <= p.value <= i32::MAX {
            TypeV::I32
        } else {
            TypeV::I64
        },
    }
}

// ---------------------------------------------------------------------------
// Implementation
// ---------------------------------------------------------------------------

fn ends_with_str(s: &Vec<char>, suf: &str) -> (r: bool)
    ensures
        r == ends_with(s@, suf@),
{
    let p = str_chars(suf);
    let n = s.len();
    let m = p.len();
    if m > n {
        return false;
    }
    let mut j: usize = 0;
    while j < m
        invariant
            p@ == suf@,
            n == s@.len(),
            m == p@.len(),
            m <= n,
            j <= m,
            forall|k: int| 0 <= k < j ==> s@[n - m + k] == p@[k],
        decreases m - j,
    {
        if s[n - m + j] != p[j] {
            assert(s@.subrange(n - m, n as int)[j as int] != suf@[j as int]);
            return false;
        }
        j = j + 1;
    }
    assert(s@.subrange(n - m, n as int) =~= suf@);
    true
}

fn starts_with_str(s: &Vec<char>, pre: &str) -> (r: bool)
    ensures
        r == starts_with(s@, pre@),
{
    let p = str_chars(pre);
    let n = s.len();
    let m = p.len();
    if m > n {
        return false;
    }
    let mut j: usize = 0;
    while j < m
        invariant
            p@ == pre@,
            n == s@.len(),
            m == p@.len(),
            m <= n,
            j <= m,
            forall|k: int| 0 <= k < j ==> s@[k] == p@[k],
        decreases m - j,
    {
        if s[j] != p[j] {
            assert(s@.subrange(0, m as int)[j as int] != pre@[j as int]);
            return false;
        }
        j = j + 1;
    }
    assert(s@.subrange(0, m as int) =~= pre@);
    true
}

fn split_suffix(text: &Vec<char>) -> (r: (usize, Option<IntSuffix>))
    ensures
        r.0 <= text@.len(),
        text@.subrange(0, r.0 as int) == split_suffix_spec(text@).0,
        r.1 == split_suffix_spec(text@).1,
{
    let n = text.len();
    proof {
        reveal_strlit("_i32");
        reveal_strlit("_i64");
        reveal_strlit("_u32");
        reveal_strlit("_u64");
    }
    if ends_with_str(text, "_i32") {
        (n - 4, Some(IntSuffix::I32))
    } else if ends_with_str(text, "_i64") {
        (n - 4, Some(IntSuffix::I64))
    } else if ends_with_str(text, "_u32") {
        (n - 4, Some(IntSuffix::U32))
    } else if ends_with_str(text, "_u64") {
        (n - 4, Some(IntSuffix::U64))
    } else {
        assert(text@.subrange(0, n as int) =~= text@);
        (n, None)
    }
}

fn digit_value(c: char) -> (r: u32)
    ensures
        r == digit_val(c),
{
    if '0' <= c && c <= '9' {
        (c as u32) - ('0' as u32)
    } else if 'a' <= c && c <= 'z' {
        (c as u32) - ('a' as u32) + 10
    } else if 'A' <= c && c <= 'Z' {
        (c as u32) - ('A' as u32) + 10
    } else {
        36
    }
}

proof fn lemma_digits_value_grows(s: Seq<char>, radix: nat, k: int)
    requires
        radix >= 1,
        0 <= k <= s.len(),
    ensures
        digits_value(s.take(k), radix) <= digits_value(s, radix),
    decreases s.len() - k,
{
    if k < s.len() {
        lemma_digits_value_grows(s.drop_last(), radix, k);
        assert(s.drop_last().take(k) =~= s.take(k));
        let d = digits_value(s.drop_last(), radix);
        assert(d * radix >= d) by (nonlinear_arith)
            requires
                radix >= 1,
        ;
    } else {
        assert(s.take(k) =~= s);
    }
}

/// The value of `s[from..]` read as digits of `radix`: `None` when a
/// character is no digit of the base, else the value, capped at 2^64.
fn digits_value_capped(s: &Vec<char>, from: usize, radix: u32) -> (r: Option<u128>)
    requires
        2 <= radix <= 16,
        from <= s@.len(),
    ensures
        r is None <==> !all_digits(s@.subrange(from as int, s@.len() as int), radix as nat),
        r matches Some(v) ==> (v as int) == if digits_value(s@.subrange(from as int, s@.len() as int), radix as nat)
            < 0x1_0000_0000_0000_0000 {
            digits_value(s@.subrange(from as int, s@.len() as int), radix as nat) as int
        } else {
            0x1_0000_0000_0000_0000
        },
{
    let ghost body = s@.subrange(from as int, s@.len() as int);
    let n = s.len();
    let mut acc: u128 = 0;
    let mut i: usize = from;
    while i < n
        invariant
            2 <= radix <= 16,
            n == s@.len(),
            from <= i <= n,
            body == s@.subrange(from as int, n as int),
            all_digits(body.take(i - from), radix as nat),
            acc <= 0x1_0000_0000_0000_0000,
            (acc as int) == if digits_value(body.take(i - from), radix as nat) < 0x1_0000_0000_0000_0000 {
                digits_value(body.take(i - from), radix as nat) as int
            } else {
                0x1_0000_0000_0000_0000
            },
        decreases n - i,
    {
        let d = digit_value(s[i]);
        let ghost pre = body.take(i - from);
        let ghost next = body.take(i - from + 1);
        assert(next.drop_last() =~= pre);
        assert(next.last() == s@[i as int]);
        if d >= radix {
            assert(!all_digits(body, radix as nat)) by {
                assert(digit_val(body[i - from]) >= radix);
            }
            return None;
        }
        proof {
            let dv = digits_value(pre, radix as nat);
            assert(digits_value(next, radix as nat) == dv * radix + d);
            if dv >= 0x1_0000_0000_0000_0000 {
                assert(dv * radix >= dv) by (nonlinear_arith)
                    requires
                        radix >= 1,
                ;
            }
        }
        if acc < 0x1_0000_0000_0000_0000 {
            assert(acc * (radix as u128) <= 0x1_0000_0000_0000_0000 * 16) by (nonlinear_arith)
                requires
                    acc < 0x1_0000_0000_0000_0000,
                    radix <= 16,
            ;
            let v = acc * (radix as u128) + (d as u128);
            acc = if v < 0x1_0000_0000_0000_0000 { v } else { 0x1_0000_0000_0000_0000 };
        }
        i = i + 1;
        assert(all_digits(body.take(i - from), radix as nat)) by {
            assert forall|k: int| 0 <= k < body.take(i - from).len() implies #[trigger] digit_val(
                body.take(i - from)[k],
            ) < radix by {
                if k < i - from - 1 {
                    assert(body.take(i - from)[k] == pre[k]);
                }
            }
        }
    }
    assert(body.take(n - from) =~= body);
    Some(acc)
}

fn from_str_radix_i64(s: &Vec<char>, from: usize, radix: u32) -> (r: Option<i64>)
    requires
        2 <= radix <= 16,
        from <= s@.len(),
    ensures
        r == i64_from_radix_spec(s@.subrange(from as int, s@.len() as int), radix as nat),
{
    let ghost t = s@.subrange(from as int, s@.len() as int);
    let n = s.len();
    if from == n {
        return None;
    }
    let neg = s[from] == '-';
    let start = if s[from] == '-' || s[from] == '+' { from + 1 } else { from };
    assert(s@.subrange(start as int, n as int) =~= if t[0] == '-' || t[0] == '+' { t.drop_first() } else { t });
    if start == n {
        return None;
    }
    match digits_value_capped(s, start, radix) {
        None => None,
        Some(v) => {
            if neg {
                if v <= 0x8000_0000_0000_0000 {
                    Some((0i128 - (v as i128)) as i64)
                } else {
                    None
                }
            } else {
                if v <= 0x7FFF_FFFF_FFFF_FFFF {
                    Some(v as i64)
                } else {
                    None
                }
            }
        },
    }
}

fn from_str_radix_u64(s: &Vec<char>, from: usize, radix: u32) -> (r: Option<u64>)
    requires
        2 <= radix <= 16,
        from <= s@.len(),
    ensures
        r == u64_from_radix_spec(s@.subrange(from as int, s@.len() as int), radix as nat),
{
    let ghost t = s@.subrange(from as int, s@.len() as int);
    let n = s.len();
    if from == n {
        return None;
    }
    let start = if s[from] == '+' { from + 1 } else { from };
    assert(s@.subrange(start as int, n as int) =~= if t[0] == '+' { t.drop_first() } else { t });
    if start == n {
        return None;
    }
    match digits_value_capped(s, start, radix) {
        None => None,
        Some(v) => {
            if v <= 0xFFFF_FFFF_FFFF_FFFF {
                Some(v as u64)
            } else {
                None
            }
        },
    }
}

fn parse_value(s: &Vec<char>, len: usize) -> (r: (i64, i128))
    requires
        len <= s@.len(),
    ensures
        r.0 == parse_value_spec(s@.subrange(0, len as int)),
        r.1 as int == value_spec(s@.subrange(0, len as int)),
{
    let ghost src = s@.subrange(0, len as int);
    let mut clean: Vec<char> = Vec::new();
    let mut i: usize = 0;
    while i < len
        invariant
            len <= s@.len(),
            src == s@.subrange(0, len as int),
            i <= len,
            clean@ == src.take(i as int).filter(not_underscore()),
        decreases len - i,
    {
        let c = s[i];
        assert(src.take(i + 1).drop_last() =~= src.take(i as int));
        assert(src.take(i + 1).last() == c);
        proof {
            reveal(Seq::filter);
        }
        assert(src.take(i + 1).filter(not_underscore()) == if c != '_' {
            src.take(i as int).filter(not_underscore()).push(c)
        } else {
            src.take(i as int).filter(not_underscore())
        });
        if c != '_' {
            clean.push(c);
        }
        i = i + 1;
    }
    assert(src.take(len as int) =~= src);
    proof {
        reveal_strlit("0x");
        reveal_strlit("0X");
        reveal_strlit("0b");
        reveal_strlit("0B");
        reveal_strlit("0o");
        reveal_strlit("0O");
    }
    let (radix, start): (u32, usize) = if starts_with_str(&clean, "0x") || starts_with_str(&clean, "0X") {
        (16, 2)
    } else if starts_with_str(&clean, "0b") || starts_with_str(&clean, "0B") {
        (2, 2)
    } else if starts_with_str(&clean, "0o") || starts_with_str(&clean, "0O") {
        (8, 2)
    } else {
        (10, 0)
    };
    assert(clean@.subrange(start as int, clean@.len() as int) == radix_split(clean@).1) by {
        if start == 0 {
            assert(clean@.subrange(0, clean@.len() as int) =~= clean@);
        }
    }
    match from_str_radix_i64(&clean, start, radix) {
        Some(v) => (v, v as i128),
        None => match from_str_radix_u64(&clean, start, radix) {
            Some(v) => (v as i64, v as i128),
            None => (0, 0),
        },
    }
}

/// `u64::from_str_radix(text, 10)` on a sequence of characters.
pub fn u64_from_decimal(s: &Vec<char>) -> (r: Option<u64>)
    ensures
        r == u64_from_radix_spec(s@, 10),
{
    assert(s@.subrange(0, s@.len() as int) =~= s@);
    from_str_radix_u64(s, 0, 10)
}

/// Reads an integer literal as the lexer produces it: its 64-bit pattern,
/// its value and its suffix.
pub fn parse_int_literal(text: &str) -> (r: ParsedInt)
    ensures
        r == parse_int_literal_spec(text@),
{
    let chars = str_chars(text);
    let (len, suffix) = split_suffix(&chars);
    let (bits, value) = parse_value(&chars, len);
    ParsedInt { bits, value, suffix }
}

/// The type of an integer literal: the explicit suffix when there is one,
/// otherwise `i32` when the value fits in it and `i64` when it does not.
pub fn infer_int_type(parsed: &ParsedInt) -> (r: Type)
    ensures
        ast::type_view(r) == infer_int_type_spec(*parsed),
{
    match parsed.suffix {
        Some(IntSuffix::I32) => Type::I32,
        Some(IntSuffix::I64) => Type::I64,
        Some(IntSuffix::U32) => Type::U32,
        Some(IntSuffix::U64) => Type::U64,
        None => {
            if parsed.value >= i32::MIN as i128 && parsed.value <= i32::MAX as i128 {
                Type::I32
            } else {
                Type::I64
            }
        },
    }
}

/// Whether a type is one of the unsigned integer types.
pub fn is_unsigned(ty: &Type) -> (r: bool)
    ensures
        r == (*ty is U32 || *ty is U64),
{
    matches!(ty, Type::U32 | Type::U64)
}

} // verus!
