//! The assembler's expression grammar evaluated over the tokens of a buffer:
//! numeric and character literals, symbol references, `HIGH()`, `LOW()` and
//! `BANK()`, parentheses, and binary operators at a single precedence level,
//! right-associative.
//!
//! Arithmetic wraps rather than overflowing, division and remainder by zero
//! give `0`, and shift counts are masked to 63, as the assembler's evaluator
//! has it. Exponentiation is the one operator computed by the caller, who
//! hands it in as a function.

use vstd::prelude::*;
use crate::lsp::{number_value, parse_number};
use crate::lsp::tokens::{located_view, locs, LexKind, Located};
use crate::text::str_eq;

verus! {

/// A symbol the buffer defines: its name, its value, whether it is a label,
/// and the bank it sits in.
#[derive(Clone, Debug)]
pub struct Symbol {
    pub name: String,
    pub value: i64,
    pub label: bool,
    pub bank: i64,
}

/// A symbol as plain values.
pub open spec fn symbol_view(s: Symbol) -> (Seq<char>, i64, bool, i64) {
    (s.name@, s.value, s.label, s.bank)
}

/// Symbols as plain values.
pub open spec fn syms(v: Seq<Symbol>) -> Seq<(Seq<char>, i64, bool, i64)> {
    v.map_values(|s: Symbol| symbol_view(s))
}

/// The index of the first symbol named `n`, from `k` on.
pub open spec fn symbol_index(ss: Seq<(Seq<char>, i64, bool, i64)>, n: Seq<char>, k: int) -> Option<int>
    decreases ss.len() - k,
{
    if k < 0 || k >= ss.len() {
        None
    } else if ss[k].0 == n {
        Some(k)
    } else {
        symbol_index(ss, n, k + 1)
    }
}

/// Find the first symbol named `name`.
pub fn find_symbol(symbols: &[Symbol], name: &str) -> (r: Option<usize>)
    ensures
        r matches Some(k) ==> k < symbols.len() && symbol_index(syms(symbols@), name@, 0) == Some(
            k as int,
        ),
        r is None ==> symbol_index(syms(symbols@), name@, 0) is None,
{
    let ghost ss = syms(symbols@);
    let mut k: usize = 0;
    while k < symbols.len()
        invariant
            k <= symbols.len(),
            ss == syms(symbols@),
            symbol_index(ss, name@, 0) == symbol_index(ss, name@, k as int),
        decreases symbols.len() - k,
    {
        assert(ss[k as int] == symbol_view(symbols@[k as int]));
        if str_eq(symbols[k].name.as_str(), name) {
            return Some(k);
        }
        k += 1;
    }
    None
}

/// A binary operator of the expression grammar.
#[derive(Clone, Copy, Debug, PartialEq, Eq, Structural)]
pub enum Op {
    Add,
    Sub,
    Mul,
    Div,
    Pow,
    And,
    Or,
    Xor,
    Shl,
    Shr,
    Mod,
    Eq,
    Ne,
    Lt,
    Gt,
    Le,
    Ge,
}

/// A token as plain values.
pub type Tok = (LexKind, Seq<char>, crate::lsp::Range);

/// Whether `t` is the punctuation `p`.
pub open spec fn is_punct(t: Tok, p: Seq<char>) -> bool {
    t.0 == LexKind::Punct && t.1 == p
}

/// The operator a pair of adjacent punctuation characters spells.
pub open spec fn pair_op(a: Seq<char>, b: Seq<char>) -> Option<Op> {
    if a == "*"@ && b == "*"@ {
        Some(Op::Pow)
    } else if a == ">"@ && b == ">"@ {
        Some(Op::Shr)
    } else if a == "<"@ && b == "<"@ {
        Some(Op::Shl)
    } else if a == "="@ && b == "="@ {
        Some(Op::Eq)
    } else if a == "!"@ && b == "="@ {
        Some(Op::Ne)
    } else if a == "<"@ && b == "="@ {
        Some(Op::Le)
    } else if a == ">"@ && b == "="@ {
        Some(Op::Ge)
    } else {
        None
    }
}

/// The operator one punctuation character spells.
pub open spec fn single_op(a: Seq<char>) -> Option<Op> {
    if a == "+"@ {
        Some(Op::Add)
    } else if a == "-"@ {
        Some(Op::Sub)
    } else if a == "*"@ {
        Some(Op::Mul)
    } else if a == "/"@ {
        Some(Op::Div)
    } else if a == "&"@ {
        Some(Op::And)
    } else if a == "|"@ {
        Some(Op::Or)
    } else if a == "^"@ {
        Some(Op::Xor)
    } else if a == "%"@ {
        Some(Op::Mod)
    } else if a == "<"@ {
        Some(Op::Lt)
    } else if a == ">"@ {
        Some(Op::Gt)
    } else {
        None
    }
}

/// The binary operator at token `p`, and how many tokens it spans: the
/// punctuation comes one character to a token, so a two-character operator
/// is a pair of adjacent tokens (`< <` with a space between is no shift).
pub open spec fn binary_at(ts: Seq<Tok>, p: int) -> Option<(Op, int)> {
    if p < 0 || p >= ts.len() || ts[p].0 != LexKind::Punct {
        None
    } else {
        let pair = if p + 1 < ts.len() && ts[p + 1].0 == LexKind::Punct && ts[p + 1].2.start
            == ts[p].2.end {
            pair_op(ts[p].1, ts[p + 1].1)
        } else {
            None
        };
        match pair {
            Some(op) => Some((op, 2)),
            None => match single_op(ts[p].1) {
                Some(op) => Some((op, 1)),
                None => None,
            },
        }
    }
}

/// The magnitude of `a`.
pub open spec fn mag(a: int) -> int {
    if a < 0 {
        -a
    } else {
        a
    }
}

/// Division truncated toward zero.
pub open spec fn quot(a: int, b: int) -> int {
    if (a < 0) != (b < 0) {
        -(mag(a) / mag(b))
    } else {
        mag(a) / mag(b)
    }
}

/// The remainder of division truncated toward zero, with the sign of `a`.
pub open spec fn rem(a: int, b: int) -> int {
    if a < 0 {
        -(mag(a) % mag(b))
    } else {
        mag(a) % mag(b)
    }
}

/// `1` for true, `0` for false.
pub open spec fn flag(c: bool) -> i64 {
    if c {
        1
    } else {
        0
    }
}

/// Apply a binary operator, exponentiation taken from `pw`.
pub open spec fn apply(a: i64, op: Op, b: i64, pw: spec_fn(i64, i64) -> i64) -> i64 {
    match op {
        Op::Add => a.wrapping_add(b),
        Op::Sub => a.wrapping_sub(b),
        Op::Mul => a.wrapping_mul(b),
        Op::Div => if b == 0 {
            0
        } else {
            quot(a as int, b as int) as i64
        },
        Op::Pow => pw(a, b),
        Op::And => a & b,
        Op::Or => a | b,
        Op::Xor => a ^ b,
        Op::Shr => a.wrapping_shr((b & 63) as u32),
        Op::Shl => a.wrapping_shl((b & 63) as u32),
        Op::Mod => if b == 0 {
            0
        } else {
            rem(a as int, b as int) as i64
        },
        Op::Eq => flag(a == b),
        Op::Ne => flag(a != b),
        Op::Lt => flag(a < b),
        Op::Gt => flag(a > b),
        Op::Le => flag(a <= b),
        Op::Ge => flag(a >= b),
    }
}

/// Whether the function `pow` computes `pw`: every value it can return for
/// `(a, b)` is `pw(a, b)`.
pub open spec fn computes<F: Fn(i64, i64) -> i64>(pow: F, pw: spec_fn(i64, i64) -> i64) -> bool {
    forall|a: i64, b: i64, v: i64| #[trigger] pow.ensures((a, b), v) ==> v == pw(a, b)
}

/// An expression from token `pos`: a primary, then optionally an operator
/// and (right-associatively) another expression. The value and the index
/// after it.
pub open spec fn eval_expr_at(ts: Seq<Tok>, pos: int, ss: Seq<(Seq<char>, i64, bool, i64)>, pw: spec_fn(i64, i64) -> i64) -> Option<(i64, int)>
    decreases ts.len() - pos, 1int,
{
    if pos < 0 || pos >= ts.len() {
        None
    } else {
        match eval_primary_at(ts, pos, ss, pw) {
            None => None,
            Some((left, p1)) => if p1 <= pos || p1 > ts.len() {
                None
            } else {
                match binary_at(ts, p1) {
                    None => Some((left, p1)),
                    Some((op, w)) => if p1 + w > ts.len() {
                        None
                    } else {
                        match eval_expr_at(ts, p1 + w, ss, pw) {
                            None => None,
                            Some((right, p2)) => Some((apply(left, op, right, pw), p2)),
                        }
                    },
                }
            },
        }
    }
}

/// The byte value of a character literal `'x'`: its second byte.
pub open spec fn char_value(t: Seq<char>) -> Option<i64> {
    let b = vstd::utf8::encode_utf8(t);
    if b.len() > 1 {
        Some(b[1] as i64)
    } else {
        None
    }
}

/// A primary from token `pos`: a literal, a symbol, a built-in call or a
/// parenthesized expression. The value and the index after it.
pub open spec fn eval_primary_at(ts: Seq<Tok>, pos: int, ss: Seq<(Seq<char>, i64, bool, i64)>, pw: spec_fn(i64, i64) -> i64) -> Option<(i64, int)>
    decreases ts.len() - pos, 0int,
{
    if pos < 0 || pos >= ts.len() {
        None
    } else {
        let t = ts[pos];
        if t.0 == LexKind::Number {
            match number_value(t.1) {
                Some(v) => Some((v as i64, pos + 1)),
                None => None,
            }
        } else if t.0 == LexKind::Char {
            match char_value(t.1) {
                Some(v) => Some((v, pos + 1)),
                None => None,
            }
        } else if t.0 == LexKind::Ident {
            if t.1 != "HIGH"@ && t.1 != "LOW"@ && t.1 != "BANK"@ {
                match symbol_index(ss, t.1, 0) {
                    Some(k) => Some((ss[k].1, pos + 1)),
                    None => None,
                }
            } else if !(pos + 1 < ts.len() && is_punct(ts[pos + 1], "("@)) {
                None
            } else if t.1 == "BANK"@ {
                if pos + 2 >= ts.len() {
                    None
                } else {
                    match symbol_index(ss, ts[pos + 2].1, 0) {
                        None => None,
                        Some(k) => if pos + 3 < ts.len() && is_punct(ts[pos + 3], ")"@) {
                            Some((ss[k].3, pos + 4))
                        } else {
                            None
                        },
                    }
                }
            } else {
                match eval_expr_at(ts, pos + 2, ss, pw) {
                    None => None,
                    Some((inner, p)) => if 0 <= p < ts.len() && is_punct(ts[p], ")"@) {
                        Some(
                            (
                                if t.1 == "HIGH"@ {
                                    (inner >> 8u64) & 0xFF
                                } else {
                                    inner & 0xFF
                                },
                                p + 1,
                            ),
                        )
                    } else {
                        None
                    },
                }
            }
        } else if is_punct(t, "("@) {
            match eval_expr_at(ts, pos + 1, ss, pw) {
                None => None,
                Some((inner, p)) => if 0 <= p < ts.len() && is_punct(ts[p], ")"@) {
                    Some((inner, p + 1))
                } else {
                    None
                },
            }
        } else {
            None
        }
    }
}

/// The value of a whole argument: an expression that uses every token.
pub open spec fn eval_all(ts: Seq<Tok>, ss: Seq<(Seq<char>, i64, bool, i64)>, pw: spec_fn(i64, i64) -> i64) -> Option<i64> {
    match eval_expr_at(ts, 0, ss, pw) {
        Some((v, p)) => if p == ts.len() {
            Some(v)
        } else {
            None
        },
        None => None,
    }
}

/// Whether token `t` is the punctuation `p`.
fn punct_is(t: &Located, p: &str) -> (r: bool)
    ensures
        r == is_punct(located_view(*t), p@),
{
    t.kind == LexKind::Punct && str_eq(t.text.as_str(), p)
}

/// The binary operator at token `p` of `tokens`, and how many tokens it
/// spans.
pub fn binary_op(tokens: &[Located], p: usize) -> (r: Option<(Op, usize)>)
    ensures
        r matches Some((op, w)) ==> binary_at(locs(tokens@), p as int) == Some((op, w as int)),
        r is None ==> binary_at(locs(tokens@), p as int) is None,
{
    let ghost ts = locs(tokens@);
    if p >= tokens.len() || tokens[p].kind != LexKind::Punct {
        if p < tokens.len() {
            assert(ts[p as int] == located_view(tokens@[p as int]));
        }
        return None;
    }
    let first = &tokens[p];
    assert(ts[p as int] == located_view(*first));
    let a = first.text.as_str();
    if p + 1 < tokens.len() && tokens[p + 1].kind == LexKind::Punct && tokens[p + 1].range.start
        == first.range.end {
        assert(ts[p + 1] == located_view(tokens@[p + 1]));
        let b = tokens[p + 1].text.as_str();
        let pair = if str_eq(a, "*") && str_eq(b, "*") {
            Some(Op::Pow)
        } else if str_eq(a, ">") && str_eq(b, ">") {
            Some(Op::Shr)
        } else if str_eq(a, "<") && str_eq(b, "<") {
            Some(Op::Shl)
        } else if str_eq(a, "=") && str_eq(b, "=") {
            Some(Op::Eq)
        } else if str_eq(a, "!") && str_eq(b, "=") {
            Some(Op::Ne)
        } else if str_eq(a, "<") && str_eq(b, "=") {
            Some(Op::Le)
        } else if str_eq(a, ">") && str_eq(b, "=") {
            Some(Op::Ge)
        } else {
            None
        };
        if let Some(op) = pair {
            return Some((op, 2));
        }
    }
    let single = if str_eq(a, "+") {
        Op::Add
    } else if str_eq(a, "-") {
        Op::Sub
    } else if str_eq(a, "*") {
        Op::Mul
    } else if str_eq(a, "/") {
        Op::Div
    } else if str_eq(a, "&") {
        Op::And
    } else if str_eq(a, "|") {
        Op::Or
    } else if str_eq(a, "^") {
        Op::Xor
    } else if str_eq(a, "%") {
        Op::Mod
    } else if str_eq(a, "<") {
        Op::Lt
    } else if str_eq(a, ">") {
        Op::Gt
    } else {
        return None;
    };
    Some((single, 1))
}

/// The magnitude of `a`, as an unsigned 128-bit value.
fn magnitude(a: i64) -> (r: u128)
    ensures
        r as int == mag(a as int),
{
    if a < 0 {
        (0i128 - a as i128) as u128
    } else {
        a as u128
    }
}

/// Division truncated toward zero, wrapping: `i64::MIN / -1` is `i64::MIN`.
fn wrapping_quot(a: i64, b: i64) -> (r: i64)
    requires
        b != 0,
    ensures
        r == quot(a as int, b as int) as i64,
{
    let ua = magnitude(a);
    let ub = magnitude(b);
    let q = ua / ub;
    assert(q <= ua);
    let v: i128 = if (a < 0) != (b < 0) {
        0i128 - q as i128
    } else {
        q as i128
    };
    assert(v == quot(a as int, b as int));
    v as i64
}

/// The remainder of division truncated toward zero, with the sign of `a`.
fn wrapping_rem(a: i64, b: i64) -> (r: i64)
    requires
        b != 0,
    ensures
        r == rem(a as int, b as int) as i64,
{
    let ua = magnitude(a);
    let ub = magnitude(b);
    let m = ua % ub;
    assert(m < ub);
    let v: i128 = if a < 0 {
        0i128 - m as i128
    } else {
        m as i128
    };
    assert(v == rem(a as int, b as int));
    v as i64
}

/// Apply a binary operator; exponentiation is `pow`'s.
pub fn apply_op<F: Fn(i64, i64) -> i64>(a: i64, op: Op, b: i64, pow: &F) -> (r: i64)
    requires
        forall|x: i64, y: i64| pow.requires((x, y)),
    ensures
        forall|pw: spec_fn(i64, i64) -> i64| computes(*pow, pw) ==> r == apply(a, op, b, pw),
{
    match op {
        Op::Add => a.wrapping_add(b),
        Op::Sub => a.wrapping_sub(b),
        Op::Mul => a.wrapping_mul(b),
        Op::Div => if b == 0 {
            0
        } else {
            wrapping_quot(a, b)
        },
        Op::Pow => {
            let v = pow(a, b);
            assert forall|pw: spec_fn(i64, i64) -> i64| computes(*pow, pw) implies v == apply(
                a,
                op,
                b,
                pw,
            ) by {
                assert(pow.ensures((a, b), v));
            }
            v
        },
        Op::And => a & b,
        Op::Or => a | b,
        Op::Xor => a ^ b,
        Op::Shr => {
            let k = b & 63;
            assert(0 <= k < 64) by (bit_vector)
                requires
                    k == b & 63,
            ;
            a.wrapping_shr(k as u32)
        },
        Op::Shl => {
            let k = b & 63;
            assert(0 <= k < 64) by (bit_vector)
                requires
                    k == b & 63,
            ;
            a.wrapping_shl(k as u32)
        },
        Op::Mod => if b == 0 {
            0
        } else {
            wrapping_rem(a, b)
        },
        Op::Eq => if a == b {
            1
        } else {
            0
        },
        Op::Ne => if a != b {
            1
        } else {
            0
        },
        Op::Lt => if a < b {
            1
        } else {
            0
        },
        Op::Gt => if a > b {
            1
        } else {
            0
        },
        Op::Le => if a <= b {
            1
        } else {
            0
        },
        Op::Ge => if a >= b {
            1
        } else {
            0
        },
    }
}

/// An evaluation outcome with its index widened.
pub open spec fn widen(r: Option<(i64, usize)>) -> Option<(i64, int)> {
    match r {
        Some((v, p)) => Some((v, p as int)),
        None => None,
    }
}

/// Evaluate the expression from token `pos`: its value and the index after
/// it.
fn eval_expr<F: Fn(i64, i64) -> i64>(tokens: &[Located], pos: usize, symbols: &[Symbol], pow: &F) -> (r: Option<(i64, usize)>)
    requires
        pos <= tokens.len(),
        forall|x: i64, y: i64| pow.requires((x, y)),
    ensures
        forall|pw: spec_fn(i64, i64) -> i64| computes(*pow, pw) ==> widen(r) == eval_expr_at(
            locs(tokens@),
            pos as int,
            syms(symbols@),
            pw,
        ),
        r matches Some((_, p)) ==> pos < p <= tokens.len(),
    decreases tokens.len() - pos, 1int,
{
    if pos >= tokens.len() {
        return None;
    }
    let (left, p1) = match eval_primary(tokens, pos, symbols, pow) {
        Some(x) => x,
        None => return None,
    };
    if p1 <= pos || p1 > tokens.len() {
        return None;
    }
    match binary_op(tokens, p1) {
        None => Some((left, p1)),
        Some((op, w)) => {
            if w > tokens.len() - p1 {
                return None;
            }
            match eval_expr(tokens, p1 + w, symbols, pow) {
                None => None,
                Some((right, p2)) => Some((apply_op(left, op, right, pow), p2)),
            }
        },
    }
}

/// Evaluate the primary at token `pos`: its value and the index after it.
fn eval_primary<F: Fn(i64, i64) -> i64>(tokens: &[Located], pos: usize, symbols: &[Symbol], pow: &F) -> (r: Option<(i64, usize)>)
    requires
        pos <= tokens.len(),
        forall|x: i64, y: i64| pow.requires((x, y)),
    ensures
        forall|pw: spec_fn(i64, i64) -> i64| computes(*pow, pw) ==> widen(r) == eval_primary_at(
            locs(tokens@),
            pos as int,
            syms(symbols@),
            pw,
        ),
        r matches Some((_, p)) ==> pos < p <= tokens.len(),
    decreases tokens.len() - pos, 0int,
{
    let ghost ts = locs(tokens@);
    if pos >= tokens.len() {
        return None;
    }
    let t = &tokens[pos];
    assert(ts[pos as int] == located_view(*t));
    match t.kind {
        LexKind::Number => match parse_number(t.text.as_str()) {
            Some(v) => Some((v, pos + 1)),
            None => None,
        },
        LexKind::Char => {
            let b = t.text.as_str().as_bytes();
            if b.len() > 1 {
                Some((b[1] as i64, pos + 1))
            } else {
                None
            }
        },
        LexKind::Ident => {
            let name = t.text.as_str();
            let high = str_eq(name, "HIGH");
            let low = str_eq(name, "LOW");
            let bank = str_eq(name, "BANK");
            if !high && !low && !bank {
                return match find_symbol(symbols, name) {
                    Some(k) => {
                        assert(syms(symbols@)[k as int] == symbol_view(symbols@[k as int]));
                        Some((symbols[k].value, pos + 1))
                    },
                    None => None,
                };
            }
            if !(pos + 1 < tokens.len() && punct_is(&tokens[pos + 1], "(")) {
                if pos + 1 < tokens.len() {
                    assert(ts[pos + 1] == located_view(tokens@[pos + 1]));
                }
                return None;
            }
            assert(ts[pos + 1] == located_view(tokens@[pos + 1]));
            if bank {
                if pos + 2 >= tokens.len() {
                    return None;
                }
                assert(ts[pos + 2] == located_view(tokens@[pos + 2]));
                let k = match find_symbol(symbols, tokens[pos + 2].text.as_str()) {
                    Some(k) => k,
                    None => return None,
                };
                assert(syms(symbols@)[k as int] == symbol_view(symbols@[k as int]));
                if pos + 3 < tokens.len() && punct_is(&tokens[pos + 3], ")") {
                    assert(ts[pos + 3] == located_view(tokens@[pos + 3]));
                    return Some((symbols[k].bank, pos + 4));
                }
                if pos + 3 < tokens.len() {
                    assert(ts[pos + 3] == located_view(tokens@[pos + 3]));
                }
                return None;
            }
            let (inner, p) = match eval_expr(tokens, pos + 2, symbols, pow) {
                Some(x) => x,
                None => return None,
            };
            if p < tokens.len() && punct_is(&tokens[p], ")") {
                assert(ts[p as int] == located_view(tokens@[p as int]));
                let v = if high {
                    (inner >> 8u64) & 0xFF
                } else {
                    inner & 0xFF
                };
                Some((v, p + 1))
            } else {
                if p < tokens.len() {
                    assert(ts[p as int] == located_view(tokens@[p as int]));
                }
                None
            }
        },
        LexKind::Punct => {
            if !punct_is(t, "(") {
                return None;
            }
            let (inner, p) = match eval_expr(tokens, pos + 1, symbols, pow) {
                Some(x) => x,
                None => return None,
            };
            if p < tokens.len() && punct_is(&tokens[p], ")") {
                assert(ts[p as int] == located_view(tokens@[p as int]));
                Some((inner, p + 1))
            } else {
                if p < tokens.len() {
                    assert(ts[p as int] == located_view(tokens@[p as int]));
                }
                None
            }
        },
        _ => None,
    }
}

/// Evaluate one argument, every one of its tokens: `None` when it names
/// something `symbols` lacks or uses a form outside the grammar, so that
/// there is no value to show rather than a wrong one.
pub fn eval_argument<F: Fn(i64, i64) -> i64>(tokens: &[Located], symbols: &[Symbol], pow: &F) -> (r: Option<i64>)
    requires
        forall|x: i64, y: i64| pow.requires((x, y)),
    ensures
        forall|pw: spec_fn(i64, i64) -> i64| computes(*pow, pw) ==> r == eval_all(
            locs(tokens@),
            syms(symbols@),
            pw,
        ),
{
    match eval_expr(tokens, 0, symbols, pow) {
        Some((v, p)) => if p == tokens.len() {
            Some(v)
        } else {
            None
        },
        None => None,
    }
}

} // verus!
