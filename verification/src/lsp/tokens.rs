//! Token-level views of an assembly buffer, computed from the lexemes of the
//! assembler's lossless lexer: where each significant lexeme sits, which one
//! a position is on, and which lines define symbols.
//!
//! Lexing itself is the assembler's; these functions start from its output,
//! one lexeme after another, whose texts together spell the buffer.

use vstd::prelude::*;
use crate::lsp::{span, Position, Range};
use crate::lsp::source::{utf16_count, utf16_len};
use crate::text::{chars_of, ci_eq, eq_ignore_ascii_case, string_of};

verus! {

/// The kinds of lexeme the editor features tell apart; every other kind is
/// `Other`.
#[derive(Clone, Copy, Debug, PartialEq, Eq, Structural)]
pub enum LexKind {
    Newline,
    Whitespace,
    Comment,
    Directive,
    Ident,
    Number,
    Char,
    Str,
    Punct,
    Other,
}

/// One lexeme: its kind and its text.
#[derive(Clone, Debug)]
pub struct Lexeme {
    pub kind: LexKind,
    pub text: String,
}

/// A significant lexeme with the span it covers, in UTF-16 columns.
#[derive(Debug)]
pub struct Located {
    pub kind: LexKind,
    pub text: String,
    pub range: Range,
}

/// A lexeme as plain values.
pub open spec fn lexeme_view(l: Lexeme) -> (LexKind, Seq<char>) {
    (l.kind, l.text@)
}

/// A located lexeme as plain values.
pub open spec fn located_view(t: Located) -> (LexKind, Seq<char>, Range) {
    (t.kind, t.text@, t.range)
}

/// Located lexemes as plain values.
pub open spec fn locs(v: Seq<Located>) -> Seq<(LexKind, Seq<char>, Range)> {
    v.map_values(|t: Located| located_view(t))
}

/// Whether a kind is trivia: a line break or white space.
pub open spec fn trivia(k: LexKind) -> bool {
    k == LexKind::Newline || k == LexKind::Whitespace
}

/// The line and UTF-16 column after the first `n` lexemes.
pub open spec fn cursor(lex: Seq<(LexKind, Seq<char>)>, n: int) -> (int, int)
    decreases n,
{
    if n <= 0 {
        (0, 0)
    } else {
        let (l, c) = cursor(lex, n - 1);
        if lex[n - 1].0 == LexKind::Newline {
            (l + 1, 0)
        } else {
            (l, c + utf16_count(lex[n - 1].1))
        }
    }
}

/// A bound on the line and column numbers the first `n` lexemes reach: the
/// UTF-16 length of their text plus one per line break.
pub open spec fn weight(lex: Seq<(LexKind, Seq<char>)>, n: int) -> int
    decreases n,
{
    if n <= 0 {
        0
    } else {
        weight(lex, n - 1) + utf16_count(lex[n - 1].1) + if lex[n - 1].0 == LexKind::Newline {
            1int
        } else {
            0int
        }
    }
}

/// The significant lexemes among the first `n`, each with its span.
pub open spec fn located_upto(lex: Seq<(LexKind, Seq<char>)>, n: int) -> Seq<(LexKind, Seq<char>, Range)>
    decreases n,
{
    if n <= 0 {
        Seq::empty()
    } else {
        let rest = located_upto(lex, n - 1);
        let (l, c) = cursor(lex, n - 1);
        if trivia(lex[n - 1].0) {
            rest
        } else {
            rest.push((lex[n - 1].0, lex[n - 1].1, span(l, c, c + utf16_count(lex[n - 1].1))))
        }
    }
}

/// UTF-16 lengths are never negative.
proof fn lemma_utf16_nonneg(s: Seq<char>)
    ensures
        utf16_count(s) >= 0,
    decreases s.len(),
{
    if s.len() > 0 {
        lemma_utf16_nonneg(s.drop_last());
    }
}

/// The line and column after `n` lexemes are within their weight.
proof fn lemma_cursor_bound(lex: Seq<(LexKind, Seq<char>)>, n: int)
    requires
        0 <= n <= lex.len(),
    ensures
        cursor(lex, n).0 >= 0,
        cursor(lex, n).1 >= 0,
        cursor(lex, n).0 + cursor(lex, n).1 <= weight(lex, n),
        weight(lex, n) >= 0,
    decreases n,
{
    if n > 0 {
        lemma_cursor_bound(lex, n - 1);
        lemma_utf16_nonneg(lex[n - 1].1);
    }
}

/// Weights grow with the number of lexemes.
proof fn lemma_weight_mono(lex: Seq<(LexKind, Seq<char>)>, a: int, b: int)
    requires
        0 <= a <= b <= lex.len(),
    ensures
        weight(lex, a) <= weight(lex, b),
    decreases b - a,
{
    if a < b {
        lemma_weight_mono(lex, a, b - 1);
        lemma_utf16_nonneg(lex[b - 1].1);
    }
}

/// Attach a span to every significant lexeme: a line break moves to the next
/// line, and every other lexeme advances the column by its UTF-16 length.
pub fn located(lexemes: &[Lexeme]) -> (r: Vec<Located>)
    requires
        weight(lexemes@.map_values(|l: Lexeme| lexeme_view(l)), lexemes@.len() as int) <= u32::MAX,
    ensures
        locs(r@) == located_upto(
            lexemes@.map_values(|l: Lexeme| lexeme_view(l)),
            lexemes@.len() as int,
        ),
        in_order(locs(r@)),
{
    let ghost lex = lexemes@.map_values(|l: Lexeme| lexeme_view(l));
    let mut out: Vec<Located> = Vec::new();
    let mut line: u32 = 0;
    let mut col: u32 = 0;
    let mut i: usize = 0;
    while i < lexemes.len()
        invariant
            i <= lexemes.len(),
            lex == lexemes@.map_values(|l: Lexeme| lexeme_view(l)),
            weight(lex, lex.len() as int) <= u32::MAX,
            (line as int, col as int) == cursor(lex, i as int),
            locs(out@) == located_upto(lex, i as int),
            in_order(locs(out@)),
            out.len() > 0 ==> (out@.last().range.start.line < line || (out@.last().range.start.line
                == line && out@.last().range.start.character <= col)),
        decreases lexemes.len() - i,
    {
        proof {
            lemma_cursor_bound(lex, i + 1);
            lemma_weight_mono(lex, i + 1, lex.len() as int);
        }
        let lx = &lexemes[i];
        assert(lex[i as int] == (lx.kind, lx.text@));
        let len = utf16_len(lx.text.as_str());
        proof {
            lemma_utf16_nonneg(lx.text@);
        }
        let ghost before = locs(out@);
        match lx.kind {
            LexKind::Newline => {
                line = line + 1;
                col = 0;
            },
            LexKind::Whitespace => {
                col = col + len;
            },
            _ => {
                let range = Range::new(Position::new(line, col), Position::new(line, col + len));
                out.push(
                    Located { kind: lx.kind, text: string_of(&chars_of(lx.text.as_str())), range },
                );
                assert(locs(out@) =~= before.push(
                    (lx.kind, lx.text@, span(line as int, col as int, col + len)),
                ));
                assert forall|k: int| 0 < k < locs(out@).len() implies (locs(out@)[k - 1].2.start.line
                    < (#[trigger] locs(out@)[k]).2.start.line || (locs(out@)[k - 1].2.start.line
                    == locs(out@)[k].2.start.line && locs(out@)[k - 1].2.start.character
                    <= locs(out@)[k].2.start.character)) by {
                    if k == locs(out@).len() - 1 {
                        assert(locs(out@)[k - 1] == located_view(out@[k - 1]));
                    } else {
                        assert(locs(out@)[k] == before[k] && locs(out@)[k - 1] == before[k - 1]);
                    }
                }
                col = col + len;
            },
        }
        i += 1;
    }
    out
}

/// A copy of a located lexeme.
pub fn copy_located(t: &Located) -> (r: Located)
    ensures
        located_view(r) == located_view(*t),
{
    Located { kind: t.kind, text: t.text.clone(), range: t.range }
}

/// Whether position `p` is on the token spanning `r`: same line, from its
/// start to its end inclusive.
pub open spec fn touches(r: Range, p: Position) -> bool {
    r.start.line == p.line && r.start.character <= p.character <= r.end.character
}

/// The first token `p` is on.
pub open spec fn token_index(ts: Seq<(LexKind, Seq<char>, Range)>, p: Position, k: int) -> Option<int>
    decreases ts.len() - k,
{
    if k < 0 || k >= ts.len() {
        None
    } else if touches(ts[k].2, p) {
        Some(k)
    } else {
        token_index(ts, p, k + 1)
    }
}

/// The token the position `pos` is on: the first whose span holds it, ends
/// included.
pub fn token_at(tokens: &[Located], pos: Position) -> (r: Option<Located>)
    ensures
        r matches Some(t) ==> token_index(locs(tokens@), pos, 0) matches Some(k) && located_view(t)
            == locs(tokens@)[k],
        r is None ==> token_index(locs(tokens@), pos, 0) is None,
{
    let ghost ts = locs(tokens@);
    let mut i: usize = 0;
    while i < tokens.len()
        invariant
            i <= tokens.len(),
            ts == locs(tokens@),
            token_index(ts, pos, 0) == token_index(ts, pos, i as int),
        decreases tokens.len() - i,
    {
        let t = &tokens[i];
        assert(ts[i as int] == located_view(*t));
        if t.range.start.line == pos.line && pos.character >= t.range.start.character
            && pos.character <= t.range.end.character {
            return Some(copy_located(t));
        }
        i += 1;
    }
    None
}

/// Whether `p` sits inside the comment spanning `r`: on its line, after its
/// first character, up to its end.
pub open spec fn inside_comment(t: (LexKind, Seq<char>, Range), p: Position) -> bool {
    t.0 == LexKind::Comment && t.2.start.line == p.line && p.character > t.2.start.character
        && p.character <= t.2.end.character
}

/// Whether `pos` sits inside a comment: the context in which comment
/// directives, rather than code, are worth completing.
pub fn in_comment(tokens: &[Located], pos: Position) -> (r: bool)
    ensures
        r == exists|k: int| 0 <= k < tokens@.len() && #[trigger] inside_comment(
            locs(tokens@)[k],
            pos,
        ),
{
    let ghost ts = locs(tokens@);
    let mut i: usize = 0;
    while i < tokens.len()
        invariant
            i <= tokens.len(),
            ts == locs(tokens@),
            forall|k: int| 0 <= k < i ==> !#[trigger] inside_comment(ts[k], pos),
        decreases tokens.len() - i,
    {
        let t = &tokens[i];
        assert(ts[i as int] == located_view(*t));
        if t.kind == LexKind::Comment && t.range.start.line == pos.line && pos.character
            > t.range.start.character && pos.character <= t.range.end.character {
            assert(inside_comment(ts[i as int], pos));
            return true;
        }
        i += 1;
    }
    false
}

/// What a definition defines.
#[derive(Clone, Copy, Debug, PartialEq, Eq, Structural)]
pub enum DefKind {
    Label,
    Constant,
    Macro,
}

/// A symbol definition: its name, what it defines, and the span of the
/// defining identifier.
#[derive(Debug)]
pub struct Definition {
    pub name: String,
    pub kind: DefKind,
    pub range: Range,
}

/// A definition as plain values.
pub open spec fn definition_view(d: Definition) -> (Seq<char>, DefKind, Range) {
    (d.name@, d.kind, d.range)
}

/// The token after `i` when it is on the same line.
pub open spec fn next_on_line(ts: Seq<(LexKind, Seq<char>, Range)>, i: int) -> Option<(LexKind, Seq<char>, Range)> {
    if i + 1 < ts.len() && ts[i + 1].2.start.line == ts[i].2.start.line {
        Some(ts[i + 1])
    } else {
        None
    }
}

/// What token `i` defines, if anything: the identifier after `.macrodef`
/// (in any case) on the same line is a macro; a line-initial identifier
/// followed on its line by `:` is a label, by `=` a constant.
pub open spec fn definition_at(ts: Seq<(LexKind, Seq<char>, Range)>, i: int) -> Option<(Seq<char>, DefKind, Range)> {
    let t = ts[i];
    let first_on_line = i == 0 || ts[i - 1].2.end.line != t.2.start.line;
    if t.0 == LexKind::Directive && ci_eq(t.1, ".macrodef"@) {
        match next_on_line(ts, i) {
            Some(n) => if n.0 == LexKind::Ident {
                Some((n.1, DefKind::Macro, n.2))
            } else {
                None
            },
            None => None,
        }
    } else if t.0 == LexKind::Ident && first_on_line {
        match next_on_line(ts, i) {
            Some(n) => if n.0 == LexKind::Punct && n.1 == ":"@ {
                Some((t.1, DefKind::Label, t.2))
            } else if n.0 == LexKind::Punct && n.1 == "="@ {
                Some((t.1, DefKind::Constant, t.2))
            } else {
                None
            },
            None => None,
        }
    } else {
        None
    }
}

/// The definitions among the first `n` tokens, in order.
pub open spec fn definitions_upto(ts: Seq<(LexKind, Seq<char>, Range)>, n: int) -> Seq<(Seq<char>, DefKind, Range)>
    decreases n,
{
    if n <= 0 {
        Seq::empty()
    } else {
        match definition_at(ts, n - 1) {
            Some(d) => definitions_upto(ts, n - 1).push(d),
            None => definitions_upto(ts, n - 1),
        }
    }
}

/// Scan the tokens of a buffer for symbol definitions: a line-initial
/// identifier followed by `:` is a label, one followed by `=` a constant,
/// and the identifier after `.macrodef` a macro.
pub fn definitions(tokens: &[Located]) -> (r: Vec<Definition>)
    ensures
        r@.map_values(|d: Definition| definition_view(d)) == definitions_upto(
            locs(tokens@),
            tokens@.len() as int,
        ),
{
    let ghost ts = locs(tokens@);
    let mut out: Vec<Definition> = Vec::new();
    let mut i: usize = 0;
    while i < tokens.len()
        invariant
            i <= tokens.len(),
            ts == locs(tokens@),
            out@.map_values(|d: Definition| definition_view(d)) == definitions_upto(ts, i as int),
        decreases tokens.len() - i,
    {
        let t = &tokens[i];
        assert(ts[i as int] == located_view(*t));
        let first_on_line = i == 0 || tokens[i - 1].range.end.line != t.range.start.line;
        if i > 0 {
            assert(ts[i - 1] == located_view(tokens@[i - 1]));
        }
        let has_next = i + 1 < tokens.len() && tokens[i + 1].range.start.line == t.range.start.line;
        if has_next {
            assert(ts[i + 1] == located_view(tokens@[i + 1]));
        }
        let ghost before = out@.map_values(|d: Definition| definition_view(d));
        let macrodef = chars_of(".macrodef");
        if t.kind == LexKind::Directive && eq_ignore_ascii_case(&chars_of(t.text.as_str()), &macrodef) {
            if has_next && tokens[i + 1].kind == LexKind::Ident {
                let n = &tokens[i + 1];
                out.push(Definition { name: n.text.clone(), kind: DefKind::Macro, range: n.range });
                assert(out@.map_values(|d: Definition| definition_view(d)) =~= before.push(
                    definition_at(ts, i as int).unwrap(),
                ));
            }
        } else if t.kind == LexKind::Ident && first_on_line && has_next && tokens[i + 1].kind
            == LexKind::Punct {
            let n = &tokens[i + 1];
            let colon = crate::text::str_eq(n.text.as_str(), ":");
            let equals = crate::text::str_eq(n.text.as_str(), "=");
            if colon {
                out.push(Definition { name: t.text.clone(), kind: DefKind::Label, range: t.range });
                assert(out@.map_values(|d: Definition| definition_view(d)) =~= before.push(
                    definition_at(ts, i as int).unwrap(),
                ));
            } else if equals {
                out.push(Definition { name: t.text.clone(), kind: DefKind::Constant, range: t.range });
                assert(out@.map_values(|d: Definition| definition_view(d)) =~= before.push(
                    definition_at(ts, i as int).unwrap(),
                ));
            }
        }
        i += 1;
    }
    out
}

/// The identifier at `pos`, when the token there is one.
pub fn word_at(tokens: &[Located], pos: Position) -> (r: Option<String>)
    ensures
        r matches Some(w) ==> token_index(locs(tokens@), pos, 0) matches Some(k) && locs(tokens@)[k].0
            == LexKind::Ident && locs(tokens@)[k].1 == w@,
        r is None ==> !(token_index(locs(tokens@), pos, 0) matches Some(k) && locs(tokens@)[k].0
            == LexKind::Ident),
{
    match token_at(tokens, pos) {
        Some(t) => if t.kind == LexKind::Ident {
            Some(t.text)
        } else {
            None
        },
        None => None,
    }
}

/// Whether token `t` is the identifier `name`.
pub open spec fn names(t: (LexKind, Seq<char>, Range), name: Seq<char>) -> bool {
    t.0 == LexKind::Ident && t.1 == name
}

/// Whether `r` is the span of a definition of `name`.
pub open spec fn defines_at(defs: Seq<(Seq<char>, DefKind, Range)>, name: Seq<char>, r: Range) -> bool {
    exists|k: int| 0 <= k < defs.len() && defs[k].0 == name && defs[k].2 == r
}

/// The spans of the identifiers `name` among the first `n` tokens, leaving
/// out definitions of it unless `with_defs`.
pub open spec fn refs_upto(ts: Seq<(LexKind, Seq<char>, Range)>, defs: Seq<(Seq<char>, DefKind, Range)>, name: Seq<char>, with_defs: bool, n: int) -> Seq<Range>
    decreases n,
{
    if n <= 0 {
        Seq::empty()
    } else {
        let rest = refs_upto(ts, defs, name, with_defs, n - 1);
        let t = ts[n - 1];
        if names(t, name) && (with_defs || !defines_at(defs, name, t.2)) {
            rest.push(t.2)
        } else {
            rest
        }
    }
}

/// Every occurrence of the identifier `name` in a buffer's tokens, in order;
/// its definitions too when `include_declaration`. Renaming edits these
/// spans, definitions included.
pub fn references(tokens: &[Located], name: &str, include_declaration: bool) -> (r: Vec<Range>)
    ensures
        r@ == refs_upto(
            locs(tokens@),
            definitions_upto(locs(tokens@), tokens.len() as int),
            name@,
            include_declaration,
            tokens.len() as int,
        ),
{
    let ghost ts = locs(tokens@);
    let defs = definitions(tokens);
    let ghost dv = defs@.map_values(|d: Definition| definition_view(d));
    let mut out: Vec<Range> = Vec::new();
    let mut i: usize = 0;
    while i < tokens.len()
        invariant
            i <= tokens.len(),
            ts == locs(tokens@),
            dv == defs@.map_values(|d: Definition| definition_view(d)),
            dv == definitions_upto(ts, tokens.len() as int),
            out@ == refs_upto(ts, dv, name@, include_declaration, i as int),
        decreases tokens.len() - i,
    {
        let t = &tokens[i];
        assert(ts[i as int] == located_view(*t));
        if t.kind == LexKind::Ident && str_eq_text(t.text.as_str(), name) {
            let is_def = is_definition(&defs, name, t.range);
            assert(is_def == defines_at(dv, name@, t.range));
            if include_declaration || !is_def {
                out.push(t.range);
            }
        }
        i += 1;
    }
    out
}

/// Whether `range` is the span of a definition of `name`.
fn is_definition(defs: &Vec<Definition>, name: &str, range: Range) -> (r: bool)
    ensures
        r == defines_at(defs@.map_values(|d: Definition| definition_view(d)), name@, range),
{
    let ghost dv = defs@.map_values(|d: Definition| definition_view(d));
    let mut k: usize = 0;
    while k < defs.len()
        invariant
            k <= defs.len(),
            dv == defs@.map_values(|d: Definition| definition_view(d)),
            forall|q: int| 0 <= q < k ==> !(dv[q].0 == name@ && dv[q].2 == range),
        decreases defs.len() - k,
    {
        assert(dv[k as int] == definition_view(defs@[k as int]));
        if str_eq_text(defs[k].name.as_str(), name) && defs[k].range == range {
            return true;
        }
        k += 1;
    }
    false
}

/// Text equality.
fn str_eq_text(a: &str, b: &str) -> (r: bool)
    ensures
        r == (a@ == b@),
{
    crate::text::str_eq(a, b)
}

/// One semantic token in the protocol's relative encoding.
#[derive(Clone, Copy, Debug, PartialEq, Eq, Structural)]
pub struct SemanticToken {
    pub delta_line: u32,
    pub delta_start: u32,
    pub length: u32,
    pub token_type: u32,
    pub token_modifiers_bitset: u32,
}

/// The modifier bit that marks a comment carrying a nessemble directive.
pub const MODIFIER_DOCUMENTATION: u32 = 1;

/// Whether the tokens run in source order, each starting no later than it
/// ends.
pub open spec fn in_order(ts: Seq<(LexKind, Seq<char>, Range)>) -> bool {
    &&& forall|k: int| 0 <= k < ts.len() ==> (#[trigger] ts[k]).2.start.character <= ts[k].2.end.character
    &&& forall|k: int|
        0 < k < ts.len() ==> (ts[k - 1].2.start.line < (#[trigger] ts[k]).2.start.line || (ts[k
            - 1].2.start.line == ts[k].2.start.line && ts[k - 1].2.start.character
            <= ts[k].2.start.character))
}

/// The semantic token for token `k`: its place relative to the token
/// before (or to the start of the buffer), its length, its type, and the
/// documentation modifier for a comment on a line (1-based) in `dirs`.
pub open spec fn semantic_at(ts: Seq<(LexKind, Seq<char>, Range)>, types: Seq<u32>, dirs: Seq<u32>, k: int) -> SemanticToken {
    let t = ts[k];
    let (pl, pc) = if k == 0 {
        (0int, 0int)
    } else {
        (ts[k - 1].2.start.line as int, ts[k - 1].2.start.character as int)
    };
    let dl = t.2.start.line - pl;
    SemanticToken {
        delta_line: dl as u32,
        delta_start: (if dl == 0 {
            t.2.start.character - pc
        } else {
            t.2.start.character as int
        }) as u32,
        length: (t.2.end.character - t.2.start.character) as u32,
        token_type: types[k],
        token_modifiers_bitset: if t.0 == LexKind::Comment && dirs.contains((t.2.start.line + 1) as u32)
            && t.2.start.line < u32::MAX {
            MODIFIER_DOCUMENTATION
        } else {
            0
        },
    }
}

/// Whether `v` holds `x`.
fn holds_u32(v: &[u32], x: u32) -> (r: bool)
    ensures
        r == v@.contains(x),
{
    let mut k: usize = 0;
    while k < v.len()
        invariant
            k <= v.len(),
            forall|q: int| 0 <= q < k ==> v@[q] != x,
        decreases v.len() - k,
    {
        if v[k] == x {
            assert(v@[k as int] == x);
            return true;
        }
        k += 1;
    }
    false
}

/// Semantic tokens for a buffer's located tokens, `token_types` giving each
/// token's type id and `directive_lines` the (1-based) lines whose comment
/// carries a nessemble directive.
pub fn semantic_tokens(tokens: &[Located], token_types: &[u32], directive_lines: &[u32]) -> (r: Vec<SemanticToken>)
    requires
        token_types.len() == tokens.len(),
        in_order(locs(tokens@)),
    ensures
        r.len() == tokens.len(),
        forall|k: int| 0 <= k < r.len() ==> #[trigger] r@[k] == semantic_at(
            locs(tokens@),
            token_types@,
            directive_lines@,
            k,
        ),
{
    let ghost ts = locs(tokens@);
    let mut out: Vec<SemanticToken> = Vec::new();
    let mut prev_line: u32 = 0;
    let mut prev_col: u32 = 0;
    let mut i: usize = 0;
    while i < tokens.len()
        invariant
            i <= tokens.len(),
            token_types.len() == tokens.len(),
            ts == locs(tokens@),
            in_order(ts),
            out.len() == i,
            forall|k: int| 0 <= k < i ==> #[trigger] out@[k] == semantic_at(ts, token_types@, directive_lines@, k),
            i == 0 ==> prev_line == 0 && prev_col == 0,
            i > 0 ==> prev_line == ts[i - 1].2.start.line && prev_col == ts[i - 1].2.start.character,
        decreases tokens.len() - i,
    {
        let t = &tokens[i];
        assert(ts[i as int] == located_view(*t));
        let line = t.range.start.line;
        let col = t.range.start.character;
        let delta_line = line - prev_line;
        let delta_start = if delta_line == 0 { col - prev_col } else { col };
        let documented = t.kind == LexKind::Comment && line < u32::MAX && holds_u32(
            directive_lines,
            line + 1,
        );
        assert(documented == (t.kind == LexKind::Comment && directive_lines@.contains((line + 1) as u32)
            && line < u32::MAX));
        out.push(SemanticToken {
            delta_line,
            delta_start,
            length: t.range.end.character - col,
            token_type: token_types[i],
            token_modifiers_bitset: if documented {
                MODIFIER_DOCUMENTATION
            } else {
                0
            },
        });
        assert(out@[i as int] == semantic_at(ts, token_types@, directive_lines@, i as int));
        prev_line = line;
        prev_col = col;
        i += 1;
    }
    out
}

} // verus!
