//! Hover for an identifier in an assembly buffer: the opcode table of a
//! mnemonic, or a symbol's value with the doc comment written above its
//! definition, or a routine's signature, or a macro note.

use vstd::prelude::*;
use crate::lsp::expr::{find_symbol, symbol_index, symbol_view, syms, Symbol};
use crate::lsp::mnemonic::{mnemonic_hover, mnemonic_md};
use crate::lsp::source::{filter_lines, format_hex, hex_spelling, macro_names, macrodef_name};
use crate::lsp::tokens::{definition_view, definitions, definitions_upto, locs, DefKind, Definition, Located};
use crate::lsp::sviews;
use crate::text::{
    chars_of, join_with, lines, lines_of, push_all, push_signed, push_str, signed_decimal, str_eq,
    string_of, trim_start, trim_start_vec, vviews,
};

verus! {

/// Whether a line is a `;` comment.
pub open spec fn is_comment_line(l: Seq<char>) -> bool {
    let t = trim_start(l);
    t.len() > 0 && t[0] == ';'
}

/// A comment line's text: after its `;` and one following space.
pub open spec fn comment_text(l: Seq<char>) -> Seq<char> {
    let r = trim_start(l).skip(1);
    if r.len() > 0 && r[0] == ' ' {
        r.skip(1)
    } else {
        r
    }
}

/// Where the run of comment lines ending just above line `j` starts.
pub open spec fn run_start(ls: Seq<Seq<char>>, j: int) -> int
    decreases j,
{
    if j > 0 && j <= ls.len() && is_comment_line(ls[j - 1]) {
        run_start(ls, j - 1)
    } else {
        j
    }
}

/// The first definition of `name` from `k` on that is a label or a constant.
pub open spec fn value_def(defs: Seq<(Seq<char>, DefKind, crate::lsp::Range)>, name: Seq<char>, k: int) -> Option<int>
    decreases defs.len() - k,
{
    if k < 0 || k >= defs.len() {
        None
    } else if defs[k].0 == name && (defs[k].1 == DefKind::Label || defs[k].1 == DefKind::Constant) {
        Some(k)
    } else {
        value_def(defs, name, k + 1)
    }
}

/// The documentation of symbol `name`: the run of comment lines directly
/// above its definition, in source order, each without its `;` and one
/// following space, joined by line breaks. A blank line or code ends the
/// run. Nothing when the symbol is not defined here or has no such comment.
pub open spec fn doc_of(ls: Seq<Seq<char>>, defs: Seq<(Seq<char>, DefKind, crate::lsp::Range)>, name: Seq<char>) -> Option<Seq<char>> {
    match value_def(defs, name, 0) {
        None => None,
        Some(k) => {
            let d = defs[k].2.start.line as int;
            let s = run_start(ls, d);
            if s >= d {
                None
            } else {
                Some(join_with(ls.subrange(s, d).map_values(|l: Seq<char>| comment_text(l)), "\n"@))
            }
        },
    }
}

/// A comment line's text.
fn comment_text_of(l: &[char]) -> (r: Vec<char>)
    requires
        is_comment_line(l@),
    ensures
        r@ == comment_text(l@),
{
    let t = trim_start_vec(l);
    let r = crate::text::sub_chars(&t, 1, t.len());
    assert(r@ =~= t@.skip(1));
    if r.len() > 0 && r[0] == ' ' {
        let s = crate::text::sub_chars(&r, 1, r.len());
        assert(s@ =~= r@.skip(1));
        s
    } else {
        r
    }
}

/// Whether a line is a `;` comment.
fn comment_line(l: &[char]) -> (r: bool)
    ensures
        r == is_comment_line(l@),
{
    let t = trim_start_vec(l);
    t.len() > 0 && t[0] == ';'
}

/// The first definition of `name` that is a label or a constant.
fn find_value_def(defs: &Vec<Definition>, name: &str) -> (r: Option<usize>)
    ensures
        r matches Some(k) ==> k < defs.len() && value_def(
            defs@.map_values(|d: Definition| definition_view(d)),
            name@,
            0,
        ) == Some(k as int),
        r is None ==> value_def(defs@.map_values(|d: Definition| definition_view(d)), name@, 0) is None,
{
    let ghost dv = defs@.map_values(|d: Definition| definition_view(d));
    let mut k: usize = 0;
    while k < defs.len()
        invariant
            k <= defs.len(),
            dv == defs@.map_values(|d: Definition| definition_view(d)),
            value_def(dv, name@, 0) == value_def(dv, name@, k as int),
        decreases defs.len() - k,
    {
        assert(dv[k as int] == definition_view(defs@[k as int]));
        if str_eq(defs[k].name.as_str(), name) && (defs[k].kind == DefKind::Label || defs[k].kind
            == DefKind::Constant) {
            return Some(k);
        }
        k += 1;
    }
    None
}

/// The doc comment of symbol `name` in a buffer with text `text` and
/// located lexemes `tokens`: the run of `;` lines directly above the
/// definition of the label or constant `name`.
pub fn preceding_doc(text: &str, tokens: &[Located], name: &str) -> (r: Option<String>)
    requires
        forall|k: int| 0 <= k < tokens.len() ==> #[trigger] tokens@[k].range.start.line <= lines(text@).len(),
    ensures
        r matches Some(s) ==> doc_of(lines(text@), definitions_upto(locs(tokens@), tokens.len() as int), name@)
            == Some(s@),
        r is None ==> doc_of(lines(text@), definitions_upto(locs(tokens@), tokens.len() as int), name@) is None,
{
    let defs = definitions(tokens);
    let ghost dv = defs@.map_values(|d: Definition| definition_view(d));
    let k = match find_value_def(&defs, name) {
        Some(k) => k,
        None => return None,
    };
    assert(value_def(dv, name@, 0) == Some(k as int));
    assert(dv[k as int] == definition_view(defs@[k as int]));
    proof {
        lemma_def_line(locs(tokens@), tokens.len() as int, k as int, lines(text@).len() as int);
    }
    let d = defs[k].range.start.line as usize;
    let ls = lines_of(&chars_of(text));
    let ghost lv = vviews(ls@);
    let mut s: usize = d;
    while s > 0 && comment_line(&ls[s - 1])
        invariant
            s <= d <= ls.len(),
            lv == vviews(ls@),
            run_start(lv, d as int) == run_start(lv, s as int),
        decreases s,
    {
        assert(lv[s - 1] == ls@[s - 1]@);
        s -= 1;
    }
    if s > 0 {
        assert(lv[s - 1] == ls@[s - 1]@);
    }
    if s >= d {
        return None;
    }
    let ghost parts = lv.subrange(s as int, d as int).map_values(|l: Seq<char>| comment_text(l));
    assert(lv[s as int] == ls@[s as int]@);
    assert(run_start(lv, (s + 1) as int) == run_start(lv, d as int)) by {
        lemma_run_start_inside(lv, s as int, d as int);
    }
    let mut v: Vec<char> = Vec::new();
    proof {
        lemma_run_is_comments(lv, s as int, d as int);
    }
    push_all(&mut v, &comment_text_of(&ls[s]));
    assert(parts.take(1) =~= seq![parts[0]]);
    let mut j: usize = s + 1;
    while j < d
        invariant
            s < j <= d <= ls.len(),
            lv == vviews(ls@),
            forall|q: int| s <= q < d ==> is_comment_line(#[trigger] lv[q]),
            parts == lv.subrange(s as int, d as int).map_values(|l: Seq<char>| comment_text(l)),
            v@ == join_with(parts.take(j - s), "\n"@),
        decreases d - j,
    {
        assert(lv[j as int] == ls@[j as int]@);
        push_str(&mut v, "\n");
        push_all(&mut v, &comment_text_of(&ls[j]));
        assert(parts.take(j - s + 1).drop_last() =~= parts.take(j - s));
        assert(v@ =~= join_with(parts.take(j - s + 1), "\n"@));
        j += 1;
    }
    assert(parts.take(d - s) =~= parts);
    Some(string_of(&v))
}

/// The line of every definition is the line of a token.
proof fn lemma_def_line(ts: Seq<(crate::lsp::tokens::LexKind, Seq<char>, crate::lsp::Range)>, n: int, k: int, bound: int)
    requires
        0 <= n <= ts.len(),
        forall|q: int| 0 <= q < ts.len() ==> #[trigger] ts[q].2.start.line <= bound,
        0 <= k < definitions_upto(ts, n).len(),
    ensures
        definitions_upto(ts, n)[k].2.start.line <= bound,
    decreases n,
{
    if n > 0 {
        if k < definitions_upto(ts, n - 1).len() {
            lemma_def_line(ts, n - 1, k, bound);
        } else {
            let i = n - 1;
            if i + 1 < ts.len() {
                assert(ts[i + 1].2.start.line <= bound);
            }
            assert(ts[i].2.start.line <= bound);
        }
    }
}

/// The run of comments ending at `d` and starting at `s` is all comments.
proof fn lemma_run_is_comments(ls: Seq<Seq<char>>, s: int, d: int)
    requires
        0 <= s <= d <= ls.len(),
        run_start(ls, d) == s,
    ensures
        forall|q: int| s <= q < d ==> is_comment_line(#[trigger] ls[q]),
    decreases d - s,
{
    if s < d {
        assert(is_comment_line(ls[d - 1]));
        lemma_run_is_comments(ls, s, d - 1);
    }
}

/// Inside the run, the run starts where it starts.
proof fn lemma_run_start_inside(ls: Seq<Seq<char>>, s: int, d: int)
    requires
        0 <= s < d <= ls.len(),
        run_start(ls, d) == s,
    ensures
        run_start(ls, s + 1) == s,
    decreases d - s,
{
    if d > s + 1 {
        lemma_run_start_inside(ls, s, d - 1);
    }
}

/// The first line of a symbol's hover: its name, whether it is a label or a
/// constant, and its value in decimal and hex.
pub open spec fn symbol_line(s: (Seq<char>, i64, bool, i64)) -> Seq<char> {
    "**"@ + s.0 + "** ("@ + (if s.2 {
        "label"@
    } else {
        "constant"@
    }) + ") = "@ + signed_decimal(s.1 as int) + " (`"@ + hex_spelling(s.1) + "`)"@
}

/// The hover markdown for identifier `name`: the opcode table if it is a
/// mnemonic; else, for the first symbol of that name, its value, then its
/// doc comment and the routine's signature when there are; else the
/// signature of an unresolved routine; else a note for a macro the buffer
/// defines; else nothing.
pub open spec fn ident_md(
    name: Seq<char>,
    ls: Seq<Seq<char>>,
    defs: Seq<(Seq<char>, DefKind, crate::lsp::Range)>,
    ss: Seq<(Seq<char>, i64, bool, i64)>,
    signature: Option<Seq<char>>,
) -> Option<Seq<char>> {
    match mnemonic_md(name) {
        Some(m) => Some(m),
        None => match symbol_index(ss, name, 0) {
            Some(k) => Some(
                symbol_line(ss[k]) + (match doc_of(ls, defs, name) {
                    Some(d) => "\n\n"@ + d,
                    None => Seq::empty(),
                }) + (match signature {
                    Some(sg) => "\n\n"@ + sg,
                    None => Seq::empty(),
                }),
            ),
            None => match signature {
                Some(sg) => Some("**"@ + name + "** (routine)\n\n"@ + sg),
                None => if filter_lines(ls, |l: Seq<char>| macrodef_name(l)).contains(name) {
                    Some("**"@ + name + "** (macro)"@)
                } else {
                    None
                },
            },
        },
    }
}

/// Hover markdown for an identifier in a buffer with text `text`, located
/// lexemes `tokens` and symbol table `symbols`. `signature` is the rendered
/// signature of the routine `name` names, when it has one.
pub fn ident_hover(name: &str, text: &str, tokens: &[Located], symbols: &[Symbol], signature: Option<&str>) -> (r: Option<String>)
    requires
        forall|k: int| 0 <= k < tokens.len() ==> #[trigger] tokens@[k].range.start.line <= lines(text@).len(),
    ensures
        r matches Some(s) ==> ident_md(
            name@,
            lines(text@),
            definitions_upto(locs(tokens@), tokens.len() as int),
            syms(symbols@),
            match signature {
                Some(sg) => Some(sg@),
                None => None,
            },
        ) == Some(s@),
        r is None ==> ident_md(
            name@,
            lines(text@),
            definitions_upto(locs(tokens@), tokens.len() as int),
            syms(symbols@),
            match signature {
                Some(sg) => Some(sg@),
                None => None,
            },
        ) is None,
{
    if let Some(md) = mnemonic_hover(name) {
        return Some(md);
    }
    match find_symbol(symbols, name) {
        Some(k) => {
            let sym = &symbols[k];
            assert(syms(symbols@)[k as int] == symbol_view(*sym));
            let mut md: Vec<char> = Vec::new();
            push_str(&mut md, "**");
            push_str(&mut md, sym.name.as_str());
            push_str(&mut md, "** (");
            if sym.label {
                push_str(&mut md, "label");
            } else {
                push_str(&mut md, "constant");
            }
            push_str(&mut md, ") = ");
            push_signed(&mut md, sym.value);
            push_str(&mut md, " (`");
            push_str(&mut md, format_hex(sym.value).as_str());
            push_str(&mut md, "`)");
            let ghost line = md@;
            assert(line == symbol_line(syms(symbols@)[k as int]));
            match preceding_doc(text, tokens, name) {
                Some(doc) => {
                    push_str(&mut md, "\n\n");
                    push_str(&mut md, doc.as_str());
                },
                None => {},
            }
            let ghost with_doc = md@;
            match signature {
                Some(sg) => {
                    push_str(&mut md, "\n\n");
                    push_str(&mut md, sg);
                },
                None => {},
            }
            Some(string_of(&md))
        },
        None => match signature {
            Some(sg) => {
                let mut md: Vec<char> = Vec::new();
                push_str(&mut md, "**");
                push_str(&mut md, name);
                push_str(&mut md, "** (routine)\n\n");
                push_str(&mut md, sg);
                Some(string_of(&md))
            },
            None => {
                let macros = macro_names(text);
                let mut i: usize = 0;
                while i < macros.len()
                    invariant
                        i <= macros.len(),
                        sviews(macros@) == filter_lines(lines(text@), |l: Seq<char>| macrodef_name(l)),
                        mnemonic_md(name@) is None,
                        symbol_index(syms(symbols@), name@, 0) is None,
                        signature is None,
                        forall|q: int| 0 <= q < i ==> sviews(macros@)[q] != name@,
                    decreases macros.len() - i,
                {
                    if str_eq(macros[i].as_str(), name) {
                        assert(sviews(macros@)[i as int] == name@);
                        assert(sviews(macros@).contains(name@));
                        let mut md: Vec<char> = Vec::new();
                        push_str(&mut md, "**");
                        push_str(&mut md, name);
                        push_str(&mut md, "** (macro)");
                        assert(md@ =~= "**"@ + name@ + "** (macro)"@);
                        assert(filter_lines(lines(text@), |l: Seq<char>| macrodef_name(l)).contains(name@));
                        return Some(string_of(&md));
                    }
                    i += 1;
                }
                None
            },
        },
    }
}

} // verus!
