//! Foldable regions of an assembly buffer: `.macrodef`…`.endm` and
//! `.if*`…`.endif` blocks (nested, each closing the nearest open block of its
//! kind), runs of two or more comment lines, and subroutine bodies, a label
//! down to the line before the first blank line after it.

use vstd::prelude::*;
use crate::lsp::{fold_of, Fold, FoldKind};
use crate::lsp::source::{directive_word, leading_directive};
use crate::lsp::tokens::{definitions, definitions_upto, locs, DefKind, Located};
use crate::text::{chars_of, lines, lines_of, str_eq, trim, trim_start, trim_start_vec, trim_vec, vviews};

verus! {

/// The kind of block a directive opens.
#[derive(Clone, Copy, Debug, PartialEq, Eq, Structural)]
pub enum BlockTag {
    Macro,
    If,
}

/// The open blocks (each with its first line), the start of the comment run
/// being read, and the folds found so far.
pub type FoldState = (Seq<(BlockTag, int)>, Option<int>, Seq<Fold>);

/// The last open block of kind `tag` among the first `n`.
pub open spec fn last_open(stack: Seq<(BlockTag, int)>, tag: BlockTag, n: int) -> Option<int>
    decreases n,
{
    if n <= 0 {
        None
    } else if stack[n - 1].0 == tag {
        Some(n - 1)
    } else {
        last_open(stack, tag, n - 1)
    }
}

/// Close the nearest open block of `tag` at line `end`, folding it when it
/// spans more than one line.
pub open spec fn close_block(stack: Seq<(BlockTag, int)>, tag: BlockTag, end: int, out: Seq<Fold>) -> (Seq<(BlockTag, int)>, Seq<Fold>) {
    match last_open(stack, tag, stack.len() as int) {
        Some(p) => (
            stack.remove(p),
            if end > stack[p].1 {
                out.push(fold_of(stack[p].1, end, FoldKind::Region))
            } else {
                out
            },
        ),
        None => (stack, out),
    }
}

/// Line `i` read: a comment line starts or continues a run, any other line
/// ends one (folding it when it spans lines); a block directive opens or
/// closes a block.
pub open spec fn fold_step(st: FoldState, i: int, line: Seq<char>) -> FoldState {
    let t = trim_start(line);
    let (stack, run, out) = st;
    let (run2, out2) = if t.len() > 0 && t[0] == ';' {
        (
            if run is None {
                Some(i)
            } else {
                run
            },
            out,
        )
    } else {
        match run {
            Some(s) => (
                None,
                if i - 1 > s {
                    out.push(fold_of(s, i - 1, FoldKind::Comment))
                } else {
                    out
                },
            ),
            None => (None, out),
        }
    };
    match directive_word(t) {
        Some(w) => if w == "macrodef"@ {
            (stack.push((BlockTag::Macro, i)), run2, out2)
        } else if w == "if"@ || w == "ifdef"@ || w == "ifndef"@ {
            (stack.push((BlockTag::If, i)), run2, out2)
        } else if w == "endm"@ {
            let (s2, o2) = close_block(stack, BlockTag::Macro, i, out2);
            (s2, run2, o2)
        } else if w == "endif"@ {
            let (s2, o2) = close_block(stack, BlockTag::If, i, out2);
            (s2, run2, o2)
        } else {
            (stack, run2, out2)
        },
        None => (stack, run2, out2),
    }
}

/// The state after the first `n` lines.
pub open spec fn fold_state(ls: Seq<Seq<char>>, n: int) -> FoldState
    decreases n,
{
    if n <= 0 {
        (Seq::empty(), None, Seq::empty())
    } else {
        fold_step(fold_state(ls, n - 1), n - 1, ls[n - 1])
    }
}

/// The index of the first blank line from `k` on, or the line count.
pub open spec fn first_blank(ls: Seq<Seq<char>>, k: int) -> int
    decreases ls.len() - k,
{
    if k < 0 || k >= ls.len() {
        ls.len() as int
    } else if trim(ls[k]).len() == 0 {
        k
    } else {
        first_blank(ls, k + 1)
    }
}

/// The last line of the body of a subroutine whose label is on line `start`:
/// the line before the first blank one after it.
pub open spec fn body_end(ls: Seq<Seq<char>>, start: int) -> int {
    let e = first_blank(ls, start + 1) - 1;
    if e > start {
        e
    } else {
        start
    }
}

/// The subroutine folds of the first `n` definitions: each label with a body.
pub open spec fn subroutine_folds(ls: Seq<Seq<char>>, defs: Seq<(Seq<char>, DefKind, crate::lsp::Range)>, n: int) -> Seq<Fold>
    decreases n,
{
    if n <= 0 {
        Seq::empty()
    } else {
        let rest = subroutine_folds(ls, defs, n - 1);
        let d = defs[n - 1];
        let start = d.2.start.line as int;
        if d.1 == DefKind::Label && body_end(ls, start) > start {
            rest.push(fold_of(start, body_end(ls, start), FoldKind::Region))
        } else {
            rest
        }
    }
}

/// Every fold of a buffer with lines `ls` and definitions `defs`: blocks and
/// comment runs in the order they close (a run reaching the last line
/// last), then subroutines.
pub open spec fn asm_folds(ls: Seq<Seq<char>>, defs: Seq<(Seq<char>, DefKind, crate::lsp::Range)>) -> Seq<Fold> {
    let (stack, run, out) = fold_state(ls, ls.len() as int);
    let last = if ls.len() > 0 {
        ls.len() - 1
    } else {
        0
    };
    let out2 = match run {
        Some(s) => if last > s {
            out.push(fold_of(s, last, FoldKind::Comment))
        } else {
            out
        },
        None => out,
    };
    out2 + subroutine_folds(ls, defs, defs.len() as int)
}

/// The last open block of `tag`.
fn find_open(stack: &Vec<(BlockTag, u32)>, tag: BlockTag) -> (r: Option<usize>)
    ensures
        r matches Some(p) ==> p < stack.len() && stack@[p as int].0 == tag && last_open(
            stack@.map_values(|e: (BlockTag, u32)| (e.0, e.1 as int)),
            tag,
            stack.len() as int,
        ) == Some(p as int),
        r is None ==> last_open(
            stack@.map_values(|e: (BlockTag, u32)| (e.0, e.1 as int)),
            tag,
            stack.len() as int,
        ) is None,
{
    let ghost sv = stack@.map_values(|e: (BlockTag, u32)| (e.0, e.1 as int));
    let mut n: usize = stack.len();
    while n > 0
        invariant
            n <= stack.len(),
            sv == stack@.map_values(|e: (BlockTag, u32)| (e.0, e.1 as int)),
            last_open(sv, tag, stack.len() as int) == last_open(sv, tag, n as int),
        decreases n,
    {
        assert(sv[n - 1] == (stack@[n - 1].0, stack@[n - 1].1 as int));
        if stack[n - 1].0 == tag {
            return Some(n - 1);
        }
        n -= 1;
    }
    None
}

/// Foldable regions of an assembly buffer, given its text and the located
/// lexemes of that text.
pub fn folding_ranges(text: &str, tokens: &[Located]) -> (r: Vec<Fold>)
    requires
        lines(text@).len() <= u32::MAX,
    ensures
        r@ == asm_folds(lines(text@), definitions_upto(locs(tokens@), tokens@.len() as int)),
{
    let ls = lines_of(&chars_of(text));
    let ghost lv = vviews(ls@);
    let mut stack: Vec<(BlockTag, u32)> = Vec::new();
    let mut run: Option<u32> = None;
    let mut out: Vec<Fold> = Vec::new();
    let mut i: usize = 0;
    while i < ls.len()
        invariant
            i <= ls.len(),
            lv == vviews(ls@),
            lv == lines(text@),
            ls.len() <= u32::MAX,
            fold_state(lv, i as int) == (
                stack@.map_values(|e: (BlockTag, u32)| (e.0, e.1 as int)),
                match run {
                    Some(s) => Some(s as int),
                    None => None::<int>,
                },
                out@,
            ),
            run matches Some(s) ==> s < i,
        decreases ls.len() - i,
    {
        let ghost sv = stack@.map_values(|e: (BlockTag, u32)| (e.0, e.1 as int));
        let ghost ov = out@;
        assert(lv[i as int] == ls@[i as int]@);
        let t = trim_start_vec(&ls[i]);
        let line_no = i as u32;
        if t.len() > 0 && t[0] == ';' {
            if run.is_none() {
                run = Some(line_no);
            }
        } else {
            if let Some(s) = run {
                if line_no - 1 > s {
                    out.push(Fold { start_line: s, end_line: line_no - 1, kind: FoldKind::Comment });
                }
            }
            run = None;
        }
        let ghost ov2 = out@;
        let ts = crate::text::string_of(&t);
        match leading_directive(ts.as_str()) {
            Some(w) => {
                let wd = w.as_str();
                if str_eq(wd, "macrodef") {
                    stack.push((BlockTag::Macro, line_no));
                    assert(stack@.map_values(|e: (BlockTag, u32)| (e.0, e.1 as int)) =~= sv.push(
                        (BlockTag::Macro, i as int),
                    ));
                } else if str_eq(wd, "if") || str_eq(wd, "ifdef") || str_eq(wd, "ifndef") {
                    stack.push((BlockTag::If, line_no));
                    assert(stack@.map_values(|e: (BlockTag, u32)| (e.0, e.1 as int)) =~= sv.push(
                        (BlockTag::If, i as int),
                    ));
                } else if str_eq(wd, "endm") || str_eq(wd, "endif") {
                    let tag = if str_eq(wd, "endm") {
                        BlockTag::Macro
                    } else {
                        BlockTag::If
                    };
                    match find_open(&stack, tag) {
                        Some(p) => {
                            assert(sv[p as int] == (stack@[p as int].0, stack@[p as int].1 as int));
                            let (_, start) = stack.remove(p);
                            assert(sv[p as int] == (tag, start as int));
                            if line_no > start {
                                out.push(Fold { start_line: start, end_line: line_no, kind: FoldKind::Region });
                            }
                            assert(stack@.map_values(|e: (BlockTag, u32)| (e.0, e.1 as int)) =~= sv.remove(
                                p as int,
                            ));
                        },
                        None => {},
                    }
                }
            },
            None => {},
        }
        i += 1;
    }
    let last: u32 = if ls.len() > 0 {
        (ls.len() - 1) as u32
    } else {
        0
    };
    if let Some(s) = run {
        if last > s {
            out.push(Fold { start_line: s, end_line: last, kind: FoldKind::Comment });
        }
    }
    let ghost out1 = out@;
    assert(out1 == asm_folds(lv, Seq::empty()) + Seq::<Fold>::empty()) by {
        assert(out1 + Seq::<Fold>::empty() =~= out1);
    }
    let defs = definitions(tokens);
    let ghost dv = defs@.map_values(|d: crate::lsp::tokens::Definition| crate::lsp::tokens::definition_view(d));
    let mut k: usize = 0;
    while k < defs.len()
        invariant
            k <= defs.len(),
            lv == vviews(ls@),
            ls.len() <= u32::MAX,
            dv == defs@.map_values(|d: crate::lsp::tokens::Definition| crate::lsp::tokens::definition_view(d)),
            out@ == out1 + subroutine_folds(lv, dv, k as int),
        decreases defs.len() - k,
    {
        let d = &defs[k];
        assert(dv[k as int] == crate::lsp::tokens::definition_view(*d));
        let ghost before = out@;
        if d.kind == DefKind::Label {
            let start = d.range.start.line;
            let mut e: u32 = start;
            let mut j: usize = if (start as usize) < ls.len() {
                start as usize + 1
            } else {
                ls.len()
            };
            if (start as usize) >= ls.len() {
                assert(first_blank(lv, start + 1) == lv.len());
            }
            while j < ls.len() && trim_vec(&ls[j]).len() > 0
                invariant
                    start as int + 1 <= j || (j == ls.len() && start >= ls.len()),
                    ls.len() <= u32::MAX,
                    lv == vviews(ls@),
                    first_blank(lv, start + 1) == first_blank(lv, j as int),
                    e as int == (if j - 1 > start { j - 1 } else { start as int }),
                    j <= ls.len(),
                decreases ls.len() - j,
            {
                assert(lv[j as int] == ls@[j as int]@);
                e = j as u32;
                j += 1;
            }
            proof {
                if j < ls.len() {
                    assert(lv[j as int] == ls@[j as int]@);
                }
                assert(e as int == body_end(lv, start as int));
            }
            if e > start {
                out.push(Fold { start_line: start, end_line: e, kind: FoldKind::Region });
            }
        }
        assert(out@ =~= out1 + subroutine_folds(lv, dv, k + 1));
        k += 1;
    }
    assert(dv == definitions_upto(locs(tokens@), tokens@.len() as int));
    out
}

} // verus!
