//! The `.color` palette preview: the arguments of each `.color`
//! pseudo-instruction, evaluated, and the NES palette entries they map to,
//! rendered as hover markdown with an image of the swatches.

use vstd::prelude::*;
use crate::lsp::{base64, base64_of, Position, Range};
use crate::lsp::expr::{computes, eval_all, eval_argument, is_punct, syms, Symbol, Tok};
use crate::lsp::tokens::{copy_located, located_view, locs, LexKind, Located};
use crate::lsp::source::{hex_all, push_hex_all, push_hex_low};
use crate::media::color::{match_nes_color, nes_color, palette_entry, palette_rgb};
use crate::script::host::hex_low;
use crate::text::{chars_of, decimal, push_all, push_decimal, push_str, str_eq, string_of};

verus! {

// ---------------------------------------------------------------------------
// Splitting the argument list
// ---------------------------------------------------------------------------

/// Where a scan of an argument list stands: the finished groups, the group
/// being read, the current line, the parenthesis depth, whether the last
/// token was a separating comma, and whether the statement has ended.
pub type ScanState = (Seq<Seq<Tok>>, Seq<Tok>, int, int, bool, bool);

/// One token of an argument list read: comments are skipped; a token on a
/// later line ends the statement unless a comma ended the line before; a
/// comma outside parentheses closes a group; every other token joins the
/// current group, parentheses counting depth.
pub open spec fn scan_step(st: ScanState, t: Tok) -> ScanState {
    let (g, cur, line, depth, after, stop) = st;
    if stop || t.0 == LexKind::Comment {
        st
    } else if t.2.start.line as int != line && !after {
        (g, cur, line, depth, after, true)
    } else {
        let l2 = t.2.start.line as int;
        if is_punct(t, ","@) && depth == 0 {
            (g.push(cur), Seq::empty(), l2, depth, true, false)
        } else {
            let d2 = if is_punct(t, "("@) {
                depth + 1
            } else if is_punct(t, ")"@) {
                if depth > 0 {
                    depth - 1
                } else {
                    0
                }
            } else {
                depth
            };
            (g, cur.push(t), l2, d2, false, false)
        }
    }
}

/// The scan after the `n` tokens from `start`, begun on line `line0`.
pub open spec fn scan_upto(ts: Seq<Tok>, start: int, line0: int, n: int) -> ScanState
    decreases n,
{
    if n <= 0 {
        (Seq::empty(), Seq::empty(), line0, 0, false, false)
    } else {
        scan_step(scan_upto(ts, start, line0, n - 1), ts[start + n - 1])
    }
}

/// The groups that hold a token, in order.
pub open spec fn nonempty(gs: Seq<Seq<Tok>>) -> Seq<Seq<Tok>>
    decreases gs.len(),
{
    if gs.len() == 0 {
        Seq::empty()
    } else if gs.last().len() > 0 {
        nonempty(gs.drop_last()).push(gs.last())
    } else {
        nonempty(gs.drop_last())
    }
}

/// The arguments of a `.color` whose directive ends on line `line0`: the
/// tokens from `start`, split at top-level commas, up to the end of the
/// statement.
pub open spec fn arg_groups(ts: Seq<Tok>, start: int, line0: int) -> Seq<Seq<Tok>> {
    let st = scan_upto(ts, start, line0, ts.len() - start);
    nonempty(st.0.push(st.1))
}

/// The texts of a group's tokens, run together.
pub open spec fn joined(g: Seq<Tok>) -> Seq<char>
    decreases g.len(),
{
    if g.len() == 0 {
        Seq::empty()
    } else {
        joined(g.drop_last()) + g.last().1
    }
}

/// One argument of a `.color`: its text with white space squeezed out, its
/// span, and its value when the buffer resolves it.
#[derive(Debug)]
pub struct ColorArg {
    pub text: String,
    pub range: Range,
    pub value: Option<i64>,
}

/// An argument as plain values.
pub open spec fn color_arg_view(a: ColorArg) -> (Seq<char>, Range, Option<i64>) {
    (a.text@, a.range, a.value)
}

/// The argument a group of tokens makes, its value computed with `pw` for
/// exponentiation.
pub open spec fn arg_of(g: Seq<Tok>, ss: Seq<(Seq<char>, i64, bool, i64)>, pw: spec_fn(i64, i64) -> i64) -> (Seq<char>, Range, Option<i64>) {
    (joined(g), Range { start: g[0].2.start, end: g.last().2.end }, eval_all(g, ss, pw))
}

/// A finished scan stays finished.
proof fn lemma_scan_stopped(ts: Seq<Tok>, start: int, line0: int, n: int, m: int)
    requires
        0 <= n <= m,
        scan_upto(ts, start, line0, n).5,
    ensures
        scan_upto(ts, start, line0, m) == scan_upto(ts, start, line0, n),
    decreases m - n,
{
    if n < m {
        lemma_scan_stopped(ts, start, line0, n, m - 1);
    }
}

/// Groups of located tokens as plain values.
pub open spec fn group_views(gs: Seq<Vec<Located>>) -> Seq<Seq<Tok>> {
    gs.map_values(|g: Vec<Located>| locs(g@))
}

/// The text of a group's tokens, run together.
fn join_texts(g: &Vec<Located>) -> (r: String)
    ensures
        r@ == joined(locs(g@)),
{
    let mut out: Vec<char> = Vec::new();
    let mut i: usize = 0;
    while i < g.len()
        invariant
            i <= g.len(),
            out@ == joined(locs(g@).take(i as int)),
        decreases g.len() - i,
    {
        assert(locs(g@).take(i + 1).drop_last() =~= locs(g@).take(i as int));
        assert(locs(g@).take(i + 1).last() == located_view(g@[i as int]));
        push_str(&mut out, g[i].text.as_str());
        i += 1;
    }
    assert(locs(g@).take(g.len() as int) =~= locs(g@));
    string_of(&out)
}

/// Split the tokens from `start`, which follow a `.color` on line `line`,
/// into its comma-separated arguments and evaluate each. The list runs to
/// the end of the line and continues onto the next after a trailing comma;
/// comments are skipped, and a comma inside parentheses separates nothing.
pub fn color_args<F: Fn(i64, i64) -> i64>(tokens: &[Located], start: usize, line: u32, symbols: &[Symbol], pow: &F) -> (r: Vec<ColorArg>)
    requires
        start <= tokens.len(),
        tokens.len() < u32::MAX,
        forall|x: i64, y: i64| pow.requires((x, y)),
    ensures
        forall|pw: spec_fn(i64, i64) -> i64| computes(*pow, pw) ==> r@.map_values(
            |a: ColorArg| color_arg_view(a),
        ) == arg_groups(locs(tokens@), start as int, line as int).map_values(
            |g: Seq<Tok>| arg_of(g, syms(symbols@), pw),
        ),
        r.len() <= tokens.len() - start,
{
    let ghost ts = locs(tokens@);
    let mut groups: Vec<Vec<Located>> = Vec::new();
    let mut current: Vec<Located> = Vec::new();
    let mut cur_line: u32 = line;
    let mut depth: u32 = 0;
    let mut after_comma = false;
    let mut stopped = false;
    let mut i: usize = start;
    while i < tokens.len() && !stopped
        invariant
            start <= i <= tokens.len(),
            tokens.len() < u32::MAX,
            ts == locs(tokens@),
            depth <= i - start,
            (group_views(groups@), locs(current@), cur_line as int, depth as int, after_comma, stopped)
                == scan_upto(ts, start as int, line as int, i - start),
            nonempty(group_views(groups@)).len() + (if current.len() > 0 { 1int } else { 0int })
                <= i - start,
        decreases tokens.len() - i,
    {
        let t = &tokens[i];
        assert(ts[i as int] == located_view(*t));
        assert(ts[start as int + (i - start + 1) - 1] == ts[i as int]);
        if t.kind == LexKind::Comment {
        } else if t.range.start.line != cur_line && !after_comma {
            stopped = true;
        } else {
            cur_line = t.range.start.line;
            if str_eq(t.text.as_str(), ",") && t.kind == LexKind::Punct && depth == 0 {
                let ghost gv = group_views(groups@);
                let mut done: Vec<Located> = Vec::new();
                std::mem::swap(&mut done, &mut current);
                groups.push(done);
                assert(group_views(groups@) =~= gv.push(locs(done@)));
                assert(locs(done@).len() == done.len());
                assert(group_views(groups@).drop_last() =~= gv);
                assert(locs(current@) =~= Seq::<Tok>::empty());
                after_comma = true;
            } else {
                if t.kind == LexKind::Punct && str_eq(t.text.as_str(), "(") {
                    depth = depth + 1;
                } else if t.kind == LexKind::Punct && str_eq(t.text.as_str(), ")") {
                    depth = if depth > 0 { depth - 1 } else { 0 };
                }
                after_comma = false;
                let ghost cv = locs(current@);
                current.push(copy_located(t));
                assert(locs(current@) =~= cv.push(ts[i as int]));
            }
        }
        i += 1;
    }
    proof {
        if stopped {
            lemma_scan_stopped(ts, start as int, line as int, i - start, tokens.len() - start);
        }
    }
    let ghost gv = group_views(groups@);
    groups.push(current);
    assert(group_views(groups@) =~= gv.push(locs(groups@.last()@)));
    let ghost all = group_views(groups@);
    assert(arg_groups(ts, start as int, line as int) == nonempty(all));
    assert(nonempty(all).len() <= tokens.len() - start) by {
        assert(all.last() == locs(groups@.last()@));
        assert(all.drop_last() =~= gv);
    }
    let ghost ss = syms(symbols@);
    let mut out: Vec<ColorArg> = Vec::new();
    let mut k: usize = 0;
    while k < groups.len()
        invariant
            k <= groups.len(),
            all == group_views(groups@),
            ss == syms(symbols@),
            forall|x: i64, y: i64| pow.requires((x, y)),
            forall|pw: spec_fn(i64, i64) -> i64| computes(*pow, pw) ==> out@.map_values(
                |a: ColorArg| color_arg_view(a),
            ) == nonempty(all.take(k as int)).map_values(|g: Seq<Tok>| arg_of(g, ss, pw)),
            out.len() == nonempty(all.take(k as int)).len(),
        decreases groups.len() - k,
    {
        let g = &groups[k];
        assert(all[k as int] == locs(g@));
        assert(all.take(k + 1).drop_last() =~= all.take(k as int));
        assert(all.take(k + 1).last() == locs(g@));
        if g.len() > 0 {
            let text = join_texts(g);
            let range = Range::new(g[0].range.start, g[g.len() - 1].range.end);
            assert(locs(g@)[0] == located_view(g@[0]));
            assert(locs(g@).last() == located_view(g@[g.len() - 1]));
            let value = eval_argument(g.as_slice(), symbols, pow);
            let ghost before = out@.map_values(|a: ColorArg| color_arg_view(a));
            out.push(ColorArg { text, range, value });
            assert forall|pw: spec_fn(i64, i64) -> i64| computes(*pow, pw) implies out@.map_values(
                |a: ColorArg| color_arg_view(a),
            ) == nonempty(all.take(k + 1)).map_values(|g: Seq<Tok>| arg_of(g, ss, pw)) by {
                assert(out@.map_values(|a: ColorArg| color_arg_view(a)) =~= before.push(
                    arg_of(locs(g@), ss, pw),
                ));
                assert(nonempty(all.take(k + 1)) == nonempty(all.take(k as int)).push(locs(g@)));
                assert(nonempty(all.take(k + 1)).map_values(|g: Seq<Tok>| arg_of(g, ss, pw))
                    =~= nonempty(all.take(k as int)).map_values(|g: Seq<Tok>| arg_of(g, ss, pw)).push(
                    arg_of(locs(g@), ss, pw),
                ));
            }
        } else {
            assert(nonempty(all.take(k + 1)) == nonempty(all.take(k as int)));
        }
        k += 1;
    }
    assert(all.take(groups.len() as int) =~= all);
    out
}

// ---------------------------------------------------------------------------
// Palette entries and swatches
// ---------------------------------------------------------------------------

/// The NES palette entry a value maps to: the index byte the assembler emits
/// for its low 24 bits taken as RGB, and the RGB the PPU shows for it.
pub open spec fn nes_entry_of(value: i64) -> (u8, u32) {
    let rgb = value & 0xFF_FFFF;
    let i = nes_color(((rgb >> 16u64) & 0xFF) as u8, ((rgb >> 8u64) & 0xFF) as u8, (rgb & 0xFF) as u8);
    (i, palette_rgb(i as int))
}

/// The NES palette entry a `.color` argument maps to.
pub fn nes_entry(value: i64) -> (r: (u8, u32))
    ensures
        r == nes_entry_of(value),
        r.0 < 64,
{
    let rgb = value & 0xFF_FFFF;
    let index = match_nes_color(((rgb >> 16u64) & 0xFF) as u8, ((rgb >> 8u64) & 0xFF) as u8, (rgb & 0xFF) as u8);
    (index, palette_entry(index as usize))
}

/// At least six upper-case hex digits of `v`, as `{:06X}` writes it.
pub open spec fn hex6(v: nat) -> Seq<char> {
    if v < 0x100_0000 {
        hex_low(v, 6)
    } else {
        hex_all(v)
    }
}

/// Append at least six upper-case hex digits of `v`.
fn push_hex6(out: &mut Vec<char>, v: u64)
    ensures
        final(out)@ == old(out)@ + hex6(v as nat),
{
    if v < 0x100_0000 {
        push_hex_low(out, v, 6);
    } else {
        push_hex_all(out, v);
    }
}

/// The pitch of one swatch square, in pixels.
pub const SWATCH: u32 = 18;

/// The fill of one swatch: its color, or none for an unresolved argument.
pub open spec fn fill_of(c: Option<u32>) -> Seq<char> {
    match c {
        Some(rgb) => "#"@ + hex6(rgb as nat),
        None => "none"@,
    }
}

/// The squares of the first `n` swatches.
pub open spec fn rects(colors: Seq<Option<u32>>, n: int) -> Seq<char>
    decreases n,
{
    if n <= 0 {
        Seq::empty()
    } else {
        rects(colors, n - 1) + "<rect x='"@ + decimal((18 * (n - 1) + 1) as nat) + "' y='1' width='"@
            + decimal(16) + "' height='"@ + decimal(16) + "' fill='"@ + fill_of(colors[n - 1])
            + "' stroke='#808080' stroke-width='1'/>"@
    }
}

/// The SVG of a row of swatches.
pub open spec fn svg_of(colors: Seq<Option<u32>>) -> Seq<char> {
    "<svg xmlns='http://www.w3.org/2000/svg' width='"@ + decimal((18 * colors.len()) as nat)
        + "' height='"@ + decimal(18) + "'>"@ + rects(colors, colors.len() as int) + "</svg>"@
}

/// A markdown image of a row of swatches, as an SVG data URI.
pub open spec fn swatch_md(colors: Seq<Option<u32>>, alt: Seq<char>) -> Seq<char> {
    "!["@ + alt + "](data:image/svg+xml;base64,"@ + base64_of(vstd::utf8::encode_utf8(svg_of(colors)))
        + ")"@
}

/// A markdown image of `colors` as a row of swatches, drawn as an inline SVG
/// data URI: a graphical client shows the colors, a terminal one the alt
/// text. An unresolved color keeps its slot as an empty outline.
pub fn swatch_image(colors: &[Option<u32>], alt: &str) -> (r: String)
    requires
        18 * colors.len() <= u32::MAX,
    ensures
        r@ == swatch_md(colors@, alt@),
{
    let width: u32 = SWATCH * colors.len() as u32;
    let mut svg: Vec<char> = Vec::new();
    push_str(&mut svg, "<svg xmlns='http://www.w3.org/2000/svg' width='");
    push_decimal(&mut svg, width as u64);
    push_str(&mut svg, "' height='");
    push_decimal(&mut svg, SWATCH as u64);
    push_str(&mut svg, "'>");
    let ghost head = svg@;
    let mut i: usize = 0;
    while i < colors.len()
        invariant
            i <= colors.len(),
            18 * colors.len() <= u32::MAX,
            svg@ == head + rects(colors@, i as int),
        decreases colors.len() - i,
    {
        let x: u32 = SWATCH * i as u32 + 1;
        let side: u32 = SWATCH - 2;
        push_str(&mut svg, "<rect x='");
        push_decimal(&mut svg, x as u64);
        push_str(&mut svg, "' y='1' width='");
        push_decimal(&mut svg, side as u64);
        push_str(&mut svg, "' height='");
        push_decimal(&mut svg, side as u64);
        push_str(&mut svg, "' fill='");
        match colors[i] {
            Some(rgb) => {
                push_str(&mut svg, "#");
                push_hex6(&mut svg, rgb as u64);
            },
            None => push_str(&mut svg, "none"),
        }
        push_str(&mut svg, "' stroke='#808080' stroke-width='1'/>");
        assert(svg@ =~= head + rects(colors@, i + 1));
        i += 1;
    }
    push_str(&mut svg, "</svg>");
    assert(svg@ =~= svg_of(colors@));
    let text = string_of(&svg);
    let mut out: Vec<char> = Vec::new();
    push_str(&mut out, "![");
    push_str(&mut out, alt);
    push_str(&mut out, "](data:image/svg+xml;base64,");
    let b = base64(text.as_str().as_bytes());
    push_str(&mut out, b.as_str());
    push_str(&mut out, ")");
    assert(out@ =~= swatch_md(colors@, alt@));
    string_of(&out)
}

// ---------------------------------------------------------------------------
// Hover markdown
// ---------------------------------------------------------------------------

/// The swatch of an argument: the RGB of the entry it maps to.
pub open spec fn swatch_of(a: (Seq<char>, Range, Option<i64>)) -> Option<u32> {
    match a.2 {
        Some(v) => Some(nes_entry_of(v).1),
        None => None,
    }
}

/// The table row of one argument: its text, its RGB, the index the
/// assembler emits and the RGB shown; question marks when unresolved.
pub open spec fn arg_row(a: (Seq<char>, Range, Option<i64>)) -> Seq<char> {
    match a.2 {
        Some(v) => "| `"@ + a.0 + "` | `#"@ + hex_low((v & 0xFF_FFFF) as nat, 6) + "` | `$"@ + hex_low(
            nes_entry_of(v).0 as nat,
            2,
        ) + "` | `#"@ + hex6(nes_entry_of(v).1 as nat) + "` |\n"@,
        None => "| `"@ + a.0 + "` | ? | ? | ? |\n"@,
    }
}

/// The rows of the first `n` arguments.
pub open spec fn arg_rows(args: Seq<(Seq<char>, Range, Option<i64>)>, n: int) -> Seq<char>
    decreases n,
{
    if n <= 0 {
        Seq::empty()
    } else {
        arg_rows(args, n - 1) + arg_row(args[n - 1])
    }
}

/// The hover of a whole `.color` list: the count, the swatches, and a table
/// of the arguments; nothing for a `.color` with no arguments.
pub open spec fn list_md(args: Seq<(Seq<char>, Range, Option<i64>)>) -> Option<Seq<char>> {
    if args.len() == 0 {
        None
    } else {
        Some(
            "**.color** \u{2014} "@ + decimal(args.len()) + " "@ + (if args.len() == 1 {
                "color"@
            } else {
                "colors"@
            }) + " mapped to the NES palette\n\n"@ + swatch_md(
                args.map_values(|a: (Seq<char>, Range, Option<i64>)| swatch_of(a)),
                "NES colors"@,
            ) + "\n\n| argument | RGB | index | NES color |\n| --- | --- | --- | --- |\n"@
                + arg_rows(args, args.len() as int),
        )
    }
}

/// Append one table row.
fn push_arg_row(out: &mut Vec<char>, a: &ColorArg)
    ensures
        final(out)@ == old(out)@ + arg_row(color_arg_view(*a)),
{
    match a.value {
        Some(v) => {
            let (index, rgb) = nes_entry(v);
            push_str(out, "| `");
            push_str(out, a.text.as_str());
            push_str(out, "` | `#");
            let low = v & 0xFF_FFFF;
            assert(0 <= low <= 0xFF_FFFF) by (bit_vector)
                requires
                    low == v & 0xFF_FFFF,
            ;
            push_hex_low(out, low as u64, 6);
            push_str(out, "` | `$");
            push_hex_low(out, index as u64, 2);
            push_str(out, "` | `#");
            push_hex6(out, rgb as u64);
            push_str(out, "` |\n");
        },
        None => {
            push_str(out, "| `");
            push_str(out, a.text.as_str());
            push_str(out, "` | ? | ? | ? |\n");
        },
    }
    assert(final(out)@ =~= old(out)@ + arg_row(color_arg_view(*a)));
}

/// Hover markdown for a whole `.color` argument list: the row of NES colors
/// the arguments map to, then a table detailing each. `None` for a `.color`
/// with no arguments, which has nothing to preview.
pub fn color_list_markdown(args: &[ColorArg]) -> (r: Option<String>)
    requires
        18 * args.len() <= u32::MAX,
    ensures
        r matches Some(s) ==> list_md(args@.map_values(|a: ColorArg| color_arg_view(a))) == Some(s@),
        r is None ==> list_md(args@.map_values(|a: ColorArg| color_arg_view(a))) is None,
{
    let ghost av = args@.map_values(|a: ColorArg| color_arg_view(a));
    if args.len() == 0 {
        return None;
    }
    let mut swatches: Vec<Option<u32>> = Vec::new();
    let mut i: usize = 0;
    while i < args.len()
        invariant
            i <= args.len(),
            av == args@.map_values(|a: ColorArg| color_arg_view(a)),
            swatches@ == av.take(i as int).map_values(|a: (Seq<char>, Range, Option<i64>)| swatch_of(a)),
        decreases args.len() - i,
    {
        let s = match args[i].value {
            Some(v) => Some(nes_entry(v).1),
            None => None,
        };
        assert(av[i as int] == color_arg_view(args@[i as int]));
        swatches.push(s);
        assert(av.take(i + 1) =~= av.take(i as int).push(av[i as int]));
        assert(swatches@ =~= av.take(i + 1).map_values(|a: (Seq<char>, Range, Option<i64>)| swatch_of(a)));
        i += 1;
    }
    assert(av.take(args.len() as int) =~= av);
    let mut md: Vec<char> = Vec::new();
    push_str(&mut md, "**.color** \u{2014} ");
    push_decimal(&mut md, args.len() as u64);
    push_str(&mut md, " ");
    if args.len() == 1 {
        push_str(&mut md, "color");
    } else {
        push_str(&mut md, "colors");
    }
    push_str(&mut md, " mapped to the NES palette\n\n");
    let img = swatch_image(swatches.as_slice(), "NES colors");
    push_str(&mut md, img.as_str());
    push_str(&mut md, "\n\n| argument | RGB | index | NES color |\n| --- | --- | --- | --- |\n");
    let ghost head = md@;
    let mut k: usize = 0;
    while k < args.len()
        invariant
            k <= args.len(),
            av == args@.map_values(|a: ColorArg| color_arg_view(a)),
            md@ == head + arg_rows(av, k as int),
        decreases args.len() - k,
    {
        assert(av[k as int] == color_arg_view(args@[k as int]));
        push_arg_row(&mut md, &args[k]);
        assert(md@ =~= head + arg_rows(av, k + 1));
        k += 1;
    }
    assert(md@ =~= list_md(av).unwrap());
    Some(string_of(&md))
}

/// The hover of one `.color` argument, the `index`-th of `total`: the one
/// NES color it maps to; nothing when its value is unresolved.
pub open spec fn one_md(a: (Seq<char>, Range, Option<i64>), index: nat, total: nat) -> Option<Seq<char>> {
    match a.2 {
        Some(v) => {
            let (palette, rgb) = nes_entry_of(v);
            Some(
                "**.color** \u{2014} argument "@ + decimal(index + 1) + " of "@ + decimal(total)
                    + "\n\n"@ + swatch_md(seq![Some(rgb)], "#"@ + hex6(rgb as nat)) + "\n\n`"@
                    + a.0 + "` (`#"@ + hex_low((v & 0xFF_FFFF) as nat, 6)
                    + "`) \u{2192} NES color `$"@ + hex_low(palette as nat, 2) + "` (`#"@ + hex6(
                    rgb as nat,
                ) + "`)"@,
            )
        },
        None => None,
    }
}

/// Hover markdown for a single `.color` argument, the `index`-th (from 0) of
/// `total`: just the one NES color it maps to. `None` when the argument's
/// value is unresolved.
pub fn color_arg_markdown(arg: &ColorArg, index: usize, total: usize) -> (r: Option<String>)
    requires
        index < usize::MAX,
    ensures
        r matches Some(s) ==> one_md(color_arg_view(*arg), index as nat, total as nat) == Some(s@),
        r is None ==> one_md(color_arg_view(*arg), index as nat, total as nat) is None,
{
    let value = match arg.value {
        Some(v) => v,
        None => return None,
    };
    let (palette, rgb) = nes_entry(value);
    let mut md: Vec<char> = Vec::new();
    push_str(&mut md, "**.color** \u{2014} argument ");
    push_decimal(&mut md, (index + 1) as u64);
    push_str(&mut md, " of ");
    push_decimal(&mut md, total as u64);
    push_str(&mut md, "\n\n");
    let mut alt: Vec<char> = Vec::new();
    push_str(&mut alt, "#");
    push_hex6(&mut alt, rgb as u64);
    assert(alt@ =~= "#"@ + hex6(rgb as nat));
    let one = vec![Some(rgb)];
    assert(one@ =~= seq![Some(rgb)]);
    let img = swatch_image(one.as_slice(), string_of(&alt).as_str());
    push_str(&mut md, img.as_str());
    push_str(&mut md, "\n\n`");
    push_str(&mut md, arg.text.as_str());
    push_str(&mut md, "` (`#");
    let low = value & 0xFF_FFFF;
    assert(0 <= low <= 0xFF_FFFF) by (bit_vector)
        requires
            low == value & 0xFF_FFFF,
    ;
    push_hex_low(&mut md, low as u64, 6);
    push_str(&mut md, "`) \u{2192} NES color `$");
    push_hex_low(&mut md, palette as u64, 2);
    push_str(&mut md, "` (`#");
    push_hex6(&mut md, rgb as u64);
    push_str(&mut md, "`)");
    assert(md@ =~= one_md(color_arg_view(*arg), index as nat, total as nat).unwrap());
    Some(string_of(&md))
}

// ---------------------------------------------------------------------------
// The `.color` statements of a buffer
// ---------------------------------------------------------------------------

/// A `.color` pseudo-instruction: the span of its directive and its
/// arguments.
#[derive(Debug)]
pub struct ColorCall {
    pub directive: Range,
    pub args: Vec<ColorArg>,
}

/// A call as plain values.
pub open spec fn call_view(c: ColorCall) -> (Range, Seq<(Seq<char>, Range, Option<i64>)>) {
    (c.directive, c.args@.map_values(|a: ColorArg| color_arg_view(a)))
}

/// Whether token `t` is the `.color` directive, spelled exactly as the
/// assembler matches it.
pub open spec fn is_color_directive(t: Tok) -> bool {
    t.0 == LexKind::Directive && t.1 == ".color"@
}

/// The `.color` statements among the first `n` tokens, each with its
/// arguments evaluated (exponentiation from `pw`).
pub open spec fn calls_upto(ts: Seq<Tok>, n: int, ss: Seq<(Seq<char>, i64, bool, i64)>, pw: spec_fn(i64, i64) -> i64) -> Seq<(Range, Seq<(Seq<char>, Range, Option<i64>)>)>
    decreases n,
{
    if n <= 0 {
        Seq::empty()
    } else if is_color_directive(ts[n - 1]) {
        calls_upto(ts, n - 1, ss, pw).push(
            (
                ts[n - 1].2,
                arg_groups(ts, n, ts[n - 1].2.end.line as int).map_values(
                    |g: Seq<Tok>| arg_of(g, ss, pw),
                ),
            ),
        )
    } else {
        calls_upto(ts, n - 1, ss, pw)
    }
}

/// Every `.color` pseudo-instruction in a buffer's tokens, with its
/// arguments split out and evaluated against `symbols`.
pub fn color_calls<F: Fn(i64, i64) -> i64>(tokens: &[Located], symbols: &[Symbol], pow: &F) -> (r: Vec<ColorCall>)
    requires
        18 * tokens.len() <= u32::MAX,
        forall|x: i64, y: i64| pow.requires((x, y)),
    ensures
        forall|pw: spec_fn(i64, i64) -> i64| computes(*pow, pw) ==> r@.map_values(
            |c: ColorCall| call_view(c),
        ) == calls_upto(locs(tokens@), tokens.len() as int, syms(symbols@), pw),
        forall|k: int| 0 <= k < r.len() ==> #[trigger] r@[k].args.len() <= tokens.len(),
{
    let ghost ts = locs(tokens@);
    let ghost ss = syms(symbols@);
    let mut out: Vec<ColorCall> = Vec::new();
    let mut i: usize = 0;
    while i < tokens.len()
        invariant
            i <= tokens.len(),
            18 * tokens.len() <= u32::MAX,
            ts == locs(tokens@),
            ss == syms(symbols@),
            forall|x: i64, y: i64| pow.requires((x, y)),
            forall|pw: spec_fn(i64, i64) -> i64| computes(*pow, pw) ==> out@.map_values(
                |c: ColorCall| call_view(c),
            ) == calls_upto(ts, i as int, ss, pw),
            forall|k: int| 0 <= k < out.len() ==> #[trigger] out@[k].args.len() <= tokens.len(),
        decreases tokens.len() - i,
    {
        let t = &tokens[i];
        assert(ts[i as int] == located_view(*t));
        if t.kind == LexKind::Directive && str_eq(t.text.as_str(), ".color") {
            let args = color_args(tokens, i + 1, t.range.end.line, symbols, pow);
            let ghost before = out@.map_values(|c: ColorCall| call_view(c));
            out.push(ColorCall { directive: t.range, args });
            assert forall|pw: spec_fn(i64, i64) -> i64| computes(*pow, pw) implies out@.map_values(
                |c: ColorCall| call_view(c),
            ) == calls_upto(ts, i + 1, ss, pw) by {
                assert(out@.map_values(|c: ColorCall| call_view(c)) =~= before.push(
                    call_view(out@[out.len() - 1]),
                ));
            }
        }
        i += 1;
    }
    out
}

/// Whether `pos` lies within `r`, ends included.
pub open spec fn contains(r: Range, p: Position) -> bool {
    &&& (r.start.line < p.line || (r.start.line == p.line && r.start.character <= p.character))
    &&& (p.line < r.end.line || (p.line == r.end.line && p.character <= r.end.character))
}

/// Whether `pos` lies within `r`, ends included.
fn range_contains(r: Range, p: Position) -> (b: bool)
    ensures
        b == contains(r, p),
{
    (r.start.line < p.line || (r.start.line == p.line && r.start.character <= p.character)) && (
    p.line < r.end.line || (p.line == r.end.line && p.character <= r.end.character))
}

/// The first argument from `k` on that `pos` lies in.
pub open spec fn arg_index(args: Seq<(Seq<char>, Range, Option<i64>)>, p: Position, k: int) -> Option<int>
    decreases args.len() - k,
{
    if k < 0 || k >= args.len() {
        None
    } else if contains(args[k].1, p) {
        Some(k)
    } else {
        arg_index(args, p, k + 1)
    }
}

/// The first call from `k` on whose directive or one of whose arguments
/// `pos` lies in.
pub open spec fn call_index(calls: Seq<(Range, Seq<(Seq<char>, Range, Option<i64>)>)>, p: Position, k: int) -> Option<int>
    decreases calls.len() - k,
{
    if k < 0 || k >= calls.len() {
        None
    } else if contains(calls[k].0, p) || arg_index(calls[k].1, p, 0) is Some {
        Some(k)
    } else {
        call_index(calls, p, k + 1)
    }
}

/// The `.color` hover at `p`: on the directive, the whole list (nothing for
/// a bare `.color`); on an argument, that one color (nothing when
/// unresolved). The markdown and the span it is for.
pub open spec fn hover_md(calls: Seq<(Range, Seq<(Seq<char>, Range, Option<i64>)>)>, p: Position) -> Option<(Seq<char>, Range)> {
    match call_index(calls, p, 0) {
        None => None,
        Some(k) => {
            let (directive, args) = calls[k];
            if contains(directive, p) {
                match list_md(args) {
                    Some(md) => Some((md, directive)),
                    None => None,
                }
            } else {
                match arg_index(args, p, 0) {
                    Some(j) => match one_md(args[j], j as nat, args.len()) {
                        Some(md) => Some((md, args[j].1)),
                        None => None,
                    },
                    None => None,
                }
            }
        },
    }
}

/// The first argument `pos` lies in.
fn find_arg(args: &[ColorArg], pos: Position) -> (r: Option<usize>)
    ensures
        r matches Some(j) ==> j < args.len() && arg_index(
            args@.map_values(|a: ColorArg| color_arg_view(a)),
            pos,
            0,
        ) == Some(j as int),
        r is None ==> arg_index(args@.map_values(|a: ColorArg| color_arg_view(a)), pos, 0) is None,
{
    let ghost av = args@.map_values(|a: ColorArg| color_arg_view(a));
    let mut j: usize = 0;
    while j < args.len()
        invariant
            j <= args.len(),
            av == args@.map_values(|a: ColorArg| color_arg_view(a)),
            arg_index(av, pos, 0) == arg_index(av, pos, j as int),
        decreases args.len() - j,
    {
        assert(av[j as int] == color_arg_view(args@[j as int]));
        if range_contains(args[j].range, pos) {
            return Some(j);
        }
        j += 1;
    }
    None
}

/// The `.color` hover at `pos` among `calls`.
fn hover_in(calls: &[ColorCall], pos: Position) -> (r: Option<(String, Range)>)
    requires
        forall|q: int| 0 <= q < calls.len() ==> 18 * #[trigger] calls@[q].args.len() <= u32::MAX,
    ensures
        match r {
            Some((md, range)) => hover_md(calls@.map_values(|c: ColorCall| call_view(c)), pos)
                == Some((md@, range)),
            None => hover_md(calls@.map_values(|c: ColorCall| call_view(c)), pos) is None,
        },
{
    let ghost cv = calls@.map_values(|c: ColorCall| call_view(c));
    let mut k: usize = 0;
    while k < calls.len()
        invariant
            k <= calls.len(),
            cv == calls@.map_values(|c: ColorCall| call_view(c)),
            call_index(cv, pos, 0) == call_index(cv, pos, k as int),
            forall|q: int| 0 <= q < calls.len() ==> 18 * #[trigger] calls@[q].args.len() <= u32::MAX,
        decreases calls.len() - k,
    {
        let c = &calls[k];
        assert(cv[k as int] == call_view(*c));
        let on_directive = range_contains(c.directive, pos);
        let arg = find_arg(c.args.as_slice(), pos);
        if on_directive {
            assert(call_index(cv, pos, 0) == Some(k as int));
            assert(18 * calls@[k as int].args.len() <= u32::MAX);
            return match color_list_markdown(c.args.as_slice()) {
                Some(md) => Some((md, c.directive)),
                None => None,
            };
        }
        if let Some(j) = arg {
            assert(call_index(cv, pos, 0) == Some(k as int));
            let a = &c.args[j];
            assert(cv[k as int].1[j as int] == color_arg_view(*a));
            return match color_arg_markdown(a, j, c.args.len()) {
                Some(md) => Some((md, a.range)),
                None => None,
            };
        }
        k += 1;
    }
    None
}

/// Hover for `.color` at `pos`, previewing the NES palette entries its
/// arguments map to: the whole list on the directive, the one color on a
/// single argument. `None` when `pos` is on neither, or on an argument whose
/// value the buffer cannot resolve, so the ordinary hover can run instead.
pub fn color_hover<F: Fn(i64, i64) -> i64>(tokens: &[Located], pos: Position, symbols: &[Symbol], pow: &F) -> (r: Option<(String, Range)>)
    requires
        18 * tokens.len() <= u32::MAX,
        forall|x: i64, y: i64| pow.requires((x, y)),
    ensures
        forall|pw: spec_fn(i64, i64) -> i64| computes(*pow, pw) ==> match r {
            Some((md, range)) => hover_md(
                calls_upto(locs(tokens@), tokens.len() as int, syms(symbols@), pw),
                pos,
            ) == Some((md@, range)),
            None => hover_md(
                calls_upto(locs(tokens@), tokens.len() as int, syms(symbols@), pw),
                pos,
            ) is None,
        },
{
    let calls = color_calls(tokens, symbols, pow);
    assert forall|q: int| 0 <= q < calls.len() implies 18 * #[trigger] calls@[q].args.len() <= u32::MAX by {
        assert(calls@[q].args.len() <= tokens.len());
    }
    hover_in(calls.as_slice(), pos)
}

} // verus!
