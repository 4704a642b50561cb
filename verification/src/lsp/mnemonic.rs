//! Hover for an instruction mnemonic: a table of its addressing modes with
//! the opcode byte, length and cycle count of each, read from the opcode
//! table.

use vstd::prelude::*;
use crate::isa::{opcodes, spec_opcode, AddressingMode, Opcode, META_BOUNDARY};
use crate::lsp::source::push_hex_low;
use crate::script::host::hex_low;
use crate::text::{chars_of, ci_eq, decimal, eq_ignore_ascii_case, push_decimal, push_str, string_of};

verus! {

/// Whether opcode byte `b` is spelled `name`, ignoring ASCII case.
pub open spec fn spelled(b: int, name: Seq<char>) -> bool {
    ci_eq(spec_opcode(b as u8).mnemonic@, name)
}

/// The cycle count of an opcode: its base timing, with a `+` when a page
/// crossing adds a cycle.
pub open spec fn cycles_text(op: Opcode) -> Seq<char> {
    decimal(op.timing as nat) + if op.meta & META_BOUNDARY != 0 {
        "+"@
    } else {
        Seq::empty()
    }
}

/// The mark after the mode of an undocumented opcode.
pub open spec fn undocumented_mark(op: Opcode) -> Seq<char> {
    if op.spec_is_undocumented() {
        " \u{26A0}\u{FE0E}"@
    } else {
        Seq::empty()
    }
}

/// One table row: mode, opcode byte, length, cycles.
pub open spec fn hover_row(op: Opcode) -> Seq<char> {
    "| "@ + op.mode.spec_label()@ + undocumented_mark(op) + " | $"@ + hex_low(op.opcode as nat, 2)
        + " | "@ + decimal(op.length as nat) + " | "@ + cycles_text(op) + " |\n"@
}

/// The rows of the opcodes below byte `n` spelled `name`, in byte order.
pub open spec fn rows_below(name: Seq<char>, n: int) -> Seq<char>
    decreases n,
{
    if n <= 0 {
        Seq::empty()
    } else {
        rows_below(name, n - 1) + if spelled(n - 1, name) {
            hover_row(spec_opcode((n - 1) as u8))
        } else {
            Seq::empty()
        }
    }
}

/// The first opcode byte below `n` spelled `name`.
pub open spec fn first_below(name: Seq<char>, n: int) -> Option<int>
    decreases n,
{
    if n <= 0 {
        None
    } else {
        match first_below(name, n - 1) {
            Some(b) => Some(b),
            None => if spelled(n - 1, name) {
                Some(n - 1)
            } else {
                None
            },
        }
    }
}

/// The hover of a mnemonic: its upper-case spelling, then a row per opcode
/// spelled the same ignoring case; nothing when no opcode is.
pub open spec fn mnemonic_md(name: Seq<char>) -> Option<Seq<char>> {
    match first_below(name, 256) {
        Some(b) => Some(
            "**"@ + spec_opcode(b as u8).mnemonic@ + "** (instruction)\n\n"@
                + "| mode | opcode | bytes | cycles |\n"@ + "| --- | --- | --- | --- |\n"@
                + rows_below(name, 256),
        ),
        None => None,
    }
}

/// Append the table row of `op`.
fn push_row(out: &mut Vec<char>, op: &Opcode)
    ensures
        final(out)@ == old(out)@ + hover_row(*op),
{
    push_str(out, "| ");
    push_str(out, op.mode.label());
    if op.is_undocumented() {
        push_str(out, " \u{26A0}\u{FE0E}");
    }
    push_str(out, " | $");
    push_hex_low(out, op.opcode as u64, 2);
    push_str(out, " | ");
    push_decimal(out, op.length as u64);
    push_str(out, " | ");
    push_decimal(out, op.timing as u64);
    if op.is_boundary() {
        push_str(out, "+");
    }
    push_str(out, " |\n");
    assert(final(out)@ =~= old(out)@ + hover_row(*op));
}

/// Hover markdown for an instruction mnemonic: a table of its addressing
/// modes with opcode byte, length and cycle count. `None` when `name` is not
/// a mnemonic.
pub fn mnemonic_hover(name: &str) -> (r: Option<String>)
    ensures
        r matches Some(s) ==> mnemonic_md(name@) == Some(s@),
        r is None ==> mnemonic_md(name@) is None,
{
    let ops = opcodes();
    let n = chars_of(name);
    let mut rows: Vec<char> = Vec::new();
    let mut first: Option<usize> = None;
    let mut b: usize = 0;
    while b < 256
        invariant
            b <= 256,
            ops.len() == 256,
            forall|i: int| 0 <= i < 256 ==> #[trigger] ops@[i] == spec_opcode(i as u8),
            n@ == name@,
            rows@ == rows_below(name@, b as int),
            first_below(name@, b as int) == (match first {
                Some(k) => Some(k as int),
                None => None::<int>,
            }),
            first matches Some(k) ==> k < b,
        decreases 256 - b,
    {
        let op = ops[b];
        let m = chars_of(op.mnemonic);
        let ghost before = rows@;
        if eq_ignore_ascii_case(&m, &n) {
            push_row(&mut rows, &op);
            if first.is_none() {
                first = Some(b);
            }
        }
        assert(rows@ =~= rows_below(name@, b + 1));
        b += 1;
    }
    match first {
        Some(k) => {
            let mut md: Vec<char> = Vec::new();
            push_str(&mut md, "**");
            assert(ops@[k as int] == spec_opcode(k as u8));
            push_str(&mut md, ops[k].mnemonic);
            push_str(&mut md, "** (instruction)\n\n");
            push_str(&mut md, "| mode | opcode | bytes | cycles |\n");
            push_str(&mut md, "| --- | --- | --- | --- |\n");
            crate::text::push_all(&mut md, &rows);
            assert(md@ =~= mnemonic_md(name@).unwrap());
            Some(string_of(&md))
        },
        None => None,
    }
}

} // verus!
