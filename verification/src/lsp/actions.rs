//! Code actions computed from a literal's text: rewriting a numeric literal
//! in each base other than the one it is written in.

use vstd::prelude::*;
use crate::lsp::{number_value, parse_number};
use crate::lsp::source::{hex_all, push_hex_all};
use crate::text::{chars_of, decimal, push_decimal, push_str, string_of};

verus! {

/// The base a numeric literal is written in.
#[derive(Clone, Copy, Debug, PartialEq, Eq, Structural)]
pub enum Base {
    Hex,
    Dec,
    Bin,
}

/// The base of a literal's spelling: `$` and a trailing `h` are hexadecimal,
/// `%` and a trailing `b` binary, a trailing `d` decimal; a trailing `o` or a
/// leading-zero spelling is octal, which is none of the three.
pub open spec fn base_spelled(t: Seq<char>) -> Option<Base> {
    if t.len() > 0 && t[0] == '$' {
        Some(Base::Hex)
    } else if t.len() > 0 && t[0] == '%' {
        Some(Base::Bin)
    } else if t.len() > 0 && t.last() == 'h' {
        Some(Base::Hex)
    } else if t.len() > 0 && t.last() == 'b' {
        Some(Base::Bin)
    } else if t.len() > 0 && t.last() == 'd' {
        Some(Base::Dec)
    } else if t.len() > 0 && t.last() == 'o' {
        None
    } else if t.len() > 1 && t[0] == '0' {
        None
    } else {
        Some(Base::Dec)
    }
}

/// The base a numeric literal is written in, or `None` for octal (which is
/// not one of the offered targets, so every conversion is shown).
pub fn base_of(text: &str) -> (r: Option<Base>)
    ensures
        r == base_spelled(text@),
{
    let t = chars_of(text);
    let n = t.len();
    if n > 0 && t[0] == '$' {
        Some(Base::Hex)
    } else if n > 0 && t[0] == '%' {
        Some(Base::Bin)
    } else if n > 0 && t[n - 1] == 'h' {
        Some(Base::Hex)
    } else if n > 0 && t[n - 1] == 'b' {
        Some(Base::Bin)
    } else if n > 0 && t[n - 1] == 'd' {
        Some(Base::Dec)
    } else if n > 0 && t[n - 1] == 'o' {
        None
    } else if n > 1 && t[0] == '0' {
        None
    } else {
        Some(Base::Dec)
    }
}

/// The binary digits of `v`, without leading zeros.
pub open spec fn bin_all(v: nat) -> Seq<char>
    decreases v,
{
    if v < 2 {
        seq![if v == 0 { '0' } else { '1' }]
    } else {
        bin_all(v / 2).push(if v % 2 == 0 { '0' } else { '1' })
    }
}

/// Append every binary digit of `v`.
fn push_bin_all(out: &mut Vec<char>, v: u64)
    ensures
        final(out)@ == old(out)@ + bin_all(v as nat),
    decreases v,
{
    if v >= 2 {
        push_bin_all(out, v / 2);
    }
    out.push(if v % 2 == 0 { '0' } else { '1' });
    proof {
        if v < 2 {
            assert(v % 2 == v);
        }
        assert(final(out)@ =~= old(out)@ + bin_all(v as nat)) by {
            if v >= 2 {
                assert(bin_all(v as nat) == bin_all((v / 2) as nat).push(
                    if v % 2 == 0 { '0' } else { '1' },
                ));
            }
        }
    }
}

/// One offered rewrite of a literal: the action's title and the text that
/// replaces the literal.
#[derive(Debug)]
pub struct Conversion {
    pub title: String,
    pub new_text: String,
}

/// A conversion as plain text: its title and its replacement.
pub open spec fn conversion_view(c: Conversion) -> (Seq<char>, Seq<char>) {
    (c.title@, c.new_text@)
}

/// A conversion offer as plain text.
pub open spec fn offer(label: Seq<char>, formatted: Seq<char>) -> (Seq<char>, Seq<char>) {
    ("Convert to "@ + label + " ("@ + formatted + ")"@, formatted)
}

/// The offers for a literal: one per base other than its own, in the order
/// hexadecimal, decimal, binary; none unless the text is a literal of a
/// non-negative value.
pub open spec fn conversions(t: Seq<char>) -> Seq<(Seq<char>, Seq<char>)> {
    match number_value(t) {
        Some(v) => if v < 0 {
            Seq::empty()
        } else {
            let cur = base_spelled(t);
            let hex = if cur == Some(Base::Hex) {
                Seq::empty()
            } else {
                seq![offer("hexadecimal"@, seq!['$'] + hex_all(v as nat))]
            };
            let dec = if cur == Some(Base::Dec) {
                Seq::empty()
            } else {
                seq![offer("decimal"@, decimal(v as nat))]
            };
            let bin = if cur == Some(Base::Bin) {
                Seq::empty()
            } else {
                seq![offer("binary"@, seq!['%'] + bin_all(v as nat))]
            };
            hex + dec + bin
        },
        None => Seq::empty(),
    }
}

/// The conversion titled for `label` that writes `formatted`.
fn make_offer(label: &str, formatted: Vec<char>) -> (r: Conversion)
    ensures
        conversion_view(r) == offer(label@, formatted@),
{
    let mut title: Vec<char> = Vec::new();
    push_str(&mut title, "Convert to ");
    push_str(&mut title, label);
    push_str(&mut title, " (");
    crate::text::push_all(&mut title, &formatted);
    push_str(&mut title, ")");
    assert(title@ =~= "Convert to "@ + label@ + " ("@ + formatted@ + ")"@);
    Conversion { title: string_of(&title), new_text: string_of(&formatted) }
}

/// Base-conversion offers for the numeric literal `text`: one per base other
/// than the one it is written in. None when `text` is not a literal or its
/// value is negative.
pub fn number_conversions(text: &str) -> (r: Vec<Conversion>)
    ensures
        r@.map_values(|c: Conversion| conversion_view(c)) == conversions(text@),
{
    let mut out: Vec<Conversion> = Vec::new();
    let value = match parse_number(text) {
        Some(v) => v,
        None => {
            assert(out@.map_values(|c: Conversion| conversion_view(c)) =~= conversions(text@));
            return out;
        },
    };
    if value < 0 {
        assert(out@.map_values(|c: Conversion| conversion_view(c)) =~= conversions(text@));
        return out;
    }
    let v = value as u64;
    let cur = base_of(text);
    let ghost hex = seq![offer("hexadecimal"@, seq!['$'] + hex_all(v as nat))];
    let ghost dec = seq![offer("decimal"@, decimal(v as nat))];
    let ghost bin = seq![offer("binary"@, seq!['%'] + bin_all(v as nat))];
    if cur != Some(Base::Hex) {
        let mut f: Vec<char> = Vec::new();
        f.push('$');
        push_hex_all(&mut f, v);
        assert(f@ =~= seq!['$'] + hex_all(v as nat));
        out.push(make_offer("hexadecimal", f));
    }
    let ghost after_hex = out@.map_values(|c: Conversion| conversion_view(c));
    assert(after_hex =~= if cur == Some(Base::Hex) { Seq::empty() } else { hex });
    if cur != Some(Base::Dec) {
        let mut f: Vec<char> = Vec::new();
        push_decimal(&mut f, v);
        assert(f@ =~= decimal(v as nat));
        out.push(make_offer("decimal", f));
    }
    let ghost after_dec = out@.map_values(|c: Conversion| conversion_view(c));
    assert(after_dec =~= after_hex + if cur == Some(Base::Dec) { Seq::empty() } else { dec });
    if cur != Some(Base::Bin) {
        let mut f: Vec<char> = Vec::new();
        f.push('%');
        push_bin_all(&mut f, v);
        assert(f@ =~= seq!['%'] + bin_all(v as nat));
        out.push(make_offer("binary", f));
    }
    assert(out@.map_values(|c: Conversion| conversion_view(c)) =~= after_dec + if cur == Some(
        Base::Bin,
    ) {
        Seq::empty()
    } else {
        bin
    });
    out
}

} // verus!
