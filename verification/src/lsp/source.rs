//! Helpers for assembly buffers that read only the text: directive hovers,
//! include targets, macro names, `JSR` targets, identifiers, and the
//! spelling of symbol values.

use vstd::prelude::*;
use crate::isa::{directives, spec_directives};
use crate::script::host::{hex_char, hex_digit, hex_low};
use crate::text::{
    ascii_alnum, ascii_alpha, chars_of, ci_eq, eq_ignore_ascii_case, find_at, find_ch, find_ch_from,
    find_char, find_from, is_alphanumeric, is_ascii_alnum, is_ascii_alpha, is_whitespace, is_ws,
    lemma_find_char, lines, lines_of, path_extension, extension_of, lower_seq, push_all, push_str, string_of, sub_chars,
    to_lower_vec, trim, trim_start, trim_start_vec, trim_vec, unicode_alphanumeric, vviews,
};
use crate::lsp::sviews;

verus! {

/// The values `f` gives the lines `ls`, in order, leaving out those it gives
/// nothing for.
pub open spec fn filter_lines(ls: Seq<Seq<char>>, f: spec_fn(Seq<char>) -> Option<Seq<char>>) -> Seq<Seq<char>>
    decreases ls.len(),
{
    if ls.len() == 0 {
        Seq::empty()
    } else {
        match f(ls.last()) {
            Some(x) => filter_lines(ls.drop_last(), f).push(x),
            None => filter_lines(ls.drop_last(), f),
        }
    }
}

// ---------------------------------------------------------------------------
// Symbol values
// ---------------------------------------------------------------------------

/// The upper-case hex digits of `v`, without leading zeros.
pub open spec fn hex_all(v: nat) -> Seq<char>
    decreases v,
{
    if v < 16 {
        seq![hex_digit(v as int)]
    } else {
        hex_all(v / 16).push(hex_digit((v % 16) as int))
    }
}

/// A symbol value as `$`-prefixed hex: two digits for a byte, four for a
/// word, and otherwise every digit of its 64-bit pattern.
pub open spec fn hex_spelling(value: i64) -> Seq<char> {
    if 0 <= value <= 0xFF {
        seq!['$'] + hex_low(value as nat, 2)
    } else if 0 <= value <= 0xFFFF {
        seq!['$'] + hex_low(value as nat, 4)
    } else {
        seq!['$'] + hex_all((value as u64) as nat)
    }
}

/// The lowest `n` hex digits of `v`.
pub(crate) fn push_hex_low(out: &mut Vec<char>, v: u64, n: u64)
    requires
        n <= 16,
    ensures
        final(out)@ == old(out)@ + hex_low(v as nat, n as nat),
    decreases n,
{
    if n > 0 {
        push_hex_low(out, v / 16, n - 1);
        out.push(hex_char(v % 16));
    }
}

/// Every hex digit of `v`.
pub(crate) fn push_hex_all(out: &mut Vec<char>, v: u64)
    ensures
        final(out)@ == old(out)@ + hex_all(v as nat),
    decreases v,
{
    if v >= 16 {
        push_hex_all(out, v / 16);
    }
    out.push(hex_char(v % 16));
    proof {
        if v < 16 {
            assert(v % 16 == v);
        }
    }
}

/// Format a symbol value as `$`-prefixed hex, sized to a byte or a word.
pub fn format_hex(value: i64) -> (r: String)
    ensures
        r@ == hex_spelling(value),
{
    let mut out = vec!['$'];
    if 0 <= value && value <= 0xFF {
        push_hex_low(&mut out, value as u64, 2);
    } else if 0 <= value && value <= 0xFFFF {
        push_hex_low(&mut out, value as u64, 4);
    } else {
        push_hex_all(&mut out, value as u64);
    }
    string_of(&out)
}

// ---------------------------------------------------------------------------
// Directives and identifiers
// ---------------------------------------------------------------------------

/// The pieces of `s` between occurrences of `/` or space, from `i` on, the
/// current piece having begun at `start`.
pub open spec fn group_pieces(s: Seq<char>, start: int, i: int) -> Seq<Seq<char>>
    decreases s.len() - i,
{
    if i >= s.len() || i < start || start < 0 {
        seq![s.subrange(start, s.len() as int)]
    } else if s[i] == '/' || s[i] == ' ' {
        seq![s.subrange(start, i)] + group_pieces(s, i + 1, i + 1)
    } else {
        group_pieces(s, start, i + 1)
    }
}

/// There is always at least the last piece.
proof fn lemma_group_pieces(s: Seq<char>, start: int, i: int)
    ensures
        group_pieces(s, start, i).len() >= 1,
    decreases s.len() - i,
{
    if i >= s.len() || i < start || start < 0 {
    } else if s[i] == '/' || s[i] == ' ' {
        lemma_group_pieces(s, i + 1, i + 1);
    } else {
        lemma_group_pieces(s, start, i + 1);
    }
}

/// Whether a catalog group's spelling lists `name` (ignoring ASCII case).
pub open spec fn group_lists(group: Seq<char>, name: Seq<char>) -> bool {
    exists|k: int|
        0 <= k < group_pieces(group, 0, 0).len() && ci_eq(
            trim(#[trigger] group_pieces(group, 0, 0)[k]),
            name,
        )
}

/// The description of the first catalog group from `i` on that lists `name`.
pub open spec fn directive_desc(ds: Seq<(&'static str, &'static str)>, name: Seq<char>, i: int) -> Option<Seq<char>>
    decreases ds.len() - i,
{
    if i < 0 || i >= ds.len() {
        None
    } else if group_lists(ds[i].0@, name) {
        Some(ds[i].1@)
    } else {
        directive_desc(ds, name, i + 1)
    }
}

/// The hover of a directive: its spelling, then the description of its group.
pub open spec fn directive_md(name: Seq<char>) -> Option<Seq<char>> {
    match directive_desc(spec_directives(), name, 0) {
        Some(d) => Some("**"@ + name + "** (directive)\n\n"@ + d),
        None => None,
    }
}

/// Whether some piece of `group` (split at `/` and spaces, trimmed) equals
/// `name` ignoring ASCII case.
fn lists(group: &str, name: &[char]) -> (r: bool)
    ensures
        r == group_lists(group@, name@),
{
    let g = chars_of(group);
    let ghost all = group_pieces(g@, 0, 0);
    let mut start: usize = 0;
    let mut i: usize = 0;
    let ghost mut k: int = 0;
    while i < g.len()
        invariant
            start <= i <= g.len(),
            g@ == group@,
            0 <= k <= all.len(),
            all == group_pieces(g@, 0, 0),
            all.skip(k) == group_pieces(g@, start as int, i as int),
            forall|j: int| 0 <= j < k ==> !ci_eq(trim(#[trigger] all[j]), name@),
        decreases g.len() - i,
    {
        proof {
            lemma_group_pieces(g@, start as int, i as int);
        }
        if g[i] == '/' || g[i] == ' ' {
            let piece = sub_chars(&g, start, i);
            let t = trim_vec(&piece);
            assert(all.skip(k)[0] == piece@);
            assert(all[k] == piece@);
            if eq_ignore_ascii_case(&t, name) {
                return true;
            }
            assert(all.skip(k).drop_first() =~= all.skip(k + 1));
            proof {
                k = k + 1;
            }
            start = i + 1;
        }
        i += 1;
    }
    let piece = sub_chars(&g, start, g.len());
    let t = trim_vec(&piece);
    proof {
        lemma_group_pieces(g@, start as int, i as int);
    }
    assert(all.skip(k) == seq![piece@]);
    assert(all.skip(k).len() == 1);
    assert(all.skip(k)[0] == all[k]);
    assert(all[k] == piece@);
    if eq_ignore_ascii_case(&t, name) {
        return true;
    }
    assert forall|j: int| 0 <= j < all.len() implies !ci_eq(trim(#[trigger] all[j]), name@) by {
        if j >= k {
            assert(j == k);
        }
    }
    false
}

/// Hover markdown for a directive: its spelling and the description of the
/// catalog group it belongs to.
pub fn directive_hover(name: &str) -> (r: Option<String>)
    ensures
        r matches Some(s) ==> directive_md(name@) == Some(s@),
        r is None ==> directive_md(name@) is None,
{
    let ds = directives();
    let n = chars_of(name);
    let mut i: usize = 0;
    while i < ds.len()
        invariant
            i <= ds.len(),
            ds@ == spec_directives(),
            n@ == name@,
            directive_desc(ds@, name@, i as int) == directive_desc(ds@, name@, 0),
        decreases ds.len() - i,
    {
        if lists(ds[i].0, &n) {
            let mut v = chars_of("**");
            push_all(&mut v, &n);
            push_str(&mut v, "** (directive)\n\n");
            push_str(&mut v, ds[i].1);
            return Some(string_of(&v));
        }
        i += 1;
    }
    None
}

/// The directive word of a trimmed line, lower-cased and without its dot:
/// the ASCII letters, digits and underscores right after a leading `.`.
pub open spec fn directive_word(t: Seq<char>) -> Option<Seq<char>> {
    if t.len() > 0 && t[0] == '.' {
        let n = ascii_word_end(t, 1);
        if n == 1 {
            None
        } else {
            Some(lower_seq(t.subrange(1, n)))
        }
    } else {
        None
    }
}

/// Where the run of ASCII letters, digits and underscores from `i` ends.
pub open spec fn ascii_word_end(t: Seq<char>, i: int) -> int
    decreases t.len() - i,
{
    if 0 <= i < t.len() && (is_ascii_alnum(t[i]) || t[i] == '_') {
        ascii_word_end(t, i + 1)
    } else {
        i
    }
}

/// The directive word on a trimmed line, e.g. `.ifdef FOO` gives `ifdef`.
pub fn leading_directive(trimmed: &str) -> (r: Option<String>)
    ensures
        r matches Some(s) ==> directive_word(trimmed@) == Some(s@),
        r is None ==> directive_word(trimmed@) is None,
{
    let t = chars_of(trimmed);
    if t.len() == 0 || t[0] != '.' {
        return None;
    }
    let mut e: usize = 1;
    while e < t.len() && (ascii_alnum(t[e]) || t[e] == '_')
        invariant
            1 <= e <= t.len(),
            ascii_word_end(t@, e as int) == ascii_word_end(t@, 1),
        decreases t.len() - e,
    {
        e += 1;
    }
    if e == 1 {
        return None;
    }
    let word = sub_chars(&t, 1, e);
    Some(string_of(&to_lower_vec(&word)))
}

/// Whether `s` is an identifier: an ASCII letter or underscore, then ASCII
/// letters, digits and underscores.
pub open spec fn identifier(s: Seq<char>) -> bool {
    s.len() > 0 && (is_ascii_alpha(s[0]) || s[0] == '_') && forall|i: int|
        1 <= i < s.len() ==> (is_ascii_alnum(#[trigger] s[i]) || s[i] == '_')
}

/// Whether `s` is a legal identifier (for validating a rename target).
pub fn is_identifier(s: &str) -> (r: bool)
    ensures
        r == identifier(s@),
{
    let t = chars_of(s);
    if t.len() == 0 || !(ascii_alpha(t[0]) || t[0] == '_') {
        return false;
    }
    let mut i: usize = 1;
    while i < t.len()
        invariant
            1 <= i <= t.len(),
            t@ == s@,
            is_ascii_alpha(t@[0]) || t@[0] == '_',
            forall|k: int| 1 <= k < i ==> (is_ascii_alnum(#[trigger] t@[k]) || t@[k] == '_'),
        decreases t.len() - i,
    {
        if !(ascii_alnum(t[i]) || t[i] == '_') {
            assert(!(is_ascii_alnum(t@[i as int]) || t@[i as int] == '_'));
            return false;
        }
        i += 1;
    }
    true
}

// ---------------------------------------------------------------------------
// Lines of assembly
// ---------------------------------------------------------------------------

/// The text between the first pair of backticks in `m`.
pub open spec fn backticked(m: Seq<char>) -> Option<Seq<char>> {
    match find_char(m, '`') {
        None => None,
        Some(a) => match find_from(m, seq!['`'], a + 1) {
            None => None,
            Some(b) => Some(m.subrange(a + 1, b)),
        },
    }
}

/// The text between the first pair of backticks in `message`, if any.
pub fn quoted_subject(message: &str) -> (r: Option<String>)
    ensures
        r matches Some(s) ==> backticked(message@) == Some(s@),
        r is None ==> backticked(message@) is None,
{
    let m = chars_of(message);
    let a = match find_ch(&m, '`') {
        Some(a) => a,
        None => return None,
    };
    proof {
        lemma_find_char(m@, '`');
    }
    let b = match find_ch_from(&m, '`', a + 1) {
        Some(b) => b,
        None => return None,
    };
    Some(string_of(&sub_chars(&m, a + 1, b)))
}

/// The target of an `.include` or `.inestrn` line: after the directive and
/// at least one white-space character, the text between the first pair of
/// double quotes.
pub open spec fn include_target(line: Seq<char>) -> Option<Seq<char>> {
    let t = trim_start(line);
    if ".include"@.is_prefix_of(t) || ".inestrn"@.is_prefix_of(t) {
        let r = t.skip(8);
        if r.len() > 0 && is_ws(r[0]) {
            match find_char(r, '"') {
                None => None,
                Some(q) => match find_from(r, seq!['"'], q + 1) {
                    None => None,
                    Some(e) => Some(r.subrange(q + 1, e)),
                },
            }
        } else {
            None
        }
    } else {
        None
    }
}

/// Whether `t` starts with the 8-character directive `d`.
fn starts_with8(t: &[char], d: &str) -> (r: bool)
    ensures
        r == d@.is_prefix_of(t@),
{
    let p = chars_of(d);
    crate::text::starts_with(t, &p)
}

/// The include target on one line.
fn include_target_of(line: &[char]) -> (r: Option<Vec<char>>)
    ensures
        r matches Some(v) ==> include_target(line@) == Some(v@),
        r is None ==> include_target(line@) is None,
{
    let t = trim_start_vec(line);
    proof {
        reveal_strlit(".include");
        reveal_strlit(".inestrn");
    }
    if !(starts_with8(&t, ".include") || starts_with8(&t, ".inestrn")) {
        return None;
    }
    assert(".include"@.len() == 8 && ".inestrn"@.len() == 8);
    let r = sub_chars(&t, 8, t.len());
    assert(r@ =~= t@.skip(8));
    if r.len() == 0 || !is_whitespace(r[0]) {
        return None;
    }
    let q = match find_ch(&r, '"') {
        Some(q) => q,
        None => return None,
    };
    proof {
        lemma_find_char(r@, '"');
    }
    let e = match find_ch_from(&r, '"', q + 1) {
        Some(e) => e,
        None => return None,
    };
    Some(sub_chars(&r, q + 1, e))
}

/// The `.include` and `.inestrn` targets in a source file, as written.
pub fn include_targets(text: &str) -> (r: Vec<String>)
    ensures
        sviews(r@) == filter_lines(lines(text@), |l: Seq<char>| include_target(l)),
{
    let t = chars_of(text);
    let ls = lines_of(&t);
    let ghost all = vviews(ls@);
    let ghost f = |l: Seq<char>| include_target(l);
    let mut out: Vec<String> = Vec::new();
    let mut i: usize = 0;
    while i < ls.len()
        invariant
            i <= ls.len(),
            all == vviews(ls@),
            f == (|l: Seq<char>| include_target(l)),
            sviews(out@) == filter_lines(all.take(i as int), f),
        decreases ls.len() - i,
    {
        assert(all.take(i + 1).drop_last() =~= all.take(i as int));
        assert(all.take(i + 1).last() == ls@[i as int]@);
        let ghost prev = out@;
        match include_target_of(&ls[i]) {
            Some(v) => {
                let x = string_of(&v);
                out.push(x);
                assert(sviews(out@) =~= sviews(prev).push(x@));
            },
            None => {},
        }
        i += 1;
    }
    assert(all.take(ls.len() as int) =~= all);
    out
}

/// Where the run of non-white-space characters of `t` from `i` ends.
pub open spec fn token_end(t: Seq<char>, i: int) -> int
    decreases t.len() - i,
{
    if 0 <= i < t.len() && !is_ws(t[i]) {
        token_end(t, i + 1)
    } else {
        i
    }
}

/// The macro a `.macrodef NAME` line defines: the second white-space
/// separated word, when the first is `.macrodef`.
pub open spec fn macrodef_name(line: Seq<char>) -> Option<Seq<char>> {
    let t = trim_start(line);
    let n = token_end(t, 0);
    if n > 0 && t.take(n) == ".macrodef"@ {
        let r = trim_start(t.skip(n));
        if r.len() == 0 {
            None
        } else {
            Some(r.take(token_end(r, 0)))
        }
    } else {
        None
    }
}

/// `token_end`, computed.
fn end_of_token(t: &[char], i: usize) -> (r: usize)
    requires
        i <= t.len(),
    ensures
        r == token_end(t@, i as int),
        i <= r <= t.len(),
{
    let mut e = i;
    while e < t.len() && !is_whitespace(t[e])
        invariant
            i <= e <= t.len(),
            token_end(t@, e as int) == token_end(t@, i as int),
        decreases t.len() - e,
    {
        e += 1;
    }
    e
}

/// The macro defined on one line.
fn macrodef_of(line: &[char]) -> (r: Option<Vec<char>>)
    ensures
        r matches Some(v) ==> macrodef_name(line@) == Some(v@),
        r is None ==> macrodef_name(line@) is None,
{
    let t = trim_start_vec(line);
    let n = end_of_token(&t, 0);
    let first = sub_chars(&t, 0, n);
    assert(first@ =~= t@.take(n as int));
    let kw = chars_of(".macrodef");
    if n == 0 || !crate::text::chars_eq(&first, &kw) {
        return None;
    }
    let rest = sub_chars(&t, n, t.len());
    assert(rest@ =~= t@.skip(n as int));
    let r = trim_start_vec(&rest);
    if r.len() == 0 {
        return None;
    }
    let m = end_of_token(&r, 0);
    let name = sub_chars(&r, 0, m);
    assert(name@ =~= r@.take(m as int));
    Some(name)
}

/// Macro names defined in the buffer by `.macrodef NAME` lines.
pub fn macro_names(text: &str) -> (r: Vec<String>)
    ensures
        sviews(r@) == filter_lines(lines(text@), |l: Seq<char>| macrodef_name(l)),
{
    let t = chars_of(text);
    let ls = lines_of(&t);
    let ghost all = vviews(ls@);
    let ghost f = |l: Seq<char>| macrodef_name(l);
    let mut out: Vec<String> = Vec::new();
    let mut i: usize = 0;
    while i < ls.len()
        invariant
            i <= ls.len(),
            all == vviews(ls@),
            f == (|l: Seq<char>| macrodef_name(l)),
            sviews(out@) == filter_lines(all.take(i as int), f),
        decreases ls.len() - i,
    {
        assert(all.take(i + 1).drop_last() =~= all.take(i as int));
        assert(all.take(i + 1).last() == ls@[i as int]@);
        let ghost prev = out@;
        match macrodef_of(&ls[i]) {
            Some(v) => {
                let x = string_of(&v);
                out.push(x);
                assert(sviews(out@) =~= sviews(prev).push(x@));
            },
            None => {},
        }
        i += 1;
    }
    assert(all.take(ls.len() as int) =~= all);
    out
}

/// A character a `JSR` target may hold.
pub open spec fn target_char(c: char) -> bool {
    unicode_alphanumeric(c) || c == '_' || c == '.'
}

/// The first white-space character of `s` from `i` on.
pub open spec fn first_ws(s: Seq<char>, i: int) -> Option<int>
    decreases s.len() - i,
{
    if i < 0 || i >= s.len() {
        None
    } else if is_ws(s[i]) {
        Some(i)
    } else {
        first_ws(s, i + 1)
    }
}

/// The label a line calls with a direct `JSR`: the code before any `;`,
/// trimmed, split at its first white space into a mnemonic that is `jsr` in
/// any case and an operand that, trimmed, is a non-empty run of letters,
/// digits, `_` and `.`.
pub open spec fn jsr_label(line: Seq<char>) -> Option<Seq<char>> {
    let code = trim(before_comment(line));
    match first_ws(code, 0) {
        None => None,
        Some(k) => if ci_eq(code.take(k), "jsr"@) && jsr_operand(trim(code.skip(k + 1))) {
            Some(trim(code.skip(k + 1)))
        } else {
            None
        },
    }
}

/// A line up to its first `;`.
pub open spec fn before_comment(line: Seq<char>) -> Seq<char> {
    match find_char(line, ';') {
        Some(i) => line.take(i),
        None => line,
    }
}

/// Whether `t` can be a `JSR` target: non-empty, and every character a
/// letter, digit, `_` or `.`.
pub open spec fn jsr_operand(t: Seq<char>) -> bool {
    t.len() > 0 && forall|i: int| 0 <= i < t.len() ==> target_char(#[trigger] t[i])
}

/// Whether every character of `t` may stand in a `JSR` target.
fn all_target_chars(t: &[char]) -> (r: bool)
    ensures
        r == forall|i: int| 0 <= i < t@.len() ==> target_char(#[trigger] t@[i]),
{
    let mut i: usize = 0;
    while i < t.len()
        invariant
            i <= t.len(),
            forall|j: int| 0 <= j < i ==> target_char(#[trigger] t@[j]),
        decreases t.len() - i,
    {
        let c = t[i];
        if !(is_alphanumeric(c) || c == '_' || c == '.') {
            assert(!target_char(t@[i as int]));
            return false;
        }
        i += 1;
    }
    true
}

/// The label a line calls with a direct `JSR`, or `None` for anything else,
/// an indirect `JSR ($…)` included.
pub fn jsr_target(line: &str) -> (r: Option<String>)
    ensures
        r matches Some(s) ==> jsr_label(line@) == Some(s@),
        r is None ==> jsr_label(line@) is None,
{
    let l = chars_of(line);
    let semi = find_ch(&l, ';');
    proof {
        lemma_find_char(l@, ';');
    }
    let before = match semi {
        Some(i) => sub_chars(&l, 0, i),
        None => l.clone(),
    };
    assert(before@ =~= before_comment(l@));
    let code = trim_vec(&before);
    let mut k: usize = 0;
    while k < code.len() && !is_whitespace(code[k])
        invariant
            k <= code.len(),
            first_ws(code@, k as int) == first_ws(code@, 0),
        decreases code.len() - k,
    {
        k += 1;
    }
    if k == code.len() {
        return None;
    }
    let mnemonic = sub_chars(&code, 0, k);
    assert(mnemonic@ =~= code@.take(k as int));
    let jsr = chars_of("jsr");
    if !eq_ignore_ascii_case(&mnemonic, &jsr) {
        return None;
    }
    let operand = sub_chars(&code, k + 1, code.len());
    assert(operand@ =~= code@.skip(k + 1));
    let target = trim_vec(&operand);
    if target.len() == 0 {
        return None;
    }
    assert(first_ws(code@, 0) == Some(k as int));
    assert(ci_eq(code@.take(k as int), "jsr"@));
    assert(target@ == trim(code@.skip(k + 1)));
    if !all_target_chars(&target) {
        return None;
    }
    Some(string_of(&target))
}

/// The byte offset in `b` where the line after `n` line feeds starts, or the
/// length of `b` when there are fewer.
pub open spec fn line_start_in(b: Seq<u8>, n: nat, i: int) -> int
    decreases b.len() - i, n,
{
    if n == 0 || i < 0 || i >= b.len() {
        if n == 0 {
            i
        } else {
            b.len() as int
        }
    } else if b[i] == 10 {
        line_start_in(b, (n - 1) as nat, i + 1)
    } else {
        line_start_in(b, n, i + 1)
    }
}

/// The byte offset of 0-based line `line` in `text`.
pub fn line_start_byte(text: &str, line: usize) -> (r: usize)
    ensures
        r == line_start_in(vstd::utf8::encode_utf8(text@), line as nat, 0),
{
    let b = text.as_bytes();
    let mut n = line;
    let mut i: usize = 0;
    while n > 0 && i < b.len()
        invariant
            i <= b.len(),
            b@ == vstd::utf8::encode_utf8(text@),
            line_start_in(b@, n as nat, i as int) == line_start_in(b@, line as nat, 0),
        decreases b.len() - i,
    {
        if b[i] == 10 {
            n -= 1;
        }
        i += 1;
    }
    i
}

/// The UTF-16 length of `s`.
pub open spec fn utf16_count(s: Seq<char>) -> int
    decreases s.len(),
{
    if s.len() == 0 {
        0
    } else {
        utf16_count(s.drop_last()) + crate::lsp::utf16_width(s.last())
    }
}

/// The UTF-16 code-unit length of a string, as LSP measures positions.
pub fn utf16_len(s: &str) -> (r: u32)
    ensures
        r == utf16_count(s@) as u32,
{
    let t = chars_of(s);
    let mut n: u128 = 0;
    let mut i: usize = 0;
    while i < t.len()
        invariant
            i <= t.len(),
            n == utf16_count(t@.take(i as int)),
            n <= 2 * i,
        decreases t.len() - i,
    {
        assert(t@.take(i + 1).drop_last() =~= t@.take(i as int));
        if (t[i] as u32) >= 0x10000 {
            n = n + 2;
        } else {
            n = n + 1;
        }
        i += 1;
    }
    assert(t@.take(t.len() as int) =~= t@);
    n as u32
}

/// Whether `e` equals one of `xs`, ignoring ASCII case.
pub open spec fn ext_in(e: Seq<char>, xs: Seq<&'static str>) -> bool
    decreases xs.len(),
{
    xs.len() > 0 && (ci_eq(e, xs[0]@) || ext_in(e, xs.drop_first()))
}

/// Whether `name`'s extension is one of `exts` (ignoring ASCII case); every
/// name is accepted when there is no list.
pub open spec fn ext_allowed(name: Seq<char>, exts: Option<Seq<&'static str>>) -> bool {
    match exts {
        None => true,
        Some(xs) => match path_extension(name) {
            Some(e) => ext_in(e, xs),
            None => false,
        },
    }
}

/// Whether `name`'s extension is one a directive accepts. `None` accepts
/// every file.
pub fn extension_allowed(name: &str, exts: Option<&[&'static str]>) -> (r: bool)
    ensures
        r == ext_allowed(
            name@,
            match exts {
                Some(x) => Some(x@),
                None => None,
            },
        ),
{
    let xs = match exts {
        None => return true,
        Some(x) => x,
    };
    let e = match extension_of(name) {
        Some(e) => chars_of(e.as_str()),
        None => return false,
    };
    let mut k: usize = 0;
    assert(xs@.skip(0) =~= xs@);
    while k < xs.len()
        invariant
            k <= xs.len(),
            exts == Some(xs),
            path_extension(name@) == Some(e@),
            ext_in(e@, xs@.skip(k as int)) == ext_in(e@, xs@),
        decreases xs.len() - k,
    {
        let want = chars_of(xs[k]);
        assert(xs@.skip(k as int)[0] == xs@[k as int]);
        assert(xs@.skip(k as int).drop_first() =~= xs@.skip(k + 1));
        if eq_ignore_ascii_case(&e, &want) {
            return true;
        }
        k += 1;
    }
    false
}

} // verus!
