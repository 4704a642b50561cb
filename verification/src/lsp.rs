//! Editor support computed from text alone: hover documents for host-API
//! entries and script-local functions, signature help, numeric literals, and
//! the base64 encoding of hover images.
//!
//! Positions and ranges are plain values here; the language-server glue
//! converts them to and from the protocol's own types.

use vstd::prelude::*;
use crate::order::{canonical, key_view, key_views, sort_keys, KeyView, SortKey};
use crate::script_api::{
    availability_note, catalog, entry, lookup, named, ApiKind, ScriptApi, CATALOG_LEN,
    DOCS_BASE_URL,
};
use crate::text::{
    chars_of, digit_value, find, find_at, find_ch, find_ch_from, find_char, find_from,
    is_alphanumeric, is_ws, join_with, lemma_find_char, lemma_find_from, lines, lines_of, split_char, split_on, strip_leading, strip_leading_vec, strip_trailing,
    strip_trailing_vec, trim, trim_vec,
    parse_i64, push_all, push_decimal, push_str, decimal, str_eq, signed_value, starts_with_at, string_of, sub_chars, trim_start,
    trim_start_index, trim_start_vec, unicode_alphanumeric, vviews,
};

pub mod actions;
pub mod color;
pub mod expr;
pub mod folding;
pub mod includes;
pub mod mnemonic;
pub mod source;
pub mod symbols;
pub mod tokens;

verus! {

// ---------------------------------------------------------------------------
// Host-API hover
// ---------------------------------------------------------------------------

/// The hover document of one catalog entry: signature, summary, an
/// availability note when the entry is not in every build, and a link to the
/// section of the documentation that explains it.
pub open spec fn entry_md(e: ScriptApi) -> Seq<char> {
    let head = "**`"@ + e.signature@ + "`**\n\n"@ + e.summary@;
    let noted = match availability_note(e.availability) {
        Some(n) => head + "\n\n_"@ + n + "_"@,
        None => head,
    };
    noted + "\n\n[Extending docs]("@ + DOCS_BASE_URL@ + "extending.html#"@ + e.anchor@ + ")"@
}

/// The separator between the documents of entries that share a name.
pub open spec fn hover_rule() -> Seq<char> {
    "\n\n---\n\n"@
}

/// The hover document of every entry in `es`, in order.
pub open spec fn entry_mds(es: Seq<ScriptApi>) -> Seq<Seq<char>> {
    es.map_values(|e: ScriptApi| entry_md(e))
}

/// Hover markdown for one catalog entry.
pub fn entry_markdown(entry: &ScriptApi) -> (r: String)
    ensures
        r@ == entry_md(*entry),
{
    let mut v: Vec<char> = Vec::new();
    push_str(&mut v, "**`");
    push_str(&mut v, entry.signature);
    push_str(&mut v, "`**\n\n");
    push_str(&mut v, entry.summary);
    match entry.availability.note() {
        Some(n) => {
            push_str(&mut v, "\n\n_");
            push_str(&mut v, n);
            push_str(&mut v, "_");
        },
        None => {},
    }
    push_str(&mut v, "\n\n[Extending docs](");
    let url = entry.docs_url();
    push_str(&mut v, url.as_str());
    push_str(&mut v, ")");
    string_of(&v)
}

/// Hover markdown for the host-API entries named `name`: every such entry's
/// document, separated by a rule. `None` when the catalog has no entry of
/// that name.
pub fn hover(name: &str) -> (r: Option<String>)
    ensures
        r is None <==> named(catalog(), name@, false).len() == 0,
        r matches Some(s) ==> s@ == join_with(
            entry_mds(named(catalog(), name@, false)),
            hover_rule(),
        ),
{
    let entries = lookup(name);
    if entries.len() == 0 {
        return None;
    }
    let ghost mds = entry_mds(entries@);
    let first = entry_markdown(&entries[0]);
    let mut v = chars_of(first.as_str());
    assert(mds.take(1) =~= seq![mds[0]]);
    let mut i: usize = 1;
    while i < entries.len()
        invariant
            1 <= i <= entries.len(),
            mds == entry_mds(entries@),
            v@ == join_with(mds.take(i as int), hover_rule()),
        decreases entries.len() - i,
    {
        push_str(&mut v, "\n\n---\n\n");
        let md = entry_markdown(&entries[i]);
        push_str(&mut v, md.as_str());
        assert(mds.take(i + 1).drop_last() =~= mds.take(i as int));
        i += 1;
    }
    assert(mds.take(entries.len() as int) =~= mds);
    Some(string_of(&v))
}

// ---------------------------------------------------------------------------
// Base64
// ---------------------------------------------------------------------------

/// The base64 digit for `d` in `0..64`.
pub open spec fn b64_digit(d: int) -> char {
    if d < 26 {
        (65 + d) as char
    } else if d < 52 {
        (97 + d - 26) as char
    } else if d < 62 {
        (48 + d - 52) as char
    } else if d == 62 {
        '+'
    } else {
        '/'
    }
}

/// The four characters one group of one to three bytes encodes to, padded
/// with `=` when the group is short.
pub open spec fn b64_group(c: Seq<u8>) -> Seq<char> {
    let b0 = c[0] as int;
    let b1 = if c.len() > 1 {
        c[1] as int
    } else {
        0
    };
    let b2 = if c.len() > 2 {
        c[2] as int
    } else {
        0
    };
    let g = b0 * 65536 + b1 * 256 + b2;
    seq![
        b64_digit(g / 262144),
        b64_digit((g / 4096) % 64),
        if c.len() > 1 {
            b64_digit((g / 64) % 64)
        } else {
            '='
        },
        if c.len() > 2 {
            b64_digit(g % 64)
        } else {
            '='
        },
    ]
}

/// Standard base64 (RFC 4648) of `data`, with padding.
pub open spec fn base64_of(data: Seq<u8>) -> Seq<char>
    decreases data.len(),
{
    if data.len() == 0 {
        Seq::empty()
    } else if data.len() <= 3 {
        b64_group(data)
    } else {
        b64_group(data.take(3)) + base64_of(data.skip(3))
    }
}

/// Every three bytes, and a final shorter group, become four characters.
pub proof fn lemma_base64_len(data: Seq<u8>)
    ensures
        base64_of(data).len() == 4 * ((data.len() + 2) / 3),
    decreases data.len(),
{
    if data.len() > 3 {
        lemma_base64_len(data.skip(3));
    }
}

/// The base64 digit for `d`.
fn b64_char(d: u32) -> (r: char)
    requires
        d < 64,
    ensures
        r == b64_digit(d as int),
{
    if d < 26 {
        ((65 + d) as u8) as char
    } else if d < 52 {
        ((97 + d - 26) as u8) as char
    } else if d < 62 {
        ((48 + d - 52) as u8) as char
    } else if d == 62 {
        '+'
    } else {
        '/'
    }
}

/// Standard base64 (RFC 4648) of `data`, padding included.
pub fn base64(data: &[u8]) -> (r: String)
    ensures
        r@ == base64_of(data@),
{
    let mut out: Vec<char> = Vec::new();
    let mut i: usize = 0;
    assert(data@.skip(0) =~= data@);
    while i < data.len()
        invariant
            i <= data.len(),
            out@ + base64_of(data@.skip(i as int)) == base64_of(data@),
        decreases data.len() - i,
    {
        let n: usize = if data.len() - i >= 3 {
            3
        } else {
            data.len() - i
        };
        let ghost rest = data@.skip(i as int);
        let ghost chunk = rest.take(n as int);
        let b0 = data[i] as u32;
        let b1: u32 = if n > 1 {
            data[i + 1] as u32
        } else {
            0
        };
        let b2: u32 = if n > 2 {
            data[i + 2] as u32
        } else {
            0
        };
        let g: u32 = b0 * 65536 + b1 * 256 + b2;
        assert(chunk[0] == data@[i as int]);
        assert(n > 1 ==> chunk[1] == data@[i + 1]);
        assert(n > 2 ==> chunk[2] == data@[i + 2]);
        assert(g / 262144 < 64) by (nonlinear_arith)
            requires
                g == b0 * 65536 + b1 * 256 + b2,
                b0 < 256,
                b1 < 256,
                b2 < 256,
        ;
        let ghost before = out@;
        out.push(b64_char(g / 262144));
        out.push(b64_char((g / 4096) % 64));
        if n > 1 {
            out.push(b64_char((g / 64) % 64));
        } else {
            out.push('=');
        }
        if n > 2 {
            out.push(b64_char(g % 64));
        } else {
            out.push('=');
        }
        assert(out@ =~= before + b64_group(chunk));
        if n < 3 {
            assert(chunk =~= rest);
            assert(data@.skip(i + n) =~= Seq::<u8>::empty());
        } else {
            assert(rest.skip(3) =~= data@.skip(i + 3));
        }
        i += n;
    }
    assert(data@.skip(i as int) =~= Seq::<u8>::empty());
    assert(out@ + Seq::<char>::empty() =~= out@);
    string_of(&out)
}

// ---------------------------------------------------------------------------
// Numeric literals
// ---------------------------------------------------------------------------

/// Whether every character of `d` is a digit of base `radix`.
pub open spec fn all_digits(d: Seq<char>, radix: int) -> bool {
    forall|i: int| 0 <= i < d.len() ==> digit_value(#[trigger] d[i]) < radix
}

/// Whether `t` is digits of base `radix` followed by the suffix letter `s`.
pub open spec fn suffixed(t: Seq<char>, s: char, radix: int) -> bool {
    t.len() >= 2 && t.last() == s && all_digits(t.drop_last(), radix)
}

/// Whether `t` is a leading-zero octal spelling: more than one character,
/// all of them `0` to `7`, the first a `0`.
pub open spec fn octal_spelling(t: Seq<char>) -> bool {
    t.len() > 1 && t[0] == '0' && forall|i: int| 0 <= i < t.len() ==> '0' <= #[trigger] t[i] <= '7'
}

/// A value read by `from_str_radix` for an `i64`, kept only when it fits.
pub open spec fn fits_i64(o: Option<int>) -> Option<int> {
    match o {
        Some(v) => if i64::MIN <= v <= i64::MAX {
            Some(v)
        } else {
            None
        },
        None => None,
    }
}

/// The value of a numeric literal in every spelling the assembler accepts:
/// `$` hexadecimal and `%` binary prefixes, `h`, `b`, `o` and `d` suffixes
/// after digits of their base, a leading-zero octal form, and decimal.
pub open spec fn number_value(t: Seq<char>) -> Option<int> {
    if t.len() > 0 && t[0] == '$' {
        fits_i64(signed_value(t.skip(1), 16))
    } else if t.len() > 0 && t[0] == '%' {
        fits_i64(signed_value(t.skip(1), 2))
    } else if suffixed(t, 'h', 16) {
        fits_i64(signed_value(t.drop_last(), 16))
    } else if suffixed(t, 'b', 2) {
        fits_i64(signed_value(t.drop_last(), 2))
    } else if suffixed(t, 'o', 8) {
        fits_i64(signed_value(t.drop_last(), 8))
    } else if suffixed(t, 'd', 10) {
        fits_i64(signed_value(t.drop_last(), 10))
    } else if octal_spelling(t) {
        fits_i64(signed_value(t, 8))
    } else {
        fits_i64(signed_value(t, 10))
    }
}

/// Read `d` in base `radix` as an `i64`.
fn read_i64(d: &[char], radix: u32) -> (r: Option<i64>)
    requires
        2 <= radix <= 36,
    ensures
        r == (match fits_i64(signed_value(d@, radix as int)) {
            Some(v) => Some(v as i64),
            None => None::<i64>,
        }),
{
    let s = string_of(d);
    match parse_i64(s.as_str(), radix) {
        Ok(v) => Some(v),
        Err(_) => None,
    }
}

/// Whether `t` is digits of base `radix` followed by `s`.
fn has_suffix(t: &[char], s: char, radix: u32) -> (r: bool)
    requires
        2 <= radix <= 36,
    ensures
        r == suffixed(t@, s, radix as int),
{
    if t.len() < 2 || t[t.len() - 1] != s {
        return false;
    }
    let mut i: usize = 0;
    while i < t.len() - 1
        invariant
            2 <= t.len(),
            i <= t.len() - 1,
            forall|k: int| 0 <= k < i ==> digit_value(#[trigger] t@[k]) < radix,
        decreases t.len() - 1 - i,
    {
        let c = t[i];
        let v: u32 = if '0' <= c && c <= '9' {
            c as u32 - 48
        } else if 'a' <= c && c <= 'z' {
            c as u32 - 87
        } else if 'A' <= c && c <= 'Z' {
            c as u32 - 55
        } else {
            36
        };
        if v >= radix {
            assert(t@.drop_last()[i as int] == t@[i as int]);
            return false;
        }
        i += 1;
    }
    assert forall|k: int| 0 <= k < t@.drop_last().len() implies digit_value(
        #[trigger] t@.drop_last()[k],
    ) < radix by {
        assert(t@.drop_last()[k] == t@[k]);
    }
    true
}

/// Whether `t` is a leading-zero octal spelling.
fn is_octal_spelling(t: &[char]) -> (r: bool)
    ensures
        r == octal_spelling(t@),
{
    if t.len() <= 1 || t[0] != '0' {
        return false;
    }
    let mut i: usize = 0;
    while i < t.len()
        invariant
            i <= t.len(),
            forall|k: int| 0 <= k < i ==> '0' <= #[trigger] t@[k] <= '7',
        decreases t.len() - i,
    {
        if t[i] < '0' || t[i] > '7' {
            return false;
        }
        i += 1;
    }
    true
}

/// Parse a numeric literal in any spelling the assembler accepts into its
/// value.
pub fn parse_number(text: &str) -> (r: Option<i64>)
    ensures
        r == (match number_value(text@) {
            Some(v) => Some(v as i64),
            None => None::<i64>,
        }),
{
    let t = chars_of(text);
    let n = t.len();
    if n > 0 && t[0] == '$' {
        let d = sub_chars(&t, 1, n);
        assert(d@ =~= t@.skip(1));
        return read_i64(&d, 16);
    }
    if n > 0 && t[0] == '%' {
        let d = sub_chars(&t, 1, n);
        assert(d@ =~= t@.skip(1));
        return read_i64(&d, 2);
    }
    if has_suffix(&t, 'h', 16) {
        let d = sub_chars(&t, 0, n - 1);
        assert(d@ =~= t@.drop_last());
        return read_i64(&d, 16);
    }
    if has_suffix(&t, 'b', 2) {
        let d = sub_chars(&t, 0, n - 1);
        assert(d@ =~= t@.drop_last());
        return read_i64(&d, 2);
    }
    if has_suffix(&t, 'o', 8) {
        let d = sub_chars(&t, 0, n - 1);
        assert(d@ =~= t@.drop_last());
        return read_i64(&d, 8);
    }
    if has_suffix(&t, 'd', 10) {
        let d = sub_chars(&t, 0, n - 1);
        assert(d@ =~= t@.drop_last());
        return read_i64(&d, 10);
    }
    if is_octal_spelling(&t) {
        return read_i64(&t, 8);
    }
    read_i64(&t, 10)
}

// ---------------------------------------------------------------------------
// Script-local functions
// ---------------------------------------------------------------------------

/// A character that can continue an identifier: Unicode alphanumeric or `_`.
pub open spec fn ident_char(c: char) -> bool {
    unicode_alphanumeric(c) || c == '_'
}

/// Whether `c` can continue an identifier.
pub fn is_ident(c: char) -> (r: bool)
    ensures
        r == ident_char(c),
{
    c == '_' || is_alphanumeric(c)
}

/// The number of leading white-space characters of `s`.
pub open spec fn leading_ws(s: Seq<char>) -> int {
    s.len() - trim_start(s).len()
}

/// The column of `name` in a `fn NAME` declaration on `line`: after the first
/// `fn ` and any white space, `name` must follow and not run on into a longer
/// identifier. `None` when the line declares no function of that name.
pub open spec fn fn_name_col(line: Seq<char>, name: Seq<char>) -> Option<int> {
    match find(line, "fn "@) {
        None => None,
        Some(i) => {
            let after = line.skip(i + 3);
            let rest = trim_start(after);
            if name.is_prefix_of(rest) && (rest.len() == name.len() || !ident_char(
                rest[name.len() as int],
            )) {
                Some(i + 3 + leading_ws(after))
            } else {
                None
            }
        },
    }
}

/// `trim_start(s)` is `s` from its first non-white-space character.
proof fn lemma_trim_start_skip(s: Seq<char>)
    ensures
        0 <= leading_ws(s) <= s.len(),
        trim_start(s) == s.skip(leading_ws(s)),
    decreases s.len(),
{
    if s.len() > 0 && is_ws(s[0]) {
        lemma_trim_start_skip(s.drop_first());
        assert(s.drop_first().skip(leading_ws(s.drop_first())) =~= s.skip(leading_ws(s)));
    } else {
        assert(s.skip(0) =~= s);
    }
}

/// The char column of `name` in a `fn NAME(` declaration on `line`, if that
/// line declares exactly that function.
pub fn fn_name_column(line: &[char], name: &[char]) -> (r: Option<usize>)
    ensures
        r == (match fn_name_col(line@, name@) {
            Some(c) => Some(c as usize),
            None => None::<usize>,
        }),
{
    let kw = chars_of("fn ");
    proof {
        reveal_strlit("fn ");
    }
    assert(kw@.len() == 3);
    let idx = match find_at(line, &kw, 0) {
        Some(i) => i,
        None => return None,
    };
    proof {
        lemma_find_from(line@, kw@, 0);
    }
    let after = sub_chars(line, idx + 3, line.len());
    assert(after@ =~= line@.skip(idx + 3));
    let skip = trim_start_index(&after);
    proof {
        lemma_trim_start_skip(after@);
    }
    let ghost rest = after@.skip(skip as int);
    if name.len() > after.len() - skip {
        return None;
    }
    if !starts_with_at(&after, skip, name) {
        assert(rest.subrange(0, name@.len() as int) =~= after@.subrange(
            skip as int,
            skip + name@.len(),
        ));
        return None;
    }
    assert(rest.subrange(0, name@.len() as int) =~= after@.subrange(
        skip as int,
        skip + name@.len(),
    ));
    let end = skip + name.len();
    if end < after.len() && is_ident(after[end]) {
        return None;
    }
    Some(idx + 3 + skip)
}

/// Text after the first occurrence of `name` in `line`, when there is one.
pub open spec fn after_name(line: Seq<char>, name: Seq<char>) -> Option<Seq<char>> {
    match find(line, name) {
        Some(j) => Some(line.skip(j + name.len())),
        None => None,
    }
}

/// `fn NAME(params)` read from the line that declares `name`: the text from
/// the first `(` after the first occurrence of `name` on that line through
/// the next `)`.
pub open spec fn sig_on_line(line: Seq<char>, name: Seq<char>) -> Option<Seq<char>> {
    match after_name(line, name) {
        None => None,
        Some(after) => match find_char(after, '(') {
            None => None,
            Some(o) => match find_from(after, seq![')'], o) {
                None => None,
                Some(c) => Some("fn "@ + name + after.subrange(o, c + 1)),
            },
        },
    }
}

/// The signature of `name` from the first of `ls` that declares it.
pub open spec fn sig_in_lines(ls: Seq<Seq<char>>, name: Seq<char>) -> Option<Seq<char>>
    decreases ls.len(),
{
    if ls.len() == 0 {
        None
    } else if fn_name_col(ls[0], name) is Some {
        sig_on_line(ls[0], name)
    } else {
        sig_in_lines(ls.drop_first(), name)
    }
}

/// The signature of `name` on one declaring line.
fn signature_on_line(line: &[char], name: &[char]) -> (r: Option<Vec<char>>)
    ensures
        r matches Some(v) ==> sig_on_line(line@, name@) == Some(v@),
        r is None ==> sig_on_line(line@, name@) is None,
{
    let j = match find_at(line, name, 0) {
        Some(j) => j,
        None => return None,
    };
    proof {
        lemma_find_from(line@, name@, 0);
    }
    let after = sub_chars(line, j + name.len(), line.len());
    assert(after@ =~= line@.skip(j + name@.len()));
    let o = match find_ch(&after, '(') {
        Some(o) => o,
        None => return None,
    };
    proof {
        lemma_find_char(after@, '(');
    }
    let c = match find_ch_from(&after, ')', o) {
        Some(c) => c,
        None => return None,
    };
    let mut v = chars_of("fn ");
    push_all(&mut v, name);
    let inner = sub_chars(&after, o, c + 1);
    push_all(&mut v, &inner);
    Some(v)
}

/// The signature `fn NAME(params)` of the script-local function `name`, read
/// from the source text.
pub fn fn_signature_text(text: &str, name: &str) -> (r: Option<String>)
    ensures
        r matches Some(s) ==> sig_in_lines(lines(text@), name@) == Some(s@),
        r is None ==> sig_in_lines(lines(text@), name@) is None,
{
    let t = chars_of(text);
    let n = chars_of(name);
    let ls = lines_of(&t);
    let ghost all = vviews(ls@);
    let mut i: usize = 0;
    assert(all.skip(0) =~= all);
    while i < ls.len()
        invariant
            i <= ls.len(),
            all == vviews(ls@),
            all == lines(text@),
            n@ == name@,
            sig_in_lines(all.skip(i as int), name@) == sig_in_lines(all, name@),
        decreases ls.len() - i,
    {
        assert(all.skip(i as int)[0] == ls@[i as int]@);
        if fn_name_column(&ls[i], &n).is_some() {
            return match signature_on_line(&ls[i], &n) {
                Some(v) => Some(string_of(&v)),
                None => None,
            };
        }
        assert(all.skip(i as int).drop_first() =~= all.skip(i + 1));
        i += 1;
    }
    None
}

/// The white-space-trimmed line starts a `//` comment.
pub open spec fn comment_line(l: Seq<char>) -> bool {
    let t = trim_start(l);
    t.len() >= 2 && t[0] == '/' && t[1] == '/'
}

/// `s` without every leading `//`.
pub open spec fn strip_slashes(s: Seq<char>) -> Seq<char>
    decreases s.len(),
{
    if s.len() >= 2 && s[0] == '/' && s[1] == '/' {
        strip_slashes(s.skip(2))
    } else {
        s
    }
}

/// The text of a comment line: its markers and the white space around them
/// removed.
pub open spec fn comment_body(l: Seq<char>) -> Seq<char> {
    trim_start(strip_slashes(trim_start(l)))
}

/// Where a declaring line names its function, the name fits on the line.
pub proof fn lemma_fn_name_col(line: Seq<char>, name: Seq<char>)
    ensures
        fn_name_col(line, name) matches Some(c) ==> 0 <= c && c + name.len() <= line.len(),
{
    if let Some(i) = find(line, "fn "@) {
        lemma_find_from(line, "fn "@, 0);
        reveal_strlit("fn ");
        lemma_trim_start_skip(line.skip(i + 3));
    }
}

/// `first_decl_from` finds a declaring line at or after where it starts.
pub proof fn lemma_first_decl(ls: Seq<Seq<char>>, name: Seq<char>, i: int)
    ensures
        first_decl_from(ls, name, i) matches Some(d) ==> i <= d < ls.len() && fn_name_col(
            ls[d],
            name,
        ) is Some,
    decreases ls.len() - i,
{
    if 0 <= i < ls.len() && fn_name_col(ls[i], name) is None {
        lemma_first_decl(ls, name, i + 1);
    }
}

/// The first of `ls` from `i` on that declares `name`.
pub open spec fn first_decl_from(ls: Seq<Seq<char>>, name: Seq<char>, i: int) -> Option<int>
    decreases ls.len() - i,
{
    if i < 0 || i >= ls.len() {
        None
    } else if fn_name_col(ls[i], name) is Some {
        Some(i)
    } else {
        first_decl_from(ls, name, i + 1)
    }
}

/// Where the run of comment lines that ends right above line `d` starts.
pub open spec fn run_start(ls: Seq<Seq<char>>, d: int) -> int
    decreases d,
{
    if 0 < d <= ls.len() && comment_line(ls[d - 1]) {
        run_start(ls, d - 1)
    } else {
        d
    }
}

/// The comment lines right above the declaration of `name`, joined with line
/// feeds and stripped of their markers; `None` when `name` is not declared
/// or nothing but code stands above it.
pub open spec fn doc_above(ls: Seq<Seq<char>>, name: Seq<char>) -> Option<Seq<char>> {
    match first_decl_from(ls, name, 0) {
        None => None,
        Some(d) => {
            let s = run_start(ls, d);
            if s == d {
                None
            } else {
                Some(join_with(ls.subrange(s, d).map_values(|l: Seq<char>| comment_body(l)), "\n"@))
            }
        },
    }
}

/// Whether `l` is a comment line.
fn is_comment_line(l: &[char]) -> (r: bool)
    ensures
        r == comment_line(l@),
{
    let i = trim_start_index(l);
    l.len() - i >= 2 && l[i] == '/' && l[i + 1] == '/'
}

/// The text of the comment line `l`.
fn comment_text(l: &[char]) -> (r: Vec<char>)
    ensures
        r@ == comment_body(l@),
{
    let t = trim_start_vec(l);
    let mut i: usize = 0;
    assert(t@.skip(0) =~= t@);
    while t.len() - i >= 2 && t[i] == '/' && t[i + 1] == '/'
        invariant
            i <= t.len(),
            strip_slashes(t@.skip(i as int)) == strip_slashes(t@),
        decreases t.len() - i,
    {
        assert(t@.skip(i as int).skip(2) =~= t@.skip(i + 2));
        i += 2;
    }
    let rest = sub_chars(&t, i, t.len());
    assert(rest@ =~= t@.skip(i as int));
    trim_start_vec(&rest)
}

/// The index of the first line of `ls` that declares `name`.
fn first_decl(ls: &Vec<Vec<char>>, name: &[char]) -> (r: Option<usize>)
    ensures
        r == (match first_decl_from(vviews(ls@), name@, 0) {
            Some(d) => Some(d as usize),
            None => None::<usize>,
        }),
        r matches Some(d) ==> d < ls.len() && first_decl_from(vviews(ls@), name@, 0) == Some(
            d as int,
        ),
        r is None ==> first_decl_from(vviews(ls@), name@, 0) is None,
{
    let ghost all = vviews(ls@);
    let mut i: usize = 0;
    while i < ls.len()
        invariant
            i <= ls.len(),
            all == vviews(ls@),
            first_decl_from(all, name@, i as int) == first_decl_from(all, name@, 0),
        decreases ls.len() - i,
    {
        assert(all[i as int] == ls@[i as int]@);
        if fn_name_column(&ls[i], name).is_some() {
            return Some(i);
        }
        i += 1;
    }
    None
}

/// The run of `//` lines immediately above the `fn NAME(` line in `text`,
/// joined and stripped of their comment markers; `None` when there is no
/// such run.
pub fn doc_comment_above_fn(text: &str, name: &str) -> (r: Option<String>)
    ensures
        r matches Some(s) ==> doc_above(lines(text@), name@) == Some(s@),
        r is None ==> doc_above(lines(text@), name@) is None,
{
    let t = chars_of(text);
    let n = chars_of(name);
    let ls = lines_of(&t);
    let ghost all = vviews(ls@);
    let d = match first_decl(&ls, &n) {
        Some(d) => d,
        None => return None,
    };
    let mut start = d;
    while start > 0 && is_comment_line(&ls[start - 1])
        invariant
            start <= d < ls.len(),
            all == vviews(ls@),
            n@ == name@,
            first_decl_from(all, n@, 0) == Some(d as int),
            run_start(all, start as int) == run_start(all, d as int),
        decreases start,
    {
        assert(all[start - 1] == ls@[start - 1]@);
        start -= 1;
    }
    assert(start > 0 ==> all[start - 1] == ls@[start - 1]@);
    assert(run_start(all, start as int) == start as int);
    assert(all == lines(text@));
    assert(first_decl_from(all, name@, 0) == Some(d as int));
    if start == d {
        return None;
    }
    let ghost parts = all.subrange(start as int, d as int).map_values(
        |l: Seq<char>| comment_body(l),
    );
    let mut v = comment_text(&ls[start]);
    assert(parts.take(1) =~= seq![parts[0]]);
    let mut k = start + 1;
    while k < d
        invariant
            start < k <= d < ls.len(),
            all == vviews(ls@),
            parts == all.subrange(start as int, d as int).map_values(
                |l: Seq<char>| comment_body(l),
            ),
            v@ == join_with(parts.take(k - start), "\n"@),
        decreases d - k,
    {
        v.push('\n');
        let body = comment_text(&ls[k]);
        push_all(&mut v, &body);
        assert(parts[k - start] == comment_body(ls@[k as int]@));
        assert(parts.take(k - start + 1).drop_last() =~= parts.take(k - start));
        assert(v@ =~= join_with(parts.take(k - start), "\n"@) + "\n"@ + parts[k - start]) by {
            reveal_strlit("\n");
        }
        k += 1;
    }
    assert(parts.take(d - start) =~= parts);
    Some(string_of(&v))
}

/// The doc comment above `fn custom` in `text`.
pub fn doc_comment_above_custom(text: &str) -> (r: Option<String>)
    ensures
        r matches Some(s) ==> doc_above(lines(text@), "custom"@) == Some(s@),
        r is None ==> doc_above(lines(text@), "custom"@) is None,
{
    doc_comment_above_fn(text, "custom")
}

/// The hover document for a script-local function: its signature in bold,
/// then its doc comment when it has one.
pub open spec fn local_hover(text: Seq<char>, name: Seq<char>) -> Option<Seq<char>> {
    match sig_in_lines(lines(text), name) {
        None => None,
        Some(sig) => Some(
            "**"@ + sig + "**"@ + match doc_above(lines(text), name) {
                Some(d) => "\n\n"@ + d,
                None => Seq::empty(),
            },
        ),
    }
}

/// Hover markdown for the script-local function `name` in `text`: its
/// signature and doc comment; `None` when `text` defines no such function.
pub fn local_fn_hover(text: &str, name: &str) -> (r: Option<String>)
    ensures
        r matches Some(s) ==> local_hover(text@, name@) == Some(s@),
        r is None ==> local_hover(text@, name@) is None,
{
    let sig = match fn_signature_text(text, name) {
        Some(s) => s,
        None => return None,
    };
    let mut v = chars_of("**");
    push_str(&mut v, sig.as_str());
    push_str(&mut v, "**");
    match doc_comment_above_fn(text, name) {
        Some(d) => {
            push_str(&mut v, "\n\n");
            push_str(&mut v, d.as_str());
        },
        None => {
            assert(v@ + Seq::<char>::empty() =~= v@);
        },
    }
    Some(string_of(&v))
}

// ---------------------------------------------------------------------------
// Positions, identifiers and references
// ---------------------------------------------------------------------------

/// A position in a document: a 0-based line and a 0-based character on it.
#[derive(Debug, Clone, Copy, PartialEq, Eq, Structural)]
pub struct Position {
    pub line: u32,
    pub character: u32,
}

impl Position {
    /// The position at `line` and `character`.
    pub fn new(line: u32, character: u32) -> (r: Position)
        ensures
            r == (Position { line, character }),
    {
        Position { line, character }
    }
}

/// A span of a document, from `start` up to `end`.
#[derive(Debug, Clone, Copy, PartialEq, Eq, Structural)]
pub struct Range {
    pub start: Position,
    pub end: Position,
}

impl Range {
    /// The span from `start` to `end`.
    pub fn new(start: Position, end: Position) -> (r: Range)
        ensures
            r == (Range { start, end }),
    {
        Range { start, end }
    }
}

/// The span of characters `a..b` on line `line`.
pub open spec fn span(line: int, a: int, b: int) -> Range {
    Range {
        start: Position { line: line as u32, character: a as u32 },
        end: Position { line: line as u32, character: b as u32 },
    }
}

/// The span of characters `a..b` on line `line`.
fn span_of(line: usize, a: usize, b: usize) -> (r: Range)
    ensures
        r == span(line as int, a as int, b as int),
{
    Range::new(Position::new(line as u32, a as u32), Position::new(line as u32, b as u32))
}

/// The span of characters `a..b + n` on line `line`.
fn span_to(line: usize, a: usize, b: usize, n: usize) -> (r: Range)
    ensures
        r == span(line as int, a as int, b + n),
{
    let end = ((b as u128) + (n as u128)) as u32;
    Range::new(Position::new(line as u32, a as u32), Position::new(line as u32, end))
}

/// Where the identifier that ends at `i` in `c` starts.
pub open spec fn word_start(c: Seq<char>, i: int) -> int
    decreases i,
{
    if 0 < i <= c.len() && ident_char(c[i - 1]) {
        word_start(c, i - 1)
    } else {
        i
    }
}

/// Where the identifier that runs on from `i` in `c` ends.
pub open spec fn word_end(c: Seq<char>, i: int) -> int
    decreases c.len() - i,
{
    if 0 <= i < c.len() && ident_char(c[i]) {
        word_end(c, i + 1)
    } else {
        i
    }
}

/// The identifier under character `at` of the line `c`, as the span of its
/// characters: the one that starts at or runs through `at`, else the one that
/// ends right before it.
pub open spec fn ident_span(c: Seq<char>, at: int) -> Option<(int, int)> {
    let idx = if at < c.len() {
        at
    } else {
        c.len() as int
    };
    if idx < c.len() && ident_char(c[idx]) {
        Some((word_start(c, idx), word_end(c, idx)))
    } else if idx > 0 && ident_char(c[idx - 1]) {
        Some((word_start(c, idx - 1), idx))
    } else {
        None
    }
}

/// The identifier under `pos` in `text`, with its span.
pub open spec fn ident_at(text: Seq<char>, pos: Position) -> Option<(Seq<char>, Range)> {
    let ls = split_char(text, '\n');
    if pos.line >= ls.len() {
        None
    } else {
        let c = ls[pos.line as int];
        match ident_span(c, pos.character as int) {
            None => None,
            Some((a, b)) => Some((c.subrange(a, b), span(pos.line as int, a, b))),
        }
    }
}

/// `word_start`, computed.
fn start_of_word(c: &[char], i: usize) -> (r: usize)
    requires
        i <= c.len(),
    ensures
        r == word_start(c@, i as int),
        r <= i,
{
    let mut s = i;
    while s > 0 && is_ident(c[s - 1])
        invariant
            s <= i <= c.len(),
            word_start(c@, s as int) == word_start(c@, i as int),
        decreases s,
    {
        s -= 1;
    }
    s
}

/// `word_end`, computed.
fn end_of_word(c: &[char], i: usize) -> (r: usize)
    requires
        i <= c.len(),
    ensures
        r == word_end(c@, i as int),
        i <= r <= c.len(),
{
    let mut e = i;
    while e < c.len() && is_ident(c[e])
        invariant
            i <= e <= c.len(),
            word_end(c@, e as int) == word_end(c@, i as int),
        decreases c.len() - e,
    {
        e += 1;
    }
    e
}

/// The identifier under `pos` in `text`, with its range. The position's
/// character is taken as a character index on the line.
pub fn identifier_at(text: &str, pos: Position) -> (r: Option<(String, Range)>)
    ensures
        r matches Some(x) ==> ident_at(text@, pos) == Some((x.0@, x.1)),
        r is None ==> ident_at(text@, pos) is None,
{
    let t = chars_of(text);
    let ls = split_on(&t, '\n');
    let ghost all = vviews(ls@);
    if pos.line as usize >= ls.len() {
        return None;
    }
    let chars = &ls[pos.line as usize];
    assert(all[pos.line as int] == chars@);
    let idx: usize = if (pos.character as usize) < chars.len() {
        pos.character as usize
    } else {
        chars.len()
    };
    let (a, b) = if idx < chars.len() && is_ident(chars[idx]) {
        (start_of_word(chars, idx), end_of_word(chars, idx))
    } else if idx > 0 && is_ident(chars[idx - 1]) {
        (start_of_word(chars, idx - 1), idx)
    } else {
        return None;
    };
    let word = sub_chars(chars, a, b);
    Some((string_of(&word), span_of(pos.line as usize, a, b)))
}

/// The first occurrence of a non-empty `needle` in `h` at or after `from`.
pub open spec fn occurrence(h: Seq<char>, needle: Seq<char>, from: int) -> Option<int> {
    if needle.len() == 0 {
        None
    } else {
        find_from(h, needle, from)
    }
}

/// The char index of `needle` in `haystack` at or after `from`, if present.
pub fn find_char_substring(haystack: &[char], from: usize, needle: &str) -> (r: Option<usize>)
    ensures
        r matches Some(i) ==> occurrence(haystack@, needle@, from as int) == Some(i as int) && from
            <= i && i + needle@.len() <= haystack.len(),
        r is None ==> occurrence(haystack@, needle@, from as int) is None,
{
    let n = chars_of(needle);
    if n.len() == 0 {
        return None;
    }
    find_at(haystack, &n, from)
}

/// The range of the name in the first `fn NAME(` declaration of `text`.
pub open spec fn def_range(text: Seq<char>, name: Seq<char>) -> Option<Range> {
    let ls = lines(text);
    match first_decl_from(ls, name, 0) {
        None => None,
        Some(d) => Some(
            span(d, fn_name_col(ls[d], name).unwrap(), fn_name_col(ls[d], name).unwrap() + name.len()),
        ),
    }
}

/// The definition location of the script-local function `name` in `text`.
pub fn local_definition(text: &str, name: &str) -> (r: Option<Range>)
    ensures
        r == def_range(text@, name@),
{
    let t = chars_of(text);
    let n = chars_of(name);
    let ls = lines_of(&t);
    let d = match first_decl(&ls, &n) {
        Some(d) => d,
        None => return None,
    };
    let ghost line = ls@[d as int]@;
    proof {
        assert(vviews(ls@)[d as int] == line);
        lemma_first_decl(vviews(ls@), name@, 0);
        lemma_fn_name_col(line, name@);
        assert(first_decl_from(vviews(ls@), name@, 0) == Some(d as int));
        assert(fn_name_col(line, name@) is Some);
    }
    let col = fn_name_column(&ls[d], &n).unwrap();
    let width = ls[d].len();
    assert(width == line.len());
    assert(col + n@.len() <= line.len());
    assert(vviews(ls@) == lines(text@));
    Some(span_of(d, col, col + n.len()))
}

/// The occurrences of `name` in the line `c` at or after `from` that stand as
/// whole identifiers, as character spans.
pub open spec fn refs_from(c: Seq<char>, name: Seq<char>, from: int) -> Seq<(int, int)>
    decreases c.len() + 1 - from,
{
    match occurrence(c, name, from) {
        None => Seq::empty(),
        Some(rel) => if rel < from || rel + name.len() > c.len() {
            Seq::empty()
        } else {
            let end = rel + name.len();
            let whole = (rel == 0 || !ident_char(c[rel - 1])) && (end >= c.len() || !ident_char(
                c[end],
            ));
            let next = rel + if name.len() > 0 {
                name.len() as int
            } else {
                1
            };
            (if whole {
                seq![(rel, end)]
            } else {
                Seq::empty()
            }) + refs_from(c, name, next)
        },
    }
}

/// Every whole-identifier occurrence of `name` in the lines `ls`, from line
/// `i` on, as ranges.
pub open spec fn refs_in_lines(ls: Seq<Seq<char>>, name: Seq<char>, i: int) -> Seq<Range>
    decreases ls.len() - i,
{
    if i < 0 || i >= ls.len() {
        Seq::empty()
    } else {
        refs_from(ls[i], name, 0).map_values(|p: (int, int)| span(i, p.0, p.1)) + refs_in_lines(
            ls,
            name,
            i + 1,
        )
    }
}

/// The whole-identifier occurrences of `name` on one line, as ranges.
fn line_references(c: &[char], name: &str, line: usize, out: &mut Vec<Range>)
    ensures
        final(out)@ == old(out)@ + refs_from(c@, name@, 0).map_values(
            |p: (int, int)| span(line as int, p.0, p.1),
        ),
{
    let count = chars_of(name).len();
    let step: usize = if count > 0 {
        count
    } else {
        1
    };
    let mut from: usize = 0;
    let ghost base = old(out)@;
    loop
        invariant
            from <= c.len() + 1,
            count == name@.len(),
            step == (if count > 0 {
                count
            } else {
                1
            }),
            out@ + refs_from(c@, name@, from as int).map_values(
                |p: (int, int)| span(line as int, p.0, p.1),
            ) == base + refs_from(c@, name@, 0).map_values(
                |p: (int, int)| span(line as int, p.0, p.1),
            ),
            base == old(out)@,
        decreases c.len() + 1 - from,
    {
        let ghost prev = out@;
        match find_char_substring(c, from, name) {
            None => {
                assert(out@ =~= base + refs_from(c@, name@, 0).map_values(
                    |p: (int, int)| span(line as int, p.0, p.1),
                ));
                return;
            },
            Some(rel) => {
                let end = rel + count;
                let before_ok = rel == 0 || !is_ident(c[rel - 1]);
                let after_ok = end >= c.len() || !is_ident(c[end]);
                if before_ok && after_ok {
                    out.push(span_of(line, rel, end));
                }
                let ghost here: Seq<(int, int)> = if before_ok && after_ok {
                    seq![(rel as int, end as int)]
                } else {
                    Seq::empty()
                };
                let ghost f = |p: (int, int)| span(line as int, p.0, p.1);
                assert(refs_from(c@, name@, from as int) == here + refs_from(
                    c@,
                    name@,
                    rel + step,
                ));
                assert((here + refs_from(c@, name@, rel + step)).map_values(f) =~= here.map_values(
                    f,
                ) + refs_from(c@, name@, rel + step).map_values(f));
                assert(out@ =~= prev + here.map_values(f));
                from = rel + step;
            },
        }
    }
}

/// Every occurrence of `name` as a whole identifier in `text`, line by line.
pub fn local_references(text: &str, name: &str) -> (r: Vec<Range>)
    ensures
        r@ == refs_in_lines(lines(text@), name@, 0),
{
    let t = chars_of(text);
    let ls = lines_of(&t);
    let ghost all = vviews(ls@);
    let mut out: Vec<Range> = Vec::new();
    let mut i: usize = 0;
    while i < ls.len()
        invariant
            i <= ls.len(),
            all == vviews(ls@),
            all == lines(text@),
            out@ + refs_in_lines(all, name@, i as int) == refs_in_lines(all, name@, 0),
        decreases ls.len() - i,
    {
        assert(all[i as int] == ls@[i as int]@);
        line_references(&ls[i], name, i, &mut out);
        i += 1;
    }
    assert(out@ + Seq::<Range>::empty() =~= out@);
    out
}

// ---------------------------------------------------------------------------
// Signatures of catalog entries
// ---------------------------------------------------------------------------

/// One way to call a function: its label, its documentation, and the names
/// of its parameters in order.
#[derive(Debug, Clone)]
pub struct SignatureInformation {
    pub label: String,
    pub documentation: String,
    pub parameters: Vec<String>,
}

/// A signature as plain sequences.
pub struct SigView {
    pub label: Seq<char>,
    pub doc: Seq<char>,
    pub params: Seq<Seq<char>>,
}

/// The views of a sequence of strings.
pub open spec fn sviews(v: Seq<String>) -> Seq<Seq<char>> {
    v.map_values(|x: String| x@)
}

/// A signature's view.
pub open spec fn sig_view(s: SignatureInformation) -> SigView {
    SigView { label: s.label@, doc: s.documentation@, params: sviews(s.parameters@) }
}

/// The views of a sequence of signatures.
pub open spec fn sig_views(v: Seq<SignatureInformation>) -> Seq<SigView> {
    v.map_values(|x: SignatureInformation| sig_view(x))
}

/// The last position of `c` in `s`.
pub open spec fn rfind_char(s: Seq<char>, c: char) -> Option<int>
    decreases s.len(),
{
    if s.len() == 0 {
        None
    } else if s.last() == c {
        Some(s.len() - 1)
    } else {
        rfind_char(s.drop_last(), c)
    }
}

/// The text between a signature's outer parentheses: from after its first
/// `(` up to its last `)`, when that comes later.
pub open spec fn param_text(sig: Seq<char>) -> Option<Seq<char>> {
    match find_char(sig, '(') {
        None => None,
        Some(o) => match rfind_char(sig, ')') {
            None => None,
            Some(c) => if c > o {
                Some(sig.subrange(o + 1, c))
            } else {
                None
            },
        },
    }
}

/// A signature up to its first `(`.
pub open spec fn sig_head(sig: Seq<char>) -> Seq<char> {
    match find_char(sig, '(') {
        Some(o) => sig.take(o),
        None => sig,
    }
}

/// A parameter list split at its commas, each field trimmed; nothing for a
/// blank list.
pub open spec fn params_of(p: Seq<char>) -> Seq<Seq<char>> {
    if trim(p).len() == 0 {
        Seq::empty()
    } else {
        split_char(p, ',').map_values(|x: Seq<char>| trim(x))
    }
}

/// The label of a signature: head, then the parameters in parentheses,
/// separated by `, `.
pub open spec fn sig_label(head: Seq<char>, params: Seq<Seq<char>>) -> Seq<char> {
    head + "("@ + join_with(params, ", "@) + ")"@
}

/// The signature view with these parts.
pub open spec fn mk_sig(head: Seq<char>, summary: Seq<char>, params: Seq<Seq<char>>) -> SigView {
    SigView { label: sig_label(head, params), doc: summary, params }
}

/// The signatures a catalog entry offers: one for its parameters, or, when a
/// bracketed optional tail follows the required ones, one without the tail
/// and one with it. None for an entry whose signature has no parameter list.
pub open spec fn sig_infos(e: ScriptApi) -> Seq<SigView> {
    match param_text(e.signature@) {
        None => Seq::empty(),
        Some(p) => {
            let head = sig_head(e.signature@);
            match find_char(p, '[') {
                None => seq![mk_sig(head, e.summary@, params_of(p))],
                Some(b) => {
                    let required = params_of(trim(strip_trailing(p.take(b), ',')));
                    let inner = trim(
                        strip_leading(strip_trailing(strip_leading(p.skip(b), '['), ']'), ','),
                    );
                    seq![
                        mk_sig(head, e.summary@, required),
                        mk_sig(head, e.summary@, required + params_of(inner)),
                    ]
                },
            }
        },
    }
}

/// `rfind_char` finds an occurrence inside the sequence.
proof fn lemma_rfind_char(s: Seq<char>, c: char)
    ensures
        rfind_char(s, c) matches Some(i) ==> 0 <= i < s.len() && s[i] == c,
    decreases s.len(),
{
    if s.len() > 0 && s.last() != c {
        lemma_rfind_char(s.drop_last(), c);
    }
}

/// The last position of `c` in `s`.
fn rfind_ch(s: &[char], c: char) -> (r: Option<usize>)
    ensures
        r == (match rfind_char(s@, c) {
            Some(i) => Some(i as usize),
            None => None::<usize>,
        }),
        r matches Some(i) ==> i < s.len(),
{
    let mut j = s.len();
    assert(s@.take(j as int) =~= s@);
    while j > 0
        invariant
            j <= s.len(),
            rfind_char(s@.take(j as int), c) == rfind_char(s@, c),
        decreases j,
    {
        assert(s@.take(j as int).last() == s@[j - 1]);
        if s[j - 1] == c {
            return Some(j - 1);
        }
        assert(s@.take(j as int).drop_last() =~= s@.take(j - 1));
        j -= 1;
    }
    None
}

/// The text between a signature's outer parentheses.
fn param_list(sig: &[char]) -> (r: Option<Vec<char>>)
    ensures
        r matches Some(v) ==> param_text(sig@) == Some(v@),
        r is None ==> param_text(sig@) is None,
{
    let o = match find_ch(sig, '(') {
        Some(o) => o,
        None => return None,
    };
    proof {
        lemma_find_char(sig@, '(');
    }
    let c = match rfind_ch(sig, ')') {
        Some(c) => c,
        None => return None,
    };
    proof {
        lemma_rfind_char(sig@, ')');
    }
    if c > o {
        Some(sub_chars(sig, o + 1, c))
    } else {
        None
    }
}

/// A parameter list split at its commas, each field trimmed.
fn split_params(p: &[char]) -> (r: Vec<Vec<char>>)
    ensures
        vviews(r@) == params_of(p@),
{
    let t = trim_vec(p);
    if t.len() == 0 {
        return Vec::new();
    }
    let pieces = split_on(p, ',');
    let mut out: Vec<Vec<char>> = Vec::new();
    let mut i: usize = 0;
    while i < pieces.len()
        invariant
            i <= pieces.len(),
            vviews(out@) == vviews(pieces@).take(i as int).map_values(|x: Seq<char>| trim(x)),
        decreases pieces.len() - i,
    {
        let ghost prev = out@;
        let piece = trim_vec(&pieces[i]);
        out.push(piece);
        assert(vviews(pieces@)[i as int] == pieces@[i as int]@);
        assert(vviews(pieces@).take(i + 1) =~= vviews(pieces@).take(i as int).push(
            pieces@[i as int]@,
        ));
        assert(vviews(out@) =~= vviews(prev).push(piece@));
        i += 1;
    }
    assert(vviews(pieces@).take(pieces.len() as int) =~= vviews(pieces@));
    out
}

/// Strings holding the given character sequences.
fn strings_of(v: &Vec<Vec<char>>) -> (r: Vec<String>)
    ensures
        sviews(r@) == vviews(v@),
{
    let mut out: Vec<String> = Vec::new();
    let mut i: usize = 0;
    while i < v.len()
        invariant
            i <= v.len(),
            sviews(out@) == vviews(v@).take(i as int),
        decreases v.len() - i,
    {
        let ghost prev = out@;
        let x = string_of(&v[i]);
        out.push(x);
        assert(vviews(v@)[i as int] == v@[i as int]@);
        assert(vviews(v@).take(i + 1) =~= vviews(v@).take(i as int).push(v@[i as int]@));
        assert(sviews(out@) =~= sviews(prev).push(x@));
        i += 1;
    }
    assert(vviews(v@).take(v.len() as int) =~= vviews(v@));
    out
}

/// A signature with this head, summary and parameters.
fn make_signature(head: &[char], summary: &str, params: &Vec<Vec<char>>) -> (r: SignatureInformation)
    ensures
        sig_view(r) == mk_sig(head@, summary@, vviews(params@)),
{
    let mut label: Vec<char> = Vec::new();
    push_all(&mut label, head);
    label.push('(');
    let ghost ps = vviews(params@);
    if params.len() > 0 {
        push_all(&mut label, &params[0]);
        assert(ps.take(1) =~= seq![ps[0]]);
    }
    let ghost base = head@ + "("@;
    assert(label@ =~= base + join_with(ps.take(if params.len() > 0 { 1int } else { 0int }), ", "@))
        by {
        reveal_strlit("(");
    }
    let mut i: usize = 1;
    while i < params.len()
        invariant
            1 <= i,
            params.len() > 0 ==> i <= params.len(),
            ps == vviews(params@),
            params.len() > 0 ==> label@ == base + join_with(ps.take(i as int), ", "@),
            params.len() == 0 ==> label@ == base,
            base == head@ + "("@,
        decreases params.len() - i,
    {
        push_str(&mut label, ", ");
        push_all(&mut label, &params[i]);
        assert(ps.take(i + 1).drop_last() =~= ps.take(i as int));
        assert(ps[i as int] == params@[i as int]@);
        i += 1;
    }
    proof {
        if params.len() > 0 {
            assert(ps.take(params.len() as int) =~= ps);
        } else {
            assert(ps =~= Seq::<Seq<char>>::empty());
        }
    }
    let ghost before = label@;
    label.push(')');
    proof {
        reveal_strlit(")");
        reveal_strlit("(");
        assert(label@ =~= before + ")"@);
        if params.len() == 0 {
            assert(join_with(ps, ", "@) =~= Seq::<char>::empty());
            assert(before =~= head@ + "("@ + join_with(ps, ", "@));
        }
    }
    assert(label@ =~= sig_label(head@, ps));
    SignatureInformation {
        label: string_of(&label),
        documentation: string_of(&chars_of(summary)),
        parameters: strings_of(params),
    }
}

/// One catalog entry's possible arities as signatures.
pub fn signature_informations(entry: &ScriptApi) -> (r: Vec<SignatureInformation>)
    ensures
        sig_views(r@) == sig_infos(*entry),
{
    let sig = chars_of(entry.signature);
    let params = match param_list(&sig) {
        Some(p) => p,
        None => {
            let r: Vec<SignatureInformation> = Vec::new();
            assert(sig_views(r@) =~= Seq::<SigView>::empty());
            return r;
        },
    };
    let open = find_ch(&sig, '(');
    proof {
        lemma_find_char(sig@, '(');
        match find_char(sig@, '(') {
            Some(i) => {
                assert(0 <= i < sig@.len());
                assert(sig@.len() == sig.len());
                assert(i < usize::MAX);
                assert(open == Some(i as usize));
                assert((i as usize) as int == i);
            },
            None => {
                assert(open is None);
            },
        }
    }
    let head = match open {
        Some(o) => {
            assert(find_char(sig@, '(') == Some(o as int));
            let h = sub_chars(&sig, 0, o);
            assert(h@ =~= sig@.take(o as int));
            h
        },
        None => {
            assert(find_char(sig@, '(') is None);
            sig.clone()
        },
    };
    assert(head@ =~= sig_head(entry.signature@));
    let mut out: Vec<SignatureInformation> = Vec::new();
    match find_ch(&params, '[') {
        None => {
            let all = split_params(&params);
            out.push(make_signature(&head, entry.summary, &all));
        },
        Some(b) => {
            proof {
                lemma_find_char(params@, '[');
            }
            let front = sub_chars(&params, 0, b);
            let required = split_params(&trim_vec(&strip_trailing_vec(&front, ',')));
            out.push(make_signature(&head, entry.summary, &required));
            let back = sub_chars(&params, b, params.len());
            let inner = trim_vec(
                &strip_leading_vec(&strip_trailing_vec(&strip_leading_vec(&back, '['), ']'), ','),
            );
            let extra = split_params(&inner);
            let mut full = required;
            let mut k: usize = 0;
            let ghost req = vviews(full@);
            while k < extra.len()
                invariant
                    k <= extra.len(),
                    vviews(full@) == req + vviews(extra@).take(k as int),
                decreases extra.len() - k,
            {
                let ghost prev = full@;
                let x = extra[k].clone();
                full.push(x);
                assert(vviews(extra@)[k as int] == extra@[k as int]@);
                assert(vviews(extra@).take(k + 1) =~= vviews(extra@).take(k as int).push(
                    extra@[k as int]@,
                ));
                assert(vviews(full@) =~= vviews(prev).push(x@));
                k += 1;
            }
            assert(vviews(extra@).take(extra.len() as int) =~= vviews(extra@));
            assert(front@ =~= params@.take(b as int));
            assert(back@ =~= params@.skip(b as int));
            out.push(make_signature(&head, entry.summary, &full));
        },
    }
    assert(sig_views(out@) =~= sig_infos(*entry));
    out
}

// ---------------------------------------------------------------------------
// Signature help
// ---------------------------------------------------------------------------

/// The number of UTF-16 code units `c` takes.
pub open spec fn utf16_width(c: char) -> int {
    if (c as u32) >= 0x10000 {
        2
    } else {
        1
    }
}

/// The index of the first character of `l` at which at least `ch` UTF-16
/// units precede it, or the length of `l` when there is none.
pub open spec fn utf16_stop(l: Seq<char>, ch: int) -> int
    decreases l.len(),
{
    if ch <= 0 || l.len() == 0 {
        0
    } else {
        1 + utf16_stop(l.drop_first(), ch - utf16_width(l[0]))
    }
}

/// The character offset into the lines `ls` (joined by line feeds) of line
/// `line`, UTF-16 character `ch`; past the last line, the length of the
/// whole text plus one.
pub open spec fn offset_in(ls: Seq<Seq<char>>, line: int, ch: int) -> int
    decreases ls.len(),
{
    if ls.len() == 0 {
        0
    } else if line == 0 {
        utf16_stop(ls[0], ch)
    } else {
        ls[0].len() + 1 + offset_in(ls.drop_first(), line - 1, ch)
    }
}

/// The characters of the lines `ls` with one separator after each.
pub open spec fn total(ls: Seq<Seq<char>>) -> nat
    decreases ls.len(),
{
    if ls.len() == 0 {
        0
    } else {
        ls[0].len() + 1 + total(ls.drop_first())
    }
}

/// Splitting at a character keeps every other character: the pieces and one
/// separator after each come to one more than the text.
proof fn lemma_split_total(s: Seq<char>, c: char)
    ensures
        total(split_char(s, c)) == s.len() + 1,
    decreases s.len(),
{
    lemma_find_char(s, c);
    let ps = split_char(s, c);
    match find_char(s, c) {
        None => {
            assert(ps == seq![s]);
            assert(ps.drop_first() =~= Seq::<Seq<char>>::empty());
            assert(total(ps.drop_first()) == 0);
            assert(total(ps) == ps[0].len() + 1 + total(ps.drop_first()));
        },
        Some(i) => {
            lemma_split_total(s.skip(i + 1), c);
            assert(ps == seq![s.take(i)] + split_char(s.skip(i + 1), c));
            assert(ps.drop_first() =~= split_char(s.skip(i + 1), c));
            assert(ps[0] == s.take(i));
            assert(total(ps) == ps[0].len() + 1 + total(ps.drop_first()));
        },
    }
}

/// An offset is never more than the text.
proof fn lemma_offset_bound(ls: Seq<Seq<char>>, line: int, ch: int)
    ensures
        0 <= offset_in(ls, line, ch) <= total(ls),
    decreases ls.len(),
{
    if ls.len() > 0 {
        if line == 0 {
            lemma_stop_bound(ls[0], ch);
        } else {
            lemma_offset_bound(ls.drop_first(), line - 1, ch);
        }
    }
}

/// A stop on a line lies within it.
proof fn lemma_stop_bound(l: Seq<char>, ch: int)
    ensures
        0 <= utf16_stop(l, ch) <= l.len(),
    decreases l.len(),
{
    if ch > 0 && l.len() > 0 {
        lemma_stop_bound(l.drop_first(), ch - utf16_width(l[0]));
    }
}

/// The stop for UTF-16 character `ch` on the line `l`.
fn utf16_index(l: &[char], ch: u32) -> (r: usize)
    ensures
        r == utf16_stop(l@, ch as int),
{
    let mut seen: u64 = 0;
    let mut i: usize = 0;
    assert(l@.skip(0) =~= l@);
    while i < l.len()
        invariant
            i <= l.len(),
            seen <= ch as u64 + 1,
            i + utf16_stop(l@.skip(i as int), ch - seen) == utf16_stop(l@, ch as int),
        decreases l.len() - i,
    {
        if seen >= ch as u64 {
            return i;
        }
        let w: u64 = if (l[i] as u32) >= 0x10000 {
            2
        } else {
            1
        };
        assert(l@.skip(i as int).drop_first() =~= l@.skip(i + 1));
        assert(l@.skip(i as int)[0] == l@[i as int]);
        seen = seen + w;
        i += 1;
    }
    i
}

/// The character offset of `pos` into `text`.
fn char_offset(t: &[char], pos: Position) -> (r: usize)
    requires
        t@.len() < usize::MAX,
    ensures
        r == offset_in(split_char(t@, '\n'), pos.line as int, pos.character as int),
{
    let ls = split_on(t, '\n');
    let ghost all = vviews(ls@);
    proof {
        lemma_split_total(t@, '\n');
        lemma_offset_bound(all, pos.line as int, pos.character as int);
    }
    let mut offset: usize = 0;
    let mut k: usize = 0;
    let n = t.len();
    assert(all.skip(0) =~= all);
    while k < ls.len()
        invariant
            k <= ls.len(),
            n == t@.len(),
            n < usize::MAX,
            all == vviews(ls@),
            all == split_char(t@, '\n'),
            total(all) == t@.len() + 1,
            offset + total(all.skip(k as int)) == total(all),
            offset + offset_in(all.skip(k as int), pos.line - k, pos.character as int)
                == offset_in(all, pos.line as int, pos.character as int),
        decreases ls.len() - k,
    {
        let ghost rest = all.skip(k as int);
        assert(rest[0] == ls@[k as int]@);
        assert(rest.drop_first() =~= all.skip(k + 1));
        assert(total(rest) == rest[0].len() + 1 + total(rest.drop_first()));
        proof {
            lemma_offset_bound(rest.drop_first(), pos.line - k - 1, pos.character as int);
            lemma_offset_bound(rest, pos.line - k, pos.character as int);
            lemma_stop_bound(rest[0], pos.character as int);
        }
        if k == pos.line as usize {
            let stop = utf16_index(&ls[k], pos.character);
            return offset + stop;
        }
        offset = offset + ls[k].len() + 1;
        k += 1;
    }
    offset
}

/// Lexer state before index `i` of `c`: inside a string literal, and just
/// after a backslash inside one.
pub open spec fn scan_state(c: Seq<char>, i: int) -> (bool, bool)
    decreases i,
{
    if i <= 0 {
        (false, false)
    } else {
        let prev = scan_state(c, i - 1);
        let ch = c[i - 1];
        if prev.0 {
            if prev.1 {
                (true, false)
            } else if ch == '\\' {
                (true, true)
            } else if ch == '"' {
                (false, false)
            } else {
                (true, false)
            }
        } else if ch == '"' {
            (true, false)
        } else {
            (false, false)
        }
    }
}

/// Whether index `i` of `c` falls inside a `"…"` string literal, quotes
/// included, with `\"` escapes honored.
pub open spec fn in_literal(c: Seq<char>, i: int) -> bool {
    scan_state(c, i).0 || c[i] == '"'
}

/// For every index of `c`, whether it is inside a string literal.
pub open spec fn literal_mask(c: Seq<char>) -> Seq<bool> {
    Seq::new(c.len(), |i: int| in_literal(c, i))
}

/// The indices of `chars` that fall inside a string literal.
fn string_literal_mask(chars: &[char]) -> (r: Vec<bool>)
    ensures
        r@ == literal_mask(chars@),
{
    let mut mask: Vec<bool> = Vec::new();
    let mut in_string = false;
    let mut escaped = false;
    let mut i: usize = 0;
    while i < chars.len()
        invariant
            i <= chars.len(),
            (in_string, escaped) == scan_state(chars@, i as int),
            mask@ == literal_mask(chars@).take(i as int),
        decreases chars.len() - i,
    {
        let c = chars[i];
        if in_string {
            mask.push(true);
            if escaped {
                escaped = false;
            } else if c == '\\' {
                escaped = true;
            } else if c == '"' {
                in_string = false;
            }
        } else if c == '"' {
            mask.push(true);
            in_string = true;
        } else {
            mask.push(false);
        }
        assert(mask@ =~= literal_mask(chars@).take(i + 1));
        i += 1;
    }
    assert(literal_mask(chars@).take(chars.len() as int) =~= literal_mask(chars@));
    mask
}

/// Walking back from `i` with `depth` closing parentheses pending, the index
/// of the nearest unmatched `(` outside string literals.
pub open spec fn call_open(c: Seq<char>, m: Seq<bool>, i: int, depth: int) -> Option<int>
    decreases i,
{
    if i <= 0 {
        None
    } else {
        let j = i - 1;
        if m[j] {
            call_open(c, m, j, depth)
        } else if c[j] == ')' {
            call_open(c, m, j, depth + 1)
        } else if c[j] == '(' {
            if depth == 0 {
                Some(j)
            } else {
                call_open(c, m, j, depth - 1)
            }
        } else {
            call_open(c, m, j, depth)
        }
    }
}

/// `call_open` finds an index before where it starts.
proof fn lemma_call_open(c: Seq<char>, m: Seq<bool>, i: int, depth: int)
    ensures
        call_open(c, m, i, depth) matches Some(j) ==> 0 <= j < i,
    decreases i,
{
    if i > 0 {
        lemma_call_open(c, m, i - 1, depth + 1);
        lemma_call_open(c, m, i - 1, depth);
        lemma_call_open(c, m, i - 1, depth - 1);
    }
}

/// The index of the nearest unmatched `(` before `offset`.
fn enclosing_call_open(chars: &[char], in_string: &[bool], offset: usize) -> (r: Option<usize>)
    requires
        in_string.len() == chars.len(),
    ensures
        r == (match call_open(
            chars@,
            in_string@,
            if offset < chars.len() {
                offset as int
            } else {
                chars.len() as int
            },
            0,
        ) {
            Some(j) => Some(j as usize),
            None => None::<usize>,
        }),
        r matches Some(j) ==> j < chars.len(),
{
    let mut depth: usize = 0;
    let mut i: usize = if offset < chars.len() {
        offset
    } else {
        chars.len()
    };
    let ghost start = i;
    while i > 0
        invariant
            i <= start <= chars.len(),
            start == (if offset < chars.len() {
                offset as int
            } else {
                chars.len() as int
            }),
            in_string.len() == chars.len(),
            depth <= start - i,
            call_open(chars@, in_string@, i as int, depth as int) == call_open(
                chars@,
                in_string@,
                start as int,
                0,
            ),
        decreases i,
    {
        i -= 1;
        if in_string[i] {
            continue;
        }
        if chars[i] == ')' {
            depth += 1;
        } else if chars[i] == '(' {
            if depth == 0 {
                return Some(i);
            }
            depth -= 1;
        }
    }
    None
}

/// The commas at bracket depth zero from `i` up to `end`, outside string
/// literals, with `depth` brackets already open.
pub open spec fn commas_from(c: Seq<char>, m: Seq<bool>, i: int, end: int, depth: int) -> int
    decreases end - i,
{
    if i >= end {
        0
    } else if m[i] {
        commas_from(c, m, i + 1, end, depth)
    } else if c[i] == '(' || c[i] == '[' || c[i] == '{' {
        commas_from(c, m, i + 1, end, depth + 1)
    } else if c[i] == ')' || c[i] == ']' || c[i] == '}' {
        commas_from(c, m, i + 1, end, depth - 1)
    } else if c[i] == ',' && depth == 0 {
        1 + commas_from(c, m, i + 1, end, depth)
    } else {
        commas_from(c, m, i + 1, end, depth)
    }
}

/// `end` brought within the text, and no earlier than `start`.
pub open spec fn clamp_end(len: int, start: int, end: int) -> int {
    let e = if end < len {
        end
    } else {
        len
    };
    if e < start {
        start
    } else {
        e
    }
}

/// The number of top-level commas in `chars[start..end]`.
fn top_level_commas(chars: &[char], in_string: &[bool], start: usize, end: usize) -> (r: usize)
    requires
        in_string.len() == chars.len(),
    ensures
        r == commas_from(
            chars@,
            in_string@,
            start as int,
            clamp_end(chars.len() as int, start as int, end as int),
            0,
        ),
{
    let mut opens: usize = 0;
    let mut closes: usize = 0;
    let mut commas: usize = 0;
    let e0: usize = if end < chars.len() {
        end
    } else {
        chars.len()
    };
    let stop: usize = if e0 < start {
        start
    } else {
        e0
    };
    let mut i = start;
    while i < stop
        invariant
            start <= i <= stop,
            stop == clamp_end(chars.len() as int, start as int, end as int),
            stop <= chars.len() || stop == start,
            in_string.len() == chars.len(),
            opens + closes + commas <= i - start,
            commas + commas_from(chars@, in_string@, i as int, stop as int, opens - closes)
                == commas_from(chars@, in_string@, start as int, stop as int, 0),
        decreases stop - i,
    {
        if !in_string[i] {
            let c = chars[i];
            if c == '(' || c == '[' || c == '{' {
                opens += 1;
            } else if c == ')' || c == ']' || c == '}' {
                closes += 1;
            } else if c == ',' && opens == closes {
                commas += 1;
            }
        }
        i += 1;
    }
    commas
}

/// The identifier right before `open` in `c`.
pub open spec fn ident_before(c: Seq<char>, open: int) -> Option<Seq<char>> {
    let s = word_start(c, open);
    if s == open {
        None
    } else {
        Some(c.subrange(s, open))
    }
}

/// The entries of `es` that are functions or methods, in order.
pub open spec fn callable(es: Seq<ScriptApi>) -> Seq<ScriptApi>
    decreases es.len(),
{
    if es.len() == 0 {
        Seq::empty()
    } else if es.last().kind is Function || es.last().kind is Method {
        callable(es.drop_last()).push(es.last())
    } else {
        callable(es.drop_last())
    }
}

/// The signatures of the entries `es`, entry by entry.
pub open spec fn all_sigs(es: Seq<ScriptApi>) -> Seq<SigView>
    decreases es.len(),
{
    if es.len() == 0 {
        Seq::empty()
    } else {
        all_sigs(es.drop_last()) + sig_infos(es.last())
    }
}

/// The first signature from `i` on with more than `ap` parameters.
pub open spec fn first_fitting(sigs: Seq<SigView>, ap: int, i: int) -> Option<int>
    decreases sigs.len() - i,
{
    if i < 0 || i >= sigs.len() {
        None
    } else if sigs[i].params.len() > ap {
        Some(i)
    } else {
        first_fitting(sigs, ap, i + 1)
    }
}

/// Signature help for a position: the signatures of the callee, the one to
/// show, and the parameter the cursor is on.
pub struct SignatureHelp {
    pub signatures: Vec<SignatureInformation>,
    pub active_signature: Option<u32>,
    pub active_parameter: Option<u32>,
}

/// Signature help as plain values.
pub struct HelpView {
    pub sigs: Seq<SigView>,
    pub active_signature: Option<u32>,
    pub active_parameter: Option<u32>,
}

/// The signature help at `pos` in `text`: the callee is the identifier before
/// the nearest unmatched `(` (outside string literals) before the cursor, the
/// active parameter the count of top-level commas since that `(`, and the
/// active signature the first with more parameters than that, else the last.
/// `None` outside a call, or when the callee is no catalogued function or
/// method with a parameter list.
pub open spec fn help_at(text: Seq<char>, pos: Position) -> Option<HelpView> {
    let off = offset_in(split_char(text, '\n'), pos.line as int, pos.character as int);
    let m = literal_mask(text);
    let at = if off < text.len() {
        off
    } else {
        text.len() as int
    };
    match call_open(text, m, at, 0) {
        None => None,
        Some(open) => {
            let ap = commas_from(text, m, open + 1, clamp_end(text.len() as int, open + 1, off), 0);
            match ident_before(text, open) {
                None => None,
                Some(name) => {
                    let sigs = all_sigs(callable(named(catalog(), name, false)));
                    if sigs.len() == 0 {
                        None
                    } else {
                        let act = match first_fitting(sigs, ap, 0) {
                            Some(i) => i,
                            None => sigs.len() - 1,
                        };
                        Some(
                            HelpView {
                                sigs,
                                active_signature: Some(act as u32),
                                active_parameter: Some(ap as u32),
                            },
                        )
                    }
                },
            }
        },
    }
}

/// `first_fitting` finds a signature at or after where it starts.
proof fn lemma_first_fitting(sigs: Seq<SigView>, ap: int, i: int)
    ensures
        first_fitting(sigs, ap, i) matches Some(k) ==> i <= k < sigs.len(),
    decreases sigs.len() - i,
{
    if 0 <= i < sigs.len() && sigs[i].params.len() <= ap {
        lemma_first_fitting(sigs, ap, i + 1);
    }
}

/// The signatures of the functions and methods of the catalog named `name`.
fn callee_signatures(name: &str) -> (r: Vec<SignatureInformation>)
    ensures
        sig_views(r@) == all_sigs(callable(named(catalog(), name@, false))),
{
    let entries = lookup(name);
    let ghost es = entries@;
    let mut signatures: Vec<SignatureInformation> = Vec::new();
    let mut i: usize = 0;
    while i < entries.len()
        invariant
            i <= entries.len(),
            es == entries@,
            sig_views(signatures@) == all_sigs(callable(es.take(i as int))),
        decreases entries.len() - i,
    {
        let e = entries[i];
        assert(es.take(i + 1).drop_last() =~= es.take(i as int));
        assert(es.take(i + 1).last() == e);
        if e.kind == ApiKind::Function || e.kind == ApiKind::Method {
            let mut more = signature_informations(&e);
            let ghost before = signatures@;
            let ghost added = more@;
            signatures.append(&mut more);
            assert(sig_views(signatures@) =~= sig_views(before) + sig_views(added));
            let ghost c = callable(es.take(i as int));
            assert(callable(es.take(i + 1)) == c.push(e));
            assert(c.push(e).drop_last() =~= c);
            assert(c.push(e).last() == e);
        } else {
            assert(callable(es.take(i + 1)) == callable(es.take(i as int)));
        }
        i += 1;
    }
    assert(es.take(entries.len() as int) =~= es);
    signatures
}

/// The first signature with more than `ap` parameters, else the last one.
fn active_signature(sigs: &Vec<SignatureInformation>, ap: usize) -> (r: usize)
    requires
        sigs.len() > 0,
    ensures
        r == (match first_fitting(sig_views(sigs@), ap as int, 0) {
            Some(i) => i,
            None => sigs.len() - 1,
        }),
{
    let ghost sv = sig_views(sigs@);
    let mut act: usize = 0;
    while act < sigs.len() && sigs[act].parameters.len() <= ap
        invariant
            act <= sigs.len(),
            sv == sig_views(sigs@),
            first_fitting(sv, ap as int, act as int) == first_fitting(sv, ap as int, 0),
        decreases sigs.len() - act,
    {
        assert(sv[act as int].params.len() == sigs@[act as int].parameters@.len());
        act += 1;
    }
    proof {
        if act < sigs.len() {
            assert(sv[act as int].params.len() == sigs@[act as int].parameters@.len());
        }
    }
    if act < sigs.len() {
        act
    } else {
        sigs.len() - 1
    }
}

/// Signature help for the call enclosing `pos` in `text`.
pub fn signature_help(text: &str, pos: Position) -> (r: Option<SignatureHelp>)
    requires
        text@.len() < usize::MAX,
    ensures
        r is None <==> help_at(text@, pos) is None,
        r matches Some(h) ==> help_at(text@, pos) matches Some(v) && sig_views(h.signatures@)
            == v.sigs && h.active_signature == v.active_signature && h.active_parameter
            == v.active_parameter,
{
    let chars = chars_of(text);
    let offset = char_offset(&chars, pos);
    let in_string = string_literal_mask(&chars);
    let ghost at = if offset < chars.len() {
        offset as int
    } else {
        chars.len() as int
    };
    proof {
        lemma_call_open(chars@, in_string@, at, 0);
    }
    let open = match enclosing_call_open(&chars, &in_string, offset) {
        Some(o) => o,
        None => return None,
    };
    assert(call_open(text@, literal_mask(text@), at, 0) == Some(open as int));
    let active_parameter = top_level_commas(&chars, &in_string, open + 1, offset);
    let start = start_of_word(&chars, open);
    if start == open {
        return None;
    }
    let name_chars = sub_chars(&chars, start, open);
    let name = string_of(&name_chars);
    assert(ident_before(text@, open as int) == Some(name@));
    let signatures = callee_signatures(name.as_str());
    if signatures.len() == 0 {
        return None;
    }
    let chosen = active_signature(&signatures, active_parameter);
    proof {
        lemma_first_fitting(sig_views(signatures@), active_parameter as int, 0);
    }
    Some(
        SignatureHelp {
            signatures,
            active_signature: Some(chosen as u32),
            active_parameter: Some(active_parameter as u32),
        },
    )
}

// ---------------------------------------------------------------------------
// Near-miss names
// ---------------------------------------------------------------------------

/// A near miss on a known name is reported only within this edit distance.
pub const EDIT_DISTANCE_THRESHOLD: usize = 2;

/// The least of three numbers.
pub open spec fn min3(x: nat, y: nat, z: nat) -> nat {
    if x <= y && x <= z {
        x
    } else if y <= z {
        y
    } else {
        z
    }
}

/// The Levenshtein edit distance between `a` and `b`: the fewest single
/// character insertions, deletions and substitutions that turn one into the
/// other.
pub open spec fn lev(a: Seq<char>, b: Seq<char>) -> nat
    decreases a.len() + b.len(),
{
    if a.len() == 0 {
        b.len()
    } else if b.len() == 0 {
        a.len()
    } else {
        min3(
            lev(a.drop_last(), b) + 1,
            lev(a, b.drop_last()) + 1,
            lev(a.drop_last(), b.drop_last()) + if a.last() == b.last() {
                0nat
            } else {
                1nat
            },
        )
    }
}

/// The distance is never more than the longer of the two.
pub proof fn lemma_lev_bound(a: Seq<char>, b: Seq<char>)
    ensures
        lev(a, b) <= a.len() || lev(a, b) <= b.len(),
        lev(a, b) <= a.len() + b.len(),
    decreases a.len() + b.len(),
{
    if a.len() > 0 && b.len() > 0 {
        lemma_lev_bound(a.drop_last(), b.drop_last());
        lemma_lev_bound(a.drop_last(), b);
    }
}

/// Levenshtein edit distance between two strings, counted in characters.
pub fn levenshtein(a: &str, b: &str) -> (r: usize)
    ensures
        r == lev(a@, b@),
{
    let x = chars_of(a);
    let y = chars_of(b);
    let m = y.len();
    let mut prev: Vec<u128> = Vec::new();
    prev.push(0);
    let mut j: usize = 0;
    while j < m
        invariant
            j <= m,
            m == y@.len(),
            prev@.len() == j + 1,
            forall|k: int| 0 <= k <= j ==> prev@[k] == lev(Seq::<char>::empty(), y@.take(k)),
        decreases m - j,
    {
        prev.push((j + 1) as u128);
        j += 1;
    }
    let mut i: usize = 0;
    while i < x.len()
        invariant
            i <= x.len(),
            m == y@.len(),
            prev@.len() == m + 1,
            forall|k: int| 0 <= k <= m ==> prev@[k] == lev(x@.take(i as int), y@.take(k)),
        decreases x.len() - i,
    {
        let ghost a = x@.take(i + 1);
        assert(a.drop_last() =~= x@.take(i as int));
        let mut cur: Vec<u128> = Vec::new();
        cur.push((i + 1) as u128);
        let mut j: usize = 0;
        while j < m
            invariant
                i < x.len(),
                j <= m,
                m == y@.len(),
                a == x@.take(i + 1),
                a.drop_last() == x@.take(i as int),
                prev@.len() == m + 1,
                forall|k: int| 0 <= k <= m ==> prev@[k] == lev(x@.take(i as int), y@.take(k)),
                cur@.len() == j + 1,
                forall|k: int| 0 <= k <= j ==> cur@[k] == lev(a, y@.take(k)),
            decreases m - j,
        {
            let ghost b = y@.take(j + 1);
            assert(b.drop_last() =~= y@.take(j as int));
            proof {
                lemma_lev_bound(x@.take(i as int), y@.take(j + 1));
                lemma_lev_bound(a, y@.take(j as int));
                lemma_lev_bound(x@.take(i as int), y@.take(j as int));
            }
            let cost: u128 = if x[i] == y[j] {
                0
            } else {
                1
            };
            let up = prev[j + 1] + 1;
            let left = cur[j] + 1;
            let diag = prev[j] + cost;
            let best = if up <= left && up <= diag {
                up
            } else if left <= diag {
                left
            } else {
                diag
            };
            assert(a.last() == x@[i as int]);
            assert(b.last() == y@[j as int]);
            assert(lev(a, b) == best);
            cur.push(best);
            j += 1;
        }
        prev = cur;
        i += 1;
    }
    assert(x@.take(x.len() as int) =~= x@);
    assert(y@.take(m as int) =~= y@);
    proof {
        lemma_lev_bound(x@, y@);
    }
    prev[m] as usize
}

/// The nearest name among the catalog entries `es` within the threshold
/// (and not equal to `name`), with its distance: the first entry with the
/// least such distance.
pub open spec fn nearest_in(name: Seq<char>, es: Seq<ScriptApi>) -> Option<(&'static str, nat)>
    decreases es.len(),
{
    if es.len() == 0 {
        None
    } else {
        let prev = nearest_in(name, es.drop_last());
        let e = es.last();
        let d = lev(name, e.name@);
        if d == 0 || d > EDIT_DISTANCE_THRESHOLD {
            prev
        } else {
            match prev {
                None => Some((e.name, d)),
                Some(p) => if d < p.1 {
                    Some((e.name, d))
                } else {
                    prev
                },
            }
        }
    }
}

/// The nearest catalog name to `name` within the threshold.
pub open spec fn nearest_name(name: Seq<char>) -> Option<&'static str> {
    match nearest_in(name, catalog()) {
        Some(p) => Some(p.0),
        None => None,
    }
}

/// The nearest catalog name to `name` within `EDIT_DISTANCE_THRESHOLD`, or
/// `None` when nothing is close enough.
pub fn nearest_known_name(name: &str) -> (r: Option<&'static str>)
    ensures
        r == nearest_name(name@),
{
    let mut best: Option<(&'static str, usize)> = None;
    let mut i: usize = 0;
    let ghost cat = catalog();
    while i < CATALOG_LEN
        invariant
            i <= CATALOG_LEN,
            cat == catalog(),
            best == (match nearest_in(name@, cat.take(i as int)) {
                Some(p) => Some((p.0, p.1 as usize)),
                None => None::<(&'static str, usize)>,
            }),
            nearest_in(name@, cat.take(i as int)) matches Some(p) ==> p.1 <= EDIT_DISTANCE_THRESHOLD,
        decreases CATALOG_LEN - i,
    {
        let e = entry(i);
        assert(cat.take(i + 1).drop_last() =~= cat.take(i as int));
        assert(cat.take(i + 1).last() == e);
        let d = levenshtein(name, e.name);
        if d != 0 && d <= EDIT_DISTANCE_THRESHOLD {
            let better = match best {
                None => true,
                Some((_, bd)) => d < bd,
            };
            if better {
                best = Some((e.name, d));
            }
        }
        i += 1;
    }
    assert(cat.take(CATALOG_LEN as int) =~= cat);
    match best {
        Some((n, _)) => Some(n),
        None => None,
    }
}

// ---------------------------------------------------------------------------
// Script lints
// ---------------------------------------------------------------------------

/// A place in a script as the script engine reports it: a 1-based line and
/// column, either of which may be missing.
#[derive(Debug, Clone, Copy)]
pub struct SourcePos {
    pub line: Option<u16>,
    pub column: Option<u16>,
}

/// A call the script makes, by name, where the engine saw it.
#[derive(Debug, Clone)]
pub struct CallSite {
    pub name: String,
    pub pos: SourcePos,
}

/// How serious a finding is.
#[derive(Debug, Clone, Copy, PartialEq, Eq, Structural)]
pub enum Severity {
    /// The script does not compile.
    Error,
    /// Advice.
    Hint,
}

/// A finding about a script: where, how serious, the rule it comes from (if
/// any), and what it says.
#[derive(Debug, Clone)]
pub struct ScriptDiagnostic {
    pub range: Range,
    pub severity: Severity,
    pub code: Option<String>,
    pub message: String,
}

/// A finding as plain values.
pub struct DiagView {
    pub range: Range,
    pub severity: Severity,
    pub code: Option<Seq<char>>,
    pub message: Seq<char>,
}

/// A finding's view.
pub open spec fn diag_view(d: ScriptDiagnostic) -> DiagView {
    DiagView {
        range: d.range,
        severity: d.severity,
        code: match d.code {
            Some(c) => Some(c@),
            None => None,
        },
        message: d.message@,
    }
}

/// The views of a sequence of findings.
pub open spec fn diag_views(v: Seq<ScriptDiagnostic>) -> Seq<DiagView> {
    v.map_values(|d: ScriptDiagnostic| diag_view(d))
}

/// The rule for a mapped script without a `custom` function.
pub const MISSING_CUSTOM: &'static str = "missing-custom";

/// The rule for a statement outside every function.
pub const TOP_LEVEL_STATEMENT: &'static str = "top-level-statement";

/// The rule for a `custom` function that takes other than two arguments.
pub const CUSTOM_ARITY: &'static str = "custom-arity";

/// The rule for a call that nearly names a host function.
pub const UNKNOWN_HOST_FUNCTION: &'static str = "unknown-host-function";

/// A 1-based coordinate as a 0-based one, a missing one counting as the
/// first.
pub open spec fn zero_based(x: Option<u16>) -> int {
    match x {
        Some(v) => if v >= 1 {
            v - 1
        } else {
            0
        },
        None => 0,
    }
}

/// The one-character range at an engine position.
pub open spec fn pos_range(p: SourcePos) -> Range {
    span(zero_based(p.line), zero_based(p.column), zero_based(p.column) + 1)
}

/// A 1-based coordinate as a 0-based one.
fn zero_based_of(x: Option<u16>) -> (r: usize)
    ensures
        r == zero_based(x),
        r < 65535,
{
    match x {
        Some(v) => if v >= 1 {
            (v - 1) as usize
        } else {
            0
        },
        None => 0,
    }
}

/// The one-character range at an engine position.
fn rhai_pos_range(p: SourcePos) -> (r: Range)
    ensures
        r == pos_range(p),
{
    let line = zero_based_of(p.line);
    let col = zero_based_of(p.column);
    span_of(line, col, col + 1)
}

/// The finding for a script that does not compile: the engine's message at
/// the place it reports.
pub fn parse_error_diagnostic(message: &str, pos: SourcePos) -> (r: ScriptDiagnostic)
    ensures
        diag_view(r) == (DiagView {
            range: pos_range(pos),
            severity: Severity::Error,
            code: None,
            message: message@,
        }),
{
    ScriptDiagnostic {
        range: rhai_pos_range(pos),
        severity: Severity::Error,
        code: None,
        message: string_of(&chars_of(message)),
    }
}

/// The range of a call's name: `name` found on the reported line from the
/// reported column on, else anywhere on that line, else assumed to start at
/// the reported column.
pub open spec fn call_range(text: Seq<char>, p: SourcePos, name: Seq<char>) -> Range {
    let ln = zero_based(p.line);
    let col = zero_based(p.column);
    let ls = lines(text);
    let fallback = span(ln, col, col + name.len());
    if ln < ls.len() {
        let c = ls[ln];
        let from = if col < c.len() {
            col
        } else {
            c.len() as int
        };
        match occurrence(c, name, from) {
            Some(i) => span(ln, i, i + name.len()),
            None => match occurrence(c, name, 0) {
                Some(i) => span(ln, i, i + name.len()),
                None => fallback,
            },
        }
    } else {
        fallback
    }
}

/// A call expression's range, widened to its name's own length.
fn call_name_range(text: &[char], p: SourcePos, name: &str) -> (r: Range)
    ensures
        r == call_range(text@, p, name@),
{
    let ln = zero_based_of(p.line);
    let col = zero_based_of(p.column);
    let count = chars_of(name).len();
    let ls = lines_of(text);
    let ghost all = vviews(ls@);
    if ln < ls.len() {
        let c = &ls[ln];
        assert(all[ln as int] == c@);
        let from = if col < c.len() {
            col
        } else {
            c.len()
        };
        if let Some(i) = find_char_substring(c, from, name) {
            return span_to(ln, i, i, count);
        }
        if let Some(i) = find_char_substring(c, 0, name) {
            return span_to(ln, i, i, count);
        }
    }
    span_to(ln, col, col, count)
}

/// The first of `fns` named `custom`, with its arity.
pub open spec fn custom_arity(fns: Seq<(Seq<char>, usize)>) -> Option<usize>
    decreases fns.len(),
{
    if fns.len() == 0 {
        None
    } else if fns[0].0 == "custom"@ {
        Some(fns[0].1)
    } else {
        custom_arity(fns.drop_first())
    }
}

/// The message for a `custom` of the wrong arity.
pub open spec fn arity_message(arity: usize) -> Seq<char> {
    "the host calls `custom` with exactly two arguments (ints, texts); this one declares "@
        + decimal(arity as nat)
}

/// The findings about the `custom` entry point: missing from a script a
/// mapping points at, or declared with other than two parameters.
pub open spec fn custom_findings(text: Seq<char>, is_mapped: bool, fns: Seq<(Seq<char>, usize)>) -> Seq<DiagView> {
    match custom_arity(fns) {
        None => if is_mapped {
            seq![
                DiagView {
                    range: span(0, 0, 0),
                    severity: Severity::Hint,
                    code: Some(MISSING_CUSTOM@),
                    message: "a pseudo-op mapping points at this script, but it defines no `custom(ints, texts)` function"@,
                },
            ]
        } else {
            Seq::empty()
        },
        Some(a) => if a != 2 {
            match def_range(text, "custom"@) {
                Some(r) => seq![
                    DiagView {
                        range: r,
                        severity: Severity::Hint,
                        code: Some(CUSTOM_ARITY@),
                        message: arity_message(a),
                    },
                ],
                None => Seq::empty(),
            }
        } else {
            Seq::empty()
        },
    }
}

/// The finding about a statement outside every function, at the first one.
pub open spec fn top_level_findings(first: Option<SourcePos>) -> Seq<DiagView> {
    match first {
        Some(p) => seq![
            DiagView {
                range: pos_range(p),
                severity: Severity::Hint,
                code: Some(TOP_LEVEL_STATEMENT@),
                message: "a statement outside every `fn` never runs \u{2014} `custom` is called without evaluating the script body first"@,
            },
        ],
        None => Seq::empty(),
    }
}

/// The message for a call that nearly names `nearest`.
pub open spec fn near_miss_message(name: Seq<char>, nearest: Seq<char>) -> Seq<char> {
    "`"@ + name
        + "` is not a script-local `fn` or a known host function \u{2014} did you mean `"@
        + nearest + "`?"@
}

/// The names of the script's own functions.
pub open spec fn fn_names(fns: Seq<(Seq<char>, usize)>) -> Seq<Seq<char>> {
    fns.map_values(|f: (Seq<char>, usize)| f.0)
}

/// The finding for one call, before duplicates are dropped: a call that is
/// neither to a script-local function nor to a catalogued name, and that is
/// near a catalogued name.
pub open spec fn call_finding(text: Seq<char>, locals: Seq<Seq<char>>, name: Seq<char>, p: SourcePos) -> Option<DiagView> {
    if locals.contains(name) || named(catalog(), name, false).len() > 0 {
        None
    } else {
        match nearest_name(name) {
            None => None,
            Some(n) => Some(
                DiagView {
                    range: call_range(text, p, name),
                    severity: Severity::Hint,
                    code: Some(UNKNOWN_HOST_FUNCTION@),
                    message: near_miss_message(name, n@),
                },
            ),
        }
    }
}

/// The call views: name and place.
pub open spec fn call_views(calls: Seq<CallSite>) -> Seq<(Seq<char>, SourcePos)> {
    calls.map_values(|c: CallSite| (c.name@, c.pos))
}

/// The findings for the calls `calls`, in order, each with the name it is
/// about; a call whose name and start match an earlier finding adds none.
pub open spec fn call_findings(text: Seq<char>, locals: Seq<Seq<char>>, calls: Seq<(Seq<char>, SourcePos)>) -> Seq<(Seq<char>, DiagView)>
    decreases calls.len(),
{
    if calls.len() == 0 {
        Seq::empty()
    } else {
        let prev = call_findings(text, locals, calls.drop_last());
        let c = calls.last();
        match call_finding(text, locals, c.0, c.1) {
            None => prev,
            Some(d) => if exists|k: int|
                0 <= k < prev.len() && #[trigger] prev[k].0 == c.0 && prev[k].1.range.start
                    == d.range.start {
                prev
            } else {
                prev.push((c.0, d))
            },
        }
    }
}

/// Every finding about a script that compiled: the entry-point findings,
/// the top-level statement finding, then the near misses.
pub open spec fn lint_findings(
    text: Seq<char>,
    is_mapped: bool,
    fns: Seq<(Seq<char>, usize)>,
    first: Option<SourcePos>,
    calls: Seq<(Seq<char>, SourcePos)>,
) -> Seq<DiagView> {
    custom_findings(text, is_mapped, fns) + top_level_findings(first) + call_findings(
        text,
        fn_names(fns),
        calls,
    ).map_values(|x: (Seq<char>, DiagView)| x.1)
}

/// The views of the script's own functions.
pub open spec fn fn_views(fns: Seq<(String, usize)>) -> Seq<(Seq<char>, usize)> {
    fns.map_values(|f: (String, usize)| (f.0@, f.1))
}

/// A finding with these parts.
fn make_diag(range: Range, severity: Severity, code: &str, message: Vec<char>) -> (r: ScriptDiagnostic)
    ensures
        diag_view(r) == (DiagView { range, severity, code: Some(code@), message: message@ }),
{
    ScriptDiagnostic {
        range,
        severity,
        code: Some(string_of(&chars_of(code))),
        message: string_of(&message),
    }
}

/// The arity of the first function named `custom`.
fn find_custom(fns: &Vec<(String, usize)>) -> (r: Option<usize>)
    ensures
        r == custom_arity(fn_views(fns@)),
{
    let ghost fv = fn_views(fns@);
    let mut i: usize = 0;
    assert(fv.skip(0) =~= fv);
    while i < fns.len()
        invariant
            i <= fns.len(),
            fv == fn_views(fns@),
            custom_arity(fv.skip(i as int)) == custom_arity(fv),
        decreases fns.len() - i,
    {
        assert(fv.skip(i as int)[0] == (fns@[i as int].0@, fns@[i as int].1));
        assert(fv.skip(i as int).drop_first() =~= fv.skip(i + 1));
        if str_eq(fns[i].0.as_str(), "custom") {
            return Some(fns[i].1);
        }
        i += 1;
    }
    None
}

/// The findings about the `custom` entry point.
fn custom_diagnostics(text: &str, is_mapped: bool, fns: &Vec<(String, usize)>, out: &mut Vec<ScriptDiagnostic>)
    ensures
        diag_views(final(out)@) == diag_views(old(out)@) + custom_findings(text@, is_mapped, fn_views(fns@)),
{
    let found = find_custom(fns);
    let ghost before = diag_views(out@);
    match found {
        None => {
            if is_mapped {
                let d = make_diag(
                    span_of(0, 0, 0),
                    Severity::Hint,
                    MISSING_CUSTOM,
                    chars_of("a pseudo-op mapping points at this script, but it defines no `custom(ints, texts)` function"),
                );
                out.push(d);
                assert(diag_views(out@) =~= before.push(diag_view(d)));
            } else {
                assert(diag_views(out@) =~= before + Seq::<DiagView>::empty());
            }
        },
        Some(arity) => {
            if arity != 2 {
                match local_definition(text, "custom") {
                    Some(range) => {
                        let mut m = chars_of("the host calls `custom` with exactly two arguments (ints, texts); this one declares ");
                        push_decimal(&mut m, arity as u64);
                        let d = make_diag(range, Severity::Hint, CUSTOM_ARITY, m);
                        out.push(d);
                        assert(diag_views(out@) =~= before.push(diag_view(d)));
                    },
                    None => {
                        assert(diag_views(out@) =~= before + Seq::<DiagView>::empty());
                    },
                }
            } else {
                assert(diag_views(out@) =~= before + Seq::<DiagView>::empty());
            }
        },
    }
}

/// Whether `name` is one of the script's own functions.
fn is_local(fns: &Vec<(String, usize)>, name: &str) -> (r: bool)
    ensures
        r == fn_names(fn_views(fns@)).contains(name@),
{
    let ghost ns = fn_names(fn_views(fns@));
    let mut i: usize = 0;
    while i < fns.len()
        invariant
            i <= fns.len(),
            ns == fn_names(fn_views(fns@)),
            ns.len() == fns.len(),
            forall|k: int| 0 <= k < i ==> ns[k] != name@,
        decreases fns.len() - i,
    {
        assert(ns[i as int] == fns@[i as int].0@);
        if str_eq(fns[i].0.as_str(), name) {
            assert(ns[i as int] == name@);
            return true;
        }
        i += 1;
    }
    false
}

/// Whether an earlier finding about `name` starts where `range` does.
fn already_reported(names: &Vec<String>, found: &Vec<ScriptDiagnostic>, name: &str, range: Range) -> (r: bool)
    requires
        names.len() == found.len(),
    ensures
        r == exists|k: int|
            0 <= k < names.len() && #[trigger] names@[k]@ == name@ && found@[k].range.start
                == range.start,
{
    let mut j: usize = 0;
    while j < names.len()
        invariant
            j <= names.len(),
            names.len() == found.len(),
            forall|k: int|
                0 <= k < j ==> !(#[trigger] names@[k]@ == name@ && found@[k].range.start
                    == range.start),
        decreases names.len() - j,
    {
        if str_eq(names[j].as_str(), name) && found[j].range.start == range.start {
            return true;
        }
        j += 1;
    }
    false
}

/// The findings for the calls, paired with their names.
pub open spec fn paired(names: Seq<String>, found: Seq<ScriptDiagnostic>) -> Seq<(Seq<char>, DiagView)> {
    Seq::new(names.len(), |k: int| (names[k]@, diag_view(found[k])))
}

/// The near-miss findings for `calls`.
fn call_diagnostics(text: &[char], fns: &Vec<(String, usize)>, calls: &Vec<CallSite>) -> (r: Vec<ScriptDiagnostic>)
    ensures
        diag_views(r@) == call_findings(text@, fn_names(fn_views(fns@)), call_views(calls@)).map_values(
            |x: (Seq<char>, DiagView)| x.1,
        ),
{
    let ghost locals = fn_names(fn_views(fns@));
    let ghost cv = call_views(calls@);
    let mut names: Vec<String> = Vec::new();
    let mut found: Vec<ScriptDiagnostic> = Vec::new();
    let mut i: usize = 0;
    while i < calls.len()
        invariant
            i <= calls.len(),
            locals == fn_names(fn_views(fns@)),
            cv == call_views(calls@),
            names.len() == found.len(),
            paired(names@, found@) == call_findings(text@, locals, cv.take(i as int)),
        decreases calls.len() - i,
    {
        let ghost prev = call_findings(text@, locals, cv.take(i as int));
        assert(cv.take(i + 1).drop_last() =~= cv.take(i as int));
        assert(cv.take(i + 1).last() == (calls@[i as int].name@, calls@[i as int].pos));
        let name = calls[i].name.as_str();
        let pos = calls[i].pos;
        let skip = is_local(fns, name) || lookup(name).len() > 0;
        if !skip {
            match nearest_known_name(name) {
                Some(n) => {
                    let range = call_name_range(text, pos, name);
                    let dup = already_reported(&names, &found, name, range);
                    let ghost d = DiagView {
                        range,
                        severity: Severity::Hint,
                        code: Some(UNKNOWN_HOST_FUNCTION@),
                        message: near_miss_message(name@, n@),
                    };
                    assert(call_finding(text@, locals, name@, pos) == Some(d));
                    if dup {
                        let ghost k = choose|k: int|
                            0 <= k < names.len() && #[trigger] names@[k]@ == name@
                                && found@[k].range.start == range.start;
                        assert(prev[k].0 == name@ && prev[k].1.range.start == d.range.start);
                    } else {
                        assert forall|k: int| 0 <= k < prev.len() implies !(#[trigger] prev[k].0
                            == name@ && prev[k].1.range.start == d.range.start) by {
                            assert(prev[k] == (names@[k]@, diag_view(found@[k])));
                        }
                        let mut m = chars_of("`");
                        push_str(&mut m, name);
                        push_str(
                            &mut m,
                            "` is not a script-local `fn` or a known host function \u{2014} did you mean `",
                        );
                        push_str(&mut m, n);
                        push_str(&mut m, "`?");
                        let diag = make_diag(range, Severity::Hint, UNKNOWN_HOST_FUNCTION, m);
                        let ghost before_n = names@;
                        let ghost before_f = found@;
                        names.push(string_of(&chars_of(name)));
                        found.push(diag);
                        assert(paired(names@, found@) =~= paired(before_n, before_f).push(
                            (name@, d),
                        ));
                    }
                },
                None => {},
            }
        }
        i += 1;
    }
    assert(cv.take(calls.len() as int) =~= cv);
    assert(diag_views(found@) =~= paired(names@, found@).map_values(
        |x: (Seq<char>, DiagView)| x.1,
    ));
    found
}

/// Findings for a script that compiled, from what the script engine reports
/// of it: its own functions with their parameter counts, where its first
/// statement outside every function stands, and every call it makes with
/// where it stands. `is_mapped` tells whether a pseudo-op mapping points at
/// the script.
pub fn lint_script(
    text: &str,
    is_mapped: bool,
    fns: &Vec<(String, usize)>,
    first_statement: Option<SourcePos>,
    calls: &Vec<CallSite>,
) -> (r: Vec<ScriptDiagnostic>)
    ensures
        diag_views(r@) == lint_findings(
            text@,
            is_mapped,
            fn_views(fns@),
            first_statement,
            call_views(calls@),
        ),
{
    let t = chars_of(text);
    let mut out: Vec<ScriptDiagnostic> = Vec::new();
    custom_diagnostics(text, is_mapped, fns, &mut out);
    let ghost mid = diag_views(out@);
    match first_statement {
        Some(p) => {
            let d = make_diag(
                rhai_pos_range(p),
                Severity::Hint,
                TOP_LEVEL_STATEMENT,
                chars_of(
                    "a statement outside every `fn` never runs \u{2014} `custom` is called without evaluating the script body first",
                ),
            );
            out.push(d);
            assert(diag_views(out@) =~= mid.push(diag_view(d)));
        },
        None => {
            assert(diag_views(out@) =~= mid + Seq::<DiagView>::empty());
        },
    }
    let ghost head = diag_views(out@);
    let mut more = call_diagnostics(&t, fns, calls);
    let ghost added = more@;
    out.append(&mut more);
    assert(diag_views(out@) =~= head + diag_views(added));
    assert(diag_views(out@) =~= lint_findings(
        text@,
        is_mapped,
        fn_views(fns@),
        first_statement,
        call_views(calls@),
    ));
    out
}

// ---------------------------------------------------------------------------
// Script-local function names
// ---------------------------------------------------------------------------

/// The name a `fn NAME` declaration on `line` declares: the identifier after
/// the first `fn ` and any white space; `None` when there is none.
pub open spec fn decl_name(line: Seq<char>) -> Option<Seq<char>> {
    match find(line, "fn "@) {
        None => None,
        Some(i) => {
            let rest = trim_start(line.skip(i + 3));
            let n = word_end(rest, 0);
            if n == 0 {
                None
            } else {
                Some(rest.take(n))
            }
        },
    }
}

/// The names declared on the lines `ls`, in order.
pub open spec fn decl_names(ls: Seq<Seq<char>>) -> Seq<Seq<char>>
    decreases ls.len(),
{
    if ls.len() == 0 {
        Seq::empty()
    } else {
        match decl_name(ls.last()) {
            Some(n) => decl_names(ls.drop_last()).push(n),
            None => decl_names(ls.drop_last()),
        }
    }
}

/// The function name declared by a `fn NAME(` on `line`, if any.
pub fn fn_name_on_line(line: &[char]) -> (r: Option<String>)
    ensures
        r matches Some(s) ==> decl_name(line@) == Some(s@),
        r is None ==> decl_name(line@) is None,
{
    let kw = chars_of("fn ");
    proof {
        reveal_strlit("fn ");
    }
    assert(kw@.len() == 3);
    let idx = match find_at(line, &kw, 0) {
        Some(i) => i,
        None => return None,
    };
    let after = sub_chars(line, idx + 3, line.len());
    assert(after@ =~= line@.skip(idx + 3));
    let rest = trim_start_vec(&after);
    let n = end_of_word(&rest, 0);
    if n == 0 {
        return None;
    }
    let name = sub_chars(&rest, 0, n);
    assert(name@ =~= rest@.take(n as int));
    Some(string_of(&name))
}

/// Script-local function names in `text`, from a scan of `fn NAME(`
/// declarations, line by line.
pub fn local_fn_names(text: &str) -> (r: Vec<String>)
    ensures
        sviews(r@) == decl_names(lines(text@)),
{
    let t = chars_of(text);
    let ls = lines_of(&t);
    let ghost all = vviews(ls@);
    let mut out: Vec<String> = Vec::new();
    let mut i: usize = 0;
    while i < ls.len()
        invariant
            i <= ls.len(),
            all == vviews(ls@),
            sviews(out@) == decl_names(all.take(i as int)),
        decreases ls.len() - i,
    {
        assert(all.take(i + 1).drop_last() =~= all.take(i as int));
        assert(all.take(i + 1).last() == ls@[i as int]@);
        let ghost prev = out@;
        match fn_name_on_line(&ls[i]) {
            Some(n) => {
                out.push(n);
                assert(sviews(out@) =~= sviews(prev).push(n@));
            },
            None => {},
        }
        i += 1;
    }
    assert(all.take(ls.len() as int) =~= all);
    out
}

// ---------------------------------------------------------------------------
// Folding
// ---------------------------------------------------------------------------

/// What a foldable region is.
#[derive(Debug, Clone, Copy, PartialEq, Eq, Structural)]
pub enum FoldKind {
    /// A run of comment lines.
    Comment,
    /// A function body.
    Region,
}

/// A foldable span of whole lines.
#[derive(Debug, Clone, Copy, PartialEq, Eq, Structural)]
pub struct Fold {
    pub start_line: u32,
    pub end_line: u32,
    pub kind: FoldKind,
}

/// The fold from line `s` to line `e`.
pub open spec fn fold_of(s: int, e: int, kind: FoldKind) -> Fold {
    Fold { start_line: s as u32, end_line: e as u32, kind }
}

/// The comment fold over lines `s..=e`, when it spans more than one line.
pub open spec fn comment_fold(s: int, e: int) -> Seq<Fold> {
    if e > s {
        seq![fold_of(s, e, FoldKind::Comment)]
    } else {
        Seq::empty()
    }
}

/// The folds of the runs of comment lines among `ls` from line `i` on, a run
/// having begun at `run` when there is one.
pub open spec fn comment_folds(ls: Seq<Seq<char>>, i: int, run: Option<int>) -> Seq<Fold>
    decreases ls.len() - i,
{
    if i < 0 || i >= ls.len() {
        match run {
            Some(s) => comment_fold(s, ls.len() - 1),
            None => Seq::empty(),
        }
    } else if comment_line(ls[i]) {
        comment_folds(
            ls,
            i + 1,
            if run is Some {
                run
            } else {
                Some(i)
            },
        )
    } else {
        match run {
            Some(s) => comment_fold(s, i - 1) + comment_folds(ls, i + 1, None),
            None => comment_folds(ls, i + 1, None),
        }
    }
}

/// The function-body folds of `ls` from character `j` of line `i` on, with
/// the open braces `stack` (each with its line and whether that line declares
/// a function): a `}` closing a brace opened on an earlier line that declares
/// a function folds the lines between.
pub open spec fn brace_folds(ls: Seq<Seq<char>>, i: int, j: int, stack: Seq<(int, bool)>) -> Seq<Fold>
    decreases ls.len() - i, ls[i].len() - j,
{
    if i < 0 || i >= ls.len() {
        Seq::empty()
    } else if j < 0 || j >= ls[i].len() {
        brace_folds(ls, i + 1, 0, stack)
    } else if ls[i][j] == '{' {
        brace_folds(ls, i, j + 1, stack.push((i, find(ls[i], "fn "@) is Some)))
    } else if ls[i][j] == '}' && stack.len() > 0 {
        let top = stack.last();
        (if top.1 && i > top.0 {
            seq![fold_of(top.0, i, FoldKind::Region)]
        } else {
            Seq::empty()
        }) + brace_folds(ls, i, j + 1, stack.drop_last())
    } else {
        brace_folds(ls, i, j + 1, stack)
    }
}

/// The foldable regions of a script: each function's brace-delimited body,
/// then the runs of two or more comment lines.
pub open spec fn script_folds(text: Seq<char>) -> Seq<Fold> {
    brace_folds(lines(text), 0, 0, Seq::empty()) + comment_folds(lines(text), 0, None)
}

/// Append the comment fold over lines `s..=e`.
fn push_comment_fold(out: &mut Vec<Fold>, s: usize, e: usize)
    ensures
        final(out)@ == old(out)@ + comment_fold(s as int, e as int),
{
    if e > s {
        out.push(Fold { start_line: s as u32, end_line: e as u32, kind: FoldKind::Comment });
    } else {
        assert(old(out)@ + Seq::<Fold>::empty() =~= old(out)@);
    }
}

/// The folds of the comment runs of `ls`.
fn comment_run_folds(ls: &Vec<Vec<char>>) -> (r: Vec<Fold>)
    ensures
        r@ == comment_folds(vviews(ls@), 0, None),
{
    let ghost all = vviews(ls@);
    let mut out: Vec<Fold> = Vec::new();
    let mut run: Option<usize> = None;
    let mut i: usize = 0;
    while i < ls.len()
        invariant
            i <= ls.len(),
            all == vviews(ls@),
            run matches Some(s) ==> s < i,
            out@ + comment_folds(
                all,
                i as int,
                match run {
                    Some(s) => Some(s as int),
                    None => None::<int>,
                },
            ) == comment_folds(all, 0, None),
        decreases ls.len() - i,
    {
        assert(all[i as int] == ls@[i as int]@);
        if is_comment_line(&ls[i]) {
            if run.is_none() {
                run = Some(i);
            }
        } else {
            match run {
                Some(s) => {
                    let ghost before = out@;
                    push_comment_fold(&mut out, s, i - 1);
                    assert(out@ + comment_folds(all, i + 1, None) =~= before + (comment_fold(
                        s as int,
                        i - 1,
                    ) + comment_folds(all, i + 1, None)));
                    run = None;
                },
                None => {},
            }
        }
        i += 1;
    }
    match run {
        Some(s) => {
            let ghost before = out@;
            push_comment_fold(&mut out, s, ls.len() - 1);
        },
        None => {
            assert(out@ + Seq::<Fold>::empty() =~= out@);
        },
    }
    out
}

/// The function-body folds of `ls`.
fn fn_body_folds(ls: &Vec<Vec<char>>) -> (r: Vec<Fold>)
    ensures
        r@ == brace_folds(vviews(ls@), 0, 0, Seq::empty()),
{
    let ghost all = vviews(ls@);
    let kw = chars_of("fn ");
    let mut out: Vec<Fold> = Vec::new();
    let mut stack: Vec<(usize, bool)> = Vec::new();
    assert(stack@.map_values(|p: (usize, bool)| (p.0 as int, p.1)) =~= Seq::<(int, bool)>::empty());
    let mut i: usize = 0;
    while i < ls.len()
        invariant
            i <= ls.len(),
            all == vviews(ls@),
            kw@ == "fn "@,
            forall|k: int| 0 <= k < stack@.len() ==> #[trigger] stack@[k].0 < i,
            out@ + brace_folds(all, i as int, 0, stack@.map_values(|p: (usize, bool)| (p.0 as int, p.1)))
                == brace_folds(all, 0, 0, Seq::empty()),
        decreases ls.len() - i,
    {
        let line = &ls[i];
        assert(all[i as int] == line@);
        let is_fn = find_at(line, &kw, 0).is_some();
        let mut j: usize = 0;
        while j < line.len()
            invariant
                i < ls.len(),
                j <= line.len(),
                all == vviews(ls@),
                all[i as int] == line@,
                kw@ == "fn "@,
                is_fn == (find(line@, "fn "@) is Some),
                forall|k: int| 0 <= k < stack@.len() ==> #[trigger] stack@[k].0 <= i,
                out@ + brace_folds(all, i as int, j as int, stack@.map_values(|p: (usize, bool)| (p.0 as int, p.1)))
                    == brace_folds(all, 0, 0, Seq::empty()),
            decreases line.len() - j,
        {
            let ghost sv = stack@.map_values(|p: (usize, bool)| (p.0 as int, p.1));
            let c = line[j];
            if c == '{' {
                stack.push((i, is_fn));
                assert(stack@.map_values(|p: (usize, bool)| (p.0 as int, p.1)) =~= sv.push(
                    (i as int, is_fn),
                ));
            } else if c == '}' && stack.len() > 0 {
                let top = stack.pop().unwrap();
                assert(stack@.map_values(|p: (usize, bool)| (p.0 as int, p.1)) =~= sv.drop_last());
                assert(sv.last() == (top.0 as int, top.1));
                let ghost before = out@;
                if top.1 && i > top.0 {
                    out.push(Fold { start_line: top.0 as u32, end_line: i as u32, kind: FoldKind::Region });
                } else {
                    assert(out@ =~= before + Seq::<Fold>::empty());
                }
            }
            j += 1;
        }
        i += 1;
    }
    out
}

/// Foldable regions in a script: each function's brace-delimited body, and
/// runs of two or more consecutive `//` comment lines.
pub fn folding_ranges(text: &str) -> (r: Vec<Fold>)
    ensures
        r@ == script_folds(text@),
{
    let t = chars_of(text);
    let ls = lines_of(&t);
    let mut out = fn_body_folds(&ls);
    let mut more = comment_run_folds(&ls);
    out.append(&mut more);
    out
}

// ---------------------------------------------------------------------------
// Script findings from the compiled script
// ---------------------------------------------------------------------------

/// A position as Rhai reports it: line and column, each when known.
pub type RawPos = (Option<usize>, Option<usize>);

/// What compiling script `text` with Rhai (optimizer off) gives: on
/// success, the set of the script's functions, each with its parameter names,
/// and the position of its first top-level statement; on failure, the parse
/// error's message and position.
pub uninterp spec fn rhai_outline(text: Seq<char>) -> Result<(Set<(Seq<char>, Seq<Seq<char>>)>, Option<RawPos>), (Seq<char>, RawPos)>;

/// The set of function and method calls of script `text`, each with its
/// name and position; none when it does not compile.
pub uninterp spec fn rhai_calls(text: Seq<char>) -> Set<(Seq<char>, RawPos)>;

/// Function signatures as plain values.
pub open spec fn fn_sigs(s: Seq<(String, Vec<String>)>) -> Seq<(Seq<char>, Seq<Seq<char>>)> {
    s.map_values(|f: (String, Vec<String>)| (f.0@, f.1@.map_values(|p: String| p@)))
}

/// A compile outcome as plain values, its functions as a set.
pub open spec fn outline_view(r: Result<(Vec<(String, Vec<String>)>, Option<RawPos>), (String, RawPos)>) -> Result<(Set<(Seq<char>, Seq<Seq<char>>)>, Option<RawPos>), (Seq<char>, RawPos)> {
    match r {
        Ok((fns, first)) => Ok((fn_sigs(fns@).to_set(), first)),
        Err((m, p)) => Err((m@, p)),
    }
}

/// Compile `text` with a fresh Rhai engine whose optimizer is off, so the
/// AST is the script as written (`rhai::Engine::compile`), and read off its
/// functions with their parameter names (`AST::iter_functions`) and its
/// first top-level statement's position; a parse error gives its `Display`
/// text and position. Claimed: the functions listed, taken as a set, and the
/// rest are `rhai_outline` of the text, a function of the text alone. The
/// order of the list is left open: Rhai keeps functions in a hash map whose
/// hasher is seeded at random in each process.
#[verifier::external_body]
fn compile_outline(text: &str) -> (r: Result<(Vec<(String, Vec<String>)>, Option<RawPos>), (String, RawPos)>)
    ensures
        outline_view(r) == rhai_outline(text@),
{
    let mut e = rhai::Engine::new();
    e.set_optimization_level(rhai::OptimizationLevel::None);
    match e.compile(text) {
        Ok(a) => {
            let top: &[rhai::Stmt] = a.as_ref();
            let first = top.first().map(|s| (s.position().line(), s.position().position()));
            let fns = a.iter_functions().map(|f| (f.name.to_string(), f.params.iter().map(|p| p.to_string()).collect()));
            Ok((fns.collect(), first))
        },
        Err(x) => Err((x.0.to_string(), (x.1.line(), x.1.position()))),
    }
}

/// Compile `text` as `compile_outline` does and walk its AST
/// (`AST::walk`), keeping each function or method call's name and position.
/// Claimed: the calls listed, taken as a set, are `rhai_calls` of the text;
/// nothing for a script that does not compile. The order is left open: the
/// walk visits function bodies in the order of Rhai's randomly seeded hash
/// map.
#[verifier::external_body]
fn compile_calls(text: &str) -> (r: Vec<(String, RawPos)>)
    ensures
        r@.map_values(|c: (String, RawPos)| (c.0@, c.1)).to_set() == rhai_calls(text@),
{
    let mut e = rhai::Engine::new();
    e.set_optimization_level(rhai::OptimizationLevel::None);
    let mut calls = Vec::new();
    if let Ok(a) = e.compile(text) {
        a.walk(&mut |path: &[rhai::ASTNode]| {
            if let Some(rhai::ASTNode::Expr(rhai::Expr::FnCall(c, p) | rhai::Expr::MethodCall(c, p))) = path.last() {
                calls.push((c.name.to_string(), (p.line(), p.position())));
            }
            true
        });
    }
    calls
}

/// The sort key of a function: its name, then its parameter count.
pub open spec fn fn_key(f: (Seq<char>, Seq<Seq<char>>)) -> KeyView {
    (f.0, Seq::empty(), f.1.len() as usize, 0, 0, 0)
}

/// The script's functions as name and parameter count, in key order.
pub open spec fn canon_fns(fs: Set<(Seq<char>, Seq<Seq<char>>)>) -> Seq<(Seq<char>, usize)> {
    canonical(fs.map(|f: (Seq<char>, Seq<Seq<char>>)| fn_key(f))).map_values(|k: KeyView| (k.0, k.2))
}

/// Whether an optional coordinate is there, as a number.
pub open spec fn opt_tag(o: Option<usize>) -> usize {
    match o {
        Some(_) => 1,
        None => 0,
    }
}

/// An optional coordinate's value, or zero.
pub open spec fn opt_val(o: Option<usize>) -> usize {
    match o {
        Some(v) => v,
        None => 0,
    }
}

/// The optional coordinate with this tag and value.
pub open spec fn untag(t: usize, v: usize) -> Option<usize> {
    if t == 0 {
        None
    } else {
        Some(v)
    }
}

/// The sort key of a call: its name, then its line, then its column.
pub open spec fn call_key(c: (Seq<char>, RawPos)) -> KeyView {
    (c.0, Seq::empty(), opt_tag(c.1.0), opt_val(c.1.0), opt_tag(c.1.1), opt_val(c.1.1))
}

/// The script's calls in key order, with their positions as the library's.
pub open spec fn canon_calls(cs: Set<(Seq<char>, RawPos)>) -> Seq<(Seq<char>, SourcePos)> {
    canonical(cs.map(|c: (Seq<char>, RawPos)| call_key(c))).map_values(
        |k: KeyView| (k.0, source_pos_of((untag(k.2, k.3), untag(k.4, k.5)))),
    )
}

/// A Rhai coordinate kept when it fits in 16 bits.
pub open spec fn narrow(o: Option<usize>) -> Option<u16> {
    match o {
        Some(v) => if v <= 0xFFFF {
            Some(v as u16)
        } else {
            None
        },
        None => None,
    }
}

/// A Rhai position as the library's.
pub open spec fn source_pos_of(p: RawPos) -> SourcePos {
    SourcePos { line: narrow(p.0), column: narrow(p.1) }
}

/// A Rhai position as the library's.
fn source_pos(p: RawPos) -> (r: SourcePos)
    ensures
        r == source_pos_of(p),
{
    let line = match p.0 {
        Some(v) => if v <= 0xFFFF {
            Some(v as u16)
        } else {
            None
        },
        None => None,
    };
    let column = match p.1 {
        Some(v) => if v <= 0xFFFF {
            Some(v as u16)
        } else {
            None
        },
        None => None,
    };
    SourcePos { line, column }
}

/// The findings for a script: the parse error when it does not compile,
/// otherwise the script lints over its functions and its calls, each listed
/// in key order, and its first top-level statement.
pub open spec fn script_findings(text: Seq<char>, is_mapped: bool) -> Seq<DiagView> {
    match rhai_outline(text) {
        Err((m, p)) => seq![
            DiagView { range: pos_range(source_pos_of(p)), severity: Severity::Error, code: None, message: m },
        ],
        Ok((fns, first)) => lint_findings(
            text,
            is_mapped,
            canon_fns(fns),
            match first {
                Some(p) => Some(source_pos_of(p)),
                None => None,
            },
            canon_calls(rhai_calls(text)),
        ),
    }
}

/// The sort keys of the functions, in the order listed.
fn function_keys(fs: &Vec<(String, Vec<String>)>) -> (r: Vec<SortKey>)
    ensures
        key_views(r@) == fn_sigs(fs@).map_values(|f: (Seq<char>, Seq<Seq<char>>)| fn_key(f)),
{
    let ghost fv = fn_sigs(fs@);
    let mut r: Vec<SortKey> = Vec::new();
    let mut i: usize = 0;
    while i < fs.len()
        invariant
            i <= fs.len(),
            fv == fn_sigs(fs@),
            key_views(r@) == fv.take(i as int).map_values(|f: (Seq<char>, Seq<Seq<char>>)| fn_key(f)),
        decreases fs.len() - i,
    {
        let ghost before = key_views(r@);
        let k: SortKey = (chars_of(fs[i].0.as_str()), Vec::new(), fs[i].1.len(), 0, 0, 0);
        r.push(k);
        proof {
            assert(fv[i as int].0 == fs@[i as int].0@);
            assert(fv[i as int].1.len() == fs@[i as int].1.len());
            assert(key_view(k) == fn_key(fv[i as int]));
            assert(key_views(r@) =~= before.push(key_view(k)));
            assert(fv.take(i + 1) =~= fv.take(i as int).push(fv[i as int]));
        }
        i += 1;
    }
    assert(fv.take(fs.len() as int) =~= fv);
    r
}

/// The sort keys of the calls, in the order listed.
fn call_keys(cs: &Vec<(String, RawPos)>) -> (r: Vec<SortKey>)
    ensures
        key_views(r@) == cs@.map_values(|c: (String, RawPos)| (c.0@, c.1)).map_values(
            |c: (Seq<char>, RawPos)| call_key(c),
        ),
{
    let ghost cv = cs@.map_values(|c: (String, RawPos)| (c.0@, c.1));
    let mut r: Vec<SortKey> = Vec::new();
    let mut i: usize = 0;
    while i < cs.len()
        invariant
            i <= cs.len(),
            cv == cs@.map_values(|c: (String, RawPos)| (c.0@, c.1)),
            key_views(r@) == cv.take(i as int).map_values(|c: (Seq<char>, RawPos)| call_key(c)),
        decreases cs.len() - i,
    {
        let ghost before = key_views(r@);
        let (line, col) = cs[i].1;
        let (lt, lv): (usize, usize) = match line {
            Some(v) => (1, v),
            None => (0, 0),
        };
        let (ct, cv2): (usize, usize) = match col {
            Some(v) => (1, v),
            None => (0, 0),
        };
        let k: SortKey = (chars_of(cs[i].0.as_str()), Vec::new(), lt, lv, ct, cv2);
        r.push(k);
        proof {
            assert(cv[i as int] == (cs@[i as int].0@, cs@[i as int].1));
            assert(key_view(k) == call_key(cv[i as int]));
            assert(key_views(r@) =~= before.push(key_view(k)));
            assert(cv.take(i + 1) =~= cv.take(i as int).push(cv[i as int]));
        }
        i += 1;
    }
    assert(cv.take(cs.len() as int) =~= cv);
    r
}

/// Findings for a `.rhai` buffer: the parse error when it does not compile,
/// otherwise the script lints. `is_mapped` tells whether a pseudo-op mapping
/// points at this script.
pub fn diagnostics(text: &str, is_mapped: bool) -> (r: Vec<ScriptDiagnostic>)
    ensures
        diag_views(r@) == script_findings(text@, is_mapped),
{
    match compile_outline(text) {
        Err((m, p)) => {
            let d = parse_error_diagnostic(m.as_str(), source_pos(p));
            let r = vec![d];
            assert(diag_views(r@) =~= script_findings(text@, is_mapped));
            r
        },
        Ok((listed, first)) => {
            let ghost sigs = fn_sigs(listed@);
            let fkeys = function_keys(&listed);
            proof {
                sigs.lemma_to_set_map_commutes(|f: (Seq<char>, Seq<Seq<char>>)| fn_key(f));
            }
            let fsorted = sort_keys(fkeys);
            let ghost fk = key_views(fsorted@);
            let mut fns: Vec<(String, usize)> = Vec::new();
            let mut i: usize = 0;
            while i < fsorted.len()
                invariant
                    i <= fsorted.len(),
                    fk == key_views(fsorted@),
                    fn_views(fns@) == fk.take(i as int).map_values(|k: KeyView| (k.0, k.2)),
                decreases fsorted.len() - i,
            {
                let ghost before = fn_views(fns@);
                fns.push((string_of(&fsorted[i].0), fsorted[i].2));
                proof {
                    assert(fk[i as int] == key_view(fsorted@[i as int]));
                    assert(fn_views(fns@) =~= before.push((fk[i as int].0, fk[i as int].2)));
                    assert(fk.take(i + 1) =~= fk.take(i as int).push(fk[i as int]));
                }
                i += 1;
            }
            assert(fk.take(fsorted.len() as int) =~= fk);
            let raw = compile_calls(text);
            let ckeys = call_keys(&raw);
            proof {
                raw@.map_values(|c: (String, RawPos)| (c.0@, c.1)).lemma_to_set_map_commutes(
                    |c: (Seq<char>, RawPos)| call_key(c),
                );
            }
            let csorted = sort_keys(ckeys);
            let ghost ck = key_views(csorted@);
            let mut calls: Vec<CallSite> = Vec::new();
            let mut j: usize = 0;
            while j < csorted.len()
                invariant
                    j <= csorted.len(),
                    ck == key_views(csorted@),
                    call_views(calls@) == ck.take(j as int).map_values(
                        |k: KeyView| (k.0, source_pos_of((untag(k.2, k.3), untag(k.4, k.5)))),
                    ),
                decreases csorted.len() - j,
            {
                let ghost before = call_views(calls@);
                let line = if csorted[j].2 == 0 {
                    None
                } else {
                    Some(csorted[j].3)
                };
                let col = if csorted[j].4 == 0 {
                    None
                } else {
                    Some(csorted[j].5)
                };
                calls.push(CallSite { name: string_of(&csorted[j].0), pos: source_pos((line, col)) });
                proof {
                    let k = ck[j as int];
                    assert(k == key_view(csorted@[j as int]));
                    assert(call_views(calls@) =~= before.push(
                        (k.0, source_pos_of((untag(k.2, k.3), untag(k.4, k.5)))),
                    ));
                    assert(ck.take(j + 1) =~= ck.take(j as int).push(k));
                }
                j += 1;
            }
            assert(ck.take(csorted.len() as int) =~= ck);
            let first_pos = match first {
                Some(p) => Some(source_pos(p)),
                None => None,
            };
            lint_script(text, is_mapped, &fns, first_pos, &calls)
        },
    }
}

// ---------------------------------------------------------------------------
// Script outline
// ---------------------------------------------------------------------------

/// A function of a script, for the editor's outline.
pub struct ScriptSymbol {
    pub name: String,
    /// `fn NAME(PARAMS)`.
    pub detail: String,
    /// Where its name stands in its `fn NAME(` declaration.
    pub range: Range,
}

/// A symbol as plain values.
pub open spec fn symbol_view(s: ScriptSymbol) -> (Seq<char>, Seq<char>, Range) {
    (s.name@, s.detail@, s.range)
}

/// The outline key of a function: its name, then its parameters joined
/// with `, `.
pub open spec fn sig_key(f: (Seq<char>, Seq<Seq<char>>)) -> KeyView {
    (f.0, join_with(f.1, ", "@), 0, 0, 0, 0)
}

/// The keys naming `custom` (`want`) or any other function (`!want`), in
/// order.
pub open spec fn only_custom(ks: Seq<KeyView>, want: bool) -> Seq<KeyView>
    decreases ks.len(),
{
    if ks.len() == 0 {
        Seq::empty()
    } else if (ks.last().0 == "custom"@) == want {
        only_custom(ks.drop_last(), want).push(ks.last())
    } else {
        only_custom(ks.drop_last(), want)
    }
}

/// The outline entries of the functions with keys `ks` in `text`: each one
/// whose declaration line is found, with its signature.
pub open spec fn symbols_of(text: Seq<char>, ks: Seq<KeyView>) -> Seq<(Seq<char>, Seq<char>, Range)>
    decreases ks.len(),
{
    if ks.len() == 0 {
        Seq::empty()
    } else {
        let k = ks.last();
        match def_range(text, k.0) {
            Some(r) => symbols_of(text, ks.drop_last()).push((k.0, "fn "@ + k.0 + "("@ + k.1 + ")"@, r)),
            None => symbols_of(text, ks.drop_last()),
        }
    }
}

/// The script's outline: its functions in key order, `custom` first; nothing
/// when it does not compile.
pub open spec fn outline_spec(text: Seq<char>) -> Seq<(Seq<char>, Seq<char>, Range)> {
    match rhai_outline(text) {
        Err(_) => Seq::empty(),
        Ok((fs, _)) => {
            let ks = canonical(fs.map(|f: (Seq<char>, Seq<Seq<char>>)| sig_key(f)));
            symbols_of(text, only_custom(ks, true)) + symbols_of(text, only_custom(ks, false))
        },
    }
}

/// `ps` joined with `, `.
fn join_params(ps: &Vec<String>) -> (r: Vec<char>)
    ensures
        r@ == join_with(ps@.map_values(|p: String| p@), ", "@),
{
    let ghost pv = ps@.map_values(|p: String| p@);
    let mut v: Vec<char> = Vec::new();
    let mut i: usize = 0;
    while i < ps.len()
        invariant
            i <= ps.len(),
            pv == ps@.map_values(|p: String| p@),
            v@ == join_with(pv.take(i as int), ", "@),
        decreases ps.len() - i,
    {
        if i > 0 {
            push_str(&mut v, ", ");
        }
        push_str(&mut v, ps[i].as_str());
        proof {
            assert(pv.take(i + 1).drop_last() =~= pv.take(i as int));
            if i == 0 {
                assert(pv.take(1) =~= seq![pv[0]]);
                assert(v@ =~= pv[0]);
            }
        }
        i += 1;
    }
    assert(pv.take(ps.len() as int) =~= pv);
    v
}

/// The outline keys of the functions, in the order listed.
fn signature_keys(fs: &Vec<(String, Vec<String>)>) -> (r: Vec<SortKey>)
    ensures
        key_views(r@) == fn_sigs(fs@).map_values(|f: (Seq<char>, Seq<Seq<char>>)| sig_key(f)),
{
    let ghost fv = fn_sigs(fs@);
    let mut r: Vec<SortKey> = Vec::new();
    let mut i: usize = 0;
    while i < fs.len()
        invariant
            i <= fs.len(),
            fv == fn_sigs(fs@),
            key_views(r@) == fv.take(i as int).map_values(|f: (Seq<char>, Seq<Seq<char>>)| sig_key(f)),
        decreases fs.len() - i,
    {
        let ghost before = key_views(r@);
        let k: SortKey = (chars_of(fs[i].0.as_str()), join_params(&fs[i].1), 0, 0, 0, 0);
        r.push(k);
        proof {
            assert(fv[i as int].0 == fs@[i as int].0@);
            assert(fv[i as int].1 == fs@[i as int].1@.map_values(|p: String| p@));
            assert(key_view(k) == sig_key(fv[i as int]));
            assert(key_views(r@) =~= before.push(key_view(k)));
            assert(fv.take(i + 1) =~= fv.take(i as int).push(fv[i as int]));
        }
        i += 1;
    }
    assert(fv.take(fs.len() as int) =~= fv);
    r
}

/// Append the outline entries of the functions with keys `ks` named
/// `custom` (`want`) or not (`!want`).
fn push_symbols(text: &str, ks: &Vec<SortKey>, want: bool, out: &mut Vec<ScriptSymbol>)
    ensures
        final(out)@.map_values(|s: ScriptSymbol| symbol_view(s)) == old(out)@.map_values(
            |s: ScriptSymbol| symbol_view(s),
        ) + symbols_of(text@, only_custom(key_views(ks@), want)),
{
    let ghost kv = key_views(ks@);
    let ghost start = out@.map_values(|s: ScriptSymbol| symbol_view(s));
    let mut i: usize = 0;
    while i < ks.len()
        invariant
            i <= ks.len(),
            kv == key_views(ks@),
            out@.map_values(|s: ScriptSymbol| symbol_view(s)) == start + symbols_of(
                text@,
                only_custom(kv.take(i as int), want),
            ),
        decreases ks.len() - i,
    {
        let ghost before = out@.map_values(|s: ScriptSymbol| symbol_view(s));
        let ghost prev = only_custom(kv.take(i as int), want);
        let name = string_of(&ks[i].0);
        proof {
            assert(kv.take(i + 1).drop_last() =~= kv.take(i as int));
            assert(kv.take(i + 1).last() == kv[i as int]);
            assert(kv[i as int] == key_view(ks@[i as int]));
            assert(prev.push(kv[i as int]).drop_last() =~= prev);
        }
        let is_custom = str_eq(name.as_str(), "custom");
        proof {
            if is_custom == want {
                assert(only_custom(kv.take(i + 1), want) == prev.push(kv[i as int]));
            } else {
                assert(only_custom(kv.take(i + 1), want) == prev);
            }
        }
        if is_custom == want {
            match local_definition(text, name.as_str()) {
                Some(range) => {
                    let mut d = chars_of("fn ");
                    push_all(&mut d, &ks[i].0);
                    push_str(&mut d, "(");
                    push_all(&mut d, &ks[i].1);
                    push_str(&mut d, ")");
                    let sym = ScriptSymbol { name, detail: string_of(&d), range };
                    out.push(sym);
                    proof {
                        let ov = out@.map_values(|s: ScriptSymbol| symbol_view(s));
                        assert(ov =~= before.push(symbol_view(sym)));
                    }
                },
                None => {
                    assert(out@.map_values(|s: ScriptSymbol| symbol_view(s)) =~= before);
                },
            }
        } else {
            assert(out@.map_values(|s: ScriptSymbol| symbol_view(s)) =~= before);
        }
        i += 1;
    }
    assert(kv.take(ks.len() as int) =~= kv);
}

/// The outline of a `.rhai` buffer: its functions, `custom` first, each with
/// its signature and where its name is declared, in key order. Empty when
/// the script does not compile.
pub fn document_symbols(text: &str) -> (r: Vec<ScriptSymbol>)
    ensures
        r@.map_values(|s: ScriptSymbol| symbol_view(s)) == outline_spec(text@),
{
    let mut out: Vec<ScriptSymbol> = Vec::new();
    assert(out@.map_values(|s: ScriptSymbol| symbol_view(s)) =~= Seq::<(Seq<char>, Seq<char>, Range)>::empty());
    match compile_outline(text) {
        Err(_) => out,
        Ok((listed, _)) => {
            let keys = signature_keys(&listed);
            proof {
                fn_sigs(listed@).lemma_to_set_map_commutes(|f: (Seq<char>, Seq<Seq<char>>)| sig_key(f));
            }
            let sorted = sort_keys(keys);
            push_symbols(text, &sorted, true, &mut out);
            push_symbols(text, &sorted, false, &mut out);
            assert(out@.map_values(|s: ScriptSymbol| symbol_view(s)) =~= outline_spec(text@));
            out
        },
    }
}

} // verus!
