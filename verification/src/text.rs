//! Character-level text utilities shared by the parsers and formatters.
//!
//! Text is handled as sequences of `char`. The spec functions here give the
//! meaning of the familiar string operations (trimming, searching, splitting
//! into lines, case folding, number parsing and printing) over `Seq<char>`,
//! and the executable functions are proved against them.

use vstd::prelude::*;

verus! {

// ---------------------------------------------------------------------------
// Conversions between strings and character vectors
// ---------------------------------------------------------------------------

/// Append one character to a string (`String::push`).
#[verifier::external_body]
pub(crate) fn push_char(s: &mut String, c: char)
    ensures
        final(s)@ == old(s)@.push(c),
{
    s.push(c);
}

/// The characters of `s`, in order.
pub fn chars_of(s: &str) -> (v: Vec<char>)
    ensures
        v@ == s@,
{
    let mut v: Vec<char> = Vec::new();
    for c in it: s.chars()
        invariant
            v@ == it.seq().take(it.index() as int),
    {
        v.push(c);
    }
    v
}

/// A string holding exactly the characters of `v`.
pub fn string_of(v: &[char]) -> (s: String)
    ensures
        s@ == v@,
{
    let mut s = String::new();
    let mut i: usize = 0;
    while i < v.len()
        invariant
            i <= v.len(),
            s@ == v@.take(i as int),
        decreases v.len() - i,
    {
        push_char(&mut s, v[i]);
        assert(v@.take(i as int).push(v@[i as int]) =~= v@.take(i + 1));
        i += 1;
    }
    assert(v@.take(v.len() as int) =~= v@);
    s
}

/// The characters of `s[a..b]` as a new vector.
pub fn sub_chars(s: &[char], a: usize, b: usize) -> (v: Vec<char>)
    requires
        a <= b <= s.len(),
    ensures
        v@ == s@.subrange(a as int, b as int),
{
    let mut v: Vec<char> = Vec::new();
    let mut i = a;
    while i < b
        invariant
            a <= i <= b <= s.len(),
            v@ == s@.subrange(a as int, i as int),
        decreases b - i,
    {
        v.push(s[i]);
        assert(s@.subrange(a as int, i as int).push(s@[i as int]) =~= s@.subrange(
            a as int,
            i + 1,
        ));
        i += 1;
    }
    v
}

/// Append the characters of `t` to `v`.
pub fn push_all(v: &mut Vec<char>, t: &[char])
    ensures
        final(v)@ == old(v)@ + t@,
{
    let mut i: usize = 0;
    while i < t.len()
        invariant
            i <= t.len(),
            v@ == old(v)@ + t@.take(i as int),
        decreases t.len() - i,
    {
        v.push(t[i]);
        assert(old(v)@ + t@.take(i as int).push(t@[i as int]) =~= old(v)@ + t@.take(i + 1));
        i += 1;
    }
    assert(t@.take(t.len() as int) =~= t@);
}

/// Append the characters of the string `t` to `v`.
pub fn push_str(v: &mut Vec<char>, t: &str)
    ensures
        final(v)@ == old(v)@ + t@,
{
    let cs = chars_of(t);
    push_all(v, &cs);
}

/// Whether two character sequences are equal.
pub fn chars_eq(a: &[char], b: &[char]) -> (r: bool)
    ensures
        r == (a@ == b@),
{
    if a.len() != b.len() {
        return false;
    }
    let mut i: usize = 0;
    while i < a.len()
        invariant
            a.len() == b.len(),
            i <= a.len(),
            forall|k: int| 0 <= k < i ==> a@[k] == b@[k],
        decreases a.len() - i,
    {
        if a[i] != b[i] {
            return false;
        }
        i += 1;
    }
    assert(a@ =~= b@);
    true
}

/// Whether the string `a` equals the string `b`.
pub fn str_eq(a: &str, b: &str) -> (r: bool)
    ensures
        r == (a@ == b@),
{
    let x = chars_of(a);
    let y = chars_of(b);
    chars_eq(&x, &y)
}

// ---------------------------------------------------------------------------
// Character classes
// ---------------------------------------------------------------------------

/// Unicode `White_Space`, the property `char::is_whitespace` tests.
pub open spec fn is_ws(c: char) -> bool {
    let u = c as u32;
    (0x09 <= u <= 0x0D) || u == 0x20 || u == 0x85 || u == 0xA0 || u == 0x1680 || (0x2000 <= u
        <= 0x200A) || u == 0x2028 || u == 0x2029 || u == 0x202F || u == 0x205F || u == 0x3000
}

/// Whether `c` is Unicode white space.
pub fn is_whitespace(c: char) -> (r: bool)
    ensures
        r == is_ws(c),
{
    let u = c as u32;
    (0x09 <= u && u <= 0x0D) || u == 0x20 || u == 0x85 || u == 0xA0 || u == 0x1680 || (0x2000
        <= u && u <= 0x200A) || u == 0x2028 || u == 0x2029 || u == 0x202F || u == 0x205F || u
        == 0x3000
}

/// ASCII decimal digit.
pub open spec fn is_ascii_digit(c: char) -> bool {
    '0' <= c <= '9'
}

/// ASCII letter.
pub open spec fn is_ascii_alpha(c: char) -> bool {
    ('a' <= c <= 'z') || ('A' <= c <= 'Z')
}

/// ASCII letter or digit.
pub open spec fn is_ascii_alnum(c: char) -> bool {
    is_ascii_alpha(c) || is_ascii_digit(c)
}

/// Whether `c` is an ASCII letter or digit.
pub fn ascii_alnum(c: char) -> (r: bool)
    ensures
        r == is_ascii_alnum(c),
{
    ('a' <= c && c <= 'z') || ('A' <= c && c <= 'Z') || ('0' <= c && c <= '9')
}

/// Whether `c` is an ASCII letter.
pub fn ascii_alpha(c: char) -> (r: bool)
    ensures
        r == is_ascii_alpha(c),
{
    ('a' <= c && c <= 'z') || ('A' <= c && c <= 'Z')
}

/// The result of `char::is_alphanumeric` (Unicode `Alphabetic` or `Numeric`).
pub uninterp spec fn unicode_alphanumeric(c: char) -> bool;

/// The result of `char::is_alphabetic` (Unicode `Alphabetic`).
pub uninterp spec fn unicode_alphabetic(c: char) -> bool;

/// `char::is_alphanumeric`. Its documentation defines it by the Unicode
/// `Alphabetic` and `Numeric` properties; the contract names that result and
/// states what it is on ASCII characters, where those properties are exactly
/// the letters and digits.
#[verifier::external_body]
pub(crate) fn is_alphanumeric(c: char) -> (r: bool)
    ensures
        r == unicode_alphanumeric(c),
        (c as u32) < 128 ==> (r == is_ascii_alnum(c)),
{
    c.is_alphanumeric()
}

/// `char::is_alphabetic`. Its documentation defines it by the Unicode
/// `Alphabetic` property; on ASCII characters that is exactly the letters.
#[verifier::external_body]
pub(crate) fn is_alphabetic(c: char) -> (r: bool)
    ensures
        r == unicode_alphabetic(c),
        (c as u32) < 128 ==> (r == is_ascii_alpha(c)),
{
    c.is_alphabetic()
}

/// Whether `u` is a Unicode scalar value (what `char` can hold).
pub open spec fn is_scalar(u: u32) -> bool {
    u <= 0x10FFFF && !(0xD800 <= u <= 0xDFFF)
}

/// `char::from_u32`: the character with code `u`, or `None` when `u` is a
/// surrogate or beyond `0x10FFFF`, as its documentation states.
#[verifier::external_body]
pub(crate) fn char_from_u32(u: u32) -> (r: Option<char>)
    ensures
        is_scalar(u) ==> r == Some(u as char),
        !is_scalar(u) ==> r is None,
{
    char::from_u32(u)
}

/// ASCII lower-casing of one character (`char::to_ascii_lowercase`).
pub open spec fn lower(c: char) -> char {
    if 'A' <= c <= 'Z' {
        ((c as u32) + 32) as char
    } else {
        c
    }
}

/// ASCII lower-casing of a sequence.
pub open spec fn lower_seq(s: Seq<char>) -> Seq<char> {
    s.map_values(|c: char| lower(c))
}

/// ASCII upper-casing of one character (`char::to_ascii_uppercase`).
pub open spec fn upper(c: char) -> char {
    if 'a' <= c <= 'z' {
        ((c as u32) - 32) as char
    } else {
        c
    }
}

/// ASCII upper-casing of a sequence (`str::to_ascii_uppercase`).
pub open spec fn upper_seq(s: Seq<char>) -> Seq<char> {
    s.map_values(|c: char| upper(c))
}

/// Upper-casing a character leaves its lower-case form as it is.
pub proof fn lemma_lower_upper(c: char)
    ensures
        lower(upper(c)) == lower(c),
{
    if 'a' <= c <= 'z' {
        let u = (c as u32) - 32;
        assert(0x41 <= u <= 0x5A);
        assert((u as char) as u32 == u);
    }
}

/// Comparing ignoring ASCII case, a name and its upper-cased form agree.
pub proof fn lemma_ci_eq_upper(a: Seq<char>, b: Seq<char>)
    ensures
        ci_eq(a, b) <==> ci_eq(a, upper_seq(b)),
{
    assert forall|i: int| 0 <= i < b.len() implies lower(upper_seq(b)[i]) == lower(b[i]) by {
        lemma_lower_upper(b[i]);
    }
}

/// ASCII case-insensitive equality (`eq_ignore_ascii_case`).
pub open spec fn ci_eq(a: Seq<char>, b: Seq<char>) -> bool {
    a.len() == b.len() && forall|i: int| 0 <= i < a.len() ==> lower(a[i]) == lower(b[i])
}

/// ASCII lower-case of one character.
pub fn to_lower(c: char) -> (r: char)
    ensures
        r == lower(c),
{
    if 'A' <= c && c <= 'Z' {
        let u = c as u32 + 32;
        match char_from_u32(u) {
            Some(l) => l,
            None => c,
        }
    } else {
        c
    }
}

/// ASCII lower-case of a character sequence.
pub fn to_lower_vec(s: &[char]) -> (r: Vec<char>)
    ensures
        r@ == lower_seq(s@),
{
    let mut r: Vec<char> = Vec::new();
    let mut i: usize = 0;
    while i < s.len()
        invariant
            i <= s.len(),
            r@ =~= lower_seq(s@.take(i as int)),
        decreases s.len() - i,
    {
        r.push(to_lower(s[i]));
        i += 1;
    }
    assert(s@.take(s.len() as int) =~= s@);
    r
}

/// ASCII case-insensitive comparison of two character sequences.
pub fn eq_ignore_ascii_case(a: &[char], b: &[char]) -> (r: bool)
    ensures
        r == ci_eq(a@, b@),
{
    if a.len() != b.len() {
        return false;
    }
    let mut i: usize = 0;
    while i < a.len()
        invariant
            a.len() == b.len(),
            i <= a.len(),
            forall|k: int| 0 <= k < i ==> lower(a@[k]) == lower(b@[k]),
        decreases a.len() - i,
    {
        if to_lower(a[i]) != to_lower(b[i]) {
            return false;
        }
        i += 1;
    }
    true
}

// ---------------------------------------------------------------------------
// Trimming
// ---------------------------------------------------------------------------

/// `s` without its leading white space.
pub open spec fn trim_start(s: Seq<char>) -> Seq<char>
    decreases s.len(),
{
    if s.len() > 0 && is_ws(s[0]) {
        trim_start(s.drop_first())
    } else {
        s
    }
}

/// `s` without its trailing white space.
pub open spec fn trim_end(s: Seq<char>) -> Seq<char>
    decreases s.len(),
{
    if s.len() > 0 && is_ws(s.last()) {
        trim_end(s.drop_last())
    } else {
        s
    }
}

/// `s` without leading or trailing white space.
pub open spec fn trim(s: Seq<char>) -> Seq<char> {
    trim_end(trim_start(s))
}

/// The position of the first non-white-space character of `s` (or its length).
pub fn trim_start_index(s: &[char]) -> (i: usize)
    ensures
        i <= s.len(),
        s@.skip(i as int) == trim_start(s@),
{
    let mut i: usize = 0;
    assert(s@.skip(0) =~= s@);
    while i < s.len() && is_whitespace(s[i])
        invariant
            i <= s.len(),
            trim_start(s@) == trim_start(s@.skip(i as int)),
        decreases s.len() - i,
    {
        assert(s@.skip(i as int).drop_first() =~= s@.skip(i + 1));
        i += 1;
    }
    assert(s@.skip(s.len() as int) =~= Seq::<char>::empty());
    i
}

/// The length of `s` without its trailing white space.
pub fn trim_end_index(s: &[char]) -> (j: usize)
    ensures
        j <= s.len(),
        s@.take(j as int) == trim_end(s@),
{
    let mut j: usize = s.len();
    assert(s@.take(j as int) =~= s@);
    while j > 0 && is_whitespace(s[j - 1])
        invariant
            j <= s.len(),
            trim_end(s@) == trim_end(s@.take(j as int)),
        decreases j,
    {
        assert(s@.take(j as int).drop_last() =~= s@.take(j - 1));
        j -= 1;
    }
    j
}

/// A copy of `s` without leading white space.
pub fn trim_start_vec(s: &[char]) -> (r: Vec<char>)
    ensures
        r@ == trim_start(s@),
{
    let i = trim_start_index(s);
    sub_chars(s, i, s.len())
}

/// A copy of `s` without trailing white space.
pub fn trim_end_vec(s: &[char]) -> (r: Vec<char>)
    ensures
        r@ == trim_end(s@),
{
    let j = trim_end_index(s);
    sub_chars(s, 0, j)
}

/// A copy of `s` without leading or trailing white space.
pub fn trim_vec(s: &[char]) -> (r: Vec<char>)
    ensures
        r@ == trim(s@),
{
    let a = trim_start_vec(s);
    trim_end_vec(&a)
}

// ---------------------------------------------------------------------------
// Prefixes, suffixes, and searching
// ---------------------------------------------------------------------------

/// Whether `p` is a prefix of `s`.
pub fn starts_with(s: &[char], p: &[char]) -> (r: bool)
    ensures
        r == p@.is_prefix_of(s@),
{
    if p.len() > s.len() {
        return false;
    }
    let mut i: usize = 0;
    while i < p.len()
        invariant
            p.len() <= s.len(),
            i <= p.len(),
            forall|k: int| 0 <= k < i ==> s@[k] == p@[k],
        decreases p.len() - i,
    {
        if s[i] != p[i] {
            assert(s@.subrange(0, p.len() as int)[i as int] == s@[i as int]);
            return false;
        }
        i += 1;
    }
    assert(p@ =~= s@.subrange(0, p@.len() as int));
    true
}

/// Whether `p` is a prefix of `s` starting at position `at`.
pub fn starts_with_at(s: &[char], at: usize, p: &[char]) -> (r: bool)
    requires
        at <= s.len(),
    ensures
        r == occurs_at(s@, p@, at as int),
{
    if p.len() > s.len() - at {
        return false;
    }
    let mut i: usize = 0;
    while i < p.len()
        invariant
            at <= s.len(),
            p.len() <= s.len() - at,
            i <= p.len(),
            forall|k: int| 0 <= k < i ==> s@[at + k] == p@[k],
        decreases p.len() - i,
    {
        if s[at + i] != p[i] {
            assert(s@.subrange(at as int, at + p.len())[i as int] == s@[at + i]);
            return false;
        }
        i += 1;
    }
    assert(s@.subrange(at as int, at + p@.len()) =~= p@);
    true
}

/// Whether `p` is a suffix of `s`.
pub fn ends_with(s: &[char], p: &[char]) -> (r: bool)
    ensures
        r == p@.is_suffix_of(s@),
{
    if p.len() > s.len() {
        return false;
    }
    let at = s.len() - p.len();
    let r = starts_with_at(s, at, p);
    assert(s@.subrange(at as int, at + p@.len()) =~= s@.subrange(
        s@.len() - p@.len(),
        s@.len() as int,
    ));
    r
}

/// Whether `p` occurs in `s` at position `i`.
pub open spec fn occurs_at(s: Seq<char>, p: Seq<char>, i: int) -> bool {
    0 <= i && i + p.len() <= s.len() && s.subrange(i, i + p.len()) == p
}

/// The first position at or after `from` where `p` occurs in `s`.
pub open spec fn find_from(s: Seq<char>, p: Seq<char>, from: int) -> Option<int>
    decreases s.len() + 1 - from,
{
    if from < 0 || from + p.len() > s.len() {
        None
    } else if occurs_at(s, p, from) {
        Some(from)
    } else {
        find_from(s, p, from + 1)
    }
}

/// The first position where `p` occurs in `s`.
pub open spec fn find(s: Seq<char>, p: Seq<char>) -> Option<int> {
    find_from(s, p, 0)
}

/// The first position where the character `c` occurs in `s`.
pub open spec fn find_char(s: Seq<char>, c: char) -> Option<int> {
    find_from(s, seq![c], 0)
}

/// What `find_from` returns, stated directly.
pub proof fn lemma_find_from(s: Seq<char>, p: Seq<char>, from: int)
    requires
        0 <= from,
    ensures
        find_from(s, p, from) matches Some(i) ==> from <= i && occurs_at(s, p, i) && forall|j: int|
            from <= j < i ==> !occurs_at(s, p, j),
        find_from(s, p, from) is None ==> forall|j: int| from <= j ==> !occurs_at(s, p, j),
    decreases s.len() + 1 - from,
{
    if from + p.len() > s.len() {
    } else if occurs_at(s, p, from) {
    } else {
        lemma_find_from(s, p, from + 1);
    }
}

/// The first position at or after `from` where `p` occurs in `s`.
pub fn find_at(s: &[char], p: &[char], from: usize) -> (r: Option<usize>)
    ensures
        r == (match find_from(s@, p@, from as int) {
            Some(i) => Some(i as usize),
            None => None::<usize>,
        }),
        r matches Some(i) ==> from <= i && i + p.len() <= s.len() && occurs_at(s@, p@, i as int)
            && find_from(s@, p@, from as int) == Some(i as int),
        r is None ==> find_from(s@, p@, from as int) is None,
{
    proof {
        lemma_find_from(s@, p@, from as int);
    }
    if from > s.len() || p.len() > s.len() - from {
        return None;
    }
    let mut i = from;
    loop
        invariant
            from <= i,
            i + p.len() <= s.len(),
            find_from(s@, p@, from as int) == find_from(s@, p@, i as int),
        decreases s.len() - i,
    {
        if starts_with_at(s, i, p) {
            return Some(i);
        }
        if i + p.len() == s.len() {
            assert(find_from(s@, p@, i + 1) is None);
            return None;
        }
        i += 1;
    }
}

/// The first position of `p` in `s`.
pub fn find_seq(s: &[char], p: &[char]) -> (r: Option<usize>)
    ensures
        r == (match find(s@, p@) {
            Some(i) => Some(i as usize),
            None => None::<usize>,
        }),
{
    find_at(s, p, 0)
}

/// The first position of `c` in `s`.
pub fn find_ch(s: &[char], c: char) -> (r: Option<usize>)
    ensures
        r == (match find_char(s@, c) {
            Some(i) => Some(i as usize),
            None => None::<usize>,
        }),
{
    let p = vec![c];
    assert(p@ =~= seq![c]);
    find_at(s, &p, 0)
}

/// The first position of `c` in `s` at or after `from`.
pub fn find_ch_from(s: &[char], c: char, from: usize) -> (r: Option<usize>)
    ensures
        r == (match find_from(s@, seq![c], from as int) {
            Some(i) => Some(i as usize),
            None => None::<usize>,
        }),
        r matches Some(i) ==> from <= i < s.len() && s@[i as int] == c && forall|j: int|
            from <= j < i ==> s@[j] != c,
        r matches Some(i) ==> find_from(s@, seq![c], from as int) == Some(i as int),
        r is None ==> find_from(s@, seq![c], from as int) is None,
        r is None ==> forall|j: int| from <= j < s.len() ==> s@[j] != c,
{
    let p = vec![c];
    assert(p@ =~= seq![c]);
    proof {
        lemma_find_from(s@, seq![c], from as int);
        assert forall|j: int| from <= j < s.len() implies (occurs_at(s@, seq![c], j) <==> s@[j]
            == c) by {
            lemma_occurs_char(s@, c, j);
        }
        if let Some(i) = find_from(s@, seq![c], from as int) {
            lemma_occurs_char(s@, c, i);
        }
    }
    find_at(s, &p, from)
}

/// Searching a suffix is searching the whole from the suffix's start.
pub proof fn lemma_find_from_skip(s: Seq<char>, p: Seq<char>, from: int, j: int)
    requires
        0 <= from <= s.len(),
        0 <= j,
    ensures
        find_from(s, p, from + j) == (match find_from(s.skip(from), p, j) {
            Some(k) => Some(k + from),
            None => None::<int>,
        }),
    decreases s.len() + 1 - (from + j),
{
    let t = s.skip(from);
    if from + j + p.len() > s.len() {
    } else {
        assert(t.subrange(j, j + p.len()) =~= s.subrange(from + j, from + j + p.len()));
        if occurs_at(s, p, from + j) {
        } else {
            lemma_find_from_skip(s, p, from, j + 1);
        }
    }
}

/// A single character occurs at `i` exactly when `s[i]` is that character.
pub proof fn lemma_occurs_char(s: Seq<char>, c: char, i: int)
    ensures
        occurs_at(s, seq![c], i) <==> (0 <= i < s.len() && s[i] == c),
{
    if 0 <= i < s.len() && s[i] == c {
        assert(s.subrange(i, i + 1) =~= seq![c]);
    }
    if occurs_at(s, seq![c], i) {
        assert(s.subrange(i, i + 1)[0] == s[i]);
    }
}

/// `find_char` located directly: the first index holding `c`.
pub proof fn lemma_find_char(s: Seq<char>, c: char)
    ensures
        find_char(s, c) matches Some(i) ==> 0 <= i < s.len() && s[i] == c && forall|j: int|
            0 <= j < i ==> s[j] != c,
        find_char(s, c) is None ==> forall|j: int| 0 <= j < s.len() ==> s[j] != c,
{
    lemma_find_from(s, seq![c], 0);
    assert forall|j: int| 0 <= j < s.len() implies (occurs_at(s, seq![c], j) <==> s[j] == c) by {
        lemma_occurs_char(s, c, j);
    }
    if let Some(i) = find_char(s, c) {
        lemma_occurs_char(s, c, i);
    }
}

// ---------------------------------------------------------------------------
// Character encodings, numbers and positions
// ---------------------------------------------------------------------------

/// What `char`'s `Debug` formatting writes for `c`: the character quoted, with
/// escapes chosen by Unicode tables.
pub uninterp spec fn char_debug(c: char) -> Seq<char>;

/// `format!("{c:?}")`: the `Debug` rendering of a character.
#[verifier::external_body]
pub(crate) fn debug_char(c: char) -> (r: String)
    ensures
        r@ == char_debug(c),
{
    format!("{c:?}")
}

/// The number of bytes UTF-8 takes for `c`.
pub open spec fn utf8_width(c: char) -> int {
    let u = c as u32;
    if u < 0x80 {
        1
    } else if u < 0x800 {
        2
    } else if u < 0x10000 {
        3
    } else {
        4
    }
}

/// The number of bytes UTF-8 takes for `s`.
pub open spec fn utf8_len(s: Seq<char>) -> int
    decreases s.len(),
{
    if s.len() == 0 {
        0
    } else {
        utf8_len(s.drop_last()) + utf8_width(s.last())
    }
}

/// The UTF-8 width of `c` (`char::len_utf8`).
pub fn char_width(c: char) -> (r: usize)
    ensures
        r == utf8_width(c),
        1 <= r <= 4,
{
    let u = c as u32;
    if u < 0x80 {
        1
    } else if u < 0x800 {
        2
    } else if u < 0x10000 {
        3
    } else {
        4
    }
}

/// The ASCII digit character for `d` in `0..10`.
pub open spec fn digit_char(d: int) -> char {
    (d + 48) as char
}

/// The decimal spelling of `n`, without leading zeros.
pub open spec fn decimal(n: nat) -> Seq<char>
    decreases n,
{
    if n < 10 {
        seq![digit_char(n as int)]
    } else {
        decimal(n / 10).push(digit_char((n % 10) as int))
    }
}

/// The ASCII digit for `d`, which is below 10.
fn digit_for(d: u64) -> (c: char)
    requires
        d < 10,
    ensures
        c == digit_char(d as int),
{
    let b: u8 = d as u8 + 48;
    b as char
}

/// Append the decimal spelling of `n` to `v`.
pub fn push_decimal(v: &mut Vec<char>, n: u64)
    ensures
        final(v)@ == old(v)@ + decimal(n as nat),
    decreases n,
{
    if n >= 10 {
        push_decimal(v, n / 10);
    }
    let ghost mid = v@;
    v.push(digit_for(n % 10));
    proof {
        if n >= 10 {
            assert(v@ =~= old(v)@ + decimal(n as nat));
        } else {
            assert(v@ =~= old(v)@ + decimal(n as nat));
        }
    }
}

/// What `str`'s `Debug` formatting writes for `s`: the text quoted, with
/// escapes chosen by Unicode tables.
pub uninterp spec fn str_debug(s: Seq<char>) -> Seq<char>;

/// `format!("{s:?}")`: the `Debug` rendering of a string.
#[verifier::external_body]
pub(crate) fn debug_str(s: &str) -> (r: String)
    ensures
        r@ == str_debug(s@),
{
    format!("{s:?}")
}

/// The decimal spelling of `i`, with a minus sign when it is negative.
pub open spec fn signed_decimal(i: int) -> Seq<char> {
    if i < 0 {
        seq!['-'] + decimal((-i) as nat)
    } else {
        decimal(i as nat)
    }
}

/// Append the decimal spelling of `i` to `v`.
pub fn push_signed(v: &mut Vec<char>, i: i64)
    ensures
        final(v)@ == old(v)@ + signed_decimal(i as int),
{
    if i < 0 {
        v.push('-');
        let ghost mid = v@;
        let m: i128 = 0 - (i as i128);
        push_decimal(v, m as u64);
        assert(v@ =~= old(v)@ + signed_decimal(i as int));
    } else {
        push_decimal(v, i as u64);
    }
}

/// The value of `c` as a digit of base up to 36 (`36` when it is none).
pub open spec fn digit_value(c: char) -> int {
    if '0' <= c <= '9' {
        c as int - 48
    } else if 'a' <= c <= 'z' {
        c as int - 87
    } else if 'A' <= c <= 'Z' {
        c as int - 55
    } else {
        36
    }
}

/// The value of the digits `d` in base `radix`, or `None` when one of them is
/// not a digit of that base. The empty sequence is worth 0.
pub open spec fn digits_value(d: Seq<char>, radix: int) -> Option<int>
    decreases d.len(),
{
    if d.len() == 0 {
        Some(0)
    } else {
        match digits_value(d.drop_last(), radix) {
            Some(v) => if digit_value(d.last()) < radix {
                Some(v * radix + digit_value(d.last()))
            } else {
                None
            },
            None => None,
        }
    }
}

/// What an unsigned `from_str_radix` reads from `d`: an optional `+`, then one
/// or more digits of the base; `None` for anything else. The bound of the
/// integer type is applied by the caller.
pub open spec fn unsigned_value(d: Seq<char>, radix: int) -> Option<int> {
    let body = if d.len() > 0 && d[0] == '+' {
        d.skip(1)
    } else {
        d
    };
    if body.len() == 0 {
        None
    } else {
        digits_value(body, radix)
    }
}

/// `unsigned_value` within `0..=max`.
pub open spec fn bounded_value(d: Seq<char>, radix: int, max: int) -> Option<int> {
    match unsigned_value(d, radix) {
        Some(v) => if v <= max {
            Some(v)
        } else {
            None
        },
        None => None,
    }
}

/// Digit values are never negative.
pub proof fn lemma_digits_value_nonneg(d: Seq<char>, radix: int)
    requires
        radix >= 2,
    ensures
        digits_value(d, radix) matches Some(v) ==> v >= 0,
    decreases d.len(),
{
    if d.len() > 0 {
        lemma_digits_value_nonneg(d.drop_last(), radix);
        if let Some(v) = digits_value(d.drop_last(), radix) {
            assert(v * radix >= 0) by (nonlinear_arith)
                requires
                    v >= 0,
                    radix >= 2,
            ;
        }
    }
}

/// The value of `c` as a digit of base `radix`, if it is one.
fn digit_of(c: char, radix: u64) -> (r: Option<u64>)
    requires
        2 <= radix <= 36,
    ensures
        r == (if digit_value(c) < radix {
            Some(digit_value(c) as u64)
        } else {
            None::<u64>
        }),
{
    let v: u64 = if '0' <= c && c <= '9' {
        (c as u32 - 48) as u64
    } else if 'a' <= c && c <= 'z' {
        (c as u32 - 87) as u64
    } else if 'A' <= c && c <= 'Z' {
        (c as u32 - 55) as u64
    } else {
        36
    };
    if v < radix {
        Some(v)
    } else {
        None
    }
}

/// Read `d` as an unsigned number of base `radix` no greater than `max`,
/// as the unsigned integer types' `from_str_radix` does.
pub fn parse_unsigned(d: &[char], radix: u64, max: u64) -> (r: Option<u64>)
    requires
        2 <= radix <= 36,
    ensures
        r == (match bounded_value(d@, radix as int, max as int) {
            Some(v) => Some(v as u64),
            None => None::<u64>,
        }),
{
    let start: usize = if d.len() > 0 && d[0] == '+' {
        1
    } else {
        0
    };
    let ghost body = if d@.len() > 0 && d@[0] == '+' {
        d@.skip(1)
    } else {
        d@
    };
    assert(body =~= d@.subrange(start as int, d.len() as int));
    if start == d.len() {
        return None;
    }
    let mut v: u128 = 0;
    let mut over = false;
    let mut bad = false;
    let mut i = start;
    assert(d@.subrange(start as int, start as int) =~= Seq::<char>::empty());
    while i < d.len()
        invariant
            start <= i <= d.len(),
            2 <= radix <= 36,
            v <= max,
            bad ==> digits_value(d@.subrange(start as int, i as int), radix as int) is None,
            !bad ==> digits_value(d@.subrange(start as int, i as int), radix as int) is Some,
            !bad ==> digits_value(d@.subrange(start as int, i as int), radix as int).unwrap() >= 0,
            !bad && over ==> digits_value(d@.subrange(start as int, i as int), radix as int).unwrap()
                > max,
            !bad && !over ==> digits_value(d@.subrange(start as int, i as int), radix as int).unwrap()
                == v,
        decreases d.len() - i,
    {
        let ghost prev = d@.subrange(start as int, i as int);
        let ghost next = d@.subrange(start as int, i + 1);
        assert(next.drop_last() =~= prev);
        assert(next.last() == d@[i as int]);
        match digit_of(d[i], radix) {
            None => {
                bad = true;
            },
            Some(x) => {
                if !bad {
                    let ghost w = digits_value(prev, radix as int).unwrap();
                    assert(w * radix + x >= w) by (nonlinear_arith)
                        requires
                            w >= 0,
                            radix >= 2,
                            x >= 0,
                    ;
                    if !over {
                        assert(v * radix + x <= 0xFFFF_FFFF_FFFF_FFFFu128 * 36 + 36)
                            by (nonlinear_arith)
                            requires
                                v <= 0xFFFF_FFFF_FFFF_FFFFu128,
                                radix <= 36,
                                x < 36,
                        ;
                        let nv: u128 = v * (radix as u128) + (x as u128);
                        if nv > max as u128 {
                            over = true;
                        } else {
                            v = nv;
                        }
                    }
                }
            },
        }
        i += 1;
    }
    if bad || over {
        None
    } else {
        Some(v as u64)
    }
}

/// The 1-based line of position `p` in `s`: one more than the line feeds
/// before it.
pub open spec fn line_at(s: Seq<char>, p: int) -> int
    decreases p,
{
    if p <= 0 {
        1
    } else if s[p - 1] == '\n' {
        line_at(s, p - 1) + 1
    } else {
        line_at(s, p - 1)
    }
}

/// The 1-based column of position `p` in `s`: one more than the characters
/// between the last line feed before it and it.
pub open spec fn col_at(s: Seq<char>, p: int) -> int
    decreases p,
{
    if p <= 0 {
        1
    } else if s[p - 1] == '\n' {
        1
    } else {
        col_at(s, p - 1) + 1
    }
}

/// The line and column of position `p` in `s`.
pub fn line_col(s: &[char], p: usize) -> (r: (u32, u32))
    requires
        p <= s.len(),
        s.len() < u32::MAX,
    ensures
        r.0 == line_at(s@, p as int),
        r.1 == col_at(s@, p as int),
{
    let mut line: u32 = 1;
    let mut col: u32 = 1;
    let mut i: usize = 0;
    while i < p
        invariant
            i <= p <= s.len() < u32::MAX,
            1 <= line <= i + 1,
            1 <= col <= i + 1,
            line == line_at(s@, i as int),
            col == col_at(s@, i as int),
        decreases p - i,
    {
        if s[i] == '\n' {
            line += 1;
            col = 1;
        } else {
            col += 1;
        }
        i += 1;
    }
    (line, col)
}

// ---------------------------------------------------------------------------
// Lines
// ---------------------------------------------------------------------------

/// `l` without one trailing carriage return.
pub open spec fn strip_cr(l: Seq<char>) -> Seq<char> {
    if l.len() > 0 && l.last() == '\r' {
        l.drop_last()
    } else {
        l
    }
}

/// The lines of `s`, as `str::lines` yields them: split at `\n`, a `\r` right
/// before a `\n` dropped, and no empty last line after a final line ending.
pub open spec fn lines(s: Seq<char>) -> Seq<Seq<char>>
    decreases s.len(),
{
    if s.len() == 0 {
        Seq::empty()
    } else {
        match find_char(s, '\n') {
            None => seq![s],
            Some(i) => if 0 <= i < s.len() {
                seq![strip_cr(s.take(i))] + lines(s.skip(i + 1))
            } else {
                seq![s]
            },
        }
    }
}

/// The pieces of `s` between occurrences of `c` (`str::split` on a `char`).
pub open spec fn split_char(s: Seq<char>, c: char) -> Seq<Seq<char>>
    decreases s.len(),
{
    match find_char(s, c) {
        None => seq![s],
        Some(i) => if 0 <= i < s.len() {
            seq![s.take(i)] + split_char(s.skip(i + 1), c)
        } else {
            seq![s]
        },
    }
}

/// The character views of a sequence of character vectors.
pub open spec fn vviews(v: Seq<Vec<char>>) -> Seq<Seq<char>> {
    v.map_values(|x: Vec<char>| x@)
}

/// `l` without one trailing carriage return.
pub fn strip_cr_vec(l: Vec<char>) -> (r: Vec<char>)
    ensures
        r@ == strip_cr(l@),
{
    let mut l = l;
    if l.len() > 0 && l[l.len() - 1] == '\r' {
        l.pop();
    }
    l
}

/// The lines of `s`.
pub fn lines_of(s: &[char]) -> (r: Vec<Vec<char>>)
    ensures
        vviews(r@) == lines(s@),
{
    let mut out: Vec<Vec<char>> = Vec::new();
    let mut start: usize = 0;
    assert(s@.skip(0) =~= s@);
    while start < s.len()
        invariant
            start <= s.len(),
            vviews(out@) + lines(s@.skip(start as int)) == lines(s@),
        decreases s.len() - start,
    {
        let ghost rest = s@.skip(start as int);
        let r = find_ch_from(s, '\n', start);
        proof {
            lemma_find_from_skip(s@, seq!['\n'], start as int, 0);
            lemma_find_from(s@, seq!['\n'], start as int);
        }
        let ghost prev = vviews(out@);
        match r {
            None => {
                let piece = sub_chars(s, start, s.len());
                assert(piece@ =~= rest);
                out.push(piece);
                assert(vviews(out@) =~= prev.push(piece@));
                assert(s@.skip(s.len() as int) =~= Seq::<char>::empty());
                assert(lines(rest) == seq![rest]);
                start = s.len();
            },
            Some(i) => {
                let piece = strip_cr_vec(sub_chars(s, start, i));
                proof {
                    let k = i - start;
                    lemma_find_char(rest, '\n');
                    assert(find_char(rest, '\n') == Some(k as int));
                    assert(rest.take(k as int) =~= s@.subrange(start as int, i as int));
                    assert(rest.skip(k + 1) =~= s@.skip(i + 1));
                }
                out.push(piece);
                assert(vviews(out@) =~= prev.push(piece@));
                start = i + 1;
            },
        }
    }
    assert(s@.skip(start as int) =~= Seq::<char>::empty());
    assert(vviews(out@) + Seq::<Seq<char>>::empty() =~= vviews(out@));
    out
}

// ---------------------------------------------------------------------------
// Splitting, replacing, stripping
// ---------------------------------------------------------------------------

/// The pieces of `s` between occurrences of `c`, as vectors.
pub fn split_on(s: &[char], c: char) -> (r: Vec<Vec<char>>)
    ensures
        vviews(r@) == split_char(s@, c),
{
    let mut out: Vec<Vec<char>> = Vec::new();
    let mut start: usize = 0;
    assert(s@.skip(0) =~= s@);
    loop
        invariant
            start <= s.len(),
            vviews(out@) + split_char(s@.skip(start as int), c) == split_char(s@, c),
        decreases s.len() - start,
    {
        let ghost rest = s@.skip(start as int);
        let r = find_ch_from(s, c, start);
        proof {
            lemma_find_from_skip(s@, seq![c], start as int, 0);
            lemma_find_from(s@, seq![c], start as int);
            lemma_find_char(rest, c);
        }
        let ghost prev = vviews(out@);
        match r {
            None => {
                let piece = sub_chars(s, start, s.len());
                assert(piece@ =~= rest);
                out.push(piece);
                assert(vviews(out@) =~= prev.push(piece@));
                assert(split_char(rest, c) == seq![rest]);
                assert(vviews(out@) =~= prev + split_char(rest, c));
                return out;
            },
            Some(i) => {
                let piece = sub_chars(s, start, i);
                proof {
                    let k = i - start;
                    assert(find_char(rest, c) == Some(k as int));
                    assert(rest.take(k as int) =~= piece@);
                    assert(rest.skip(k + 1) =~= s@.skip(i + 1));
                }
                out.push(piece);
                assert(vviews(out@) =~= prev.push(piece@));
                assert(vviews(out@) + split_char(s@.skip(i + 1), c) =~= prev + split_char(rest, c));
                start = i + 1;
            },
        }
    }
}

/// `s` with every `c` replaced by `r`.
pub open spec fn replace_char(s: Seq<char>, c: char, r: Seq<char>) -> Seq<char>
    decreases s.len(),
{
    if s.len() == 0 {
        Seq::empty()
    } else if s.last() == c {
        replace_char(s.drop_last(), c, r) + r
    } else {
        replace_char(s.drop_last(), c, r).push(s.last())
    }
}

/// A copy of `s` with every `c` replaced by `r`.
pub fn replace_vec(s: &[char], c: char, r: &[char]) -> (out: Vec<char>)
    ensures
        out@ == replace_char(s@, c, r@),
{
    let mut out: Vec<char> = Vec::new();
    let mut i: usize = 0;
    assert(s@.take(0) =~= Seq::<char>::empty());
    while i < s.len()
        invariant
            i <= s.len(),
            out@ == replace_char(s@.take(i as int), c, r@),
        decreases s.len() - i,
    {
        assert(s@.take(i + 1).drop_last() =~= s@.take(i as int));
        if s[i] == c {
            push_all(&mut out, r);
        } else {
            out.push(s[i]);
        }
        i += 1;
    }
    assert(s@.take(s.len() as int) =~= s@);
    out
}

/// `s` without its leading `c`s.
pub open spec fn strip_leading(s: Seq<char>, c: char) -> Seq<char>
    decreases s.len(),
{
    if s.len() > 0 && s[0] == c {
        strip_leading(s.skip(1), c)
    } else {
        s
    }
}

/// `s` without its trailing `c`s.
pub open spec fn strip_trailing(s: Seq<char>, c: char) -> Seq<char>
    decreases s.len(),
{
    if s.len() > 0 && s.last() == c {
        strip_trailing(s.drop_last(), c)
    } else {
        s
    }
}

/// A copy of `s` without its leading `c`s (`trim_start_matches`).
pub fn strip_leading_vec(s: &[char], c: char) -> (r: Vec<char>)
    ensures
        r@ == strip_leading(s@, c),
{
    let mut a: usize = 0;
    assert(s@.skip(0) =~= s@);
    while a < s.len() && s[a] == c
        invariant
            a <= s.len(),
            strip_leading(s@, c) == strip_leading(s@.skip(a as int), c),
        decreases s.len() - a,
    {
        assert(s@.skip(a as int).skip(1) =~= s@.skip(a + 1));
        a += 1;
    }
    let r = sub_chars(s, a, s.len());
    assert(r@ =~= s@.skip(a as int));
    r
}

/// A copy of `s` without its trailing `c`s (`trim_end_matches`).
pub fn strip_trailing_vec(s: &[char], c: char) -> (r: Vec<char>)
    ensures
        r@ == strip_trailing(s@, c),
{
    let mut b: usize = s.len();
    assert(s@.take(b as int) =~= s@);
    while b > 0 && s[b - 1] == c
        invariant
            b <= s.len(),
            strip_trailing(s@, c) == strip_trailing(s@.take(b as int), c),
        decreases b,
    {
        assert(s@.take(b as int).drop_last() =~= s@.take(b - 1));
        b -= 1;
    }
    let r = sub_chars(s, 0, b);
    assert(r@ =~= s@.take(b as int));
    r
}

/// `s` from `i` with every occurrence of `pat` (nonempty), left to right and
/// not overlapping, replaced by `rep`.
pub open spec fn replace_from(s: Seq<char>, pat: Seq<char>, rep: Seq<char>, i: int) -> Seq<char>
    decreases s.len() - i,
{
    if i < 0 || i > s.len() || pat.len() == 0 {
        Seq::empty()
    } else {
        match find_from(s, pat, i) {
            None => s.subrange(i, s.len() as int),
            Some(j) => if i <= j && j + pat.len() <= s.len() {
                s.subrange(i, j) + rep + replace_from(s, pat, rep, j + pat.len())
            } else {
                s.subrange(i, s.len() as int)
            },
        }
    }
}

/// `s` with every occurrence of `pat` replaced by `rep` (`str::replace`).
pub open spec fn replace_all(s: Seq<char>, pat: Seq<char>, rep: Seq<char>) -> Seq<char> {
    replace_from(s, pat, rep, 0)
}

/// A copy of `s` with every occurrence of the nonempty `pat` replaced by
/// `rep`.
pub fn replace_str(s: &[char], pat: &[char], rep: &[char]) -> (r: Vec<char>)
    requires
        pat.len() > 0,
    ensures
        r@ == replace_all(s@, pat@, rep@),
{
    let mut out: Vec<char> = Vec::new();
    let mut i: usize = 0;
    loop
        invariant
            i <= s.len(),
            pat.len() > 0,
            out@ + replace_from(s@, pat@, rep@, i as int) == replace_all(s@, pat@, rep@),
        decreases s.len() - i,
    {
        proof {
            lemma_find_from(s@, pat@, i as int);
        }
        match find_at(s, pat, i) {
            None => {
                let tail = sub_chars(s, i, s.len());
                let ghost prev = out@;
                push_all(&mut out, &tail);
                assert(out@ =~= prev + replace_from(s@, pat@, rep@, i as int));
                return out;
            },
            Some(j) => {
                let piece = sub_chars(s, i, j);
                let ghost prev = out@;
                push_all(&mut out, &piece);
                push_all(&mut out, rep);
                assert(out@ + replace_from(s@, pat@, rep@, j + pat.len()) =~= prev
                    + replace_from(s@, pat@, rep@, i as int));
                i = j + pat.len();
            },
        }
    }
}

/// `parts` joined with single spaces.
pub open spec fn join_spaced(parts: Seq<Seq<char>>) -> Seq<char>
    decreases parts.len(),
{
    if parts.len() == 0 {
        Seq::empty()
    } else if parts.len() == 1 {
        parts[0]
    } else {
        join_spaced(parts.drop_last()) + " "@ + parts.last()
    }
}

/// The value the digits `d` spell in base `radix` with an optional sign, as
/// `from_str_radix` documents its input: an optional `+` or `-`, then one or
/// more digits.
pub open spec fn signed_value(d: Seq<char>, radix: int) -> Option<int> {
    if d.len() == 0 {
        None
    } else if d[0] == '+' || d[0] == '-' {
        if d.len() == 1 {
            None
        } else {
            match digits_value(d.skip(1), radix) {
                Some(v) => Some(
                    if d[0] == '-' {
                        -v
                    } else {
                        v
                    },
                ),
                None => None,
            }
        }
    } else {
        digits_value(d, radix)
    }
}

/// The text of the error `i64::from_str_radix` reports for `d` in base
/// `radix`.
pub uninterp spec fn int_error_text(d: Seq<char>, radix: u32) -> Seq<char>;

/// `i64::from_str_radix`, with its error rendered. Its documentation gives
/// the accepted input (an optional sign, then digits of the base) and says
/// it panics for a base outside 2 to 36; the contract states the value for
/// that input and that everything else, and a value outside `i64`, is an
/// error. The error's text is named, not stated.
#[verifier::external_body]
pub(crate) fn parse_i64(d: &str, radix: u32) -> (r: Result<i64, String>)
    requires
        2 <= radix <= 36,
    ensures
        match signed_value(d@, radix as int) {
            Some(v) => if i64::MIN <= v <= i64::MAX {
                r == Ok::<i64, String>(v as i64)
            } else {
                r matches Err(e) && e@ == int_error_text(d@, radix)
            },
            None => r matches Err(e) && e@ == int_error_text(d@, radix),
        },
{
    match i64::from_str_radix(d, radix) {
        Ok(v) => Ok(v),
        Err(e) => Err(e.to_string()),
    }
}

/// `parts` joined with `sep` between them.
pub open spec fn join_with(parts: Seq<Seq<char>>, sep: Seq<char>) -> Seq<char>
    decreases parts.len(),
{
    if parts.len() == 0 {
        Seq::empty()
    } else if parts.len() == 1 {
        parts[0]
    } else {
        join_with(parts.drop_last(), sep) + sep + parts.last()
    }
}

/// What `Path::new(p).extension()` gives for the path `p`.
pub uninterp spec fn path_extension(p: Seq<char>) -> Option<Seq<char>>;

/// `Path::extension` of the path `p`, as text. Which part of the file name
/// counts as its extension (after the last `.`, with the standard library's
/// rules for dot files, `..` and trailing separators) is named, not stated;
/// a `&str` path has a valid Unicode extension whenever it has one.
#[verifier::external_body]
pub(crate) fn extension_of(p: &str) -> (r: Option<String>)
    ensures
        r matches Some(e) ==> path_extension(p@) == Some(e@),
        r is None ==> path_extension(p@) is None,
{
    match std::path::Path::new(p).extension() {
        Some(e) => match e.to_str() {
            Some(s) => Some(s.to_string()),
            None => None,
        },
        None => None,
    }
}

/// What `Path::new(p).parent()` gives for the path `p`.
pub uninterp spec fn path_parent(p: Seq<char>) -> Option<Seq<char>>;

/// `Path::parent` of the path `p`, as text. Which prefix counts as the parent
/// (the path without its last component, with the standard library's rules
/// for roots, `.` components and separators) is named, not stated.
#[verifier::external_body]
pub(crate) fn parent_of(p: &str) -> (r: Option<String>)
    ensures
        r matches Some(q) ==> path_parent(p@) == Some(q@),
        r is None ==> path_parent(p@) is None,
{
    match std::path::Path::new(p).parent() {
        Some(q) => match q.to_str() {
            Some(s) => Some(s.to_string()),
            None => None,
        },
        None => None,
    }
}

} // verus!
