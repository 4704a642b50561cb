//! Path globs for `.nessemblerc` overrides and `.nessembleignore`, and how a
//! caller asks for configuration to be resolved.
//!
//! Globs are a focused subset: `?` matches one byte other than `/`, `*` any
//! run within a path segment, `**` any run crossing `/`, and `**/` also zero
//! directories. They are matched byte by byte against the UTF-8 of a
//! `/`-separated relative path.

pub mod config;
pub mod options;

use vstd::prelude::*;
use crate::text::{chars_of, lower_seq, parent_of, path_parent, to_lower_vec, string_of};

verus! {

/// How the caller wants configuration resolved.
pub enum Choice {
    /// Walk up from the input to find `.nessemblerc`.
    Discover,
    /// Ignore any `.nessemblerc`; use built-in defaults.
    NoConfig,
    /// Use this file as the `.nessemblerc`.
    Explicit(String),
}

/// The byte `/`.
pub open spec fn slash() -> u8 {
    47u8
}

/// No `/` among `s[a..b]`.
pub open spec fn no_slash(s: Seq<u8>, a: int, b: int) -> bool {
    forall|j: int| a <= j < b ==> s[j] != slash()
}

/// Whether the pattern from `pi` matches the text from `si`.
pub open spec fn glob_at(p: Seq<u8>, pi: int, s: Seq<u8>, si: int) -> bool
    decreases p.len() - pi, 0int,
{
    if pi < 0 || pi >= p.len() {
        si == s.len()
    } else if p[pi] == 42u8 {
        if pi + 1 < p.len() && p[pi + 1] == 42u8 {
            (pi + 2 < p.len() && p[pi + 2] == slash() && glob_at(p, pi + 3, s, si)) || any_run(
                p,
                pi + 2,
                s,
                si,
            )
        } else {
            segment_run(p, pi + 1, s, si)
        }
    } else if p[pi] == 63u8 {
        0 <= si < s.len() && s[si] != slash() && glob_at(p, pi + 1, s, si + 1)
    } else {
        0 <= si < s.len() && s[si] == p[pi] && glob_at(p, pi + 1, s, si + 1)
    }
}

/// Whether the pattern from `q` matches the text from some `k >= si`: what
/// `**` may skip.
pub open spec fn any_run(p: Seq<u8>, q: int, s: Seq<u8>, si: int) -> bool
    decreases p.len() - q, s.len() - si + 1,
{
    if q < 1 || si < 0 || si > s.len() {
        false
    } else {
        glob_at(p, q, s, si) || (si < s.len() && any_run(p, q, s, si + 1))
    }
}

/// Whether the pattern from `q` matches the text from some `k >= si` with no
/// `/` skipped: what `*` may skip.
pub open spec fn segment_run(p: Seq<u8>, q: int, s: Seq<u8>, si: int) -> bool
    decreases p.len() - q, s.len() - si + 1,
{
    if q < 1 || si < 0 || si > s.len() {
        false
    } else {
        glob_at(p, q, s, si) || (si < s.len() && s[si] != slash() && segment_run(p, q, s, si + 1))
    }
}

/// Whether the glob `p` matches all of `s`.
pub open spec fn glob(p: Seq<u8>, s: Seq<u8>) -> bool {
    glob_at(p, 0, s, 0)
}

/// `p` without its leading `/`s.
pub open spec fn trim_start_slashes(p: Seq<u8>) -> Seq<u8>
    decreases p.len(),
{
    if p.len() > 0 && p[0] == slash() {
        trim_start_slashes(p.skip(1))
    } else {
        p
    }
}

/// `p` without its trailing `/`s.
pub open spec fn trim_end_slashes(p: Seq<u8>) -> Seq<u8>
    decreases p.len(),
{
    if p.len() > 0 && p.last() == slash() {
        trim_end_slashes(p.drop_last())
    } else {
        p
    }
}

/// The segments of `s` between `/`s, as `str::split('/')` yields them.
pub open spec fn segments(s: Seq<u8>) -> Seq<Seq<u8>>
    decreases s.len(),
{
    if s.len() == 0 {
        seq![Seq::empty()]
    } else {
        let segs = segments(s.drop_last());
        if s.last() == slash() {
            segs.push(Seq::empty())
        } else {
            segs.update(segs.len() - 1, segs.last().push(s.last()))
        }
    }
}

/// A segment list is never empty.
pub proof fn lemma_segments_nonempty(s: Seq<u8>)
    ensures
        segments(s).len() >= 1,
    decreases s.len(),
{
    if s.len() > 0 {
        lemma_segments_nonempty(s.drop_last());
    }
}

/// Whether the ignore or override glob `pattern` matches the relative path
/// `path`. A pattern with a `/` (or anchored by a leading `/`) must match the
/// whole path; a pattern without one matches the whole path or any one
/// segment of it.
pub open spec fn path_glob(pattern: Seq<u8>, path: Seq<u8>) -> bool {
    let anchored = pattern.len() > 0 && pattern[0] == slash();
    let pat = trim_end_slashes(trim_start_slashes(pattern));
    if anchored || pat.contains(slash()) {
        glob(pat, path)
    } else {
        glob(pat, path) || exists|i: int|
            0 <= i < segments(path).len() && #[trigger] glob(pat, segments(path)[i])
    }
}

/// Whether the pattern from `pi` matches the text from `si`.
fn glob_rec(p: &[u8], pi0: usize, s: &[u8], si0: usize) -> (r: bool)
    requires
        pi0 <= p.len(),
        si0 <= s.len(),
    ensures
        r == glob_at(p@, pi0 as int, s@, si0 as int),
    decreases p.len() - pi0,
{
    let mut pi = pi0;
    let mut si = si0;
    let ghost p0 = pi0 as int;
    let ghost s0 = si0 as int;
    while pi < p.len()
        invariant
            p0 <= pi <= p.len(),
            p0 == pi0,
            s0 == si0,
            si <= s.len(),
            glob_at(p@, p0, s@, s0) == glob_at(p@, pi as int, s@, si as int),
        decreases p.len() - pi,
    {
        if p[pi] == 42u8 {
            if pi + 1 < p.len() && p[pi + 1] == 42u8 {
                if pi + 2 < p.len() && p[pi + 2] == 47u8 && glob_rec(p, pi + 3, s, si) {
                    return true;
                }
                let mut k = si;
                loop
                    invariant
                        si <= k <= s.len(),
                        p0 <= pi,
                        p0 == pi0,
                        s0 == si0,
                        pi + 1 < p.len(),
                        glob_at(p@, p0, s@, s0) == any_run(p@, pi + 2, s@, k as int),
                    decreases s.len() - k,
                {
                    if glob_rec(p, pi + 2, s, k) {
                        return true;
                    }
                    if k >= s.len() {
                        return false;
                    }
                    k += 1;
                }
            } else {
                let mut k = si;
                loop
                    invariant
                        si <= k <= s.len(),
                        p0 <= pi,
                        p0 == pi0,
                        s0 == si0,
                        pi < p.len(),
                        glob_at(p@, p0, s@, s0) == segment_run(p@, pi + 1, s@, k as int),
                    decreases s.len() - k,
                {
                    if glob_rec(p, pi + 1, s, k) {
                        return true;
                    }
                    if k >= s.len() || s[k] == 47u8 {
                        return false;
                    }
                    k += 1;
                }
            }
        } else if p[pi] == 63u8 {
            if si >= s.len() || s[si] == 47u8 {
                return false;
            }
            pi += 1;
            si += 1;
        } else {
            if si >= s.len() || s[si] != p[pi] {
                return false;
            }
            pi += 1;
            si += 1;
        }
    }
    si == s.len()
}

/// Whether the glob `pattern` matches all of `s`, byte for byte.
pub fn glob_match(pattern: &str, s: &str) -> (r: bool)
    ensures
        r == glob(vstd::utf8::encode_utf8(pattern@), vstd::utf8::encode_utf8(s@)),
{
    glob_rec(pattern.as_bytes(), 0, s.as_bytes(), 0)
}

/// The segments of `s`, as vectors.
fn split_segments(s: &[u8]) -> (r: Vec<Vec<u8>>)
    ensures
        r@.len() == segments(s@).len(),
        forall|i: int| 0 <= i < r@.len() ==> (#[trigger] r@[i])@ == segments(s@)[i],
{
    let mut done: Vec<Vec<u8>> = Vec::new();
    let mut cur: Vec<u8> = Vec::new();
    let mut i: usize = 0;
    assert(s@.take(0) =~= Seq::<u8>::empty());
    while i < s.len()
        invariant
            i <= s.len(),
            segments(s@.take(i as int)).len() == done@.len() + 1,
            forall|j: int| 0 <= j < done@.len() ==> (#[trigger] done@[j])@ == segments(
                s@.take(i as int),
            )[j],
            cur@ == segments(s@.take(i as int)).last(),
        decreases s.len() - i,
    {
        let ghost before = s@.take(i as int);
        assert(s@.take(i + 1).drop_last() =~= before);
        if s[i] == 47u8 {
            let finished = cur;
            done.push(finished);
            cur = Vec::new();
            assert(cur@ =~= Seq::<u8>::empty());
        } else {
            cur.push(s[i]);
        }
        i += 1;
    }
    assert(s@.take(s.len() as int) =~= s@);
    done.push(cur);
    done
}

/// The bytes `s[a..b]`.
fn sub_bytes(s: &[u8], a: usize, b: usize) -> (v: Vec<u8>)
    requires
        a <= b <= s.len(),
    ensures
        v@ == s@.subrange(a as int, b as int),
{
    let mut v: Vec<u8> = Vec::new();
    let mut i = a;
    while i < b
        invariant
            a <= i <= b <= s.len(),
            v@ == s@.subrange(a as int, i as int),
        decreases b - i,
    {
        v.push(s[i]);
        assert(v@ =~= s@.subrange(a as int, i + 1));
        i += 1;
    }
    v
}

/// Whether the ignore or override glob `pattern` matches the `/`-separated
/// relative path `path`.
pub fn matches_path_glob(pattern: &str, path: &str) -> (r: bool)
    ensures
        r == path_glob(vstd::utf8::encode_utf8(pattern@), vstd::utf8::encode_utf8(path@)),
{
    let p = pattern.as_bytes();
    let s = path.as_bytes();
    let anchored = p.len() > 0 && p[0] == 47u8;
    let mut a: usize = 0;
    assert(p@.skip(0) =~= p@);
    while a < p.len() && p[a] == 47u8
        invariant
            a <= p.len(),
            trim_start_slashes(p@) == trim_start_slashes(p@.skip(a as int)),
        decreases p.len() - a,
    {
        assert(p@.skip(a as int).skip(1) =~= p@.skip(a + 1));
        a += 1;
    }
    let mut b: usize = p.len();
    assert(p@.skip(a as int) =~= p@.subrange(a as int, b as int));
    while b > a && p[b - 1] == 47u8
        invariant
            a <= b <= p.len(),
            trim_end_slashes(trim_start_slashes(p@)) == trim_end_slashes(
                p@.subrange(a as int, b as int),
            ),
        decreases b,
    {
        assert(p@.subrange(a as int, b as int).drop_last() =~= p@.subrange(a as int, b - 1));
        b -= 1;
    }
    let pat = sub_bytes(p, a, b);
    let mut has_slash = false;
    let mut i: usize = 0;
    while i < pat.len()
        invariant
            i <= pat.len(),
            has_slash == pat@.take(i as int).contains(slash()),
        decreases pat.len() - i,
    {
        if pat[i] == 47u8 {
            has_slash = true;
            assert(pat@.take(i + 1)[i as int] == slash());
        } else {
            assert(pat@.take(i + 1) =~= pat@.take(i as int).push(pat@[i as int]));
        }
        i += 1;
    }
    assert(pat@.take(pat.len() as int) =~= pat@);
    if glob_rec(&pat, 0, s, 0) {
        return true;
    }
    if anchored || has_slash {
        return false;
    }
    let segs = split_segments(s);
    let mut j: usize = 0;
    while j < segs.len()
        invariant
            j <= segs.len(),
            segs@.len() == segments(s@).len(),
            forall|i: int| 0 <= i < segs@.len() ==> (#[trigger] segs@[i])@ == segments(s@)[i],
            forall|i: int| 0 <= i < j ==> !#[trigger] glob(pat@, segments(s@)[i]),
            p@ == vstd::utf8::encode_utf8(pattern@),
            s@ == vstd::utf8::encode_utf8(path@),
            pat@ == trim_end_slashes(trim_start_slashes(p@)),
            !(p@.len() > 0 && p@[0] == slash()),
            !pat@.contains(slash()),
            !glob(pat@, s@),
        decreases segs.len() - j,
    {
        if glob_rec(&pat, 0, &segs[j], 0) {
            assert(glob(pat@, segments(s@)[j as int]));
            return true;
        }
        j += 1;
    }
    false
}

/// The directory of a path: its parent, or `.` when it has none or an
/// empty one.
pub open spec fn dir_part(path: Seq<char>) -> Seq<char> {
    match path_parent(path) {
        Some(q) => if q.len() > 0 {
            q
        } else {
            "."@
        },
        None => "."@,
    }
}

/// The directory a configuration path is relative to.
pub fn dir_of(path: &str) -> (r: String)
    ensures
        r@ == dir_part(path@),
{
    match parent_of(path) {
        Some(q) => if !q.as_str().is_empty() {
            q
        } else {
            string_of(&chars_of("."))
        },
        None => string_of(&chars_of(".")),
    }
}

/// A configured extension (`".asm"` or `"asm"`) as a bare lower-case one.
pub open spec fn bare_ext(ext: Seq<char>) -> Seq<char>
    decreases ext.len(),
{
    if ext.len() > 0 && ext[0] == '.' {
        bare_ext(ext.skip(1))
    } else {
        lower_seq(ext)
    }
}

/// Normalize a configured extension for comparison with a file's.
pub fn normalize_ext(ext: &str) -> (r: String)
    ensures
        r@ == bare_ext(ext@),
{
    let v = chars_of(ext);
    let mut a: usize = 0;
    assert(v@.skip(0) =~= v@);
    while a < v.len() && v[a] == '.'
        invariant
            a <= v.len(),
            bare_ext(v@) == bare_ext(v@.skip(a as int)),
        decreases v.len() - a,
    {
        assert(v@.skip(a as int).skip(1) =~= v@.skip(a + 1));
        a += 1;
    }
    let rest = crate::text::sub_chars(&v, a, v.len());
    assert(rest@ =~= v@.skip(a as int));
    string_of(&to_lower_vec(&rest))
}

// ---------------------------------------------------------------------------
// What the wildcards mean
// ---------------------------------------------------------------------------

/// No `*` or `?` in `p` from `i` on.
pub open spec fn literal_from(p: Seq<u8>, i: int) -> bool {
    forall|j: int| i <= j < p.len() ==> p[j] != 42u8 && p[j] != 63u8
}

/// Without wildcards the rest of a pattern matches exactly itself.
proof fn lemma_literal_at(p: Seq<u8>, pi: int, s: Seq<u8>, si: int)
    requires
        0 <= pi <= p.len(),
        0 <= si <= s.len(),
        literal_from(p, pi),
    ensures
        glob_at(p, pi, s, si) <==> s.skip(si) == p.skip(pi),
    decreases p.len() - pi,
{
    if pi == p.len() {
        assert(glob_at(p, pi, s, si) == (si == s.len()));
        assert(p.skip(pi) =~= Seq::<u8>::empty());
        if si == s.len() {
            assert(s.skip(si) =~= Seq::<u8>::empty());
        } else {
            assert(s.skip(si).len() > 0);
        }
    } else {
        assert(p[pi] != 42u8 && p[pi] != 63u8);
        assert(glob_at(p, pi, s, si) == (0 <= si < s.len() && s[si] == p[pi] && glob_at(
            p,
            pi + 1,
            s,
            si + 1,
        )));
        if si < s.len() && s[si] == p[pi] {
            lemma_literal_at(p, pi + 1, s, si + 1);
            if s.skip(si + 1) == p.skip(pi + 1) {
                assert(s.skip(si) =~= seq![s[si]] + s.skip(si + 1));
                assert(p.skip(pi) =~= seq![p[pi]] + p.skip(pi + 1));
            }
            if s.skip(si) == p.skip(pi) {
                assert(s.skip(si + 1) =~= s.skip(si).skip(1));
                assert(p.skip(pi + 1) =~= p.skip(pi).skip(1));
            }
        } else {
            if s.skip(si) == p.skip(pi) {
                assert(p.skip(pi).len() > 0);
                assert(s.skip(si)[0] == s[si]);
                assert(p.skip(pi)[0] == p[pi]);
            }
        }
    }
}

/// A pattern without `*` or `?` matches exactly the text equal to it.
pub proof fn lemma_literal_glob(p: Seq<u8>, s: Seq<u8>)
    requires
        literal_from(p, 0),
    ensures
        glob(p, s) <==> s == p,
{
    lemma_literal_at(p, 0, s, 0);
    assert(s.skip(0) =~= s);
    assert(p.skip(0) =~= p);
}

/// `**` alone skips any rest of the text.
proof fn lemma_any_run_tail(p: Seq<u8>, s: Seq<u8>, si: int)
    requires
        p == seq![42u8, 42u8],
        0 <= si <= s.len(),
    ensures
        any_run(p, 2, s, si),
    decreases s.len() - si,
{
    assert(p.len() == 2);
    assert(glob_at(p, 2, s, si) == (si == s.len()));
    if si < s.len() {
        lemma_any_run_tail(p, s, si + 1);
    }
}

/// `**` matches every text.
pub proof fn lemma_double_star_matches_all(s: Seq<u8>)
    ensures
        glob(seq![42u8, 42u8], s),
{
    let p = seq![42u8, 42u8];
    lemma_any_run_tail(p, s, 0);
    assert(p[0] == 42u8 && p[1] == 42u8 && p.len() == 2);
}

/// `*` alone skips the rest of the text exactly when it holds no `/`.
proof fn lemma_segment_run_tail(p: Seq<u8>, s: Seq<u8>, si: int)
    requires
        p == seq![42u8],
        0 <= si <= s.len(),
    ensures
        segment_run(p, 1, s, si) <==> no_slash(s, si, s.len() as int),
    decreases s.len() - si,
{
    assert(p.len() == 1);
    assert(glob_at(p, 1, s, si) == (si == s.len()));
    if si < s.len() {
        lemma_segment_run_tail(p, s, si + 1);
    }
}

/// `*` matches exactly the texts without a `/`.
pub proof fn lemma_star_matches_one_segment(s: Seq<u8>)
    ensures
        glob(seq![42u8], s) <==> no_slash(s, 0, s.len() as int),
{
    let p = seq![42u8];
    lemma_segment_run_tail(p, s, 0);
    assert(p[0] == 42u8 && p.len() == 1);
}

/// `?` matches exactly the one-byte texts other than `/`.
pub proof fn lemma_question_mark_matches_one_byte(s: Seq<u8>)
    ensures
        glob(seq![63u8], s) <==> (s.len() == 1 && s[0] != slash()),
{
    let p = seq![63u8];
    assert(p[0] == 63u8 && p.len() == 1);
    assert(glob_at(p, 1, s, 1) == (1 == s.len()));
}

/// A pattern without a `/` matches a path when it matches any one segment of
/// it.
pub proof fn lemma_slash_free_pattern_matches_a_segment(pattern: Seq<u8>, path: Seq<u8>, i: int)
    requires
        !pattern.contains(slash()),
        0 <= i < segments(path).len(),
        glob(pattern, segments(path)[i]),
    ensures
        path_glob(pattern, path),
{
    let pat = trim_end_slashes(trim_start_slashes(pattern));
    assert(trim_start_slashes(pattern) == pattern) by {
        if pattern.len() > 0 {
            assert(pattern[0] != slash());
        }
    }
    assert(trim_end_slashes(pattern) == pattern) by {
        if pattern.len() > 0 {
            assert(pattern.last() != slash());
        }
    }
    assert(pat == pattern);
}

} // verus!
