//! Changeset-driven release versioning: the bump policy, version arithmetic,
//! and changelog rendering. Reading and writing the changeset files, and
//! running the tools, belong to the command-line front end.

use vstd::prelude::*;
use crate::text::{
    chars_eq, chars_of, ci_eq, decimal, eq_ignore_ascii_case, lines, lines_of, occurs_at,
    parse_unsigned, bounded_value, push_all, push_decimal, push_str, replace_char, replace_vec,
    split_char, split_on, starts_with, str_eq, string_of, strip_leading, strip_leading_vec,
    strip_trailing, strip_trailing_vec, sub_chars, trim, trim_end, trim_end_vec, trim_start,
    trim_start_vec, trim_vec, vviews, join_spaced, digits_value, digit_value, digit_char, is_ws,
    find_char, lemma_find_char,
};

verus! {

/// The one package key of this single-version workspace.
pub const PACKAGE: &'static str = "nessemble";

/// The changelog's top-level header.
pub const CHANGELOG_HEADER: &'static str = "# Changelog";

/// A version bump level, from lowest to highest.
#[derive(Clone, Copy, PartialEq, Eq, Structural, Debug)]
pub enum Bump {
    Patch,
    Minor,
    Major,
}

/// The precedence of a bump: `Major` wins over `Minor` over `Patch`.
pub open spec fn bump_rank(b: Bump) -> int {
    match b {
        Bump::Patch => 0,
        Bump::Minor => 1,
        Bump::Major => 2,
    }
}

/// A bump's name.
pub open spec fn bump_label(b: Bump) -> &'static str {
    match b {
        Bump::Patch => "patch",
        Bump::Minor => "minor",
        Bump::Major => "major",
    }
}

impl Bump {
    /// The bump's name.
    pub fn label(self) -> (r: &'static str)
        ensures
            r == bump_label(self),
    {
        match self {
            Bump::Patch => "patch",
            Bump::Minor => "minor",
            Bump::Major => "major",
        }
    }
}

/// A change type as a changeset file declares it.
#[derive(Clone, Debug, PartialEq, Eq)]
pub enum ChangeKind {
    Major,
    Minor,
    Patch,
    /// Any other word; `none` (in any case) marks a change with no release.
    Custom(String),
}

/// The value a change type denotes.
pub ghost enum KindView {
    Major,
    Minor,
    Patch,
    Custom(Seq<char>),
}

/// The value of a change type.
pub open spec fn kind_view(k: ChangeKind) -> KindView {
    match k {
        ChangeKind::Major => KindView::Major,
        ChangeKind::Minor => KindView::Minor,
        ChangeKind::Patch => KindView::Patch,
        ChangeKind::Custom(s) => KindView::Custom(s@),
    }
}

/// A parsed, validated pending changeset.
#[derive(Debug)]
pub struct Pending {
    /// The file it was read from.
    pub file: String,
    pub id: String,
    /// `None` marks a `none` changeset: no release impact.
    pub bump: Option<Bump>,
    pub summary: String,
}

/// A `major.minor.patch` version.
#[derive(Clone, Copy, PartialEq, Eq, Structural, Debug)]
pub struct Semver {
    pub major: u64,
    pub minor: u64,
    pub patch: u64,
}

// ---------------------------------------------------------------------------
// Versions
// ---------------------------------------------------------------------------

/// The part of a version before any pre-release (`-`) or build (`+`) suffix.
pub open spec fn version_core(s: Seq<char>) -> Seq<char>
    decreases s.len(),
{
    if s.len() == 0 || s[0] == '-' || s[0] == '+' {
        Seq::empty()
    } else {
        seq![s[0]] + version_core(s.skip(1))
    }
}

/// The number in a version field: white space around it, then decimal
/// digits.
pub open spec fn field_value(p: Seq<char>) -> Option<int> {
    bounded_value(trim(p), 10, u64::MAX as int)
}

/// What `Semver::parse` reads from `s`: the first three `.`-separated fields
/// of its core, each a decimal `u64`, or the error naming the first that is
/// missing or invalid.
pub open spec fn semver_of(s: Seq<char>) -> Result<(u64, u64, u64), Seq<char>> {
    let parts = split_char(version_core(s), '.');
    let bad = |field: Seq<char>| "invalid version `"@ + s + "`: missing/invalid "@ + field;
    if parts.len() < 1 || field_value(parts[0]) is None {
        Err(bad("major"@))
    } else if parts.len() < 2 || field_value(parts[1]) is None {
        Err(bad("minor"@))
    } else if parts.len() < 3 || field_value(parts[2]) is None {
        Err(bad("patch"@))
    } else {
        Ok(
            (
                field_value(parts[0]).unwrap() as u64,
                field_value(parts[1]).unwrap() as u64,
                field_value(parts[2]).unwrap() as u64,
            ),
        )
    }
}

/// The characters of `s` before its first `-` or `+`.
fn core_of(s: &[char]) -> (r: Vec<char>)
    ensures
        r@ == version_core(s@),
{
    let mut i: usize = 0;
    while i < s.len() && s[i] != '-' && s[i] != '+'
        invariant
            i <= s.len(),
            forall|j: int| 0 <= j < i ==> s@[j] != '-' && s@[j] != '+',
        decreases s.len() - i,
    {
        i += 1;
    }
    proof {
        lemma_version_core(s@, i as int);
    }
    sub_chars(s, 0, i)
}

/// `version_core` cuts at the first `-` or `+`.
proof fn lemma_version_core(s: Seq<char>, i: int)
    requires
        0 <= i <= s.len(),
        forall|j: int| 0 <= j < i ==> s[j] != '-' && s[j] != '+',
        i == s.len() || s[i] == '-' || s[i] == '+',
    ensures
        version_core(s) == s.take(i),
    decreases s.len(),
{
    if s.len() == 0 || i == 0 {
        assert(s.take(i) =~= Seq::<char>::empty());
    } else {
        lemma_version_core(s.skip(1), i - 1);
        assert(seq![s[0]] + s.skip(1).take(i - 1) =~= s.take(i));
    }
}

/// The error for a missing or invalid field.
fn field_error(s: &str, field: &str) -> (r: String)
    ensures
        r@ == "invalid version `"@ + s@ + "`: missing/invalid "@ + field@,
{
    let mut v = chars_of("invalid version `");
    push_str(&mut v, s);
    push_str(&mut v, "`: missing/invalid ");
    push_str(&mut v, field);
    string_of(&v)
}

/// The value of field `i` of `parts`, if it has one.
fn field_at(parts: &Vec<Vec<char>>, i: usize) -> (r: Option<u64>)
    ensures
        i < parts.len() ==> r == (match field_value(parts@[i as int]@) {
            Some(v) => Some(v as u64),
            None => None::<u64>,
        }),
        i >= parts.len() ==> r is None,
{
    if i >= parts.len() {
        return None;
    }
    let t = trim_vec(&parts[i]);
    parse_unsigned(&t, 10, 0xFFFF_FFFF_FFFF_FFFF)
}

impl Semver {
    /// Read `major.minor.patch`, ignoring any pre-release or build suffix.
    pub fn parse(s: &str) -> (r: Result<Semver, String>)
        ensures
            match semver_of(s@) {
                Ok((a, b, c)) => r == Ok::<Semver, String>(Semver { major: a, minor: b, patch: c }),
                Err(m) => r matches Err(e) && e@ == m,
            },
    {
        let all = chars_of(s);
        let core = core_of(&all);
        let parts = split_on(&core, '.');
        proof {
            assert(vviews(parts@).len() == parts@.len());
            assert forall|i: int| 0 <= i < parts@.len() implies parts@[i]@ == split_char(
                version_core(s@),
                '.',
            )[i] by {
                assert(vviews(parts@)[i] == parts@[i]@);
            }
        }
        let major = match field_at(&parts, 0) {
            Some(v) => v,
            None => {
                return Err(field_error(s, "major"));
            },
        };
        let minor = match field_at(&parts, 1) {
            Some(v) => v,
            None => {
                return Err(field_error(s, "minor"));
            },
        };
        let patch = match field_at(&parts, 2) {
            Some(v) => v,
            None => {
                return Err(field_error(s, "patch"));
            },
        };
        Ok(Semver { major, minor, patch })
    }

    /// The version after `bump`: the bumped field plus one and the lower
    /// fields reset to zero.
    pub fn bumped(self, bump: Bump) -> (r: Semver)
        requires
            bump == Bump::Major ==> self.major < u64::MAX,
            bump == Bump::Minor ==> self.minor < u64::MAX,
            bump == Bump::Patch ==> self.patch < u64::MAX,
        ensures
            r == bumped_spec(self, bump),
    {
        match bump {
            Bump::Major => Semver { major: self.major + 1, minor: 0, patch: 0 },
            Bump::Minor => Semver { major: self.major, minor: self.minor + 1, patch: 0 },
            Bump::Patch => Semver { major: self.major, minor: self.minor, patch: self.patch + 1 },
        }
    }

    /// `major.minor.patch`.
    pub fn to_string(&self) -> (r: String)
        ensures
            r@ == semver_text(*self),
    {
        let mut v: Vec<char> = Vec::new();
        push_decimal(&mut v, self.major);
        v.push('.');
        push_decimal(&mut v, self.minor);
        v.push('.');
        push_decimal(&mut v, self.patch);
        assert(v@ =~= semver_text(*self));
        string_of(&v)
    }
}

/// The version after a bump.
pub open spec fn bumped_spec(v: Semver, bump: Bump) -> Semver {
    match bump {
        Bump::Major => Semver { major: (v.major + 1) as u64, minor: 0, patch: 0 },
        Bump::Minor => Semver { major: v.major, minor: (v.minor + 1) as u64, patch: 0 },
        Bump::Patch => Semver { major: v.major, minor: v.minor, patch: (v.patch + 1) as u64 },
    }
}

/// The text of a version.
pub open spec fn semver_text(v: Semver) -> Seq<char> {
    decimal(v.major as nat) + seq!['.'] + decimal(v.minor as nat) + seq!['.'] + decimal(
        v.patch as nat,
    )
}

/// Whether `a` is a lower version than `b`.
pub open spec fn semver_lt(a: Semver, b: Semver) -> bool {
    a.major < b.major || (a.major == b.major && (a.minor < b.minor || (a.minor == b.minor
        && a.patch < b.patch)))
}

/// A bump always yields a higher version, and resets the fields below the
/// bumped one.
pub proof fn lemma_bump_increases(v: Semver, bump: Bump)
    requires
        bump == Bump::Major ==> v.major < u64::MAX,
        bump == Bump::Minor ==> v.minor < u64::MAX,
        bump == Bump::Patch ==> v.patch < u64::MAX,
    ensures
        semver_lt(v, bumped_spec(v, bump)),
        bump == Bump::Major ==> bumped_spec(v, bump).minor == 0 && bumped_spec(v, bump).patch
            == 0,
        bump == Bump::Minor ==> bumped_spec(v, bump).patch == 0,
{
}

/// Every character of `d` is a decimal digit.
pub open spec fn all_decimal(d: Seq<char>) -> bool {
    forall|i: int| 0 <= i < d.len() ==> '0' <= #[trigger] d[i] <= '9'
}

/// A decimal spelling is one or more digits.
proof fn lemma_decimal_digits(n: nat)
    ensures
        decimal(n).len() >= 1,
        all_decimal(decimal(n)),
    decreases n,
{
    if n >= 10 {
        lemma_decimal_digits(n / 10);
        let d = decimal(n);
        assert forall|i: int| 0 <= i < d.len() implies '0' <= #[trigger] d[i] <= '9' by {
            if i < d.len() - 1 {
                assert(d[i] == decimal(n / 10)[i]);
            }
        }
    }
}

/// Reading a decimal spelling gives the number back.
proof fn lemma_decimal_value(n: nat)
    ensures
        digits_value(decimal(n), 10) == Some(n as int),
    decreases n,
{
    let d = decimal(n);
    if n < 10 {
        assert(d.drop_last() =~= Seq::<char>::empty());
        assert(d.last() == digit_char(n as int));
        assert(digit_value(digit_char(n as int)) == n);
        assert(digits_value(d.drop_last(), 10) == Some(0int));
        assert(digits_value(d, 10) == Some(0int * 10 + n as int));
    } else {
        lemma_decimal_value(n / 10);
        assert(d.drop_last() =~= decimal(n / 10));
        assert(d.last() == digit_char((n % 10) as int));
        assert(digit_value(digit_char((n % 10) as int)) == n % 10);
        assert(digits_value(d, 10) == Some((n / 10) as int * 10 + (n % 10) as int));
        assert((n / 10) as int * 10 + (n % 10) as int == n) by (nonlinear_arith);
    }
}

/// A number's decimal spelling is a valid version field worth the number.
proof fn lemma_field_value(n: u64)
    ensures
        field_value(decimal(n as nat)) == Some(n as int),
{
    let d = decimal(n as nat);
    lemma_decimal_digits(n as nat);
    lemma_decimal_value(n as nat);
    assert(!is_ws(d[0]));
    assert(trim_start(d) == d);
    assert(!is_ws(d.last()));
    assert(trim_end(d) == d);
    assert(trim(d) == d);
    assert(d[0] != '+');
}

/// Splitting digits and the rest at the `.` between them.
proof fn lemma_split_after_digits(d: Seq<char>, rest: Seq<char>)
    requires
        all_decimal(d),
    ensures
        split_char(d + seq!['.'] + rest, '.') == seq![d] + split_char(rest, '.'),
{
    let s = d + seq!['.'] + rest;
    lemma_find_char(s, '.');
    assert(s[d.len() as int] == '.');
    match find_char(s, '.') {
        Some(i) => {
            if i < d.len() {
                assert(s[i] == d[i]);
            }
            assert(i == d.len());
            assert(s.take(i) =~= d);
            assert(s.skip(i + 1) =~= rest);
        },
        None => {},
    }
}

/// Digits alone split into one piece.
proof fn lemma_split_digits(d: Seq<char>)
    requires
        all_decimal(d),
    ensures
        split_char(d, '.') == seq![d],
{
    lemma_find_char(d, '.');
    if let Some(i) = find_char(d, '.') {
        assert(d[i] == '.');
    }
}

/// Printing a version and reading it back gives the same version.
pub proof fn lemma_semver_round_trip(v: Semver)
    ensures
        semver_of(semver_text(v)) == Ok::<(u64, u64, u64), Seq<char>>((v.major, v.minor, v.patch)),
{
    let a = decimal(v.major as nat);
    let b = decimal(v.minor as nat);
    let c = decimal(v.patch as nat);
    lemma_decimal_digits(v.major as nat);
    lemma_decimal_digits(v.minor as nat);
    lemma_decimal_digits(v.patch as nat);
    let t = semver_text(v);
    assert(t =~= a + seq!['.'] + (b + seq!['.'] + c));
    assert forall|j: int| 0 <= j < t.len() implies t[j] != '-' && t[j] != '+' by {
        if j < a.len() {
            assert(t[j] == a[j]);
        } else if j == a.len() {
        } else if j < a.len() + 1 + b.len() {
            assert(t[j] == b[j - a.len() - 1]);
        } else if j == a.len() + 1 + b.len() {
        } else {
            assert(t[j] == c[j - a.len() - 2 - b.len()]);
        }
    }
    lemma_version_core(t, t.len() as int);
    assert(t.take(t.len() as int) =~= t);
    lemma_split_after_digits(a, b + seq!['.'] + c);
    lemma_split_after_digits(b, c);
    lemma_split_digits(c);
    let parts = split_char(version_core(t), '.');
    assert(parts =~= seq![a, b, c]);
    lemma_field_value(v.major);
    lemma_field_value(v.minor);
    lemma_field_value(v.patch);
}

// ---------------------------------------------------------------------------
// Bump policy
// ---------------------------------------------------------------------------

/// What a changeset's entries mean for the release: its bump (`None` for a
/// `none` change), or why it is invalid. Each entry names a package and its
/// change type; every package must be `nessemble`, the last entry's type
/// decides, and a custom type other than `none` is refused.
pub open spec fn bump_spec(entries: Seq<(Seq<char>, ChangeKind)>) -> Result<Option<Bump>, Seq<char>> {
    if exists|i: int| 0 <= i < entries.len() && entries[i].0 != PACKAGE@ {
        let i = choose|i: int|
            0 <= i < entries.len() && entries[i].0 != PACKAGE@ && forall|j: int|
                0 <= j < i ==> entries[j].0 == PACKAGE@;
        Err("unknown package `"@ + entries[i].0 + "`; use the single key `"@ + PACKAGE@ + "`"@)
    } else if entries.len() == 0 {
        Err("changeset targets no package"@)
    } else {
        match entries.last().1 {
            ChangeKind::Major => Ok(Some(Bump::Major)),
            ChangeKind::Minor => Ok(Some(Bump::Minor)),
            ChangeKind::Patch => Ok(Some(Bump::Patch)),
            ChangeKind::Custom(s) => if ci_eq(s@, "none"@) {
                Ok(None)
            } else {
                Err("unknown change type `"@ + s@ + "`; use major, minor, patch, or none"@)
            },
        }
    }
}

/// The entries with their package names as character sequences.
pub open spec fn entry_views(e: Seq<(String, ChangeKind)>) -> Seq<(Seq<char>, ChangeKind)> {
    e.map_values(|p: (String, ChangeKind)| (p.0@, p.1))
}

/// Validate a changeset's entries and map its change type onto the bump
/// policy.
pub fn bump_of(entries: &[(String, ChangeKind)]) -> (r: Result<Option<Bump>, String>)
    ensures
        match bump_spec(entry_views(entries@)) {
            Ok(b) => r == Ok::<Option<Bump>, String>(b),
            Err(m) => r matches Err(e) && e@ == m,
        },
{
    let ghost ev = entry_views(entries@);
    let mut i: usize = 0;
    while i < entries.len()
        invariant
            i <= entries.len(),
            ev == entry_views(entries@),
            forall|j: int| 0 <= j < i ==> ev[j].0 == PACKAGE@,
        decreases entries.len() - i,
    {
        if !str_eq(entries[i].0.as_str(), PACKAGE) {
            proof {
                assert(ev[i as int].0 != PACKAGE@);
                let k = choose|k: int|
                    0 <= k < ev.len() && ev[k].0 != PACKAGE@ && forall|j: int|
                        0 <= j < k ==> ev[j].0 == PACKAGE@;
                assert(k == i as int) by {
                    if k < i {
                    } else if k > i {
                        assert(ev[i as int].0 == PACKAGE@);
                    }
                }
            }
            let mut m = chars_of("unknown package `");
            push_str(&mut m, entries[i].0.as_str());
            push_str(&mut m, "`; use the single key `");
            push_str(&mut m, PACKAGE);
            push_str(&mut m, "`");
            return Err(string_of(&m));
        }
        i += 1;
    }
    if entries.len() == 0 {
        return Err(string_of(&chars_of("changeset targets no package")));
    }
    match &entries[entries.len() - 1].1 {
        ChangeKind::Major => Ok(Some(Bump::Major)),
        ChangeKind::Minor => Ok(Some(Bump::Minor)),
        ChangeKind::Patch => Ok(Some(Bump::Patch)),
        ChangeKind::Custom(s) => {
            let sv = chars_of(s.as_str());
            let none = chars_of("none");
            if eq_ignore_ascii_case(&sv, &none) {
                Ok(None)
            } else {
                let mut m = chars_of("unknown change type `");
                push_str(&mut m, s.as_str());
                push_str(&mut m, "`; use major, minor, patch, or none");
                Err(string_of(&m))
            }
        },
    }
}

/// The highest bump among `bumps`, ignoring `None`s.
pub open spec fn max_bump(bumps: Seq<Option<Bump>>) -> Option<Bump>
    decreases bumps.len(),
{
    if bumps.len() == 0 {
        None
    } else {
        let rest = max_bump(bumps.drop_last());
        match (bumps.last(), rest) {
            (None, _) => rest,
            (Some(b), None) => Some(b),
            (Some(b), Some(c)) => if bump_rank(b) >= bump_rank(c) {
                Some(b)
            } else {
                Some(c)
            },
        }
    }
}

/// The bumps of a list of changesets.
pub open spec fn bumps_of(p: Seq<Pending>) -> Seq<Option<Bump>> {
    p.map_values(|x: Pending| x.bump)
}

/// The winning bump across the pending changesets: the highest level,
/// ignoring `none`. `None` means nothing to release.
pub fn overall_bump(pending: &[Pending]) -> (r: Option<Bump>)
    ensures
        r == max_bump(bumps_of(pending@)),
        r is None <==> forall|i: int| 0 <= i < pending.len() ==> (#[trigger] pending@[i]).bump is None,
        r matches Some(b) ==> (exists|i: int| 0 <= i < pending.len() && (#[trigger] pending@[i]).bump
            == Some(b)) && forall|i: int|
            0 <= i < pending.len() && (#[trigger] pending@[i]).bump is Some ==> bump_rank(
                pending@[i].bump.unwrap(),
            ) <= bump_rank(b),
{
    let mut best: Option<Bump> = None;
    let mut i: usize = 0;
    while i < pending.len()
        invariant
            i <= pending.len(),
            best == max_bump(bumps_of(pending@.take(i as int))),
            best is None <==> forall|j: int| 0 <= j < i ==> (#[trigger] pending@[j]).bump is None,
            best matches Some(b) ==> (exists|j: int| 0 <= j < i && (#[trigger] pending@[j]).bump
                == Some(b)) && forall|j: int|
                0 <= j < i && (#[trigger] pending@[j]).bump is Some ==> bump_rank(
                    pending@[j].bump.unwrap(),
                ) <= bump_rank(b),
        decreases pending.len() - i,
    {
        assert(bumps_of(pending@.take(i + 1)).drop_last() =~= bumps_of(pending@.take(i as int)));
        assert(bumps_of(pending@.take(i + 1)).last() == pending@[i as int].bump);
        match pending[i].bump {
            None => {},
            Some(b) => {
                match best {
                    None => {
                        best = Some(b);
                    },
                    Some(c) => {
                        if bump_rank_of(b) >= bump_rank_of(c) {
                            best = Some(b);
                        }
                    },
                }
            },
        }
        i += 1;
    }
    assert(pending@.take(pending.len() as int) =~= pending@);
    best
}

/// The precedence of a bump.
fn bump_rank_of(b: Bump) -> (r: u8)
    ensures
        r == bump_rank(b),
{
    match b {
        Bump::Patch => 0,
        Bump::Minor => 1,
        Bump::Major => 2,
    }
}

// ---------------------------------------------------------------------------
// The workspace version
// ---------------------------------------------------------------------------

/// The quoted value after `version` on a line: `= "..."` with the text up to
/// the next quote.
pub open spec fn quoted_value(rest: Seq<char>) -> Option<Seq<char>> {
    if trim_start(rest).len() > 0 && trim_start(rest)[0] == '=' && split_char(rest, '"').len()
        >= 2 {
        Some(split_char(rest, '"')[1])
    } else {
        None
    }
}

/// The `version` under `[workspace.package]`, scanning lines from `i`;
/// `inside` tells whether the current table is `[workspace.package]`.
pub open spec fn workspace_version_from(ls: Seq<Seq<char>>, i: int, inside: bool) -> Result<
    (u64, u64, u64),
    Seq<char>,
>
    decreases ls.len() - i,
{
    if i < 0 || i >= ls.len() {
        Err("could not find [workspace.package] version in Cargo.toml"@)
    } else {
        let t = trim(ls[i]);
        if t.len() > 0 && t[0] == '[' {
            workspace_version_from(ls, i + 1, t == "[workspace.package]"@)
        } else if inside && "version"@.is_prefix_of(t) && quoted_value(t.skip("version"@.len() as int))
            is Some {
            semver_of(quoted_value(t.skip("version"@.len() as int)).unwrap())
        } else {
            workspace_version_from(ls, i + 1, inside)
        }
    }
}

/// Read the `version` under `[workspace.package]` from a root `Cargo.toml`.
pub fn parse_workspace_version(toml: &str) -> (r: Result<Semver, String>)
    ensures
        match workspace_version_from(lines(toml@), 0, false) {
            Ok((a, b, c)) => r == Ok::<Semver, String>(Semver { major: a, minor: b, patch: c }),
            Err(m) => r matches Err(e) && e@ == m,
        },
{
    let text = chars_of(toml);
    let ls = lines_of(&text);
    let header = chars_of("[workspace.package]");
    let key = chars_of("version");
    let mut inside = false;
    let mut i: usize = 0;
    while i < ls.len()
        invariant
            i <= ls.len(),
            vviews(ls@) == lines(toml@),
            header@ == "[workspace.package]"@,
            key@ == "version"@,
            workspace_version_from(lines(toml@), 0, false) == workspace_version_from(
                lines(toml@),
                i as int,
                inside,
            ),
        decreases ls.len() - i,
    {
        assert(vviews(ls@)[i as int] == ls@[i as int]@);
        let t = trim_vec(&ls[i]);
        if t.len() > 0 && t[0] == '[' {
            inside = chars_eq(&t, &header);
        } else if inside && starts_with(&t, &key) {
            let rest = sub_chars(&t, key.len(), t.len());
            assert(rest@ =~= t@.skip("version"@.len() as int));
            let rs = trim_start_vec(&rest);
            if rs.len() > 0 && rs[0] == '=' {
                let pieces = split_on(&rest, '"');
                if pieces.len() >= 2 {
                    assert(vviews(pieces@)[1] == pieces@[1]@);
                    let value = string_of(&pieces[1]);
                    return Semver::parse(value.as_str());
                }
            }
        }
        i += 1;
    }
    Err(string_of(&chars_of("could not find [workspace.package] version in Cargo.toml")))
}

// ---------------------------------------------------------------------------
// Changelog rendering
// ---------------------------------------------------------------------------

/// A changeset summary as a Markdown bullet body: trimmed, with continuation
/// lines indented under the bullet.
pub open spec fn bullet(summary: Seq<char>) -> Seq<char> {
    replace_char(trim(summary), '\n', "\n  "@)
}

/// A summary as a bullet body.
pub fn bullet_body(summary: &str) -> (r: String)
    ensures
        r@ == bullet(summary@),
{
    let t = trim_vec(&chars_of(summary));
    let indent = chars_of("\n  ");
    string_of(&replace_vec(&t, '\n', &indent))
}

/// The bullets of the changesets at `level`, in order.
pub open spec fn bullets(p: Seq<Pending>, level: Bump) -> Seq<char>
    decreases p.len(),
{
    if p.len() == 0 {
        Seq::empty()
    } else if p.last().bump == Some(level) {
        bullets(p.drop_last(), level) + "- "@ + bullet(p.last().summary@) + "\n"@
    } else {
        bullets(p.drop_last(), level)
    }
}

/// Whether a changeset has bump `level`.
pub open spec fn has_level(p: Seq<Pending>, level: Bump) -> bool {
    exists|i: int| 0 <= i < p.len() && (#[trigger] p[i]).bump == Some(level)
}

/// The group of bullets under `heading`, or nothing when no changeset has
/// `level`.
pub open spec fn group(p: Seq<Pending>, level: Bump, heading: Seq<char>) -> Seq<char> {
    if has_level(p, level) {
        "### "@ + heading + "\n"@ + "\n"@ + bullets(p, level) + "\n"@
    } else {
        Seq::empty()
    }
}

/// The changelog section for `version`: its heading, then the changesets
/// grouped by level, major first; `none` changesets get no entry.
pub open spec fn section_text(version: Semver, date: Seq<char>, p: Seq<Pending>) -> Seq<char> {
    trim_end(
        "## "@ + semver_text(version) + " - "@ + date + "\n"@ + "\n"@ + group(
            p,
            Bump::Major,
            "Major changes"@,
        ) + group(p, Bump::Minor, "Minor changes"@) + group(p, Bump::Patch, "Patch changes"@),
    ) + "\n"@
}

/// Append the group of changesets at `level` under `heading`.
fn push_group(out: &mut Vec<char>, pending: &[Pending], level: Bump, heading: &str)
    ensures
        final(out)@ == old(out)@ + group(pending@, level, heading@),
{
    let ghost start = out@;
    let mut any = false;
    let mut i: usize = 0;
    while i < pending.len()
        invariant
            i <= pending.len(),
            any == has_level(pending@.take(i as int), level),
            any ==> out@ == start + "### "@ + heading@ + "\n"@ + "\n"@ + bullets(
                pending@.take(i as int),
                level,
            ),
            !any ==> out@ == start,
        decreases pending.len() - i,
    {
        let ghost t = pending@.take(i as int);
        let ghost t1 = pending@.take(i + 1);
        assert(t1.drop_last() =~= t);
        assert(t1.last() == pending@[i as int]);
        if pending[i].bump == Some(level) {
            if !any {
                push_str(out, "### ");
                push_str(out, heading);
                push_str(out, "\n");
                push_str(out, "\n");
                any = true;
                assert(!has_level(t, level));
                assert(bullets(t, level) =~= Seq::<char>::empty()) by {
                    lemma_no_bullets(t, level);
                }
            }
            let b = bullet_body(pending[i].summary.as_str());
            push_str(out, "- ");
            push_str(out, b.as_str());
            push_str(out, "\n");
            assert(t1[i as int] == pending@[i as int]);
            assert(has_level(t1, level));
            assert(out@ =~= start + "### "@ + heading@ + "\n"@ + "\n"@ + bullets(t1, level));
        } else {
            assert(has_level(t1, level) == has_level(t, level)) by {
                if has_level(t1, level) {
                    let j = choose|j: int| 0 <= j < t1.len() && (#[trigger] t1[j]).bump == Some(level);
                    assert(j < i);
                    assert(t[j] == t1[j]);
                }
                if has_level(t, level) {
                    let j = choose|j: int| 0 <= j < t.len() && (#[trigger] t[j]).bump == Some(level);
                    assert(t1[j] == t[j]);
                }
            }
        }
        i += 1;
    }
    assert(pending@.take(pending.len() as int) =~= pending@);
    if any {
        push_str(out, "\n");
    }
}

/// No changeset at `level`, no bullets.
proof fn lemma_no_bullets(p: Seq<Pending>, level: Bump)
    requires
        !has_level(p, level),
    ensures
        bullets(p, level) == Seq::<char>::empty(),
    decreases p.len(),
{
    if p.len() > 0 {
        assert(!has_level(p.drop_last(), level)) by {
            if has_level(p.drop_last(), level) {
                let j = choose|j: int|
                    0 <= j < p.drop_last().len() && (#[trigger] p.drop_last()[j]).bump == Some(level);
                assert(p[j] == p.drop_last()[j]);
            }
        }
        lemma_no_bullets(p.drop_last(), level);
        assert(p[p.len() - 1] == p.last());
    }
}

/// Render the changelog section for `version`, grouping the changeset
/// summaries under their bump level.
pub fn render_changelog_section(version: &Semver, date: &str, pending: &[Pending]) -> (r: String)
    ensures
        r@ == section_text(*version, date@, pending@),
{
    let mut out = chars_of("## ");
    let v = version.to_string();
    push_str(&mut out, v.as_str());
    push_str(&mut out, " - ");
    push_str(&mut out, date);
    push_str(&mut out, "\n");
    push_str(&mut out, "\n");
    push_group(&mut out, pending, Bump::Major, "Major changes");
    push_group(&mut out, pending, Bump::Minor, "Minor changes");
    push_group(&mut out, pending, Bump::Patch, "Patch changes");
    let mut t = trim_end_vec(&out);
    t.push('\n');
    proof {
        reveal_strlit("\n");
    }
    assert(t@ =~= section_text(*version, date@, pending@));
    string_of(&t)
}

/// `text` without a leading `# Changelog` header line and the blank lines
/// after it.
pub open spec fn strip_header_spec(text: Seq<char>) -> Seq<char> {
    let t = trim_start(text);
    let rest = t.skip(CHANGELOG_HEADER@.len() as int);
    if CHANGELOG_HEADER@.is_prefix_of(t) && rest.len() > 0 && (rest[0] == '\n' || rest[0] == '\r') {
        strip_leading(rest, '\n')
    } else {
        t
    }
}

/// Drop a leading `# Changelog` header so it is not duplicated.
pub fn strip_header(text: &str) -> (r: String)
    ensures
        r@ == strip_header_spec(text@),
{
    let t = trim_start_vec(&chars_of(text));
    let h = chars_of(CHANGELOG_HEADER);
    if starts_with(&t, &h) {
        let rest = sub_chars(&t, h.len(), t.len());
        assert(rest@ =~= t@.skip(CHANGELOG_HEADER@.len() as int));
        if rest.len() > 0 && (rest[0] == '\n' || rest[0] == '\r') {
            return string_of(&strip_leading_vec(&rest, '\n'));
        }
    }
    string_of(&t)
}

/// The changelog after prepending `section` to `existing`, with one
/// top-level header.
pub open spec fn changelog_text(existing: Option<Seq<char>>, section: Seq<char>) -> Seq<char> {
    let head = CHANGELOG_HEADER@ + "\n\n"@ + trim_end(section) + "\n"@;
    let prior = match existing {
        Some(e) => strip_header_spec(e),
        None => Seq::empty(),
    };
    if trim(prior).len() == 0 {
        head
    } else {
        let o = head + "\n"@ + strip_leading(prior, '\n');
        if o.len() > 0 && o.last() == '\n' {
            o
        } else {
            o.push('\n')
        }
    }
}

/// Prepend `section` to the changelog, keeping a single top-level header
/// and any prior content below the new section.
pub fn update_changelog_text(existing: Option<&str>, section: &str) -> (r: String)
    ensures
        r@ == changelog_text(
            match existing {
                Some(e) => Some(e@),
                None => None,
            },
            section@,
        ),
{
    let mut out = chars_of(CHANGELOG_HEADER);
    push_str(&mut out, "\n\n");
    push_all(&mut out, &trim_end_vec(&chars_of(section)));
    push_str(&mut out, "\n");
    let prior: Vec<char> = match existing {
        Some(e) => chars_of(strip_header(e).as_str()),
        None => Vec::new(),
    };
    assert(prior@ == match existing {
        Some(e) => strip_header_spec(e@),
        None => Seq::<char>::empty(),
    });
    let tp = trim_vec(&prior);
    if tp.len() != 0 {
        push_str(&mut out, "\n");
        push_all(&mut out, &strip_leading_vec(&prior, '\n'));
        if !(out.len() > 0 && out[out.len() - 1] == '\n') {
            out.push('\n');
        }
    }
    string_of(&out)
}

// ---------------------------------------------------------------------------
// Small helpers
// ---------------------------------------------------------------------------

/// The first line of `s`, trimmed; empty when `s` has none.
pub open spec fn first_line_spec(s: Seq<char>) -> Seq<char> {
    if lines(s).len() > 0 {
        trim(lines(s)[0])
    } else {
        Seq::empty()
    }
}

/// The first line of `s`, trimmed.
pub fn first_line(s: &str) -> (r: String)
    ensures
        r@ == first_line_spec(s@),
{
    let ls = lines_of(&chars_of(s));
    if ls.len() > 0 {
        assert(vviews(ls@)[0] == ls@[0]@);
        string_of(&trim_vec(&ls[0]))
    } else {
        String::new()
    }
}

/// A file-name slug: the first 40 characters without leading or trailing
/// underscores, or `changeset` when nothing is left.
pub open spec fn slug_spec(s: Seq<char>) -> Seq<char> {
    let base = s.take(if s.len() < 40 {
        s.len() as int
    } else {
        40
    });
    let t = strip_trailing(strip_leading(base, '_'), '_');
    if t.len() == 0 {
        "changeset"@
    } else {
        t
    }
}

/// Cut a normalized summary to a file-name slug.
pub fn truncate_slug(s: &str) -> (r: String)
    ensures
        r@ == slug_spec(s@),
{
    let v = chars_of(s);
    let n = if v.len() < 40 {
        v.len()
    } else {
        40
    };
    let base = sub_chars(&v, 0, n);
    assert(base@ =~= v@.take(n as int));
    let t = strip_trailing_vec(&strip_leading_vec(&base, '_'), '_');
    if t.len() == 0 {
        String::from_str("changeset")
    } else {
        string_of(&t)
    }
}

// ---------------------------------------------------------------------------
// Commands
// ---------------------------------------------------------------------------

/// One step of `UniqueId::normalize`: the text so far and whether it ends in
/// an underscore it added.
pub open spec fn normalize_step(acc: (Seq<char>, bool), c: char) -> (Seq<char>, bool) {
    if crate::text::is_ascii_alnum(c) {
        (acc.0.push(crate::text::lower(c)), false)
    } else if (c == ' ' || c == '_' || c == '-') && !acc.1 {
        (acc.0.push('_'), true)
    } else {
        acc
    }
}

/// `UniqueId::normalize` over the whole of `s`.
pub open spec fn normalize_from(s: Seq<char>) -> (Seq<char>, bool)
    decreases s.len(),
{
    if s.len() == 0 {
        (Seq::empty(), false)
    } else {
        normalize_step(normalize_from(s.drop_last()), s.last())
    }
}

/// `changesets::UniqueId::normalize`, rendered. Its source keeps ASCII
/// letters and digits (lower-cased), turns a space, `_` or `-` into one `_`
/// unless the last character it kept was such an `_`, and drops everything
/// else; the contract states exactly that.
#[verifier::external_body]
fn normalize_id(s: &str) -> (r: String)
    ensures
        r@ == normalize_from(s@).0,
{
    changesets::UniqueId::normalize(s).to_string()
}

/// The views of a list of strings.
pub open spec fn arg_views(a: Seq<String>) -> Seq<Seq<char>> {
    a.map_values(|x: String| x@)
}

/// A new changeset to write.
pub struct NewChange {
    pub kind: ChangeKind,
    /// The summary given, or a placeholder asking for one.
    pub summary: String,
    /// The file-name slug, before the unique suffix.
    pub slug: String,
    /// Whether a summary was given.
    pub has_summary: bool,
}

/// What `changeset add` is asked for: the change type word and the summary
/// words, or the error for a missing or unknown type.
pub open spec fn add_plan(args: Seq<Seq<char>>) -> Result<(KindView, Seq<char>, Seq<char>, bool), Seq<char>> {
    if args.len() == 0 {
        Err("usage: changeset add <major|minor|patch|none> [summary]"@)
    } else {
        let level = args[0];
        let given = trim(join_spaced(args.skip(1)));
        let has = given.len() > 0;
        let summary = if has {
            given
        } else {
            "Describe your change here."@
        };
        let slug = if has {
            slug_spec(normalize_from(given).0)
        } else {
            "changeset"@
        };
        if level == "major"@ {
            Ok((KindView::Major, summary, slug, has))
        } else if level == "minor"@ {
            Ok((KindView::Minor, summary, slug, has))
        } else if level == "patch"@ {
            Ok((KindView::Patch, summary, slug, has))
        } else if level == "none"@ {
            Ok((KindView::Custom("none"@), summary, slug, has))
        } else {
            Err("unknown change type `"@ + level + "`; use major, minor, patch, or none"@)
        }
    }
}

/// Decide what `changeset add <type> [summary...]` writes.
pub fn plan_add(args: &[String]) -> (r: Result<NewChange, String>)
    ensures
        match add_plan(arg_views(args@)) {
            Ok((k, summary, slug, has)) => r matches Ok(c) && kind_view(c.kind) == k && c.summary@
                == summary && c.slug@ == slug && c.has_summary == has,
            Err(m) => r matches Err(e) && e@ == m,
        },
{
    if args.len() == 0 {
        return Err(String::from_str("usage: changeset add <major|minor|patch|none> [summary]"));
    }
    let mut joined: Vec<char> = Vec::new();
    let mut i: usize = 1;
    assert(arg_views(args@).skip(1).take(0) =~= Seq::<Seq<char>>::empty());
    while i < args.len()
        invariant
            1 <= i <= args.len(),
            joined@ == join_spaced(arg_views(args@).skip(1).take(i - 1)),
        decreases args.len() - i,
    {
        let ghost prev = arg_views(args@).skip(1).take(i - 1);
        let ghost next = arg_views(args@).skip(1).take(i as int);
        assert(next.drop_last() =~= prev);
        assert(next.last() == args@[i as int]@);
        if i > 1 {
            push_str(&mut joined, " ");
        }
        push_str(&mut joined, args[i].as_str());
        i += 1;
    }
    assert(arg_views(args@).skip(1).take(args.len() - 1) =~= arg_views(args@).skip(1));
    let given = trim_vec(&joined);
    let has_summary = given.len() > 0;
    let given_s = string_of(&given);
    let summary = if has_summary {
        string_of(&given)
    } else {
        String::from_str("Describe your change here.")
    };
    let slug = if has_summary {
        let n = normalize_id(given_s.as_str());
        truncate_slug(n.as_str())
    } else {
        String::from_str("changeset")
    };
    let level = args[0].as_str();
    let kind = if str_eq(level, "major") {
        ChangeKind::Major
    } else if str_eq(level, "minor") {
        ChangeKind::Minor
    } else if str_eq(level, "patch") {
        ChangeKind::Patch
    } else if str_eq(level, "none") {
        ChangeKind::Custom(String::from_str("none"))
    } else {
        let mut m = chars_of("unknown change type `");
        push_str(&mut m, level);
        push_str(&mut m, "`; use major, minor, patch, or none");
        return Err(string_of(&m));
    };
    Ok(NewChange { kind, summary, slug, has_summary })
}

/// A `changeset` subcommand.
pub enum Subcommand {
    /// `add` with the arguments after it.
    Add(Vec<String>),
    Check,
    Status,
    Version,
}

/// Choose the `changeset` subcommand named by the first argument.
pub fn run(args: &[String]) -> (r: Result<Subcommand, String>)
    ensures
        args.len() == 0 ==> (r matches Err(e) && e@
            == "changeset: missing subcommand (add|check|status|version)"@),
        args.len() > 0 && args@[0]@ == "add"@ ==> (r matches Ok(Subcommand::Add(rest))
            && rest@ == args@.skip(1)),
        args.len() > 0 && args@[0]@ == "check"@ ==> r matches Ok(Subcommand::Check),
        args.len() > 0 && args@[0]@ == "status"@ ==> r matches Ok(Subcommand::Status),
        args.len() > 0 && args@[0]@ == "version"@ ==> r matches Ok(Subcommand::Version),
        args.len() > 0 && args@[0]@ != "add"@ && args@[0]@ != "check"@ && args@[0]@ != "status"@
            && args@[0]@ != "version"@ ==> (r matches Err(e) && e@ == "unknown changeset subcommand `"@
            + args@[0]@ + "` (try add|check|status|version)"@),
{
    if args.len() == 0 {
        return Err(String::from_str("changeset: missing subcommand (add|check|status|version)"));
    }
    let sub = args[0].as_str();
    proof {
        reveal_strlit("add");
        reveal_strlit("check");
        reveal_strlit("status");
        reveal_strlit("version");
    }
    assert(sub@ == args@[0]@);
    assert("check"@.len() == 5);
    assert("add"@.len() == 3);
    assert("check"@ != "add"@);
    if str_eq(sub, "add") {
        let mut rest: Vec<String> = Vec::new();
        let mut i: usize = 1;
        while i < args.len()
            invariant
                1 <= i <= args.len(),
                rest@ == args@.subrange(1, i as int),
            decreases args.len() - i,
        {
            rest.push(args[i].clone());
            assert(rest@ =~= args@.subrange(1, i + 1));
            i += 1;
        }
        assert(args@.subrange(1, args.len() as int) =~= args@.skip(1));
        Ok(Subcommand::Add(rest))
    } else if str_eq(sub, "check") {
        assert(sub@ == "check"@);
        assert(args@[0]@ == "check"@);
        Ok(Subcommand::Check)
    } else if str_eq(sub, "status") {
        Ok(Subcommand::Status)
    } else if str_eq(sub, "version") {
        Ok(Subcommand::Version)
    } else {
        let mut m = chars_of("unknown changeset subcommand `");
        push_str(&mut m, sub);
        push_str(&mut m, "` (try add|check|status|version)");
        Err(string_of(&m))
    }
}

// ---------------------------------------------------------------------------
// Reading a changeset file
// ---------------------------------------------------------------------------

/// What the front matter of a changeset file declares, as the changesets crate
/// reads it: each package once with its change type, and the summary below
/// the front matter; or the crate's error text.
pub uninterp spec fn change_front_matter(content: Seq<char>) -> Result<(Map<Seq<char>, KindView>, Seq<char>), Seq<char>>;

/// The package names of entries are pairwise distinct.
pub open spec fn names_distinct(es: Seq<(Seq<char>, ChangeKind)>) -> bool {
    forall|i: int, j: int| 0 <= i < j < es.len() ==> es[i].0 != es[j].0
}

/// Entries as a map from package name to change type.
pub open spec fn entry_map(es: Seq<(Seq<char>, ChangeKind)>) -> Map<Seq<char>, KindView> {
    Map::new(
        |k: Seq<char>| exists|i: int| 0 <= i < es.len() && es[i].0 == k,
        |k: Seq<char>| kind_view(es[choose|i: int| 0 <= i < es.len() && es[i].0 == k].1),
    )
}

/// Whether a file name ends in `.md`.
pub open spec fn is_md(name: Seq<char>) -> bool {
    ".md"@.is_suffix_of(name)
}

/// A changeset file's id, entries and summary.
pub type ChangeParts = (String, Vec<(String, ChangeKind)>, String);

/// `changesets::Change::from_file_name_and_content`, as plain values: the id,
/// the entries in the order the crate's map hands them out, and the summary.
/// Its source takes the id as the file name without `.md`, refuses any other
/// file name as `invalid file name`, and reads everything else from the
/// content alone; the entries come from a hash map, so their names are
/// distinct. The contract states those facts, and names what the content
/// declares (`change_front_matter`); the order of the entries is left open.
#[verifier::external_body]
fn read_change(file_name: &str, content: &str) -> (r: Result<ChangeParts, String>)
    ensures
        !is_md(file_name@) ==> (match r {
            Err(e) => e@ == "invalid file name"@,
            Ok(_) => false,
        }),
        is_md(file_name@) ==> (match (r, change_front_matter(content@)) {
            (Ok((id, es, summary)), Ok((m, s))) => id@ == file_name@.take(file_name@.len() - 3)
                && summary@ == s && entry_map(entry_views(es@)) == m && names_distinct(
                entry_views(es@),
            ),
            (Err(e), Err(t)) => e@ == t,
            _ => false,
        }),
{
    match changesets::Change::from_file_name_and_content(file_name, content) {
        Ok(c) => {
            let es = c.versioning.iter().map(|(p, t)| (p.clone(), match t {
                changesets::ChangeType::Major => ChangeKind::Major,
                changesets::ChangeType::Minor => ChangeKind::Minor,
                changesets::ChangeType::Patch => ChangeKind::Patch,
                changesets::ChangeType::Custom(s) => ChangeKind::Custom(s.clone()),
            })).collect();
            Ok((c.unique_id.to_string(), es, c.summary))
        },
        Err(e) => Err(e.to_string()),
    }
}

/// The bump a single change type asks for, or why it is refused.
pub open spec fn kind_bump(k: KindView) -> Result<Option<Bump>, Seq<char>> {
    match k {
        KindView::Major => Ok(Some(Bump::Major)),
        KindView::Minor => Ok(Some(Bump::Minor)),
        KindView::Patch => Ok(Some(Bump::Patch)),
        KindView::Custom(s) => if ci_eq(s, "none"@) {
            Ok(None)
        } else {
            Err("unknown change type `"@ + s + "`; use major, minor, patch, or none"@)
        },
    }
}

/// The error for an entry naming another package.
pub open spec fn foreign_package(k: Seq<char>) -> Seq<char> {
    "unknown package `"@ + k + "`; use the single key `"@ + PACKAGE@ + "`"@
}

/// Among entries naming a package other than this one's, the first.
proof fn lemma_first_foreign(es: Seq<(Seq<char>, ChangeKind)>, n: int)
    requires
        0 <= n < es.len(),
        es[n].0 != PACKAGE@,
    ensures
        exists|i: int|
            0 <= i < es.len() && es[i].0 != PACKAGE@ && forall|j: int|
                0 <= j < i ==> es[j].0 == PACKAGE@,
    decreases n,
{
    if exists|j: int| 0 <= j < n && es[j].0 != PACKAGE@ {
        let j = choose|j: int| 0 <= j < n && es[j].0 != PACKAGE@;
        lemma_first_foreign(es, j);
    } else {
        assert(forall|j: int| 0 <= j < n ==> es[j].0 == PACKAGE@);
    }
}

/// Read a pending changeset from its file `file`, named `file_name`, with
/// text `content`. It is refused, with the file name in front of the reason,
/// when the changesets crate cannot read it, when it names another package,
/// or when its change type is none of major, minor, patch or `none`.
pub fn read_pending(file: &str, file_name: &str, content: &str) -> (r: Result<Pending, String>)
    ensures
        !is_md(file_name@) ==> (r matches Err(e) && e@ == file_name@ + ": "@ + "invalid file name"@),
        is_md(file_name@) ==> match change_front_matter(content@) {
            Err(t) => r matches Err(e) && e@ == file_name@ + ": "@ + t,
            Ok((m, s)) => if exists|k: Seq<char>| m.contains_key(k) && k != PACKAGE@ {
                r matches Err(e) && exists|k: Seq<char>|
                    m.contains_key(k) && k != PACKAGE@ && e@ == file_name@ + ": "@ + foreign_package(
                        k,
                    )
            } else if !m.contains_key(PACKAGE@) {
                r matches Err(e) && e@ == file_name@ + ": "@ + "changeset targets no package"@
            } else {
                match kind_bump(m[PACKAGE@]) {
                    Ok(b) => r matches Ok(p) && p.file@ == file@ && p.id@ == file_name@.take(
                        file_name@.len() - 3,
                    ) && p.bump == b && p.summary@ == s,
                    Err(t) => r matches Err(e) && e@ == file_name@ + ": "@ + t,
                }
            },
        },
{
    let mut prefix = chars_of(file_name);
    push_str(&mut prefix, ": ");
    let (id, entries, summary) = match read_change(file_name, content) {
        Ok(x) => x,
        Err(e) => {
            push_str(&mut prefix, e.as_str());
            return Err(string_of(&prefix));
        },
    };
    let ghost es = entry_views(entries@);
    let ghost m = entry_map(es);
    let r = bump_of(&entries);
    proof {
        if exists|k: Seq<char>| m.contains_key(k) && k != PACKAGE@ {
            let k = choose|k: Seq<char>| m.contains_key(k) && k != PACKAGE@;
            let n = choose|i: int| 0 <= i < es.len() && es[i].0 == k;
            lemma_first_foreign(es, n);
            let f = choose|i: int|
                0 <= i < es.len() && es[i].0 != PACKAGE@ && forall|j: int|
                    0 <= j < i ==> es[j].0 == PACKAGE@;
            assert(m.contains_key(es[f].0));
            assert(bump_spec(es) == Err::<Option<Bump>, Seq<char>>(foreign_package(es[f].0)));
        } else {
            assert forall|i: int| 0 <= i < es.len() implies es[i].0 == PACKAGE@ by {
                assert(m.contains_key(es[i].0));
            }
            if es.len() >= 2 {
                assert(es[0].0 == es[1].0);
            }
            if es.len() == 1 {
                assert(m.contains_key(PACKAGE@));
                let c = choose|i: int| 0 <= i < es.len() && es[i].0 == PACKAGE@;
                assert(c == 0);
                assert(m[PACKAGE@] == kind_view(es.last().1));
                assert(bump_spec(es) == kind_bump(m[PACKAGE@]));
            } else {
                assert(!m.contains_key(PACKAGE@));
                assert(bump_spec(es) == Err::<Option<Bump>, Seq<char>>("changeset targets no package"@));
            }
        }
    }
    match r {
        Ok(bump) => Ok(Pending { file: string_of(&chars_of(file)), id, bump, summary }),
        Err(e) => {
            push_str(&mut prefix, e.as_str());
            Err(string_of(&prefix))
        },
    }
}

/// The name of the changelog group for a bump level.
pub open spec fn level_title(b: Bump) -> Seq<char> {
    match b {
        Bump::Major => "Major changes"@,
        Bump::Minor => "Minor changes"@,
        Bump::Patch => "Patch changes"@,
    }
}

/// The heading line of the changelog group for a bump level.
pub open spec fn level_heading(b: Bump) -> Seq<char> {
    "### "@ + level_title(b)
}

/// Trimming trailing white space keeps a prefix.
proof fn lemma_trim_end_prefix(s: Seq<char>)
    ensures
        trim_end(s).len() <= s.len(),
        s.take(trim_end(s).len() as int) == trim_end(s),
    decreases s.len(),
{
    if s.len() > 0 && is_ws(s.last()) {
        lemma_trim_end_prefix(s.drop_last());
        assert(s.take(trim_end(s).len() as int) =~= s.drop_last().take(trim_end(s).len() as int));
    } else {
        assert(s.take(s.len() as int) =~= s);
    }
}

/// Text added after `s` never cuts into `s` once trimmed.
proof fn lemma_trim_end_extend(s: Seq<char>, c: Seq<char>)
    ensures
        trim_end(s).len() <= trim_end(s + c).len(),
        trim_end(s + c).take(trim_end(s).len() as int) == trim_end(s),
    decreases c.len(),
{
    lemma_trim_end_prefix(s);
    if c.len() == 0 {
        assert(s + c =~= s);
    } else if is_ws(c.last()) {
        assert((s + c).drop_last() =~= s + c.drop_last());
        lemma_trim_end_extend(s, c.drop_last());
    } else {
        assert(trim_end(s + c) == s + c);
        assert((s + c).take(trim_end(s).len() as int) =~= s.take(trim_end(s).len() as int));
    }
}

/// Trimming text that does not end in white space leaves what comes before
/// it alone.
proof fn lemma_trim_end_after(a: Seq<char>, s: Seq<char>)
    requires
        s.len() > 0,
        !is_ws(s[0]),
    ensures
        trim_end(a + s) == a + trim_end(s),
    decreases s.len(),
{
    if is_ws(s.last()) {
        assert(s.len() > 1);
        assert((a + s).drop_last() =~= a + s.drop_last());
        lemma_trim_end_after(a, s.drop_last());
    }
}

/// The bullets of the changesets at `level` among the first `m` begin with
/// those among the first `n`.
proof fn lemma_bullets_extend(p: Seq<Pending>, level: Bump, n: int, m: int)
    requires
        0 <= n <= m <= p.len(),
    ensures
        bullets(p.take(m), level).len() >= bullets(p.take(n), level).len(),
        bullets(p.take(m), level).take(bullets(p.take(n), level).len() as int) == bullets(
            p.take(n),
            level,
        ),
    decreases m - n,
{
    if m == n {
        assert(bullets(p.take(m), level).take(bullets(p.take(n), level).len() as int) =~= bullets(
            p.take(n),
            level,
        ));
    } else {
        lemma_bullets_extend(p, level, n, m - 1);
        assert(p.take(m).drop_last() =~= p.take(m - 1));
        let b0 = bullets(p.take(n), level);
        let b1 = bullets(p.take(m - 1), level);
        assert(bullets(p.take(m), level).take(b0.len() as int) =~= b1.take(b0.len() as int));
    }
}

/// The start of the bullet of changeset `i` in its level's group: the
/// heading, the bullets of the earlier changesets of that level, and its own.
pub open spec fn bullet_lead(p: Seq<Pending>, i: int, b: Bump) -> Seq<char> {
    level_heading(b) + "\n\n"@ + bullets(p.take(i), b) + "- "@ + bullet(p[i].summary@)
}

/// The group of `b` opens with the lead of each of its changesets' bullets.
proof fn lemma_group_split(p: Seq<Pending>, i: int, b: Bump) -> (rest: Seq<char>)
    requires
        0 <= i < p.len(),
        p[i].bump == Some(b),
    ensures
        group(p, b, level_title(b)) == bullet_lead(p, i, b) + rest,
        bullet_lead(p, i, b).len() > 0,
        !is_ws(bullet_lead(p, i, b)[0]),
{
    let bi = "- "@ + bullet(p[i].summary@) + "\n"@;
    let before = bullets(p.take(i), b);
    assert(p.take(i + 1).drop_last() =~= p.take(i));
    assert(p.take(i + 1).last() == p[i]);
    assert(bullets(p.take(i + 1), b) == before + bi);
    lemma_bullets_extend(p, b, i + 1, p.len() as int);
    assert(p.take(p.len() as int) =~= p);
    let all = bullets(p, b);
    let tail = all.skip((before + bi).len() as int);
    assert(all =~= before + bi + tail);
    assert(has_level(p, b));
    let rest = "\n"@ + tail + "\n"@;
    reveal_strlit("\n\n");
    reveal_strlit("\n");
    reveal_strlit("### ");
    assert(group(p, b, level_title(b)) =~= bullet_lead(p, i, b) + rest);
    assert(bullet_lead(p, i, b)[0] == '#');
    rest
}

/// Text `s` placed after `a`, and trimmed at the end of the whole, still
/// shows its own trimmed form right after `a`.
proof fn lemma_locate(a: Seq<char>, sg: Seq<char>, c: Seq<char>)
    requires
        sg.len() > 0,
        !is_ws(sg[0]),
    ensures
        ({
            let text = trim_end(a + sg + c) + "\n"@;
            let seg = trim_end(sg);
            &&& a.len() + seg.len() <= text.len()
            &&& text.subrange(a.len() as int, (a.len() + seg.len()) as int) == seg
        }),
{
    lemma_trim_end_extend(a + sg, c);
    lemma_trim_end_after(a, sg);
    let seg = trim_end(sg);
    let t = trim_end(a + sg + c);
    let text = t + "\n"@;
    let h = a.len() as int;
    assert(t.take((a + seg).len() as int) == a + seg);
    assert forall|j: int| 0 <= j < seg.len() implies text.subrange(h, h + seg.len())[j] == seg[j] by {
        assert(text[h + j] == t[h + j]);
        assert(t.take((a + seg).len() as int)[h + j] == (a + seg)[h + j]);
    }
    assert(text.subrange(h, h + seg.len()) =~= seg);
}

/// Each changeset's bullet stands in the group of its own bump level: the
/// rendered section holds that level's heading, then the bullets of the
/// earlier changesets of that level, then this changeset's bullet (trailing
/// white space at the very end of the section aside).
pub proof fn lemma_bullet_under_its_heading(version: Semver, date: Seq<char>, p: Seq<Pending>, i: int)
    requires
        0 <= i < p.len(),
        p[i].bump is Some,
    ensures
        ({
            let seg = trim_end(bullet_lead(p, i, p[i].bump.unwrap()));
            let text = section_text(version, date, p);
            exists|h: int| 0 <= h && h + seg.len() <= text.len() && #[trigger] text.subrange(h, h + seg.len()) == seg
        }),
{
    let b = p[i].bump.unwrap();
    let head = "## "@ + semver_text(version) + " - "@ + date + "\n"@ + "\n"@;
    let gmaj = group(p, Bump::Major, level_title(Bump::Major));
    let gmin = group(p, Bump::Minor, level_title(Bump::Minor));
    let gpat = group(p, Bump::Patch, level_title(Bump::Patch));
    assert(section_text(version, date, p) == trim_end(head + gmaj + gmin + gpat) + "\n"@);
    let rest = lemma_group_split(p, i, b);
    let sg = bullet_lead(p, i, b);
    let (a, c) = match b {
        Bump::Major => (head, rest + gmin + gpat),
        Bump::Minor => (head + gmaj, rest + gpat),
        Bump::Patch => (head + gmaj + gmin, rest),
    };
    assert(head + gmaj + gmin + gpat =~= a + sg + c);
    lemma_locate(a, sg, c);
    let h = a.len() as int;
    let seg = trim_end(sg);
    assert(section_text(version, date, p).subrange(h, h + seg.len()) == seg);
}

} // verus!
