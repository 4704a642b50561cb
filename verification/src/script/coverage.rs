//! Line coverage collected from pseudo-op scripts across one assembly.
//!
//! For each script the collector keeps the lines that could run and those
//! that did; hits accumulate over every invocation. Scripts are kept in path
//! order, paths compared character by character with `/` below every other
//! character, which orders them segment by segment; each script's lines are
//! kept in ascending order.

use vstd::prelude::*;
use crate::text::{chars_of, string_of};

verus! {

// ---------------------------------------------------------------------------
// Path order
// ---------------------------------------------------------------------------

/// Whether `x` sorts before `y` in path order: `/` below everything else,
/// other characters by code point.
pub open spec fn char_before(x: char, y: char) -> bool {
    if x == '/' {
        y != '/'
    } else if y == '/' {
        false
    } else {
        x < y
    }
}

/// Whether `a` sorts before `b` in path order, comparing from index `i` on.
pub open spec fn path_lt_from(a: Seq<char>, b: Seq<char>, i: int) -> bool
    decreases a.len() - i,
{
    if i < 0 {
        false
    } else if i >= a.len() {
        i < b.len()
    } else if i >= b.len() {
        false
    } else if a[i] != b[i] {
        char_before(a[i], b[i])
    } else {
        path_lt_from(a, b, i + 1)
    }
}

/// Whether path `a` sorts before path `b`.
pub open spec fn path_lt(a: Seq<char>, b: Seq<char>) -> bool {
    path_lt_from(a, b, 0)
}

/// Path order is transitive.
proof fn lemma_path_lt_trans(a: Seq<char>, b: Seq<char>, c: Seq<char>, i: int)
    requires
        0 <= i,
        path_lt_from(a, b, i),
        path_lt_from(b, c, i),
    ensures
        path_lt_from(a, c, i),
    decreases a.len() - i,
{
    if i < a.len() && i < b.len() && i < c.len() && a[i] == b[i] && b[i] == c[i] {
        lemma_path_lt_trans(a, b, c, i + 1);
    }
}

/// Path order is irreflexive.
proof fn lemma_path_lt_irrefl(a: Seq<char>, i: int)
    requires
        0 <= i,
    ensures
        !path_lt_from(a, a, i),
    decreases a.len() - i,
{
    if i < a.len() {
        lemma_path_lt_irrefl(a, i + 1);
    }
}

/// Two paths that agree before `i` are equal or ordered one way.
proof fn lemma_path_lt_total(a: Seq<char>, b: Seq<char>, i: int)
    requires
        0 <= i <= a.len(),
        i <= b.len(),
        forall|k: int| 0 <= k < i ==> a[k] == b[k],
    ensures
        a == b || path_lt_from(a, b, i) || path_lt_from(b, a, i),
    decreases a.len() - i,
{
    if i < a.len() && i < b.len() {
        if a[i] == b[i] {
            lemma_path_lt_total(a, b, i + 1);
        }
    } else if i == a.len() && i == b.len() {
        assert(a =~= b);
    } else if i == a.len() {
        assert(path_lt_from(a, b, i));
    } else {
        assert(path_lt_from(b, a, i));
    }
}

/// Path order, decided.
fn path_less(a: &[char], b: &[char]) -> (r: bool)
    ensures
        r == path_lt(a@, b@),
{
    let mut i: usize = 0;
    while i < a.len() && i < b.len() && a[i] == b[i]
        invariant
            i <= a.len(),
            i <= b.len(),
            path_lt_from(a@, b@, i as int) == path_lt(a@, b@),
        decreases a.len() - i,
    {
        i += 1;
    }
    if i >= a.len() {
        i < b.len()
    } else if i >= b.len() {
        false
    } else {
        let x = a[i];
        let y = b[i];
        if x == '/' {
            true
        } else if y == '/' {
            false
        } else {
            x < y
        }
    }
}

// ---------------------------------------------------------------------------
// One script's lines
// ---------------------------------------------------------------------------

/// Lines in strictly ascending order, each with whether it ran.
pub open spec fn rows_ok(r: Seq<(u32, bool)>) -> bool {
    forall|i: int, j: int| 0 <= i < j < r.len() ==> r[i].0 < r[j].0
}

/// The lines a script's rows list.
pub open spec fn lines_of(r: Seq<(u32, bool)>) -> Set<u32> {
    Set::new(|l: u32| exists|i: int| 0 <= i < r.len() && r[i].0 == l)
}

/// The lines a script's rows mark as run.
pub open spec fn hits_of(r: Seq<(u32, bool)>) -> Set<u32> {
    Set::new(|l: u32| exists|i: int| 0 <= i < r.len() && r[i].0 == l && r[i].1)
}

/// Record `line` as coverable, and as run when `hit`.
fn mark(rows: &mut Vec<(u32, bool)>, line: u32, hit: bool)
    requires
        rows_ok(old(rows)@),
    ensures
        rows_ok(final(rows)@),
        lines_of(final(rows)@) == lines_of(old(rows)@).insert(line),
        hits_of(final(rows)@) == if hit {
            hits_of(old(rows)@).insert(line)
        } else {
            hits_of(old(rows)@)
        },
{
    let ghost r0 = rows@;
    let mut i: usize = 0;
    while i < rows.len() && rows[i].0 < line
        invariant
            i <= rows.len(),
            rows@ == r0,
            forall|k: int| 0 <= k < i ==> r0[k].0 < line,
        decreases rows.len() - i,
    {
        i += 1;
    }
    if i < rows.len() && rows[i].0 == line {
        if hit {
            rows.set(i, (line, true));
            assert(lines_of(rows@) =~= lines_of(r0).insert(line)) by {
                assert forall|l: u32| lines_of(r0).insert(line).contains(l) implies lines_of(
                    rows@,
                ).contains(l) by {
                    if l != line {
                        let k = choose|k: int| 0 <= k < r0.len() && r0[k].0 == l;
                        assert(rows@[k].0 == l);
                    } else {
                        assert(rows@[i as int].0 == l);
                    }
                }
                assert forall|l: u32| lines_of(rows@).contains(l) implies lines_of(r0).insert(
                    line,
                ).contains(l) by {
                    let k = choose|k: int| 0 <= k < rows@.len() && rows@[k].0 == l;
                    assert(r0[k].0 == l);
                }
            }
            assert(hits_of(rows@) =~= hits_of(r0).insert(line)) by {
                assert forall|l: u32| hits_of(r0).insert(line).contains(l) implies hits_of(
                    rows@,
                ).contains(l) by {
                    if l != line {
                        let k = choose|k: int| 0 <= k < r0.len() && r0[k].0 == l && r0[k].1;
                        assert(k != i);
                        assert(rows@[k].0 == l && rows@[k].1);
                    } else {
                        assert(rows@[i as int].0 == l && rows@[i as int].1);
                    }
                }
                assert forall|l: u32| hits_of(rows@).contains(l) implies hits_of(r0).insert(
                    line,
                ).contains(l) by {
                    let k = choose|k: int| 0 <= k < rows@.len() && rows@[k].0 == l && rows@[k].1;
                    if k != i {
                        assert(r0[k].0 == l && r0[k].1);
                    }
                }
            }
        } else {
            assert(lines_of(r0).insert(line) =~= lines_of(r0)) by {
                assert(lines_of(r0).contains(line)) by {
                    assert(r0[i as int].0 == line);
                }
            }
        }
    } else {
        rows.insert(i, (line, hit));
        assert(rows@ =~= r0.insert(i as int, (line, hit)));
        assert forall|a: int, b: int| 0 <= a < b < rows@.len() implies rows@[a].0 < rows@[b].0 by {
            if b < i {
            } else if a < i && b == i {
            } else if a < i {
                assert(rows@[b] == r0[b - 1]);
                assert(r0[a].0 < r0[i as int].0 || i as int == b - 1);
            } else if a == i {
                assert(rows@[b] == r0[b - 1]);
                assert(r0[i as int].0 > line);
                assert(r0[i as int].0 <= r0[b - 1].0 || b - 1 == i);
            } else {
                assert(rows@[a] == r0[a - 1] && rows@[b] == r0[b - 1]);
            }
        }
        assert(lines_of(rows@) =~= lines_of(r0).insert(line)) by {
            assert forall|l: u32| lines_of(r0).insert(line).contains(l) implies lines_of(
                rows@,
            ).contains(l) by {
                if l != line {
                    let k = choose|k: int| 0 <= k < r0.len() && r0[k].0 == l;
                    if k < i {
                        assert(rows@[k].0 == l);
                    } else {
                        assert(rows@[k + 1].0 == l);
                    }
                } else {
                    assert(rows@[i as int].0 == l);
                }
            }
            assert forall|l: u32| lines_of(rows@).contains(l) implies lines_of(r0).insert(
                line,
            ).contains(l) by {
                let k = choose|k: int| 0 <= k < rows@.len() && rows@[k].0 == l;
                if k < i {
                    assert(r0[k].0 == l);
                } else if k > i {
                    assert(r0[k - 1].0 == l);
                }
            }
        }
        assert(hits_of(rows@) =~= if hit {
            hits_of(r0).insert(line)
        } else {
            hits_of(r0)
        }) by {
            assert(!lines_of(r0).contains(line)) by {
                if lines_of(r0).contains(line) {
                    let k = choose|k: int| 0 <= k < r0.len() && r0[k].0 == line;
                    if k < i {
                    } else if k > i {
                        assert(r0[i as int].0 < r0[k].0);
                    }
                }
            }
            assert forall|l: u32| hits_of(rows@).contains(l) implies (if hit {
                hits_of(r0).insert(line)
            } else {
                hits_of(r0)
            }).contains(l) by {
                let k = choose|k: int| 0 <= k < rows@.len() && rows@[k].0 == l && rows@[k].1;
                if k < i {
                    assert(r0[k].0 == l && r0[k].1);
                } else if k > i {
                    assert(r0[k - 1].0 == l && r0[k - 1].1);
                }
            }
            assert forall|l: u32| (if hit {
                hits_of(r0).insert(line)
            } else {
                hits_of(r0)
            }).contains(l) implies hits_of(rows@).contains(l) by {
                if hits_of(r0).contains(l) {
                    let k = choose|k: int| 0 <= k < r0.len() && r0[k].0 == l && r0[k].1;
                    if k < i {
                        assert(rows@[k].0 == l && rows@[k].1);
                    } else {
                        assert(rows@[k + 1].0 == l && rows@[k + 1].1);
                    }
                } else {
                    assert(rows@[i as int].0 == l && rows@[i as int].1);
                }
            }
        }
    }
}


// ---------------------------------------------------------------------------
// The collector
// ---------------------------------------------------------------------------

/// What a script's rows say: the lines that could run, and those that did.
pub open spec fn rows_view(r: Seq<(u32, bool)>) -> (Set<u32>, Set<u32>) {
    (lines_of(r), hits_of(r))
}

/// Scripts in strictly ascending path order, each with well-formed rows.
pub open spec fn entries_ok(es: Seq<(Seq<char>, Seq<(u32, bool)>)>) -> bool {
    &&& forall|i: int, j: int| 0 <= i < j < es.len() ==> path_lt(es[i].0, es[j].0)
    &&& forall|i: int| 0 <= i < es.len() ==> rows_ok(#[trigger] es[i].1)
}

/// The index of an entry for path `p`.
pub open spec fn index_of(es: Seq<(Seq<char>, Seq<(u32, bool)>)>, p: Seq<char>) -> int {
    choose|i: int| 0 <= i < es.len() && es[i].0 == p
}

/// The coverage the entries record, by script path.
pub open spec fn entries_map(es: Seq<(Seq<char>, Seq<(u32, bool)>)>) -> Map<Seq<char>, (Set<u32>, Set<u32>)> {
    Map::new(
        |p: Seq<char>| exists|i: int| 0 <= i < es.len() && es[i].0 == p,
        |p: Seq<char>| rows_view(es[index_of(es, p)].1),
    )
}

/// In well-formed entries, the entry at `i` is what the map holds for its
/// path.
proof fn lemma_entry(es: Seq<(Seq<char>, Seq<(u32, bool)>)>, i: int)
    requires
        entries_ok(es),
        0 <= i < es.len(),
    ensures
        entries_map(es).contains_key(es[i].0),
        entries_map(es)[es[i].0] == rows_view(es[i].1),
{
    let p = es[i].0;
    assert(entries_map(es).contains_key(p));
    let j = index_of(es, p);
    assert(0 <= j < es.len() && es[j].0 == p);
    if j < i {
        assert(path_lt(es[j].0, es[i].0));
        lemma_path_lt_irrefl(p, 0);
    } else if j > i {
        assert(path_lt(es[i].0, es[j].0));
        lemma_path_lt_irrefl(p, 0);
    }
}

/// Replacing the rows of entry `i` keeps the entries well formed and changes
/// the map at that path alone.
proof fn lemma_update_entry(es: Seq<(Seq<char>, Seq<(u32, bool)>)>, i: int, r: Seq<(u32, bool)>)
    requires
        entries_ok(es),
        0 <= i < es.len(),
        rows_ok(r),
    ensures
        entries_ok(es.update(i, (es[i].0, r))),
        entries_map(es.update(i, (es[i].0, r))) == entries_map(es).insert(es[i].0, rows_view(r)),
{
    let e1 = es.update(i, (es[i].0, r));
    let p = es[i].0;
    assert forall|a: int, b: int| 0 <= a < b < e1.len() implies path_lt(e1[a].0, e1[b].0) by {
        assert(e1[a].0 == es[a].0 && e1[b].0 == es[b].0);
    }
    assert forall|a: int| 0 <= a < e1.len() implies rows_ok(#[trigger] e1[a].1) by {
        if a != i {
            assert(e1[a] == es[a]);
        }
    }
    let m0 = entries_map(es);
    let m1 = entries_map(e1);
    assert forall|q: Seq<char>| #[trigger] m1.contains_key(q) <==> m0.insert(p, rows_view(r)).contains_key(q) by {
        if m1.contains_key(q) {
            let j = choose|j: int| 0 <= j < e1.len() && e1[j].0 == q;
            assert(es[j].0 == q);
        }
        if m0.contains_key(q) {
            let j = choose|j: int| 0 <= j < es.len() && es[j].0 == q;
            assert(e1[j].0 == q);
        }
        if q == p {
            assert(e1[i].0 == q);
        }
    }
    assert forall|q: Seq<char>| #[trigger] m1.contains_key(q) implies m1[q] == m0.insert(p, rows_view(r))[q] by {
        lemma_entry(e1, i);
        if q != p {
            let j = choose|j: int| 0 <= j < es.len() && es[j].0 == q;
            assert(e1[j] == es[j]);
            lemma_entry(es, j);
            lemma_entry(e1, j);
        }
    }
    assert(m1 =~= m0.insert(p, rows_view(r)));
}

/// Inserting an entry at its place in path order keeps the entries well
/// formed and adds its path to the map.
proof fn lemma_insert_entry(es: Seq<(Seq<char>, Seq<(u32, bool)>)>, i: int, p: Seq<char>, r: Seq<(u32, bool)>)
    requires
        entries_ok(es),
        0 <= i <= es.len(),
        forall|k: int| 0 <= k < i ==> path_lt(#[trigger] es[k].0, p),
        i < es.len() ==> path_lt(p, es[i].0),
        rows_ok(r),
    ensures
        entries_ok(es.insert(i, (p, r))),
        entries_map(es.insert(i, (p, r))) == entries_map(es).insert(p, rows_view(r)),
{
    let e1 = es.insert(i, (p, r));
    assert forall|a: int, b: int| 0 <= a < b < e1.len() implies path_lt(e1[a].0, e1[b].0) by {
        if b < i {
        } else if b == i {
        } else if a < i {
            assert(e1[b] == es[b - 1]);
            if b - 1 > i {
                assert(path_lt(es[i].0, es[b - 1].0));
                lemma_path_lt_trans(p, es[i].0, es[b - 1].0, 0);
            }
            lemma_path_lt_trans(es[a].0, p, es[b - 1].0, 0);
        } else if a == i {
            assert(e1[b] == es[b - 1]);
            if b - 1 > i {
                assert(path_lt(es[i].0, es[b - 1].0));
                lemma_path_lt_trans(p, es[i].0, es[b - 1].0, 0);
            }
        } else {
            assert(e1[a] == es[a - 1] && e1[b] == es[b - 1]);
        }
    }
    assert forall|a: int| 0 <= a < e1.len() implies rows_ok(#[trigger] e1[a].1) by {
        if a < i {
            assert(e1[a] == es[a]);
        } else if a > i {
            assert(e1[a] == es[a - 1]);
        }
    }
    let m0 = entries_map(es);
    let m1 = entries_map(e1);
    assert forall|q: Seq<char>| #[trigger] m1.contains_key(q) <==> m0.insert(p, rows_view(r)).contains_key(q) by {
        if m1.contains_key(q) {
            let j = choose|j: int| 0 <= j < e1.len() && e1[j].0 == q;
            if j < i {
                assert(es[j].0 == q);
            } else if j > i {
                assert(es[j - 1].0 == q);
            }
        }
        if m0.contains_key(q) {
            let j = choose|j: int| 0 <= j < es.len() && es[j].0 == q;
            if j < i {
                assert(e1[j].0 == q);
            } else {
                assert(e1[j + 1].0 == q);
            }
        }
        if q == p {
            assert(e1[i].0 == q);
        }
    }
    assert forall|q: Seq<char>| #[trigger] m1.contains_key(q) implies m1[q] == m0.insert(p, rows_view(r))[q] by {
        lemma_entry(e1, i);
        if q != p {
            let j = choose|j: int| 0 <= j < es.len() && es[j].0 == q;
            lemma_entry(es, j);
            if j < i {
                assert(e1[j] == es[j]);
                lemma_entry(e1, j);
            } else {
                assert(e1[j + 1] == es[j]);
                lemma_entry(e1, j + 1);
            }
        }
    }
    assert(m1 =~= m0.insert(p, rows_view(r)));
}

/// Line coverage for every script run during one assembly, keyed by the
/// script's path.
pub struct ScriptCoverage {
    files: Vec<(String, Vec<(u32, bool)>)>,
}

impl ScriptCoverage {
    /// The recorded scripts as plain values, in path order.
    pub closed spec fn entries(&self) -> Seq<(Seq<char>, Seq<(u32, bool)>)> {
        self.files@.map_values(|e: (String, Vec<(u32, bool)>)| (e.0@, e.1@))
    }

    /// The collector's invariant: scripts in path order, lines in ascending
    /// order.
    pub closed spec fn wf(&self) -> bool {
        entries_ok(self.entries())
    }

    /// The recorded coverage: for each script path, the lines that could run
    /// and the lines that did.
    pub closed spec fn view(&self) -> Map<Seq<char>, (Set<u32>, Set<u32>)> {
        entries_map(self.entries())
    }

    /// A fresh, empty collector.
    pub fn new() -> (r: ScriptCoverage)
        ensures
            r.wf(),
            r.view() == Map::<Seq<char>, (Set<u32>, Set<u32>)>::empty(),
    {
        let r = ScriptCoverage { files: Vec::new() };
        assert(r.view() =~= Map::<Seq<char>, (Set<u32>, Set<u32>)>::empty());
        r
    }

    /// Whether any script was recorded.
    pub fn is_empty(&self) -> (r: bool)
        ensures
            r == (self.view().dom() == Set::<Seq<char>>::empty()),
    {
        let r = self.files.len() == 0;
        if r {
            assert(self.view().dom() =~= Set::<Seq<char>>::empty());
        } else {
            assert(self.view().dom().contains(self.entries()[0].0));
        }
        r
    }
}

/// What `m` records for `p`, or nothing.
pub open spec fn prior(m: Map<Seq<char>, (Set<u32>, Set<u32>)>, p: Seq<char>) -> (Set<u32>, Set<u32>) {
    if m.contains_key(p) {
        m[p]
    } else {
        (Set::empty(), Set::empty())
    }
}

/// The first `k + 1` values hold the first `k` and the `k`-th.
proof fn lemma_take_to_set(s: Seq<u32>, k: int)
    requires
        0 <= k < s.len(),
    ensures
        s.take(k + 1).to_set() == s.take(k).to_set().insert(s[k]),
{
    assert(s.take(k + 1) =~= s.take(k).push(s[k]));
    assert forall|x: u32| s.take(k + 1).to_set().contains(x) <==> s.take(k).to_set().insert(
        s[k],
    ).contains(x) by {
        let t1 = s.take(k + 1);
        let t0 = s.take(k);
        if t1.contains(x) {
            let j = choose|j: int| 0 <= j < t1.len() && t1[j] == x;
            if j < k {
                assert(t0[j] == x);
            }
        }
        if t0.contains(x) {
            let j = choose|j: int| 0 <= j < t0.len() && t0[j] == x;
            assert(t1[j] == x);
        }
        if x == s[k] {
            assert(s.take(k + 1)[k] == x);
        }
    }
    assert(s.take(k + 1).to_set() =~= s.take(k).to_set().insert(s[k]));
}

/// Mark every line of `coverable` as coverable and every line of `hits` as
/// run.
fn mark_all(rows: &mut Vec<(u32, bool)>, coverable: &[u32], hits: &[u32])
    requires
        rows_ok(old(rows)@),
    ensures
        rows_ok(final(rows)@),
        lines_of(final(rows)@) == lines_of(old(rows)@) + coverable@.to_set() + hits@.to_set(),
        hits_of(final(rows)@) == hits_of(old(rows)@) + hits@.to_set(),
{
    let ghost l0 = lines_of(rows@);
    let ghost h0 = hits_of(rows@);
    let mut k: usize = 0;
    assert(coverable@.take(0).to_set() =~= Set::<u32>::empty());
    while k < coverable.len()
        invariant
            k <= coverable.len(),
            rows_ok(rows@),
            lines_of(rows@) == l0 + coverable@.take(k as int).to_set(),
            hits_of(rows@) == h0,
        decreases coverable.len() - k,
    {
        proof {
            lemma_take_to_set(coverable@, k as int);
        }
        mark(rows, coverable[k], false);
        assert(lines_of(rows@) =~= l0 + coverable@.take(k + 1).to_set());
        k += 1;
    }
    assert(coverable@.take(coverable.len() as int) =~= coverable@);
    let ghost l1 = lines_of(rows@);
    let mut k: usize = 0;
    assert(hits@.take(0).to_set() =~= Set::<u32>::empty());
    while k < hits.len()
        invariant
            k <= hits.len(),
            rows_ok(rows@),
            lines_of(rows@) == l1 + hits@.take(k as int).to_set(),
            hits_of(rows@) == h0 + hits@.take(k as int).to_set(),
        decreases hits.len() - k,
    {
        proof {
            lemma_take_to_set(hits@, k as int);
        }
        mark(rows, hits[k], true);
        assert(lines_of(rows@) =~= l1 + hits@.take(k + 1).to_set());
        assert(hits_of(rows@) =~= h0 + hits@.take(k + 1).to_set());
        k += 1;
    }
    assert(hits@.take(hits.len() as int) =~= hits@);
    assert(lines_of(rows@) =~= l0 + coverable@.to_set() + hits@.to_set());
}

impl ScriptCoverage {
    /// Record one run of the script at `path`: the lines that could run
    /// (`coverable`) and those that did (`hits`), added to what earlier runs
    /// recorded.
    pub fn record(&mut self, path: &str, coverable: &[u32], hits: &[u32])
        requires
            old(self).wf(),
        ensures
            final(self).wf(),
            final(self).view() == old(self).view().insert(
                path@,
                (
                    prior(old(self).view(), path@).0 + coverable@.to_set() + hits@.to_set(),
                    prior(old(self).view(), path@).1 + hits@.to_set(),
                ),
            ),
    {
        let ghost e0 = self.entries();
        let p = chars_of(path);
        let mut i: usize = 0;
        while i < self.files.len() && path_less(&chars_of(self.files[i].0.as_str()), &p)
            invariant
                i <= self.files.len(),
                self.entries() == e0,
                p@ == path@,
                forall|k: int| 0 <= k < i ==> path_lt(#[trigger] e0[k].0, path@),
            decreases self.files.len() - i,
        {
            assert(e0[i as int].0 == self.files@[i as int].0@);
            i += 1;
        }
        let found = i < self.files.len() && crate::text::str_eq(self.files[i].0.as_str(), path);
        if found {
            let (key, mut rows) = self.files.remove(i);
            assert(e0[i as int] == (key@, rows@));
            proof {
                lemma_entry(e0, i as int);
            }
            mark_all(&mut rows, coverable, hits);
            let ghost r = rows@;
            self.files.insert(i, (key, rows));
            assert(self.entries() =~= e0.update(i as int, (e0[i as int].0, r)));
            proof {
                lemma_update_entry(e0, i as int, r);
                assert(rows_view(r) == (
                    prior(entries_map(e0), path@).0 + coverable@.to_set() + hits@.to_set(),
                    prior(entries_map(e0), path@).1 + hits@.to_set(),
                ));
            }
        } else {
            let mut rows: Vec<(u32, bool)> = Vec::new();
            assert(lines_of(rows@) =~= Set::<u32>::empty());
            assert(hits_of(rows@) =~= Set::<u32>::empty());
            mark_all(&mut rows, coverable, hits);
            let ghost r = rows@;
            proof {
                if i < e0.len() {
                    assert(e0[i as int].0 == self.files@[i as int].0@);
                    assert(!path_lt(e0[i as int].0, path@));
                    assert(e0[i as int].0 != path@);
                    lemma_path_lt_total(e0[i as int].0, path@, 0);
                }
                assert(!entries_map(e0).contains_key(path@)) by {
                    if entries_map(e0).contains_key(path@) {
                        let j = choose|j: int| 0 <= j < e0.len() && e0[j].0 == path@;
                        if j < i {
                            lemma_path_lt_irrefl(path@, 0);
                        } else if j > i {
                            assert(path_lt(e0[i as int].0, e0[j].0));
                            lemma_path_lt_trans(path@, e0[i as int].0, path@, 0);
                            lemma_path_lt_irrefl(path@, 0);
                        }
                    }
                }
                lemma_insert_entry(e0, i as int, path@, r);
                assert(rows_view(r) =~~= (
                    Set::<u32>::empty() + coverable@.to_set() + hits@.to_set(),
                    Set::<u32>::empty() + hits@.to_set(),
                ));
            }
            self.files.insert(i, (string_of(&p), rows));
            assert(self.entries() =~= e0.insert(i as int, (path@, r)));
        }
    }

    /// Every recorded script as `(path, rows)`, in path order, where `rows`
    /// lists each line that could run or did, ascending, paired with whether
    /// it ran.
    pub fn files(&self) -> (r: Vec<(String, Vec<(u32, bool)>)>)
        requires
            self.wf(),
        ensures
            entries_ok(r@.map_values(|e: (String, Vec<(u32, bool)>)| (e.0@, e.1@))),
            entries_map(r@.map_values(|e: (String, Vec<(u32, bool)>)| (e.0@, e.1@))) == self.view(),
    {
        let mut out: Vec<(String, Vec<(u32, bool)>)> = Vec::new();
        let mut i: usize = 0;
        while i < self.files.len()
            invariant
                i <= self.files.len(),
                out@.map_values(|e: (String, Vec<(u32, bool)>)| (e.0@, e.1@)) == self.entries().take(i as int),
            decreases self.files.len() - i,
        {
            let key = string_of(&chars_of(self.files[i].0.as_str()));
            let mut rows: Vec<(u32, bool)> = Vec::new();
            let src = &self.files[i].1;
            let mut k: usize = 0;
            while k < src.len()
                invariant
                    k <= src.len(),
                    rows@ == src@.take(k as int),
                decreases src.len() - k,
            {
                rows.push(src[k]);
                assert(rows@ =~= src@.take(k + 1));
                k += 1;
            }
            assert(rows@ =~= src@);
            let ghost before = out@.map_values(|e: (String, Vec<(u32, bool)>)| (e.0@, e.1@));
            out.push((key, rows));
            assert(out@.map_values(|e: (String, Vec<(u32, bool)>)| (e.0@, e.1@)) =~= before.push(self.entries()[i as int]));
            assert(self.entries().take(i + 1) =~= self.entries().take(i as int).push(self.entries()[i as int]));
            i += 1;
        }
        assert(self.entries().take(self.files.len() as int) =~= self.entries());
        out
    }
}

/// Recording a run and reading the collector back: the listing holds the
/// scripts in strictly ascending path order, each once, with rows in strictly
/// ascending line order; the recorded script is among them, its rows listing
/// exactly the lines that could run or did over all its runs and marking
/// exactly those that did; every other script reads as before.
pub proof fn lemma_record_then_files(
    before: ScriptCoverage,
    after: ScriptCoverage,
    path: Seq<char>,
    coverable: Seq<u32>,
    hits: Seq<u32>,
    out: Seq<(Seq<char>, Seq<(u32, bool)>)>,
)
    requires
        before.wf(),
        after.wf(),
        after.view() == before.view().insert(
            path,
            (
                prior(before.view(), path).0 + coverable.to_set() + hits.to_set(),
                prior(before.view(), path).1 + hits.to_set(),
            ),
        ),
        entries_ok(out),
        entries_map(out) == after.view(),
    ensures
        forall|i: int, j: int| 0 <= i < j < out.len() ==> path_lt(out[i].0, out[j].0),
        forall|i: int| 0 <= i < out.len() ==> rows_ok(#[trigger] out[i].1),
        exists|i: int|
            0 <= i < out.len() && out[i].0 == path && lines_of(out[i].1) == prior(
                before.view(),
                path,
            ).0 + coverable.to_set() + hits.to_set() && hits_of(out[i].1) == prior(
                before.view(),
                path,
            ).1 + hits.to_set(),
        forall|i: int|
            0 <= i < out.len() && out[i].0 != path ==> before.view().contains_key(#[trigger] out[i].0)
                && rows_view(out[i].1) == before.view()[out[i].0],
{
    assert(entries_map(out).contains_key(path));
    let k = choose|i: int| 0 <= i < out.len() && out[i].0 == path;
    lemma_entry(out, k);
    assert forall|i: int| 0 <= i < out.len() && out[i].0 != path implies before.view().contains_key(
        #[trigger] out[i].0,
    ) && rows_view(out[i].1) == before.view()[out[i].0] by {
        lemma_entry(out, i);
    }
}

/// One recorded run: the script's path, the lines that could run, and the
/// lines that did.
pub type Run = (Seq<char>, Seq<u32>, Seq<u32>);

/// The coverage an empty collector holds after recording `runs` in order,
/// as `record` states it run by run.
pub open spec fn recorded(runs: Seq<Run>) -> Map<Seq<char>, (Set<u32>, Set<u32>)>
    decreases runs.len(),
{
    if runs.len() == 0 {
        Map::empty()
    } else {
        let m = recorded(runs.drop_last());
        let r = runs.last();
        m.insert(r.0, (prior(m, r.0).0 + r.1.to_set() + r.2.to_set(), prior(m, r.0).1 + r.2.to_set()))
    }
}

/// Whether some run is of the script at `p`.
pub open spec fn ran(runs: Seq<Run>, p: Seq<char>) -> bool {
    exists|i: int| 0 <= i < runs.len() && runs[i].0 == p
}

/// The lines of `p` that some run recorded as coverable or as run.
pub open spec fn lines_over(runs: Seq<Run>, p: Seq<char>) -> Set<u32> {
    Set::new(
        |l: u32|
            exists|i: int|
                0 <= i < runs.len() && runs[i].0 == p && (runs[i].1.contains(l) || runs[i].2.contains(l)),
    )
}

/// The lines of `p` that some run recorded as run.
pub open spec fn hits_over(runs: Seq<Run>, p: Seq<char>) -> Set<u32> {
    Set::new(|l: u32| exists|i: int| 0 <= i < runs.len() && runs[i].0 == p && runs[i].2.contains(l))
}

/// Recording one more run extends `recorded` by that run.
pub proof fn lemma_record_step(
    before: ScriptCoverage,
    after: ScriptCoverage,
    runs: Seq<Run>,
    path: Seq<char>,
    coverable: Seq<u32>,
    hits: Seq<u32>,
)
    requires
        before.view() == recorded(runs),
        after.view() == before.view().insert(
            path,
            (
                prior(before.view(), path).0 + coverable.to_set() + hits.to_set(),
                prior(before.view(), path).1 + hits.to_set(),
            ),
        ),
    ensures
        after.view() == recorded(runs.push((path, coverable, hits))),
{
    assert(runs.push((path, coverable, hits)).drop_last() =~= runs);
}

/// What `recorded` holds for each script: the union of its runs' lines,
/// and the union of the lines they ran.
proof fn lemma_recorded(runs: Seq<Run>)
    ensures
        forall|p: Seq<char>| #[trigger] recorded(runs).contains_key(p) == ran(runs, p),
        forall|p: Seq<char>|
            ran(runs, p) ==> #[trigger] recorded(runs)[p] == (lines_over(runs, p), hits_over(runs, p)),
    decreases runs.len(),
{
    if runs.len() > 0 {
        let rs = runs.drop_last();
        let r = runs.last();
        lemma_recorded(rs);
        assert forall|p: Seq<char>| #[trigger] recorded(runs).contains_key(p) == ran(runs, p) by {
            assert(recorded(rs).contains_key(p) == ran(rs, p));
            if ran(rs, p) {
                let i = choose|i: int| 0 <= i < rs.len() && rs[i].0 == p;
                assert(runs[i].0 == p);
            }
            if ran(runs, p) && p != r.0 {
                let i = choose|i: int| 0 <= i < runs.len() && runs[i].0 == p;
                assert(rs[i].0 == p);
            }
            if p == r.0 {
                assert(runs[runs.len() - 1].0 == p);
            }
        }
        assert forall|p: Seq<char>| ran(runs, p) implies #[trigger] recorded(runs)[p] == (
            lines_over(runs, p),
            hits_over(runs, p),
        ) by {
            let pr = prior(recorded(rs), p);
            if p == r.0 {
                assert(recorded(runs)[p].0 =~= lines_over(runs, p)) by {
                    assert forall|l: u32| lines_over(runs, p).contains(l) implies recorded(runs)[p].0.contains(l) by {
                        let i = choose|i: int|
                            0 <= i < runs.len() && runs[i].0 == p && (runs[i].1.contains(l)
                                || runs[i].2.contains(l));
                        if i < rs.len() {
                            assert(rs[i] == runs[i]);
                            assert(ran(rs, p));
                            assert(lines_over(rs, p).contains(l));
                        } else {
                            assert(runs[i] == r);
                        }
                    }
                    assert forall|l: u32| recorded(runs)[p].0.contains(l) implies lines_over(runs, p).contains(l) by {
                        if pr.0.contains(l) {
                            assert(ran(rs, p));
                            let i = choose|i: int|
                                0 <= i < rs.len() && rs[i].0 == p && (rs[i].1.contains(l)
                                    || rs[i].2.contains(l));
                            assert(runs[i] == rs[i]);
                        } else {
                            assert(runs[runs.len() - 1] == r);
                        }
                    }
                }
                assert(recorded(runs)[p].1 =~= hits_over(runs, p)) by {
                    assert forall|l: u32| hits_over(runs, p).contains(l) implies recorded(runs)[p].1.contains(l) by {
                        let i = choose|i: int| 0 <= i < runs.len() && runs[i].0 == p && runs[i].2.contains(l);
                        if i < rs.len() {
                            assert(rs[i] == runs[i]);
                            assert(ran(rs, p));
                            assert(hits_over(rs, p).contains(l));
                        } else {
                            assert(runs[i] == r);
                        }
                    }
                    assert forall|l: u32| recorded(runs)[p].1.contains(l) implies hits_over(runs, p).contains(l) by {
                        if pr.1.contains(l) {
                            assert(ran(rs, p));
                            let i = choose|i: int| 0 <= i < rs.len() && rs[i].0 == p && rs[i].2.contains(l);
                            assert(runs[i] == rs[i]);
                        } else {
                            assert(runs[runs.len() - 1] == r);
                        }
                    }
                }
            } else {
                let i = choose|i: int| 0 <= i < runs.len() && runs[i].0 == p;
                assert(rs[i] == runs[i]);
                assert(ran(rs, p));
                assert(lines_over(runs, p) =~= lines_over(rs, p)) by {
                    assert forall|l: u32| lines_over(runs, p).contains(l) implies lines_over(rs, p).contains(l) by {
                        let j = choose|j: int|
                            0 <= j < runs.len() && runs[j].0 == p && (runs[j].1.contains(l)
                                || runs[j].2.contains(l));
                        assert(j < rs.len());
                        assert(rs[j] == runs[j]);
                    }
                    assert forall|l: u32| lines_over(rs, p).contains(l) implies lines_over(runs, p).contains(l) by {
                        let j = choose|j: int|
                            0 <= j < rs.len() && rs[j].0 == p && (rs[j].1.contains(l)
                                || rs[j].2.contains(l));
                        assert(rs[j] == runs[j]);
                    }
                }
                assert(hits_over(runs, p) =~= hits_over(rs, p)) by {
                    assert forall|l: u32| hits_over(runs, p).contains(l) implies hits_over(rs, p).contains(l) by {
                        let j = choose|j: int| 0 <= j < runs.len() && runs[j].0 == p && runs[j].2.contains(l);
                        assert(j < rs.len());
                        assert(rs[j] == runs[j]);
                    }
                    assert forall|l: u32| hits_over(rs, p).contains(l) implies hits_over(runs, p).contains(l) by {
                        let j = choose|j: int| 0 <= j < rs.len() && rs[j].0 == p && rs[j].2.contains(l);
                        assert(rs[j] == runs[j]);
                    }
                }
            }
        }
    }
}

/// The coverage of several runs, read back: after recording `runs` into a
/// fresh collector, `files` lists every script that ran once, in strictly
/// ascending path order, and nothing else; each script's rows are strictly
/// ascending by line, list exactly the lines its runs recorded as coverable
/// or as run, and mark exactly those recorded as run; and the listing is
/// empty exactly when nothing was recorded.
pub proof fn lemma_files_after_runs(
    cov: ScriptCoverage,
    runs: Seq<Run>,
    out: Seq<(Seq<char>, Seq<(u32, bool)>)>,
)
    requires
        cov.wf(),
        cov.view() == recorded(runs),
        entries_ok(out),
        entries_map(out) == cov.view(),
    ensures
        forall|i: int, j: int| 0 <= i < j < out.len() ==> path_lt(out[i].0, out[j].0),
        forall|i: int|
            0 <= i < out.len() ==> rows_ok(#[trigger] out[i].1) && ran(runs, out[i].0) && lines_of(
                out[i].1,
            ) == lines_over(runs, out[i].0) && hits_of(out[i].1) == hits_over(runs, out[i].0),
        forall|p: Seq<char>| ran(runs, p) ==> exists|i: int| 0 <= i < out.len() && #[trigger] out[i].0 == p,
        (out.len() == 0) == (runs.len() == 0),
{
    lemma_recorded(runs);
    assert forall|i: int| 0 <= i < out.len() implies rows_ok(#[trigger] out[i].1) && ran(runs, out[i].0)
        && lines_of(out[i].1) == lines_over(runs, out[i].0) && hits_of(out[i].1) == hits_over(
        runs,
        out[i].0,
    ) by {
        lemma_entry(out, i);
        assert(recorded(runs).contains_key(out[i].0));
    }
    assert forall|p: Seq<char>| ran(runs, p) implies exists|i: int| 0 <= i < out.len() && #[trigger] out[i].0 == p by {
        assert(recorded(runs).contains_key(p));
        assert(entries_map(out).contains_key(p));
    }
    if runs.len() > 0 {
        assert(ran(runs, runs[0].0));
    }
    if out.len() > 0 {
        lemma_entry(out, 0);
    }
}

// ---------------------------------------------------------------------------
// Listing paths
// ---------------------------------------------------------------------------

/// Strictly ascending in path order.
pub open spec fn path_ascending(s: Seq<Seq<char>>) -> bool {
    forall|i: int, j: int| 0 <= i < j < s.len() ==> path_lt(#[trigger] s[i], #[trigger] s[j])
}

/// The paths of a finite set, listed strictly ascending in path order.
pub open spec fn path_listing(s: Set<Seq<char>>) -> Seq<Seq<char>> {
    choose|q: Seq<Seq<char>>| path_ascending(q) && q.to_set() == s
}

/// Path order is a strict total order.
proof fn lemma_path_order(a: Seq<char>, b: Seq<char>, c: Seq<char>)
    ensures
        !path_lt(a, a),
        path_lt(a, b) && path_lt(b, c) ==> path_lt(a, c),
        a != b ==> path_lt(a, b) || path_lt(b, a),
{
    lemma_path_lt_irrefl(a, 0);
    lemma_path_lt_total(a, b, 0);
    if path_lt(a, b) && path_lt(b, c) {
        lemma_path_lt_trans(a, b, c, 0);
    }
}

/// Two strictly ascending path lists with the same members are the same.
proof fn lemma_path_listing_unique(a: Seq<Seq<char>>, b: Seq<Seq<char>>)
    requires
        path_ascending(a),
        path_ascending(b),
        a.to_set() == b.to_set(),
    ensures
        a == b,
    decreases a.len(),
{
    if a.len() == 0 {
        if b.len() > 0 {
            assert(b.to_set().contains(b[0]));
        }
        assert(a =~= b);
    } else {
        assert(a.to_set().contains(a[0]));
        assert(b.to_set().contains(b[0]));
        let i = choose|i: int| 0 <= i < a.len() && a[i] == b[0];
        let j = choose|j: int| 0 <= j < b.len() && b[j] == a[0];
        lemma_path_order(a[0], a[0], a[0]);
        if i > 0 && j > 0 {
            assert(path_lt(a[0], a[i]));
            assert(path_lt(b[0], b[j]));
            lemma_path_order(a[0], b[0], a[0]);
        } else if i > 0 {
            assert(path_lt(a[0], a[i]));
        } else if j > 0 {
            assert(path_lt(b[0], b[j]));
        }
        assert(a[0] == b[0]);
        let a1 = a.drop_first();
        let b1 = b.drop_first();
        assert forall|x: Seq<char>| a1.to_set().contains(x) implies b1.to_set().contains(x) by {
            let p = choose|p: int| 0 <= p < a1.len() && a1[p] == x;
            assert(path_lt(a[0], a[p + 1]));
            assert(a.to_set().contains(x));
            let q = choose|q: int| 0 <= q < b.len() && b[q] == x;
            if q == 0 {
                lemma_path_order(x, x, x);
            }
            assert(b1[q - 1] == x);
        }
        assert forall|x: Seq<char>| b1.to_set().contains(x) implies a1.to_set().contains(x) by {
            let p = choose|p: int| 0 <= p < b1.len() && b1[p] == x;
            assert(path_lt(b[0], b[p + 1]));
            assert(b.to_set().contains(x));
            let q = choose|q: int| 0 <= q < a.len() && a[q] == x;
            if q == 0 {
                lemma_path_order(x, x, x);
            }
            assert(a1[q - 1] == x);
        }
        assert(a1.to_set() =~= b1.to_set());
        lemma_path_listing_unique(a1, b1);
        assert(a =~= b1.insert(0, b[0]));
        assert(b =~= b1.insert(0, b[0]));
    }
}

/// The views of a list of strings.
pub open spec fn path_views(v: Seq<String>) -> Seq<Seq<char>> {
    v.map_values(|s: String| s@)
}

/// The paths, sorted strictly ascending in path order with repeats dropped:
/// the listing of their set.
pub fn sorted_paths(paths: Vec<String>) -> (r: Vec<String>)
    ensures
        path_views(r@) == path_listing(path_views(paths@).to_set()),
{
    let ghost all = path_views(paths@).to_set();
    let mut rest = paths;
    let mut out: Vec<String> = Vec::new();
    assert(path_views(out@).to_set() + path_views(rest@).to_set() =~= all);
    while rest.len() > 0
        invariant
            path_ascending(path_views(out@)),
            path_views(out@).to_set() + path_views(rest@).to_set() == all,
        decreases rest.len(),
    {
        let ghost before = path_views(rest@);
        let x = rest.pop().unwrap();
        let ghost xv = x@;
        assert(before =~= path_views(rest@).push(xv));
        proof {
            path_views(rest@).lemma_push_to_set_commute(xv);
        }
        let xc = chars_of(x.as_str());
        let ghost ov = path_views(out@);
        let mut p: usize = 0;
        while p < out.len() && path_less(&chars_of(out[p].as_str()), &xc)
            invariant
                p <= out.len(),
                ov == path_views(out@),
                xc@ == xv,
                forall|j: int| 0 <= j < p ==> path_lt(#[trigger] ov[j], xv),
            decreases out.len() - p,
        {
            assert(ov[p as int] == out@[p as int]@);
            p += 1;
        }
        if p < out.len() && crate::text::str_eq(out[p].as_str(), x.as_str()) {
            assert(ov[p as int] == xv);
            assert(ov.to_set().contains(xv));
            assert(path_views(out@).to_set() + path_views(rest@).to_set() =~= all);
        } else {
            proof {
                if p < out.len() {
                    assert(ov[p as int] == out@[p as int]@);
                    lemma_path_order(ov[p as int], xv, xv);
                }
            }
            out.insert(p, x);
            proof {
                let nv = path_views(out@);
                assert(nv =~= ov.insert(p as int, xv));
                assert forall|i: int, j: int| 0 <= i < j < nv.len() implies path_lt(
                    #[trigger] nv[i],
                    #[trigger] nv[j],
                ) by {
                    if j < p {
                    } else if j == p {
                    } else if i < p {
                        lemma_path_order(nv[i], xv, nv[j]);
                        if j - 1 > p {
                            lemma_path_order(xv, ov[p as int], ov[j - 1]);
                        }
                    } else if i == p {
                        if j - 1 > p {
                            lemma_path_order(xv, ov[p as int], ov[j - 1]);
                        }
                    }
                }
                assert(nv.to_set() =~= ov.to_set().insert(xv)) by {
                    assert forall|y: Seq<char>| nv.to_set().contains(y) implies ov.to_set().insert(xv).contains(y) by {
                        let k = choose|k: int| 0 <= k < nv.len() && nv[k] == y;
                        if k < p {
                            assert(ov[k] == y);
                        } else if k > p {
                            assert(ov[k - 1] == y);
                        }
                    }
                    assert forall|y: Seq<char>| ov.to_set().insert(xv).contains(y) implies nv.to_set().contains(y) by {
                        if y == xv {
                            assert(nv[p as int] == y);
                        } else {
                            let k = choose|k: int| 0 <= k < ov.len() && ov[k] == y;
                            if k < p {
                                assert(nv[k] == y);
                            } else {
                                assert(nv[k + 1] == y);
                            }
                        }
                    }
                }
                assert(nv.to_set() + path_views(rest@).to_set() =~= all);
            }
        }
    }
    assert(path_views(rest@).to_set() =~= Set::<Seq<char>>::empty());
    assert(path_views(out@).to_set() =~= all);
    proof {
        let q = path_views(out@);
        let c = path_listing(q.to_set());
        assert(path_ascending(c) && c.to_set() == q.to_set());
        lemma_path_listing_unique(c, q);
    }
    out
}

} // verus!
