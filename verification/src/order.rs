//! A canonical order for small records, so that a collection whose order
//! carries no meaning can be listed the same way every time: text compared
//! by code point, then numbers. Sorting a list by this order, dropping
//! repeats, gives the one strictly ascending list with the same members.

use vstd::prelude::*;
use crate::text::chars_eq;

verus! {

/// Whether `a` sorts before `b` by code point, comparing from index `i` on.
pub open spec fn text_lt_from(a: Seq<char>, b: Seq<char>, i: int) -> bool
    decreases a.len() - i,
{
    if i < 0 {
        false
    } else if i >= a.len() {
        i < b.len()
    } else if i >= b.len() {
        false
    } else if a[i] != b[i] {
        a[i] < b[i]
    } else {
        text_lt_from(a, b, i + 1)
    }
}

/// Whether `a` sorts before `b` by code point (a prefix sorts first).
pub open spec fn text_lt(a: Seq<char>, b: Seq<char>) -> bool {
    text_lt_from(a, b, 0)
}

proof fn lemma_text_lt_trans(a: Seq<char>, b: Seq<char>, c: Seq<char>, i: int)
    requires
        0 <= i,
        text_lt_from(a, b, i),
        text_lt_from(b, c, i),
    ensures
        text_lt_from(a, c, i),
    decreases a.len() - i,
{
    if i < a.len() && i < b.len() && i < c.len() && a[i] == b[i] && b[i] == c[i] {
        lemma_text_lt_trans(a, b, c, i + 1);
    }
}

proof fn lemma_text_lt_irrefl(a: Seq<char>, i: int)
    requires
        0 <= i,
    ensures
        !text_lt_from(a, a, i),
    decreases a.len() - i,
{
    if i < a.len() {
        lemma_text_lt_irrefl(a, i + 1);
    }
}

proof fn lemma_text_lt_total(a: Seq<char>, b: Seq<char>, i: int)
    requires
        0 <= i <= a.len(),
        i <= b.len(),
        forall|k: int| 0 <= k < i ==> a[k] == b[k],
    ensures
        a == b || text_lt_from(a, b, i) || text_lt_from(b, a, i),
    decreases a.len() - i,
{
    if i < a.len() && i < b.len() {
        if a[i] == b[i] {
            lemma_text_lt_total(a, b, i + 1);
        }
    } else if i == a.len() && i == b.len() {
        assert(a =~= b);
    }
}

/// Code-point order, decided.
fn text_less(a: &[char], b: &[char]) -> (r: bool)
    ensures
        r == text_lt(a@, b@),
{
    let mut i: usize = 0;
    while i < a.len() && i < b.len() && a[i] == b[i]
        invariant
            i <= a.len(),
            i <= b.len(),
            text_lt_from(a@, b@, i as int) == text_lt(a@, b@),
        decreases a.len() - i,
    {
        i += 1;
    }
    if i >= a.len() {
        i < b.len()
    } else if i >= b.len() {
        false
    } else {
        a[i] < b[i]
    }
}

/// A sort key: two texts and four numbers, compared in that order.
pub type SortKey = (Vec<char>, Vec<char>, usize, usize, usize, usize);

/// A sort key as plain values.
pub type KeyView = (Seq<char>, Seq<char>, usize, usize, usize, usize);

/// The plain values of a sort key.
pub open spec fn key_view(k: SortKey) -> KeyView {
    (k.0@, k.1@, k.2, k.3, k.4, k.5)
}

/// The plain values of a list of sort keys.
pub open spec fn key_views(ks: Seq<SortKey>) -> Seq<KeyView> {
    ks.map_values(|k: SortKey| key_view(k))
}

/// Whether key `a` sorts before key `b`: by the first text, then the second,
/// then each number in turn.
pub open spec fn key_lt(a: KeyView, b: KeyView) -> bool {
    if a.0 != b.0 {
        text_lt(a.0, b.0)
    } else if a.1 != b.1 {
        text_lt(a.1, b.1)
    } else if a.2 != b.2 {
        a.2 < b.2
    } else if a.3 != b.3 {
        a.3 < b.3
    } else if a.4 != b.4 {
        a.4 < b.4
    } else {
        a.5 < b.5
    }
}

/// Key order is a strict total order: irreflexive, transitive, and any two
/// different keys are ordered one way.
pub proof fn lemma_key_order(a: KeyView, b: KeyView, c: KeyView)
    ensures
        !key_lt(a, a),
        key_lt(a, b) && key_lt(b, c) ==> key_lt(a, c),
        a != b ==> key_lt(a, b) || key_lt(b, a),
        !(key_lt(a, b) && key_lt(b, a)),
{
    lemma_text_lt_total(a.0, b.0, 0);
    lemma_text_lt_total(a.1, b.1, 0);
    if key_lt(a, b) && key_lt(b, a) {
        if a.0 != b.0 {
            lemma_text_lt_trans(a.0, b.0, a.0, 0);
            lemma_text_lt_irrefl(a.0, 0);
        } else if a.1 != b.1 {
            lemma_text_lt_trans(a.1, b.1, a.1, 0);
            lemma_text_lt_irrefl(a.1, 0);
        }
    }
    if key_lt(a, b) && key_lt(b, c) {
        if a.0 != b.0 && b.0 != c.0 {
            lemma_text_lt_trans(a.0, b.0, c.0, 0);
            if a.0 == c.0 {
                lemma_text_lt_irrefl(a.0, 0);
            }
        } else if a.0 == b.0 && b.0 == c.0 && a.1 != b.1 && b.1 != c.1 {
            lemma_text_lt_trans(a.1, b.1, c.1, 0);
            if a.1 == c.1 {
                lemma_text_lt_irrefl(a.1, 0);
            }
        }
    }
}

/// Strictly ascending in key order.
pub open spec fn ascending(s: Seq<KeyView>) -> bool {
    forall|i: int, j: int| 0 <= i < j < s.len() ==> key_lt(#[trigger] s[i], #[trigger] s[j])
}

/// Two strictly ascending lists with the same members are the same list.
pub proof fn lemma_ascending_unique(a: Seq<KeyView>, b: Seq<KeyView>)
    requires
        ascending(a),
        ascending(b),
        a.to_set() == b.to_set(),
    ensures
        a == b,
    decreases a.len(),
{
    if a.len() == 0 {
        if b.len() > 0 {
            assert(b.to_set().contains(b[0]));
        }
        assert(a =~= b);
    } else {
        assert(a.to_set().contains(a[0]));
        assert(b.len() > 0);
        assert(b.to_set().contains(b[0]));
        let i = choose|i: int| 0 <= i < a.len() && a[i] == b[0];
        let j = choose|j: int| 0 <= j < b.len() && b[j] == a[0];
        lemma_key_order(a[0], a[0], a[0]);
        if i > 0 {
            assert(key_lt(a[0], a[i]));
            if j > 0 {
                assert(key_lt(b[0], b[j]));
                lemma_key_order(a[0], b[0], a[0]);
            }
        }
        assert(a[0] == b[0]);
        let a1 = a.drop_first();
        let b1 = b.drop_first();
        assert forall|x: KeyView| a1.to_set().contains(x) implies b1.to_set().contains(x) by {
            let p = choose|p: int| 0 <= p < a1.len() && a1[p] == x;
            assert(key_lt(a[0], a[p + 1]));
            assert(a.to_set().contains(x));
            let q = choose|q: int| 0 <= q < b.len() && b[q] == x;
            if q == 0 {
                lemma_key_order(x, x, x);
            }
            assert(b1[q - 1] == x);
        }
        assert forall|x: KeyView| b1.to_set().contains(x) implies a1.to_set().contains(x) by {
            let p = choose|p: int| 0 <= p < b1.len() && b1[p] == x;
            assert(key_lt(b[0], b[p + 1]));
            assert(b.to_set().contains(x));
            let q = choose|q: int| 0 <= q < a.len() && a[q] == x;
            if q == 0 {
                lemma_key_order(x, x, x);
            }
            assert(a1[q - 1] == x);
        }
        assert(a1.to_set() =~= b1.to_set());
        lemma_ascending_unique(a1, b1);
        assert(a =~= b1.insert(0, b[0]));
        assert(b =~= b1.insert(0, b[0]));
    }
}

/// The members of `s` listed strictly ascending, for a finite set.
pub open spec fn canonical(s: Set<KeyView>) -> Seq<KeyView> {
    choose|q: Seq<KeyView>| ascending(q) && q.to_set() == s
}

/// A strictly ascending list is the canonical listing of its members.
pub proof fn lemma_canonical(q: Seq<KeyView>)
    requires
        ascending(q),
    ensures
        canonical(q.to_set()) == q,
{
    let c = canonical(q.to_set());
    assert(ascending(c) && c.to_set() == q.to_set());
    lemma_ascending_unique(c, q);
}

/// Whether two keys are equal.
fn key_eq(a: &SortKey, b: &SortKey) -> (r: bool)
    ensures
        r == (key_view(*a) == key_view(*b)),
{
    chars_eq(&a.0, &b.0) && chars_eq(&a.1, &b.1) && a.2 == b.2 && a.3 == b.3 && a.4 == b.4
        && a.5 == b.5
}

/// Whether key `a` sorts before key `b`.
fn key_less(a: &SortKey, b: &SortKey) -> (r: bool)
    ensures
        r == key_lt(key_view(*a), key_view(*b)),
{
    if !chars_eq(&a.0, &b.0) {
        text_less(&a.0, &b.0)
    } else if !chars_eq(&a.1, &b.1) {
        text_less(&a.1, &b.1)
    } else if a.2 != b.2 {
        a.2 < b.2
    } else if a.3 != b.3 {
        a.3 < b.3
    } else if a.4 != b.4 {
        a.4 < b.4
    } else {
        a.5 < b.5
    }
}

/// The keys, sorted strictly ascending with repeats dropped: the canonical
/// listing of their members.
pub fn sort_keys(keys: Vec<SortKey>) -> (r: Vec<SortKey>)
    ensures
        key_views(r@) == canonical(key_views(keys@).to_set()),
{
    let ghost all = key_views(keys@).to_set();
    let mut rest = keys;
    let mut out: Vec<SortKey> = Vec::new();
    assert(key_views(out@).to_set() + key_views(rest@).to_set() =~= all);
    while rest.len() > 0
        invariant
            ascending(key_views(out@)),
            key_views(out@).to_set() + key_views(rest@).to_set() == all,
        decreases rest.len(),
    {
        let ghost before = key_views(rest@);
        let x = rest.pop().unwrap();
        let ghost xv = key_view(x);
        assert(before =~= key_views(rest@).push(xv));
        proof {
            key_views(rest@).lemma_push_to_set_commute(xv);
        }
        let ghost ov = key_views(out@);
        let mut p: usize = 0;
        while p < out.len() && key_less(&out[p], &x)
            invariant
                p <= out.len(),
                ov == key_views(out@),
                xv == key_view(x),
                forall|j: int| 0 <= j < p ==> key_lt(#[trigger] ov[j], xv),
            decreases out.len() - p,
        {
            assert(ov[p as int] == key_view(out@[p as int]));
            p += 1;
        }
        if p < out.len() && key_eq(&out[p], &x) {
            assert(ov[p as int] == xv);
            assert(ov.to_set().contains(xv));
            assert(key_views(out@).to_set() + key_views(rest@).to_set() =~= all);
        } else {
            proof {
                if p < out.len() {
                    lemma_key_order(ov[p as int], xv, xv);
                }
            }
            out.insert(p, x);
            proof {
                let nv = key_views(out@);
                assert(nv =~= ov.insert(p as int, xv));
                assert forall|i: int, j: int| 0 <= i < j < nv.len() implies key_lt(
                    #[trigger] nv[i],
                    #[trigger] nv[j],
                ) by {
                    if j < p {
                    } else if j == p {
                    } else if i < p {
                        lemma_key_order(nv[i], xv, nv[j]);
                        if j - 1 > p {
                            lemma_key_order(xv, ov[p as int], ov[j - 1]);
                        }
                    } else if i == p {
                        if j - 1 > p {
                            lemma_key_order(xv, ov[p as int], ov[j - 1]);
                        }
                    } else {
                    }
                }
                assert(nv.to_set() =~= ov.to_set().insert(xv)) by {
                    assert forall|y: KeyView| nv.to_set().contains(y) implies ov.to_set().insert(xv).contains(y) by {
                        let k = choose|k: int| 0 <= k < nv.len() && nv[k] == y;
                        if k < p {
                            assert(ov[k] == y);
                        } else if k > p {
                            assert(ov[k - 1] == y);
                        }
                    }
                    assert forall|y: KeyView| ov.to_set().insert(xv).contains(y) implies nv.to_set().contains(y) by {
                        if y == xv {
                            assert(nv[p as int] == y);
                        } else {
                            let k = choose|k: int| 0 <= k < ov.len() && ov[k] == y;
                            if k < p {
                                assert(nv[k] == y);
                            } else {
                                assert(nv[k + 1] == y);
                            }
                        }
                    }
                }
                assert(nv.to_set() + key_views(rest@).to_set() =~= all);
            }
        }
    }
    assert(key_views(rest@).to_set() =~= Set::<KeyView>::empty());
    assert(key_views(out@).to_set() =~= all);
    proof {
        lemma_canonical(key_views(out@));
    }
    out
}

} // verus!
