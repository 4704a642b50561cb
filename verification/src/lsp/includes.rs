//! The `.include` graph of a project: which file includes which, the entry
//! files nothing includes, and everything a file pulls in.
//!
//! Paths are already normalized text here; resolving them against the
//! including file's directory is the language-server glue's.

use vstd::prelude::*;
use crate::text::str_eq;
use vstd::seq_lib::seq_to_set_is_finite;
use vstd::set_lib::lemma_len_subset;

verus! {

/// A project's include graph: each known file, with the files it directly
/// includes.
pub struct IncludeGraph {
    pub includes: Vec<(String, Vec<String>)>,
}

/// A graph as plain sequences.
pub open spec fn graph_view(g: &IncludeGraph) -> Seq<(Seq<char>, Seq<Seq<char>>)> {
    g.includes@.map_values(|e: (String, Vec<String>)| (e.0@, e.1@.map_values(|t: String| t@)))
}

/// The files the first entry for `p` includes; none when `p` has no entry.
pub open spec fn children(g: Seq<(Seq<char>, Seq<Seq<char>>)>, p: Seq<char>) -> Seq<Seq<char>>
    decreases g.len(),
{
    if g.len() == 0 {
        Seq::empty()
    } else if g[0].0 == p {
        g[0].1
    } else {
        children(g.drop_first(), p)
    }
}

/// Whether `p` is a chain of files each including the next.
pub open spec fn is_chain(g: Seq<(Seq<char>, Seq<Seq<char>>)>, p: Seq<Seq<char>>) -> bool {
    p.len() >= 1 && forall|i: int| 0 <= i < p.len() - 1 ==> children(g, #[trigger] p[i]).contains(p[i + 1])
}

/// Whether following includes from `root` reaches `x` (`root` reaches
/// itself).
pub open spec fn reaches(g: Seq<(Seq<char>, Seq<Seq<char>>)>, root: Seq<char>, x: Seq<char>) -> bool {
    exists|p: Seq<Seq<char>>| #[trigger] is_chain(g, p) && p[0] == root && p.last() == x
}

/// Whether some entry includes `p`.
pub open spec fn included(g: Seq<(Seq<char>, Seq<Seq<char>>)>, p: Seq<char>) -> bool {
    exists|k: int| 0 <= k < g.len() && #[trigger] g[k].1.contains(p)
}

/// The entry files of `g` from entry `i` on: those nothing includes, in entry
/// order.
pub open spec fn roots_from(g: Seq<(Seq<char>, Seq<Seq<char>>)>, i: int) -> Seq<Seq<char>>
    decreases g.len() - i,
{
    if i < 0 || i >= g.len() {
        Seq::empty()
    } else if included(g, g[i].0) {
        roots_from(g, i + 1)
    } else {
        seq![g[i].0] + roots_from(g, i + 1)
    }
}

/// Whether the strings `v` hold `x`.
fn holds(v: &Vec<String>, x: &str) -> (r: bool)
    ensures
        r == v@.map_values(|t: String| t@).contains(x@),
{
    let ghost vs = v@.map_values(|t: String| t@);
    let mut i: usize = 0;
    while i < v.len()
        invariant
            i <= v.len(),
            vs == v@.map_values(|t: String| t@),
            forall|k: int| 0 <= k < i ==> vs[k] != x@,
        decreases v.len() - i,
    {
        if str_eq(v[i].as_str(), x) {
            assert(vs[i as int] == x@);
            return true;
        }
        i += 1;
    }
    false
}

impl IncludeGraph {
    /// Whether some entry includes `p`.
    fn is_included(&self, p: &str) -> (r: bool)
        ensures
            r == included(graph_view(self), p@),
    {
        let ghost g = graph_view(self);
        let mut k: usize = 0;
        while k < self.includes.len()
            invariant
                k <= self.includes.len(),
                g == graph_view(self),
                forall|j: int| 0 <= j < k ==> !(#[trigger] g[j]).1.contains(p@),
            decreases self.includes.len() - k,
        {
            assert(g[k as int].1 == self.includes@[k as int].1@.map_values(|t: String| t@));
            if holds(&self.includes[k].1, p) {
                return true;
            }
            k += 1;
        }
        false
    }

    /// The files nothing else includes: the entry points to assemble from.
    pub fn roots(&self) -> (r: Vec<String>)
        ensures
            r@.map_values(|t: String| t@) == roots_from(graph_view(self), 0),
    {
        let ghost g = graph_view(self);
        let mut out: Vec<String> = Vec::new();
        let mut i: usize = 0;
        while i < self.includes.len()
            invariant
                i <= self.includes.len(),
                g == graph_view(self),
                out@.map_values(|t: String| t@) + roots_from(g, i as int) == roots_from(g, 0),
            decreases self.includes.len() - i,
        {
            let key = &self.includes[i].0;
            assert(g[i as int].0 == key@);
            let ghost before = out@.map_values(|t: String| t@);
            if !self.is_included(key.as_str()) {
                out.push(key.clone());
                assert(out@.map_values(|t: String| t@) =~= before.push(key@));
                assert(before + roots_from(g, i as int) =~= before.push(key@) + roots_from(g, i + 1));
            }
            i += 1;
        }
        assert(out@.map_values(|t: String| t@) + Seq::<Seq<char>>::empty() =~= out@.map_values(|t: String| t@));
        out
    }
}

/// The text of each string.
pub open spec fn sv(v: Seq<String>) -> Seq<Seq<char>> {
    v.map_values(|t: String| t@)
}

/// Every file some entry includes, entry by entry.
pub open spec fn all_children(g: Seq<(Seq<char>, Seq<Seq<char>>)>) -> Seq<Seq<char>>
    decreases g.len(),
{
    if g.len() == 0 {
        Seq::empty()
    } else {
        g[0].1 + all_children(g.drop_first())
    }
}

/// Every file the walk from `root` could meet: `root`, and every file some
/// entry includes.
pub open spec fn universe(g: Seq<(Seq<char>, Seq<Seq<char>>)>, root: Seq<char>) -> Set<Seq<char>> {
    (seq![root] + all_children(g)).to_set()
}

/// What an entry includes is among everything the entries include.
proof fn lemma_children_in_all(g: Seq<(Seq<char>, Seq<Seq<char>>)>, p: Seq<char>, c: Seq<char>)
    requires
        children(g, p).contains(c),
    ensures
        all_children(g).contains(c),
    decreases g.len(),
{
    if g.len() > 0 {
        if g[0].0 == p {
            let i = choose|i: int| 0 <= i < g[0].1.len() && g[0].1[i] == c;
            assert((g[0].1 + all_children(g.drop_first()))[i] == c);
        } else {
            lemma_children_in_all(g.drop_first(), p, c);
            let i = choose|i: int| 0 <= i < all_children(g.drop_first()).len() && all_children(
                g.drop_first(),
            )[i] == c;
            assert((g[0].1 + all_children(g.drop_first()))[g[0].1.len() + i] == c);
        }
    }
}

/// Whatever `root` reaches is in its universe.
proof fn lemma_reach_in_universe(g: Seq<(Seq<char>, Seq<Seq<char>>)>, root: Seq<char>, x: Seq<char>)
    requires
        reaches(g, root, x),
    ensures
        universe(g, root).contains(x),
{
    let q = choose|q: Seq<Seq<char>>| #[trigger] is_chain(g, q) && q[0] == root && q.last() == x;
    let u = seq![root] + all_children(g);
    if q.len() == 1 {
        assert(u[0] == x);
    } else {
        let k = q.len() - 2;
        assert(children(g, q[k]).contains(q[k + 1]));
        lemma_children_in_all(g, q[k], x);
        let i = choose|i: int| 0 <= i < all_children(g).len() && all_children(g)[i] == x;
        assert(u[i + 1] == x);
    }
}

/// A chain extended by a file its last file includes is a chain.
proof fn lemma_extend_reach(g: Seq<(Seq<char>, Seq<Seq<char>>)>, root: Seq<char>, p: Seq<char>, c: Seq<char>)
    requires
        reaches(g, root, p),
        children(g, p).contains(c),
    ensures
        reaches(g, root, c),
{
    let q = choose|q: Seq<Seq<char>>| #[trigger] is_chain(g, q) && q[0] == root && q.last() == p;
    let q2 = q.push(c);
    assert forall|i: int| 0 <= i < q2.len() - 1 implies children(g, #[trigger] q2[i]).contains(
        q2[i + 1],
    ) by {
        if i < q.len() - 1 {
            assert(q2[i] == q[i] && q2[i + 1] == q[i + 1]);
        }
    }
    assert(is_chain(g, q2) && q2[0] == root && q2.last() == c);
}

/// `root` reaches itself.
proof fn lemma_reach_self(g: Seq<(Seq<char>, Seq<Seq<char>>)>, root: Seq<char>)
    ensures
        reaches(g, root, root),
{
    let q = seq![root];
    assert(is_chain(g, q) && q[0] == root && q.last() == root);
}

/// A set of files that holds `root` and everything its files include holds
/// everything `root` reaches.
proof fn lemma_closed_holds_reach(g: Seq<(Seq<char>, Seq<Seq<char>>)>, root: Seq<char>, s: Seq<Seq<char>>, x: Seq<char>)
    requires
        s.contains(root),
        forall|a: Seq<char>, c: Seq<char>| #[trigger] s.contains(a) && #[trigger] children(g, a).contains(c) ==> s.contains(c),
        reaches(g, root, x),
    ensures
        s.contains(x),
{
    let q = choose|q: Seq<Seq<char>>| #[trigger] is_chain(g, q) && q[0] == root && q.last() == x;
    lemma_chain_in(g, q, s, q.len() - 1);
}

/// Every file of a chain from a member of a closed set is a member.
proof fn lemma_chain_in(g: Seq<(Seq<char>, Seq<Seq<char>>)>, q: Seq<Seq<char>>, s: Seq<Seq<char>>, i: int)
    requires
        is_chain(g, q),
        s.contains(q[0]),
        forall|a: Seq<char>, c: Seq<char>| #[trigger] s.contains(a) && #[trigger] children(g, a).contains(c) ==> s.contains(c),
        0 <= i < q.len(),
    ensures
        s.contains(q[i]),
    decreases i,
{
    if i > 0 {
        lemma_chain_in(g, q, s, i - 1);
        assert(children(g, q[i - 1]).contains(q[i]));
    }
}

impl IncludeGraph {
    /// The index of the first entry for `p`.
    fn entry_of(&self, p: &str) -> (r: Option<usize>)
        ensures
            r matches Some(k) ==> k < self.includes.len() && children(graph_view(self), p@)
                == graph_view(self)[k as int].1,
            r is None ==> children(graph_view(self), p@) == Seq::<Seq<char>>::empty(),
    {
        let ghost g = graph_view(self);
        let mut k: usize = 0;
        assert(g.skip(0) =~= g);
        while k < self.includes.len()
            invariant
                k <= self.includes.len(),
                g == graph_view(self),
                children(g.skip(k as int), p@) == children(g, p@),
            decreases self.includes.len() - k,
        {
            assert(g.skip(k as int)[0] == g[k as int]);
            assert(g[k as int].0 == self.includes@[k as int].0@);
            if str_eq(self.includes[k].0.as_str(), p) {
                return Some(k);
            }
            assert(g.skip(k as int).drop_first() =~= g.skip(k + 1));
            k += 1;
        }
        None
    }

    /// Every file reachable from `root` by following includes, `root` among
    /// them, each once.
    pub fn closure(&self, root: &str) -> (r: Vec<String>)
        ensures
            sv(r@).no_duplicates(),
            forall|x: Seq<char>| sv(r@).contains(x) <==> reaches(graph_view(self), root@, x),
    {
        let ghost g = graph_view(self);
        let ghost u = universe(g, root@);
        proof {
            seq_to_set_is_finite(seq![root@] + all_children(g));
            lemma_reach_self(g, root@);
        }
        let mut seen: Vec<String> = Vec::new();
        let mut stack: Vec<String> = Vec::new();
        stack.push(root.to_owned());
        assert(sv(stack@) =~= seq![root@]);
        assert(sv(stack@)[0] == root@);
        assert(sv(seen@) =~= Seq::<Seq<char>>::empty());
        while stack.len() > 0
            invariant
                g == graph_view(self),
                u == universe(g, root@),
                u.finite(),
                sv(seen@).no_duplicates(),
                sv(seen@).len() <= u.len(),
                forall|x: Seq<char>| #[trigger] sv(seen@).contains(x) ==> reaches(g, root@, x),
                forall|x: Seq<char>| #[trigger] sv(stack@).contains(x) ==> reaches(g, root@, x),
                forall|a: Seq<char>, c: Seq<char>|
                    #[trigger] sv(seen@).contains(a) && #[trigger] children(g, a).contains(c)
                        ==> sv(seen@).contains(c) || sv(stack@).contains(c),
                sv(seen@).contains(root@) || sv(stack@).contains(root@),
            decreases u.len() - sv(seen@).len(), stack.len(),
        {
            let ghost old_stack = sv(stack@);
            let ghost old_seen = sv(seen@);
            assert(forall|a: Seq<char>, c: Seq<char>|
                #[trigger] old_seen.contains(a) && #[trigger] children(g, a).contains(c)
                    ==> old_seen.contains(c) || old_stack.contains(c));
            assert(forall|x: Seq<char>| #[trigger] old_stack.contains(x) ==> reaches(g, root@, x));
            assert(forall|x: Seq<char>| #[trigger] old_seen.contains(x) ==> reaches(g, root@, x));
            let p = stack.pop().unwrap();
            assert(sv(stack@) =~= old_stack.drop_last());
            assert(old_stack.last() == p@);
            assert forall|x: Seq<char>| #[trigger] old_stack.contains(x) <==> (x == p@ || sv(
                stack@,
            ).contains(x)) by {
                if old_stack.contains(x) {
                    let i = choose|i: int| 0 <= i < old_stack.len() && old_stack[i] == x;
                    if i < old_stack.len() - 1 {
                        assert(sv(stack@)[i] == x);
                    }
                }
                if sv(stack@).contains(x) {
                    let i = choose|i: int| 0 <= i < sv(stack@).len() && sv(stack@)[i] == x;
                    assert(old_stack[i] == x);
                }
                if x == p@ {
                    assert(old_stack[old_stack.len() - 1] == x);
                }
            }
            let ghost after_pop = sv(stack@);
            assert(old_stack.contains(p@));
            assert(reaches(g, root@, p@));
            assert forall|x: Seq<char>| #[trigger] after_pop.contains(x) implies reaches(g, root@, x) by {
                assert(old_stack.contains(x));
            }
            if holds(&seen, p.as_str()) {
                assert(old_seen.contains(p@));
            } else {
                seen.push(p.clone());
                assert(sv(seen@) =~= old_seen.push(p@));
                assert forall|x: Seq<char>| #[trigger] sv(seen@).contains(x) <==> (old_seen.contains(
                    x,
                ) || x == p@) by {
                    if sv(seen@).contains(x) {
                        let i = choose|i: int| 0 <= i < sv(seen@).len() && sv(seen@)[i] == x;
                        if i < old_seen.len() {
                            assert(old_seen[i] == x);
                        }
                    }
                    if old_seen.contains(x) {
                        let i = choose|i: int| 0 <= i < old_seen.len() && old_seen[i] == x;
                        assert(sv(seen@)[i] == x);
                    }
                    if x == p@ {
                        assert(sv(seen@)[old_seen.len() as int] == x);
                    }
                }
                proof {
                    assert(sv(seen@).to_set().subset_of(u)) by {
                        assert forall|x: Seq<char>| sv(seen@).to_set().contains(x) implies u.contains(
                            x,
                        ) by {
                            assert(sv(seen@).contains(x));
                            lemma_reach_in_universe(g, root@, x);
                        }
                    }
                    lemma_len_subset(sv(seen@).to_set(), u);
                    sv(seen@).unique_seq_to_set();
                }
                match self.entry_of(p.as_str()) {
                    Some(k) => {
                        let kids = &self.includes[k].1;
                        let ghost ks = sv(kids@);
                        assert(ks == children(g, p@));
                        let mut j: usize = 0;
                        while j < kids.len()
                            invariant
                                j <= kids.len(),
                                ks == sv(kids@),
                                sv(stack@) == after_pop + ks.take(j as int),
                            decreases kids.len() - j,
                        {
                            let ghost before = sv(stack@);
                            stack.push(kids[j].clone());
                            assert(sv(stack@) =~= before.push(ks[j as int]));
                            assert(ks.take(j + 1) =~= ks.take(j as int).push(ks[j as int]));
                            j += 1;
                        }
                        assert(ks.take(kids.len() as int) =~= ks);
                        assert forall|x: Seq<char>| #[trigger] sv(stack@).contains(x) <==> (
                        after_pop.contains(x) || ks.contains(x)) by {
                            if sv(stack@).contains(x) {
                                let i = choose|i: int| 0 <= i < sv(stack@).len() && sv(stack@)[i] == x;
                                if i < after_pop.len() {
                                    assert(after_pop[i] == x);
                                } else {
                                    assert(ks[i - after_pop.len()] == x);
                                }
                            }
                            if after_pop.contains(x) {
                                let i = choose|i: int| 0 <= i < after_pop.len() && after_pop[i] == x;
                                assert(sv(stack@)[i] == x);
                            }
                            if ks.contains(x) {
                                let i = choose|i: int| 0 <= i < ks.len() && ks[i] == x;
                                assert(sv(stack@)[after_pop.len() + i] == x);
                            }
                        }
                        assert forall|x: Seq<char>| ks.contains(x) implies reaches(g, root@, x) by {
                            lemma_extend_reach(g, root@, p@, x);
                        }
                    },
                    None => {
                        assert forall|c: Seq<char>| !children(g, p@).contains(c) by {}
                    },
                }
            }
        }
        proof {
            assert forall|x: Seq<char>| reaches(g, root@, x) implies sv(seen@).contains(x) by {
                lemma_closed_holds_reach(g, root@, sv(seen@), x);
            }
        }
        seen
    }
}


/// The entry files of `g` whose walk reaches `target`, in entry order.
pub open spec fn entry_roots(g: Seq<(Seq<char>, Seq<Seq<char>>)>, target: Seq<char>) -> Seq<Seq<char>> {
    roots_from(g, 0).filter(|r: Seq<char>| reaches(g, r, target))
}

impl IncludeGraph {
    /// The entry files whose closure holds `target`: the roots to assemble
    /// when `target` changes.
    pub fn entry_roots_for(&self, target: &str) -> (r: Vec<String>)
        ensures
            sv(r@) == entry_roots(graph_view(self), target@),
    {
        let ghost g = graph_view(self);
        let roots = self.roots();
        let ghost rs = sv(roots@);
        let ghost pred = |r: Seq<char>| reaches(g, r, target@);
        let mut out: Vec<String> = Vec::new();
        let mut i: usize = 0;
        assert(rs.take(0).filter(pred) =~= Seq::<Seq<char>>::empty()) by {
            reveal(Seq::filter);
        }
        while i < roots.len()
            invariant
                i <= roots.len(),
                g == graph_view(self),
                rs == sv(roots@),
                rs == roots_from(g, 0),
                pred == (|r: Seq<char>| reaches(g, r, target@)),
                sv(out@) == rs.take(i as int).filter(pred),
            decreases roots.len() - i,
        {
            let ghost before = sv(out@);
            let ghost t = rs.take(i + 1);
            assert(rs[i as int] == roots@[i as int]@);
            assert(t.drop_last() =~= rs.take(i as int));
            assert(t.last() == roots@[i as int]@);
            assert(t.len() > 0);
            let c = self.closure(roots[i].as_str());
            let found = holds(&c, target);
            assert(found == pred(roots@[i as int]@));
            if found {
                out.push(roots[i].clone());
                assert(sv(out@) =~= before.push(roots@[i as int]@));
                assert(t.filter(pred) == t.drop_last().filter(pred).push(t.last())) by {
                    reveal(Seq::filter);
                }
            } else {
                assert(t.filter(pred) == t.drop_last().filter(pred)) by {
                    reveal(Seq::filter);
                }
            }
            i += 1;
        }
        assert(rs.take(roots.len() as int) =~= rs);
        out
    }
}

} // verus!
