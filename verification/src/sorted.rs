//! Sorted lists of strings: the order `Vec<String>::sort` and `BTreeSet<String>`
//! keep, as pairwise properties over the strings' character sequences.
use vstd::prelude::*;

use crate::text::{
    lemma_seq_lt_asymmetric, lemma_seq_lt_irreflexive, lemma_seq_lt_total, lemma_seq_lt_transitive,
    seq_lt, str_eq, str_lt,
};

verus! {

/// The character sequences of a list of strings.
pub open spec fn views(v: Seq<String>) -> Seq<Seq<char>> {
    v.map_values(|s: String| s@)
}

/// Every string is smaller than every later one (sorted, no repeats).
pub open spec fn strictly_sorted(s: Seq<Seq<char>>) -> bool {
    forall|i: int, j: int| 0 <= i < j < s.len() ==> seq_lt(#[trigger] s[i], #[trigger] s[j])
}

/// No string is greater than a later one (sorted, repeats allowed).
pub open spec fn sorted_le(s: Seq<Seq<char>>) -> bool {
    forall|i: int, j: int| 0 <= i < j < s.len() ==> !seq_lt(#[trigger] s[j], #[trigger] s[i])
}

pub proof fn lemma_views_insert(v: Seq<String>, p: int, x: String)
    requires
        0 <= p <= v.len(),
    ensures
        views(v.insert(p, x)) =~= views(v).insert(p, x@),
{
    v.insert_ensures(p, x);
    views(v).insert_ensures(p, x@);
}

pub proof fn lemma_views_push(v: Seq<String>, x: String)
    ensures
        views(v.push(x)) =~= views(v).push(x@),
{
}

pub proof fn lemma_multiset_insert<A>(s: Seq<A>, p: int, x: A)
    requires
        0 <= p <= s.len(),
    ensures
        s.insert(p, x).to_multiset() =~= s.to_multiset().insert(x),
{
    let t = s.insert(p, x);
    s.insert_ensures(p, x);
    assert(t.remove(p) =~= s);
    t.to_multiset_ensures();
    assert(t[p] == x);
    assert(t.contains(x));
    assert(t.to_multiset().count(x) > 0);
    assert(s.to_multiset() =~= t.to_multiset().remove(x));
}

/// Dropping an element keeps a list sorted.
pub proof fn lemma_sorted_remove(s: Seq<Seq<char>>, q: int)
    requires
        sorted_le(s),
        0 <= q < s.len(),
    ensures
        sorted_le(s.remove(q)),
{
    let r = s.remove(q);
    assert forall|i: int, j: int| 0 <= i < j < r.len() implies !seq_lt(#[trigger] r[j], #[trigger] r[i]) by {
        let si = if i < q { i } else { i + 1 };
        let sj = if j < q { j } else { j + 1 };
        assert(r[i] == s[si] && r[j] == s[sj]);
    }
}

/// A sorted list is fixed by what it holds: two sorted lists with the same
/// elements, counted with repeats, are the same list.
pub proof fn lemma_sorted_unique(s: Seq<Seq<char>>, t: Seq<Seq<char>>)
    requires
        sorted_le(s),
        sorted_le(t),
        s.to_multiset() == t.to_multiset(),
    ensures
        s == t,
    decreases s.len(),
{
    s.to_multiset_ensures();
    t.to_multiset_ensures();
    if s.len() == 0 {
        assert(t.len() == 0);
        assert(s =~= t);
    } else {
        let a = s[0];
        let b = t[0];
        assert(s.contains(a));
        assert(s.to_multiset().count(a) > 0);
        assert(t.to_multiset().count(a) > 0);
        assert(t.contains(b));
        assert(t.to_multiset().count(b) > 0);
        assert(s.to_multiset().count(b) > 0);
        let j = choose|j: int| 0 <= j < t.len() && t[j] == a;
        let i = choose|i: int| 0 <= i < s.len() && s[i] == b;
        if j > 0 {
            assert(!seq_lt(t[j], t[0]));
        }
        if i > 0 {
            assert(!seq_lt(s[i], s[0]));
        }
        lemma_seq_lt_total(a, b);
        lemma_seq_lt_irreflexive(a);
        assert(a == b);
        let s1 = s.remove(0);
        let t1 = t.remove(0);
        lemma_sorted_remove(s, 0);
        lemma_sorted_remove(t, 0);
        assert(s1.to_multiset() == t1.to_multiset());
        lemma_sorted_unique(s1, t1);
        assert forall|k: int| 0 <= k < s.len() implies s[k] == t[k] by {
            if k > 0 {
                assert(s[k] == s1[k - 1] && t[k] == t1[k - 1]);
            }
        }
        assert(s =~= t);
    }
}

/// Inserts `x` into a strictly sorted list unless an equal string is there.
pub fn insert_sorted_unique(r: &mut Vec<String>, x: String)
    requires
        strictly_sorted(views(old(r)@)),
    ensures
        strictly_sorted(views(final(r)@)),
        views(final(r)@).to_set() == views(old(r)@).to_set().insert(x@),
{
    let ghost old_v = views(r@);
    let mut p: usize = 0;
    while p < r.len() && str_lt(r[p].as_str(), x.as_str())
        invariant
            p <= r@.len(),
            views(r@) == old_v,
            strictly_sorted(old_v),
            forall|k: int| 0 <= k < p ==> seq_lt(#[trigger] old_v[k], x@),
        decreases r.len() - p,
    {
        p += 1;
    }
    if p < r.len() && str_eq(r[p].as_str(), x.as_str()) {
        assert(old_v[p as int] == x@);
        assert(old_v.to_set().insert(x@) =~= old_v.to_set());
        return;
    }
    proof {
        if p < r@.len() {
            lemma_seq_lt_total(old_v[p as int], x@);
        }
    }
    let ghost before = r@;
    r.insert(p, x);
    proof {
        lemma_views_insert(before, p as int, x);
        let nv = views(r@);
        old_v.insert_ensures(p as int, x@);
        assert forall|i: int, j: int| 0 <= i < j < nv.len() implies seq_lt(
            #[trigger] nv[i],
            #[trigger] nv[j],
        ) by {
            if j < p {
            } else if j == p {
            } else if i < p {
            } else if i == p {
                if j - 1 > p {
                    lemma_seq_lt_transitive(x@, old_v[p as int], old_v[j - 1]);
                }
            } else {
            }
        }
        assert forall|y: Seq<char>| nv.contains(y) <==> old_v.contains(y) || y == x@ by {
            if nv.contains(y) {
                let k = choose|k: int| 0 <= k < nv.len() && nv[k] == y;
                if k < p {
                    assert(old_v[k] == y);
                } else if k > p {
                    assert(old_v[k - 1] == y);
                }
            }
            if old_v.contains(y) {
                let k = choose|k: int| 0 <= k < old_v.len() && old_v[k] == y;
                if k < p {
                    assert(nv[k] == y);
                } else {
                    assert(nv[k + 1] == y);
                }
            }
            if y == x@ {
                assert(nv[p as int] == y);
            }
        }
        assert(nv.to_set() =~= old_v.to_set().insert(x@));
    }
}

/// Inserts `x` after every string not greater than it, keeping the list sorted.
pub fn insert_sorted(r: &mut Vec<String>, x: String)
    requires
        sorted_le(views(old(r)@)),
    ensures
        sorted_le(views(final(r)@)),
        views(final(r)@).to_multiset() == views(old(r)@).to_multiset().insert(x@),
{
    let ghost old_v = views(r@);
    let mut p: usize = 0;
    while p < r.len() && !str_lt(x.as_str(), r[p].as_str())
        invariant
            p <= r@.len(),
            views(r@) == old_v,
            sorted_le(old_v),
            forall|k: int| 0 <= k < p ==> !seq_lt(x@, #[trigger] old_v[k]),
        decreases r.len() - p,
    {
        p += 1;
    }
    let ghost before = r@;
    r.insert(p, x);
    proof {
        lemma_views_insert(before, p as int, x);
        lemma_multiset_insert(old_v, p as int, x@);
        let nv = views(r@);
        old_v.insert_ensures(p as int, x@);
        assert forall|i: int, j: int| 0 <= i < j < nv.len() implies !seq_lt(
            #[trigger] nv[j],
            #[trigger] nv[i],
        ) by {
            if j < p {
            } else if j == p {
            } else if i < p {
            } else if i == p {
                assert(seq_lt(x@, old_v[p as int]));
                if seq_lt(old_v[j - 1], x@) {
                    lemma_seq_lt_transitive(old_v[j - 1], x@, old_v[p as int]);
                    if j - 1 > p {
                        lemma_seq_lt_asymmetric(old_v[j - 1], old_v[p as int]);
                    } else {
                        lemma_seq_lt_irreflexive(old_v[p as int]);
                    }
                }
            } else {
            }
        }
    }
}

/// The strings sorted into ascending order (`Vec<String>::sort`).
pub fn sort_strings(v: Vec<String>) -> (r: Vec<String>)
    ensures
        sorted_le(views(r@)),
        views(r@).to_multiset() == views(v@).to_multiset(),
{
    let mut r: Vec<String> = Vec::new();
    let mut i: usize = 0;
    assert(views(r@) =~= views(v@.take(0)));
    while i < v.len()
        invariant
            i <= v@.len(),
            sorted_le(views(r@)),
            views(r@).to_multiset() == views(v@.take(i as int)).to_multiset(),
        decreases v.len() - i,
    {
        let x = v[i].clone();
        insert_sorted(&mut r, x);
        proof {
            assert(v@.take(i + 1) =~= v@.take(i as int).push(v@[i as int]));
            lemma_views_push(v@.take(i as int), v@[i as int]);
            views(v@.take(i as int)).to_multiset_ensures();
        }
        i += 1;
    }
    assert(v@.take(v@.len() as int) =~= v@);
    r
}

} // verus!
