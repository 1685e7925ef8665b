//! Sorting by insertion.
use vstd::prelude::*;
use vstd::relations::*;
use vstd::seq_lib::*;

verus! {

/// An element put in front of the first larger one keeps a list sorted.
pub proof fn lemma_insert_sorted<A>(s: Seq<A>, at: int, x: A, leq: spec_fn(A, A) -> bool)
    requires
        0 <= at <= s.len(),
        total_ordering(leq),
        sorted_by(s, leq),
        forall|k: int| 0 <= k < at ==> leq(#[trigger] s[k], x),
        at < s.len() ==> leq(x, s[at]),
    ensures
        sorted_by(s.insert(at, x), leq),
        s.insert(at, x).to_multiset() == s.to_multiset().insert(x),
        s.insert(at, x).len() == s.len() + 1,
{
    broadcast use group_to_multiset_ensures;

    let t = s.insert(at, x);
    assert forall|a: int, b: int| 0 <= a < b < t.len() implies leq(t[a], t[b]) by {
        if a == at {
            assert(t[b] == s[b - 1]);
            if b - 1 > at {
                assert(leq(s[at], s[b - 1]));
            }
        } else if b == at {
            assert(t[a] == s[a]);
        } else {
            let pa = if a < at {
                a
            } else {
                a - 1
            };
            let pb = if b < at {
                b
            } else {
                b - 1
            };
            assert(t[a] == s[pa] && t[b] == s[pb]);
            assert(leq(s[pa], s[pb]));
        }
    }
}

/// A sorted list of the elements of `s` is `s` sorted.
pub proof fn lemma_sorted_is_sort<A>(t: Seq<A>, s: Seq<A>, leq: spec_fn(A, A) -> bool)
    requires
        total_ordering(leq),
        sorted_by(t, leq),
        t.to_multiset() == s.to_multiset(),
    ensures
        t == s.sort_by(leq),
        t.len() == s.len(),
{
    s.lemma_sort_by_ensures(leq);
    lemma_sorted_unique(t, s.sort_by(leq), leq);
    s.to_multiset_ensures();
    t.to_multiset_ensures();
}

/// Larger numbers first.
pub open spec fn descending() -> spec_fn(usize, usize) -> bool {
    |a: usize, b: usize| a >= b
}

/// The numbers, the largest first.
pub fn sorted_descending(v: &Vec<usize>) -> (r: Vec<usize>)
    ensures
        r@ == v@.sort_by(descending()),
        r.len() == v.len(),
{
    let mut out: Vec<usize> = Vec::new();
    let mut i: usize = 0;
    assert(v@.take(0) =~= Seq::<usize>::empty());
    while i < v.len()
        invariant
            i <= v.len(),
            sorted_by(out@, descending()),
            out@.to_multiset() == v@.take(i as int).to_multiset(),
        decreases v.len() - i,
    {
        let x: usize = v[i];
        let mut at: usize = 0;
        while at < out.len() && out[at] >= x
            invariant
                at <= out.len(),
                forall|k: int| 0 <= k < at ==> #[trigger] out@[k] >= x,
            decreases out.len() - at,
        {
            at += 1;
        }
        proof {
            lemma_insert_sorted(out@, at as int, x, descending());
            broadcast use group_to_multiset_ensures;

            assert(v@.take(i + 1) =~= v@.take(i as int).push(x));
        }
        out.insert(at, x);
        i += 1;
    }
    proof {
        assert(v@.take(v.len() as int) =~= v@);
        lemma_sorted_is_sort(out@, v@, descending());
    }
    out
}

} // verus!
