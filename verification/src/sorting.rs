//! Stable sorting by insertion, as a function on sequences, with what holds
//! of its result.
use vstd::prelude::*;

verus! {

/// `s` with `x` put behind the last item that comes before it or ranks
/// equal to it under `leq`, for a sorted `s`.
pub open spec fn insert_by<A>(s: Seq<A>, x: A, leq: spec_fn(A, A) -> bool) -> Seq<A>
    decreases s.len(),
{
    if s.len() == 0 {
        seq![x]
    } else if leq(s.last(), x) {
        s.push(x)
    } else {
        insert_by(s.drop_last(), x, leq).push(s.last())
    }
}

/// The items of `s` in the order of `leq`; items that rank equal keep the
/// order that they have in `s`.
pub open spec fn stable_sort<A>(s: Seq<A>, leq: spec_fn(A, A) -> bool) -> Seq<A>
    decreases s.len(),
{
    if s.len() == 0 {
        s
    } else {
        insert_by(stable_sort(s.drop_last(), leq), s.last(), leq)
    }
}

/// Every item of `s` comes before or ranks equal to every item after it.
pub open spec fn sorted<A>(s: Seq<A>, leq: spec_fn(A, A) -> bool) -> bool {
    forall|i: int, j: int| 0 <= i < j < s.len() ==> leq(s[i], s[j])
}

/// Any two items are ordered one way or the other, and the order is
/// transitive.
pub open spec fn total_preorder<A>(leq: spec_fn(A, A) -> bool) -> bool {
    &&& forall|a: A, b: A| #[trigger] leq(a, b) || leq(b, a)
    &&& forall|a: A, b: A, c: A| #[trigger] leq(a, b) && #[trigger] leq(b, c) ==> leq(a, c)
}

/// Where `x` ranks before every item of `s` from index `j` on, and not
/// before the item in front of `j`, insertion puts it at `j`.
pub proof fn lemma_insert_at<A>(s: Seq<A>, x: A, leq: spec_fn(A, A) -> bool, j: int)
    requires
        0 <= j <= s.len(),
        forall|k: int| j <= k < s.len() ==> !leq(#[trigger] s[k], x),
        j > 0 ==> leq(s[j - 1], x),
    ensures
        insert_by(s, x, leq) == s.insert(j, x),
    decreases s.len(),
{
    if s.len() == 0 {
        assert(s.insert(j, x) =~= seq![x]);
    } else if j == s.len() {
        assert(s.insert(j, x) =~= s.push(x));
    } else {
        assert(!leq(s[s.len() - 1], x));
        let t = s.drop_last();
        assert forall|k: int| j <= k < t.len() implies !leq(#[trigger] t[k], x) by {
            assert(t[k] == s[k]);
        }
        lemma_insert_at(t, x, leq, j);
        assert(t.insert(j, x).push(s.last()) =~= s.insert(j, x));
    }
}

/// Insertion adds `x` and nothing else, and keeps a sorted sequence sorted.
pub proof fn lemma_insert_by<A>(s: Seq<A>, x: A, leq: spec_fn(A, A) -> bool)
    ensures
        insert_by(s, x, leq).len() == s.len() + 1,
        forall|a: A| #[trigger] insert_by(s, x, leq).contains(a) <==> s.contains(a) || a == x,
        insert_by(s, x, leq).to_multiset() == s.to_multiset().insert(x),
        s.no_duplicates() && !s.contains(x) ==> insert_by(s, x, leq).no_duplicates(),
        total_preorder(leq) && sorted(s, leq) ==> sorted(insert_by(s, x, leq), leq),
    decreases s.len(),
{
    broadcast use vstd::seq_lib::group_to_multiset_ensures;

    let r = insert_by(s, x, leq);
    if s.len() == 0 {
        assert(r[0] == x);
        assert(r =~= s.push(x));
    } else if leq(s.last(), x) {
        assert(r[s.len() as int] == x);
        assert forall|a: A| #[trigger] r.contains(a) <==> s.contains(a) || a == x by {
            if r.contains(a) {
                let i = choose|i: int| 0 <= i < r.len() && r[i] == a;
                if i < s.len() {
                    assert(s[i] == a);
                }
            }
            if s.contains(a) {
                let i = choose|i: int| 0 <= i < s.len() && s[i] == a;
                assert(r[i] == a);
            }
        }
        if total_preorder(leq) && sorted(s, leq) {
            assert forall|i: int, j: int| 0 <= i < j < r.len() implies leq(r[i], r[j]) by {
                if j == s.len() {
                    if i < s.len() - 1 {
                        assert(leq(s[i], s[s.len() - 1]));
                    }
                } else {
                    assert(leq(s[i], s[j]));
                }
            }
        }
    } else {
        let t = s.drop_last();
        let y = s.last();
        let rt = insert_by(t, x, leq);
        lemma_insert_by(t, x, leq);
        assert(r == rt.push(y));
        assert(s =~= t.push(y));
        assert forall|a: A| #[trigger] r.contains(a) <==> s.contains(a) || a == x by {
            if r.contains(a) {
                let i = choose|i: int| 0 <= i < r.len() && r[i] == a;
                if i < rt.len() {
                    assert(rt[i] == a);
                    assert(rt.contains(a));
                    if t.contains(a) {
                        let k = choose|k: int| 0 <= k < t.len() && t[k] == a;
                        assert(s[k] == a);
                    }
                } else {
                    assert(s[s.len() - 1] == a);
                }
            }
            if s.contains(a) {
                let k = choose|k: int| 0 <= k < s.len() && s[k] == a;
                if k < t.len() {
                    assert(t[k] == a);
                    assert(rt.contains(a));
                    let i = choose|i: int| 0 <= i < rt.len() && rt[i] == a;
                    assert(r[i] == a);
                } else {
                    assert(r[rt.len() as int] == a);
                }
            }
            if a == x {
                assert(rt.contains(a));
                let i = choose|i: int| 0 <= i < rt.len() && rt[i] == a;
                assert(r[i] == a);
            }
        }
        assert(r.to_multiset() =~= s.to_multiset().insert(x));
        if s.no_duplicates() && !s.contains(x) {
            assert forall|i: int, j: int| 0 <= i < j < t.len() implies t[i] != t[j] by {
                assert(s[i] != s[j]);
            }
            if t.contains(x) {
                let k = choose|k: int| 0 <= k < t.len() && t[k] == x;
                assert(s[k] == x);
            }
            assert(rt.no_duplicates());
            assert forall|i: int, j: int| 0 <= i < j < r.len() implies r[i] != r[j] by {
                if j == rt.len() {
                    assert(rt[i] == r[i]);
                    if rt[i] == y {
                        assert(rt.contains(y));
                        assert(y != x);
                        assert(t.contains(y));
                        let k = choose|k: int| 0 <= k < t.len() && t[k] == y;
                        assert(s[k] == s[s.len() - 1]);
                    }
                } else {
                    assert(rt[i] != rt[j]);
                }
            }
        }
        if total_preorder(leq) && sorted(s, leq) {
            assert forall|i: int, j: int| 0 <= i < j < t.len() implies leq(t[i], t[j]) by {
                assert(leq(s[i], s[j]));
            }
            assert(sorted(rt, leq));
            assert(leq(x, y));
            assert forall|i: int, j: int| 0 <= i < j < r.len() implies leq(r[i], r[j]) by {
                if j == rt.len() {
                    assert(rt.contains(rt[i]));
                    if rt[i] == x {
                    } else {
                        assert(t.contains(rt[i]));
                        let k = choose|k: int| 0 <= k < t.len() && t[k] == rt[i];
                        assert(leq(s[k], s[s.len() - 1]));
                    }
                } else {
                    assert(leq(rt[i], rt[j]));
                }
            }
        }
    }
}

/// The sorted sequence holds exactly the items of `s`, as often as `s` does;
/// under a total preorder it is sorted.
pub proof fn lemma_stable_sort<A>(s: Seq<A>, leq: spec_fn(A, A) -> bool)
    ensures
        stable_sort(s, leq).len() == s.len(),
        forall|a: A| #[trigger] stable_sort(s, leq).contains(a) <==> s.contains(a),
        stable_sort(s, leq).to_multiset() == s.to_multiset(),
        s.no_duplicates() ==> stable_sort(s, leq).no_duplicates(),
        total_preorder(leq) ==> sorted(stable_sort(s, leq), leq),
    decreases s.len(),
{
    broadcast use vstd::seq_lib::group_to_multiset_ensures;

    if s.len() > 0 {
        let t = s.drop_last();
        let x = s.last();
        let st = stable_sort(t, leq);
        lemma_stable_sort(t, leq);
        lemma_insert_by(st, x, leq);
        let r = stable_sort(s, leq);
        assert(s =~= t.push(x));
        assert forall|a: A| #[trigger] r.contains(a) <==> s.contains(a) by {
            if s.contains(a) {
                let k = choose|k: int| 0 <= k < s.len() && s[k] == a;
                if k < t.len() {
                    assert(t[k] == a);
                }
            }
            if t.contains(a) {
                let k = choose|k: int| 0 <= k < t.len() && t[k] == a;
                assert(s[k] == a);
            }
            assert(s[s.len() - 1] == x);
        }
        if s.no_duplicates() {
            assert forall|i: int, j: int| 0 <= i < j < t.len() implies t[i] != t[j] by {
                assert(s[i] != s[j]);
            }
            if t.contains(x) {
                let k = choose|k: int| 0 <= k < t.len() && t[k] == x;
                assert(s[k] == s[s.len() - 1]);
            }
        }
    }
}

/// The order of identifiers by size.
pub open spec fn ascending() -> spec_fn(u64, u64) -> bool {
    |a: u64, b: u64| a <= b
}

/// Sorts identifiers by size.
pub fn sort_ids(v: &Vec<u64>) -> (r: Vec<u64>)
    ensures
        r@ == stable_sort(v@, ascending()),
{
    let mut r: Vec<u64> = Vec::new();
    let mut i: usize = 0;
    assert(v@.take(0) =~= Seq::<u64>::empty());
    while i < v.len()
        invariant
            i <= v.len(),
            r@ == stable_sort(v@.take(i as int), ascending()),
        decreases v.len() - i,
    {
        let x = v[i];
        let mut j: usize = r.len();
        while j > 0 && r[j - 1] > x
            invariant
                j <= r.len(),
                forall|k: int| j <= k < r.len() ==> !ascending()(#[trigger] r@[k], x),
            decreases j,
        {
            j -= 1;
        }
        proof {
            lemma_insert_at(r@, x, ascending(), j as int);
            assert(v@.take(i + 1).drop_last() =~= v@.take(i as int));
        }
        r.insert(j, x);
        i += 1;
    }
    assert(v@.take(i as int) =~= v@);
    r
}

} // verus!
