//! Sequences of names and identifiers: views, membership, first occurrences.
use vstd::prelude::*;

verus! {

/// The views of the items of a sequence, in order.
pub open spec fn views<T: View>(s: Seq<T>) -> Seq<T::V> {
    Seq::new(s.len(), |i: int| s[i]@)
}

/// The first occurrence of every item of `s`, in the order of `s`.
pub open spec fn distinct<A>(s: Seq<A>) -> Seq<A>
    decreases s.len(),
{
    if s.len() == 0 {
        s
    } else {
        let front = distinct(s.drop_last());
        if front.contains(s.last()) {
            front
        } else {
            front.push(s.last())
        }
    }
}

/// `distinct(s)` holds exactly the items of `s`, each once, and is no longer
/// than `s`; it starts with the first item of `s`.
pub proof fn lemma_distinct<A>(s: Seq<A>)
    ensures
        distinct(s).no_duplicates(),
        distinct(s).len() <= s.len(),
        forall|a: A|
            #![trigger distinct(s).contains(a)]
            #![trigger s.contains(a)]
            distinct(s).contains(a) <==> s.contains(a),
        s.len() > 0 ==> distinct(s).len() > 0 && distinct(s)[0] == s[0],
    decreases s.len(),
{
    if s.len() > 0 {
        let t = s.drop_last();
        lemma_distinct(t);
        let front = distinct(t);
        assert forall|a: A|
            #![trigger distinct(s).contains(a)]
            #![trigger s.contains(a)]
            distinct(s).contains(a) <==> s.contains(a) by {
            if distinct(s).contains(a) {
                if front.contains(a) {
                    let i = choose|i: int| 0 <= i < t.len() && t[i] == a;
                    assert(s[i] == a);
                } else {
                    let i = choose|i: int| 0 <= i < distinct(s).len() && distinct(s)[i] == a;
                    assert(a == s.last());
                    assert(s[s.len() - 1] == a);
                }
            }
            if s.contains(a) {
                let i = choose|i: int| 0 <= i < s.len() && s[i] == a;
                if i < t.len() {
                    assert(t[i] == a);
                    assert(front.contains(a));
                    let j = choose|j: int| 0 <= j < front.len() && front[j] == a;
                    assert(distinct(s)[j] == a);
                } else {
                    if front.contains(a) {
                    } else {
                        assert(distinct(s)[front.len() as int] == a);
                    }
                }
            }
        }
        if t.len() > 0 {
            assert(t[0] == s[0]);
        }
    }
}

/// The index of the first item of `s` that `bad` holds of; the length of `s`
/// where it holds of none.
pub open spec fn first_index<T>(s: Seq<T>, bad: spec_fn(T) -> bool) -> int
    decreases s.len(),
{
    if s.len() == 0 {
        0
    } else if bad(s[0]) {
        0
    } else {
        1 + first_index(s.drop_first(), bad)
    }
}

/// `first_index` is `i` where `bad` holds of no item before `i`, and `i` is
/// the end of `s` or `bad` holds of the item at `i`.
pub proof fn lemma_first_index<T>(s: Seq<T>, bad: spec_fn(T) -> bool, i: int)
    requires
        0 <= i <= s.len(),
        forall|j: int| 0 <= j < i ==> !bad(#[trigger] s[j]),
        i < s.len() ==> bad(s[i]),
    ensures
        first_index(s, bad) == i,
    decreases s.len(),
{
    if s.len() > 0 && i > 0 {
        let t = s.drop_first();
        assert(!bad(s[0]));
        assert forall|j: int| 0 <= j < i - 1 implies !bad(#[trigger] t[j]) by {
            assert(t[j] == s[j + 1]);
        }
        if i - 1 < t.len() {
            assert(t[i - 1] == s[i]);
        }
        lemma_first_index(t, bad, i - 1);
    }
}

/// `first_index` lies within `0 ..= s.len()`; `bad` holds of the item there,
/// if there is one, and of none before it.
pub proof fn lemma_first_index_bounds<T>(s: Seq<T>, bad: spec_fn(T) -> bool)
    ensures
        0 <= first_index(s, bad) <= s.len(),
        first_index(s, bad) < s.len() ==> bad(s[first_index(s, bad)]),
        forall|j: int| 0 <= j < first_index(s, bad) ==> !bad(#[trigger] s[j]),
    decreases s.len(),
{
    if s.len() > 0 && !bad(s[0]) {
        let t = s.drop_first();
        lemma_first_index_bounds(t, bad);
        assert forall|j: int| 0 <= j < first_index(s, bad) implies !bad(#[trigger] s[j]) by {
            if j > 0 {
                assert(s[j] == t[j - 1]);
            }
        }
    }
}

/// A sequence with one more item at its end holds that item and what it
/// held before; it has no repeats where it had none and did not hold the
/// item.
pub proof fn lemma_push<A>(s: Seq<A>, x: A)
    ensures
        forall|a: A| #[trigger] s.push(x).contains(a) <==> s.contains(a) || a == x,
        s.no_duplicates() && !s.contains(x) ==> s.push(x).no_duplicates(),
{
    let r = s.push(x);
    assert forall|a: A| #[trigger] r.contains(a) <==> s.contains(a) || a == x by {
        if r.contains(a) {
            let i = choose|i: int| 0 <= i < r.len() && r[i] == a;
            if i < s.len() {
                assert(s[i] == a);
            }
        }
        if s.contains(a) {
            let i = choose|i: int| 0 <= i < s.len() && s[i] == a;
            assert(r[i] == a);
        }
        assert(r[s.len() as int] == x);
    }
    if s.no_duplicates() && !s.contains(x) {
        assert forall|i: int, j: int| 0 <= i < j < r.len() implies r[i] != r[j] by {
            if j == s.len() {
                assert(s.contains(s[i]));
            }
        }
    }
}

/// A front part of `s` that is longer by one item holds what the shorter
/// one holds and the item at `i`, which the shorter one does not hold where
/// `s` has no repeats.
pub proof fn lemma_take_step<A>(s: Seq<A>, i: int)
    requires
        0 <= i < s.len(),
    ensures
        forall|a: A| #[trigger] s.take(i + 1).contains(a) <==> s.take(i).contains(a) || a == s[i],
        s.no_duplicates() ==> !s.take(i).contains(s[i]),
{
    let upto = s.take(i);
    let next = s.take(i + 1);
    assert(next =~= upto.push(s[i]));
    lemma_push(upto, s[i]);
    if s.no_duplicates() && upto.contains(s[i]) {
        let j = choose|j: int| 0 <= j < upto.len() && upto[j] == s[i];
        assert(s[j] == s[i]);
    }
}

/// Holds of everything but `x`.
pub open spec fn other_than<A>(x: A) -> spec_fn(A) -> bool {
    |a: A| a != x
}

/// What one more item adds to the filtering of a front part of `s`.
pub proof fn lemma_filter_step<A>(s: Seq<A>, keep: spec_fn(A) -> bool, i: int)
    requires
        0 <= i < s.len(),
    ensures
        s.take(i + 1).filter(keep) == if keep(s[i]) {
            s.take(i).filter(keep).push(s[i])
        } else {
            s.take(i).filter(keep)
        },
{
    reveal(Seq::filter);
    assert(s.take(i + 1).drop_last() =~= s.take(i));
    assert(s.take(i + 1).last() == s[i]);
}

/// Filtering keeps exactly the items that `keep` holds of.
pub proof fn lemma_filter_members<A>(s: Seq<A>, keep: spec_fn(A) -> bool)
    ensures
        forall|a: A| #[trigger] s.filter(keep).contains(a) <==> s.contains(a) && keep(a),
        s.no_duplicates() ==> s.filter(keep).no_duplicates(),
        s.filter(keep).len() <= s.len(),
    decreases s.len(),
{
    reveal(Seq::filter);
    if s.len() > 0 {
        let t = s.drop_last();
        let x = s.last();
        lemma_filter_members(t, keep);
        let ft = t.filter(keep);
        let fs = s.filter(keep);
        assert forall|a: A| #[trigger] fs.contains(a) <==> s.contains(a) && keep(a) by {
            if fs.contains(a) {
                let j = choose|j: int| 0 <= j < fs.len() && fs[j] == a;
                if j < ft.len() {
                    assert(ft[j] == a);
                    assert(ft.contains(a));
                    let k = choose|k: int| 0 <= k < t.len() && t[k] == a;
                    assert(s[k] == a);
                } else {
                    assert(a == x);
                    assert(s[s.len() - 1] == a);
                }
            }
            if s.contains(a) && keep(a) {
                let k = choose|k: int| 0 <= k < s.len() && s[k] == a;
                if k < t.len() {
                    assert(t[k] == a);
                    assert(ft.contains(a));
                    let j = choose|j: int| 0 <= j < ft.len() && ft[j] == a;
                    assert(fs[j] == a);
                } else {
                    assert(fs[ft.len() as int] == a);
                }
            }
        }
        if s.no_duplicates() {
            assert forall|i: int, j: int| 0 <= i < j < t.len() implies t[i] != t[j] by {
                assert(s[i] != s[j]);
            }
            if keep(x) {
                if ft.contains(x) {
                    let k = choose|k: int| 0 <= k < t.len() && t[k] == x;
                    assert(s[k] == s[s.len() - 1]);
                }
            }
        }
    }
}

/// The names of `v` other than `name`, in order.
pub fn names_without(v: &Vec<String>, name: &String) -> (c: Vec<String>)
    ensures
        views(c@) == views(v@).filter(other_than(name@)),
{
    let ghost all = views(v@);
    let ghost keep = other_than(name@);
    let mut c: Vec<String> = Vec::new();
    let mut i: usize = 0;
    proof {
        reveal(Seq::filter);
        assert(views(c@) =~= all.take(0).filter(keep));
    }
    while i < v.len()
        invariant
            i <= v.len(),
            all == views(v@),
            keep == other_than(name@),
            views(c@) == all.take(i as int).filter(keep),
        decreases v.len() - i,
    {
        proof {
            lemma_filter_step(all, keep, i as int);
        }
        if v[i] != *name {
            c.push(v[i].clone());
            assert(views(c@) =~= all.take(i as int).filter(keep).push(all[i as int]));
        }
        i += 1;
    }
    assert(all.take(i as int) =~= all);
    c
}

/// The identifiers of `v` other than `id`, in order.
pub fn ids_without(v: &Vec<u64>, id: u64) -> (c: Vec<u64>)
    ensures
        c@ == v@.filter(other_than(id)),
{
    let ghost keep = other_than(id);
    let mut c: Vec<u64> = Vec::new();
    let mut i: usize = 0;
    proof {
        reveal(Seq::filter);
        assert(c@ =~= v@.take(0).filter(keep));
    }
    while i < v.len()
        invariant
            i <= v.len(),
            keep == other_than(id),
            c@ == v@.take(i as int).filter(keep),
        decreases v.len() - i,
    {
        proof {
            lemma_filter_step(v@, keep, i as int);
        }
        if v[i] != id {
            c.push(v[i]);
        }
        i += 1;
    }
    assert(v@.take(i as int) =~= v@);
    c
}

/// Whether `name` is among `v`.
pub fn has_name(v: &Vec<String>, name: &String) -> (b: bool)
    ensures
        b == views(v@).contains(name@),
{
    let mut i: usize = 0;
    while i < v.len()
        invariant
            i <= v.len(),
            forall|j: int| 0 <= j < i ==> views(v@)[j] != name@,
        decreases v.len() - i,
    {
        if v[i] == *name {
            assert(views(v@)[i as int] == name@);
            return true;
        }
        i += 1;
    }
    false
}

/// Whether no name occurs twice in `v`.
pub fn no_repeats(v: &Vec<String>) -> (b: bool)
    ensures
        b == views(v@).no_duplicates(),
{
    let mut i: usize = 0;
    while i < v.len()
        invariant
            i <= v.len(),
            forall|a: int, b: int| 0 <= a < b < i ==> views(v@)[a] != views(v@)[b],
        decreases v.len() - i,
    {
        let mut j: usize = 0;
        while j < i
            invariant
                j <= i < v.len(),
                forall|a: int| 0 <= a < j ==> views(v@)[a] != views(v@)[i as int],
            decreases i - j,
        {
            if v[j] == v[i] {
                assert(views(v@)[j as int] == views(v@)[i as int]);
                return false;
            }
            j += 1;
        }
        i += 1;
    }
    true
}

/// A copy of a vector of names.
pub fn copy_names(v: &Vec<String>) -> (c: Vec<String>)
    ensures
        views(c@) == views(v@),
{
    let mut c: Vec<String> = Vec::new();
    let mut i: usize = 0;
    while i < v.len()
        invariant
            i <= v.len(),
            c.len() == i,
            forall|j: int| 0 <= j < i ==> c@[j]@ == v@[j]@,
        decreases v.len() - i,
    {
        c.push(v[i].clone());
        i += 1;
    }
    assert(views(c@) =~= views(v@));
    c
}

/// A copy of a vector of identifiers.
pub fn copy_ids(v: &Vec<u64>) -> (c: Vec<u64>)
    ensures
        c@ == v@,
{
    let mut c: Vec<u64> = Vec::new();
    let mut i: usize = 0;
    while i < v.len()
        invariant
            i <= v.len(),
            c.len() == i,
            forall|j: int| 0 <= j < i ==> c@[j] == v@[j],
        decreases v.len() - i,
    {
        c.push(v[i]);
        i += 1;
    }
    assert(c@ =~= v@);
    c
}

} // verus!
