//! Stable insertion sort over sequences of item indices, specified for any
//! strict weak order, with its laws: the result is a permutation of the input,
//! ordered, and equal elements keep their input order.
use vstd::prelude::*;

verus! {

broadcast use vstd::seq_lib::group_to_multiset_ensures;

/// `lt` is a strict weak order: irreflexive, transitive, and "neither is
/// before the other" is transitive as well (negative transitivity).
pub open spec fn strict_weak_order<A>(lt: spec_fn(A, A) -> bool) -> bool {
    &&& forall|a: A| !#[trigger] lt(a, a)
    &&& forall|a: A, b: A, c: A| #[trigger] lt(a, b) && #[trigger] lt(b, c) ==> lt(a, c)
    &&& forall|a: A, b: A, c: A| #![trigger lt(a, b), lt(b, c)] lt(a, c) ==> lt(a, b) || lt(b, c)
}

/// Neither element goes before the other.
pub open spec fn tied<A>(lt: spec_fn(A, A) -> bool, a: A, b: A) -> bool {
    !lt(a, b) && !lt(b, a)
}

/// No element of `s` goes before an element that precedes it in `s`.
pub open spec fn sorted_by_lt<A>(s: Seq<A>, lt: spec_fn(A, A) -> bool) -> bool {
    forall|i: int, j: int| 0 <= i < j < s.len() ==> !lt(#[trigger] s[j], #[trigger] s[i])
}

/// Inserts `x` into `s` after every element that does not come after `x`,
/// scanning from the end.
pub open spec fn insert_by<A>(s: Seq<A>, x: A, lt: spec_fn(A, A) -> bool) -> Seq<A>
    decreases s.len(),
{
    if s.len() > 0 && lt(x, s.last()) {
        insert_by(s.drop_last(), x, lt).push(s.last())
    } else {
        s.push(x)
    }
}

/// Stable sort of `s` by `lt`: the elements are inserted one after another,
/// each after every element already placed that it does not come before.
pub open spec fn stable_sort_by<A>(s: Seq<A>, lt: spec_fn(A, A) -> bool) -> Seq<A>
    decreases s.len(),
{
    if s.len() == 0 {
        s
    } else {
        insert_by(stable_sort_by(s.drop_last(), lt), s.last(), lt)
    }
}

pub proof fn lemma_insert_by_multiset<A>(s: Seq<A>, x: A, lt: spec_fn(A, A) -> bool)
    ensures
        insert_by(s, x, lt).to_multiset() =~= s.to_multiset().insert(x),
        insert_by(s, x, lt).len() == s.len() + 1,
    decreases s.len(),
{
    if s.len() > 0 && lt(x, s.last()) {
        lemma_insert_by_multiset(s.drop_last(), x, lt);
        assert(s =~= s.drop_last().push(s.last()));
    }
}

/// Sorting permutes its input.
pub proof fn lemma_stable_sort_multiset<A>(s: Seq<A>, lt: spec_fn(A, A) -> bool)
    ensures
        stable_sort_by(s, lt).to_multiset() =~= s.to_multiset(),
        stable_sort_by(s, lt).len() == s.len(),
    decreases s.len(),
{
    if s.len() > 0 {
        lemma_stable_sort_multiset(s.drop_last(), lt);
        lemma_insert_by_multiset(stable_sort_by(s.drop_last(), lt), s.last(), lt);
        assert(s =~= s.drop_last().push(s.last()));
    }
}

proof fn lemma_insert_by_sorted<A>(s: Seq<A>, x: A, lt: spec_fn(A, A) -> bool)
    requires
        strict_weak_order(lt),
        sorted_by_lt(s, lt),
    ensures
        sorted_by_lt(insert_by(s, x, lt), lt),
    decreases s.len(),
{
    let r = insert_by(s, x, lt);
    if s.len() > 0 && lt(x, s.last()) {
        let p = s.drop_last();
        let last = s.last();
        lemma_insert_by_sorted(p, x, lt);
        let q = insert_by(p, x, lt);
        lemma_insert_by_multiset(p, x, lt);
        assert forall|i: int| 0 <= i < q.len() implies !lt(last, #[trigger] q[i]) by {
            assert(q.to_multiset().count(q[i]) > 0);
            if q[i] != x {
                assert(p.to_multiset().count(q[i]) > 0);
                assert(p.contains(q[i]));
                let k = choose|k: int| 0 <= k < p.len() && p[k] == q[i];
                assert(s[k] == p[k]);
                assert(s[s.len() - 1] == last);
            }
        }
        assert forall|i: int, j: int| 0 <= i < j < r.len() implies !lt(#[trigger] r[j], #[trigger] r[i]) by {
            if j < q.len() {
                assert(r[i] == q[i] && r[j] == q[j]);
            } else {
                assert(r[j] == last && r[i] == q[i]);
            }
        }
    } else {
        assert forall|i: int, j: int| 0 <= i < j < r.len() implies !lt(#[trigger] r[j], #[trigger] r[i]) by {
            if j < s.len() {
                assert(r[i] == s[i] && r[j] == s[j]);
            } else {
                assert(r[j] == x && r[i] == s[i]);
                if lt(x, s[i]) {
                    assert(s[s.len() - 1] == s.last());
                    if i < s.len() - 1 {
                        assert(!lt(s[s.len() - 1], s[i]));
                    }
                }
            }
        }
    }
}

/// The result of sorting is ordered.
pub proof fn lemma_stable_sort_sorted<A>(s: Seq<A>, lt: spec_fn(A, A) -> bool)
    requires
        strict_weak_order(lt),
    ensures
        sorted_by_lt(stable_sort_by(s, lt), lt),
    decreases s.len(),
{
    if s.len() > 0 {
        lemma_stable_sort_sorted(s.drop_last(), lt);
        lemma_insert_by_sorted(stable_sort_by(s.drop_last(), lt), s.last(), lt);
    }
}


/// The elements tied with `e` under `lt`.
pub open spec fn tied_with<A>(lt: spec_fn(A, A) -> bool, e: A) -> spec_fn(A) -> bool {
    |y: A| tied(lt, y, e)
}

proof fn lemma_filter_push<A>(s: Seq<A>, x: A, p: spec_fn(A) -> bool)
    ensures
        s.push(x).filter(p) == (if p(x) { s.filter(p).push(x) } else { s.filter(p) }),
{
    reveal(Seq::filter);
    assert(s.push(x).drop_last() =~= s);
}

proof fn lemma_insert_by_filter<A>(t: Seq<A>, x: A, lt: spec_fn(A, A) -> bool, e: A)
    requires
        strict_weak_order(lt),
    ensures
        insert_by(t, x, lt).filter(tied_with(lt, e)) == (if tied(lt, x, e) {
            t.filter(tied_with(lt, e)).push(x)
        } else {
            t.filter(tied_with(lt, e))
        }),
    decreases t.len(),
{
    let p = tied_with(lt, e);
    if t.len() > 0 && lt(x, t.last()) {
        let t0 = t.drop_last();
        let last = t.last();
        lemma_insert_by_filter(t0, x, lt, e);
        lemma_filter_push(insert_by(t0, x, lt), last, p);
        lemma_filter_push(t0, last, p);
        assert(t0.push(last) =~= t);
        if tied(lt, x, e) && tied(lt, last, e) {
            assert(lt(x, e) || lt(e, last));
        }
    } else {
        lemma_filter_push(t, x, p);
    }
}

/// Sorting is stable: the elements tied with any `e` appear in the result in
/// the order in which they appear in the input.
pub proof fn lemma_stable_sort_stable<A>(s: Seq<A>, lt: spec_fn(A, A) -> bool, e: A)
    requires
        strict_weak_order(lt),
    ensures
        stable_sort_by(s, lt).filter(tied_with(lt, e)) == s.filter(tied_with(lt, e)),
    decreases s.len(),
{
    if s.len() > 0 {
        let s0 = s.drop_last();
        lemma_stable_sort_stable(s0, lt, e);
        lemma_insert_by_filter(stable_sort_by(s0, lt), s.last(), lt, e);
        lemma_filter_push(s0, s.last(), tied_with(lt, e));
        assert(s0.push(s.last()) =~= s);
    }
}


/// Inserting by scanning from the end stops at the position `j` after the last
/// element that `x` does not go before.
pub proof fn lemma_insert_by_at<A>(s: Seq<A>, x: A, lt: spec_fn(A, A) -> bool, j: int)
    requires
        0 <= j <= s.len(),
        forall|k: int| j <= k < s.len() ==> lt(x, #[trigger] s[k]),
        j == 0 || !lt(x, s[j - 1]),
    ensures
        insert_by(s, x, lt) == s.insert(j, x),
    decreases s.len(),
{
    if j == s.len() {
        assert(s.push(x) =~= s.insert(j, x));
    } else {
        let p = s.drop_last();
        assert(lt(x, s[s.len() - 1]));
        assert forall|k: int| j <= k < p.len() implies lt(x, #[trigger] p[k]) by {
            assert(p[k] == s[k]);
        }
        if j > 0 {
            assert(p[j - 1] == s[j - 1]);
        }
        lemma_insert_by_at(p, x, lt, j);
        assert(p.insert(j, x).push(s.last()) =~= s.insert(j, x));
    }
}

proof fn lemma_filter_in_order<A>(s: Seq<A>, p: spec_fn(A) -> bool, i: int, j: int)
    requires
        0 <= i < j < s.len(),
        p(s[i]),
        p(s[j]),
    ensures
        exists|a: int, b: int|
            0 <= a < b < s.filter(p).len() && #[trigger] s.filter(p)[a] == s[i] && #[trigger] s.filter(p)[b] == s[j],
{
    let l = s.take(j);
    let r = s.skip(j);
    assert(l + r =~= s);
    Seq::filter_distributes_over_add(l, r, p);
    assert(l[i] == s[i]);
    l.lemma_filter_contains(p, i);
    assert(r[0] == s[j]);
    r.lemma_filter_contains(p, 0);
    let fl = l.filter(p);
    let fr = r.filter(p);
    let a = choose|a: int| 0 <= a < fl.len() && fl[a] == s[i];
    let c = choose|c: int| 0 <= c < fr.len() && fr[c] == s[j];
    assert(s.filter(p)[a] == s[i]);
    assert(s.filter(p)[fl.len() + c] == s[j]);
}

proof fn lemma_filter_increasing(s: Seq<usize>, p: spec_fn(usize) -> bool)
    requires
        forall|i: int, j: int| 0 <= i < j < s.len() ==> #[trigger] s[i] < #[trigger] s[j],
    ensures
        forall|a: int, b: int| 0 <= a < b < s.filter(p).len() ==> #[trigger] s.filter(p)[a] < #[trigger] s.filter(p)[b],
        s.len() > 0 ==> forall|a: int| 0 <= a < s.filter(p).len() ==> #[trigger] s.filter(p)[a] <= s.last(),
    decreases s.len(),
{
    if s.len() > 0 {
        let s0 = s.drop_last();
        let x = s.last();
        assert forall|i: int, j: int| 0 <= i < j < s0.len() implies #[trigger] s0[i] < #[trigger] s0[j] by {
            assert(s[i] < s[j]);
        }
        lemma_filter_increasing(s0, p);
        lemma_filter_push(s0, x, p);
        assert(s0.push(x) =~= s);
        if s0.len() > 0 {
            assert(s0.last() < x) by {
                assert(s[s.len() - 2] < s[s.len() - 1]);
            }
        } else {
            reveal(Seq::filter);
            assert(s0.filter(p) =~= Seq::<usize>::empty());
        }
    }
}

/// Sorting a strictly increasing sequence of indices keeps elements that the
/// order does not tell apart in increasing order.
pub proof fn lemma_stable_sort_ties_increase(s: Seq<usize>, lt: spec_fn(usize, usize) -> bool)
    requires
        strict_weak_order(lt),
        forall|i: int, j: int| 0 <= i < j < s.len() ==> #[trigger] s[i] < #[trigger] s[j],
    ensures
        forall|i: int, j: int|
            0 <= i < j < stable_sort_by(s, lt).len() && tied(lt, stable_sort_by(s, lt)[i], stable_sort_by(s, lt)[j])
                ==> #[trigger] stable_sort_by(s, lt)[i] < #[trigger] stable_sort_by(s, lt)[j],
{
    let r = stable_sort_by(s, lt);
    assert forall|i: int, j: int| 0 <= i < j < r.len() && tied(lt, r[i], r[j]) implies #[trigger] r[i] < #[trigger] r[j] by {
        let p = tied_with(lt, r[i]);
        lemma_stable_sort_stable(s, lt, r[i]);
        assert(p(r[i]));
        assert(p(r[j]));
        lemma_filter_in_order(r, p, i, j);
        lemma_filter_increasing(s, p);
        let (a, b) = choose|a: int, b: int|
            0 <= a < b < r.filter(p).len() && #[trigger] r.filter(p)[a] == r[i] && #[trigger] r.filter(p)[b] == r[j];
        assert(s.filter(p)[a] < s.filter(p)[b]);
    }
}

} // verus!
