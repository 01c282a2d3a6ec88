//! Sequence scanning helpers shared by every table of the store: the first
//! row matching a predicate, filtering loops, and order-preserving insertion.

use vstd::prelude::*;
use vstd::relations::sorted_by;
use vstd::seq_lib::lemma_multiset_commutative;

verus! {

/// The first element of `s` satisfying `p`, scanning from the front.
pub open spec fn first_where<T>(s: Seq<T>, p: spec_fn(T) -> bool) -> Option<T>
    decreases s.len(),
{
    if s.len() == 0 {
        None
    } else if p(s[0]) {
        Some(s[0])
    } else {
        first_where(s.drop_first(), p)
    }
}

/// The scan stops at the first matching position.
pub proof fn lemma_first_where_at<T>(s: Seq<T>, p: spec_fn(T) -> bool, i: int)
    requires
        0 <= i < s.len(),
        p(s[i]),
        forall|k: int| 0 <= k < i ==> !p(#[trigger] s[k]),
    ensures
        first_where(s, p) == Option::Some(s[i]),
    decreases i,
{
    if i == 0 {
    } else {
        assert(!p(s[0]));
        assert(forall|k: int|
            0 <= k < i - 1 ==> !p(#[trigger] s.drop_first()[k]) && s.drop_first()[k] == s[k + 1]);
        assert(s.drop_first()[i - 1] == s[i]);
        lemma_first_where_at(s.drop_first(), p, i - 1);
    }
}

/// A sequence with nothing matching `p` has `first_where` `None`.
pub proof fn lemma_first_where_none<T>(s: Seq<T>, p: spec_fn(T) -> bool)
    requires
        forall|k: int| 0 <= k < s.len() ==> !p(#[trigger] s[k]),
    ensures
        first_where(s, p) is None,
    decreases s.len(),
{
    if s.len() > 0 {
        assert(forall|k: int|
            0 <= k < s.drop_first().len() ==> !p(#[trigger] s.drop_first()[k])) by {
            assert(forall|k: int|
                0 <= k < s.drop_first().len() ==> s.drop_first()[k] == s[k + 1]);
        }
        lemma_first_where_none(s.drop_first(), p);
    }
}

/// Extending a filtered prefix by one element.
pub proof fn lemma_filter_take_step<T>(s: Seq<T>, p: spec_fn(T) -> bool, i: int)
    requires
        0 <= i < s.len(),
    ensures
        s.take(i + 1).filter(p) == if p(s[i]) {
            s.take(i).filter(p).push(s[i])
        } else {
            s.take(i).filter(p)
        },
{
    reveal(Seq::filter);
    assert(s.take(i + 1).drop_last() =~= s.take(i));
    assert(s.take(i + 1).last() == s[i]);
}

/// Every element of a filtered sequence satisfies the predicate and
/// occurs in the original.
pub proof fn lemma_filter_membership<T>(s: Seq<T>, q: spec_fn(T) -> bool)
    ensures
        forall|i: int| 0 <= i < s.filter(q).len() ==> q(#[trigger] s.filter(q)[i]),
        forall|i: int|
            0 <= i < s.filter(q).len() ==> exists|k: int|
                0 <= k < s.len() && s[k] == #[trigger] s.filter(q)[i],
    decreases s.len(),
{
    reveal(Seq::filter);
    if s.len() > 0 {
        let dl = s.drop_last();
        lemma_filter_membership(dl, q);
        let out = s.filter(q);
        assert forall|i: int|
            0 <= i < out.len() implies q(#[trigger] out[i]) && exists|k: int|
            0 <= k < s.len() && s[k] == out[i] by {
            if i < dl.filter(q).len() {
                assert(out[i] == dl.filter(q)[i]);
                let k = choose|k: int| 0 <= k < dl.len() && dl[k] == dl.filter(q)[i];
                assert(s[k] == out[i]);
            } else {
                assert(out[i] == s.last());
                assert(s[s.len() - 1] == out[i]);
            }
        }
    }
}

/// Filtering keeps every pairwise property that held in the original,
/// in order.
pub proof fn lemma_filter_pairwise<T>(s: Seq<T>, q: spec_fn(T) -> bool, good: spec_fn(T, T) -> bool)
    requires
        forall|i: int, j: int| 0 <= i < j < s.len() ==> good(#[trigger] s[i], #[trigger] s[j]),
    ensures
        forall|i: int, j: int|
            0 <= i < j < s.filter(q).len() ==> good(
                #[trigger] s.filter(q)[i],
                #[trigger] s.filter(q)[j],
            ),
    decreases s.len(),
{
    reveal(Seq::filter);
    if s.len() > 0 {
        let dl = s.drop_last();
        assert(forall|i: int, j: int|
            0 <= i < j < dl.len() ==> good(#[trigger] dl[i], #[trigger] dl[j])) by {
            assert(forall|i: int| 0 <= i < dl.len() ==> #[trigger] dl[i] == s[i]);
        }
        lemma_filter_pairwise(dl, q, good);
        lemma_filter_membership(dl, q);
        let out = s.filter(q);
        assert forall|i: int, j: int|
            0 <= i < j < out.len() implies good(#[trigger] out[i], #[trigger] out[j]) by {
            if j < dl.filter(q).len() {
                assert(out[i] == dl.filter(q)[i] && out[j] == dl.filter(q)[j]);
            } else {
                // q(s.last()) holds and out = dl.filter(q).push(s.last())
                assert(out[j] == s.last());
                assert(out[i] == dl.filter(q)[i]);
                let k = choose|k: int| 0 <= k < dl.len() && dl[k] == dl.filter(q)[i];
                assert(s[k] == out[i]);
                assert(good(s[k], s[s.len() - 1]));
            }
        }
    }
}

/// Inserting anywhere adds exactly one occurrence to the multiset.
pub proof fn lemma_insert_to_multiset<T>(s: Seq<T>, i: int, x: T)
    requires
        0 <= i <= s.len(),
    ensures
        s.insert(i, x).to_multiset() =~= s.to_multiset().insert(x),
{
    broadcast use vstd::seq_lib::group_to_multiset_ensures;

    let a = s.subrange(0, i);
    let b = s.subrange(i, s.len() as int);
    assert(s.insert(i, x) == a.push(x) + b);
    lemma_multiset_commutative(a.push(x), b);
    lemma_multiset_commutative(a, b);
    assert(a + b =~= s);
    assert(a.push(x).to_multiset() =~= a.to_multiset().insert(x));
    assert(s.insert(i, x).to_multiset() =~= a.to_multiset().insert(x).add(b.to_multiset()));
    assert(a.to_multiset().insert(x).add(b.to_multiset()) =~= a.to_multiset().add(
        b.to_multiset(),
    ).insert(x));
}

/// Inserting between the elements below and above keeps a sequence sorted.
pub proof fn lemma_sorted_insert<T>(s: Seq<T>, i: int, x: T, leq: spec_fn(T, T) -> bool)
    requires
        sorted_by(s, leq),
        0 <= i <= s.len(),
        forall|k: int| 0 <= k < i ==> leq(#[trigger] s[k], x),
        forall|k: int| i <= k < s.len() ==> leq(x, #[trigger] s[k]),
    ensures
        sorted_by(s.insert(i, x), leq),
{
    let t = s.insert(i, x);
    s.insert_ensures(i, x);
    assert forall|m: int, n: int| 0 <= m < n < t.len() implies leq(t[m], t[n]) by {
        if m < i && n < i {
            assert(t[m] == s[m] && t[n] == s[n]);
        } else if m < i && n == i {
            assert(t[m] == s[m] && t[n] == x);
        } else if m < i && n > i {
            assert(t[m] == s[m] && t[n] == s[n - 1]);
        } else if m == i {
            assert(t[m] == x && t[n] == s[n - 1]);
        } else {
            assert(t[m] == s[m - 1] && t[n] == s[n - 1]);
        }
    }
}

} // verus!
