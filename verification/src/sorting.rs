//! Stable sorting, stated once for every order that the library sorts by.

use vstd::prelude::*;
use vstd::seq_lib::to_multiset_insert;

verus! {

/// Where a stable insertion puts `x` into `s`: behind the last item that is
/// not after `x`, so behind every item that `x` ties with.
pub open spec fn insert_pos<T>(s: Seq<T>, x: T, leq: spec_fn(T, T) -> bool) -> nat
    decreases s.len(),
{
    if s.len() > 0 && !leq(s.last(), x) {
        insert_pos(s.drop_last(), x, leq)
    } else {
        s.len()
    }
}

/// `s` in the order that `leq` gives, items that tie in the order in which
/// `s` holds them.
pub open spec fn sort_by<T>(s: Seq<T>, leq: spec_fn(T, T) -> bool) -> Seq<T>
    decreases s.len(),
{
    if s.len() == 0 {
        Seq::empty()
    } else {
        let front = sort_by(s.drop_last(), leq);
        front.insert(insert_pos(front, s.last(), leq) as int, s.last())
    }
}

/// `leq` compares any two items, and consistently.
pub open spec fn total_preorder<T>(leq: spec_fn(T, T) -> bool) -> bool {
    &&& forall|a: T, b: T| #[trigger] leq(a, b) || leq(b, a)
    &&& forall|a: T, b: T, c: T| #[trigger] leq(a, b) && #[trigger] leq(b, c) ==> leq(a, c)
}

/// No item of `s` stands before one that `leq` puts before it.
pub open spec fn sorted_by<T>(s: Seq<T>, leq: spec_fn(T, T) -> bool) -> bool {
    forall|i: int, j: int| 0 <= i <= j < s.len() ==> leq(#[trigger] s[i], #[trigger] s[j])
}

/// The insertion position lies behind every item that is not after `x` and
/// before every item that is.
pub proof fn lemma_insert_pos<T>(s: Seq<T>, x: T, leq: spec_fn(T, T) -> bool)
    ensures
        insert_pos(s, x, leq) <= s.len(),
        forall|j: int| insert_pos(s, x, leq) <= j < s.len() ==> !leq(#[trigger] s[j], x),
        insert_pos(s, x, leq) > 0 ==> leq(s[insert_pos(s, x, leq) - 1], x),
    decreases s.len(),
{
    if s.len() > 0 && !leq(s.last(), x) {
        let front = s.drop_last();
        lemma_insert_pos(front, x, leq);
        assert forall|j: int| insert_pos(s, x, leq) <= j < s.len() implies !leq(
            #[trigger] s[j],
            x,
        ) by {
            if j < front.len() {
                assert(front[j] == s[j]);
            }
        }
    }
}

/// The position is the same when only the items up to `k` are looked at, as
/// long as every item from `k` on is after `x`.
pub proof fn lemma_insert_pos_take<T>(s: Seq<T>, x: T, leq: spec_fn(T, T) -> bool, k: int)
    requires
        0 <= k <= s.len(),
        forall|j: int| k <= j < s.len() ==> !leq(#[trigger] s[j], x),
    ensures
        insert_pos(s, x, leq) == insert_pos(s.take(k), x, leq),
    decreases s.len() - k,
{
    if k == s.len() {
        assert(s.take(k) =~= s);
    } else {
        assert(!leq(s[s.len() - 1], x));
        let front = s.drop_last();
        assert forall|j: int| k <= j < front.len() implies !leq(#[trigger] front[j], x) by {
            assert(front[j] == s[j]);
        }
        lemma_insert_pos_take(front, x, leq, k);
        assert(front.take(k) =~= s.take(k));
    }
}

/// Sorting keeps every item, as often as it occurred; and for an order that
/// compares any two items consistently, the result is in order.
pub proof fn lemma_sort_by<T>(s: Seq<T>, leq: spec_fn(T, T) -> bool)
    ensures
        sort_by(s, leq).len() == s.len(),
        sort_by(s, leq).to_multiset() == s.to_multiset(),
        total_preorder(leq) ==> sorted_by(sort_by(s, leq), leq),
    decreases s.len(),
{
    if s.len() == 0 {
        assert(s =~= Seq::<T>::empty());
    } else {
        let rest = s.drop_last();
        let x = s.last();
        lemma_sort_by(rest, leq);
        let front = sort_by(rest, leq);
        lemma_insert_pos(front, x, leq);
        let k = insert_pos(front, x, leq) as int;
        let all = front.insert(k, x);
        to_multiset_insert(front, k, x);
        assert(s =~= rest.push(x));
        vstd::seq_lib::to_multiset_build(rest, x);
        if total_preorder(leq) {
            assert forall|i: int, j: int| 0 <= i <= j < all.len() implies leq(
                #[trigger] all[i],
                #[trigger] all[j],
            ) by {
                if j < k {
                    assert(all[i] == front[i] && all[j] == front[j]);
                } else if j == k {
                    if i < k {
                        assert(all[i] == front[i]);
                        assert(leq(front[i], front[k - 1]));
                        assert(leq(front[k - 1], x));
                    } else {
                        assert(leq(x, x));
                    }
                } else {
                    assert(all[j] == front[j - 1]);
                    if i < k {
                        assert(all[i] == front[i]);
                    } else if i == k {
                        assert(!leq(front[j - 1], x));
                        assert(leq(x, front[j - 1]));
                    } else {
                        assert(all[i] == front[i - 1]);
                    }
                }
            }
        }
    }
}

} // verus!
