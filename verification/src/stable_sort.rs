//! Stable sorting as a mathematical function on sequences.
//!
//! `stable_sort(s, le)` is the arrangement of `s` in ascending order of `le`
//! in which items that `le` does not tell apart keep the order they had in
//! `s`. The lemmas below state what makes it a sort: the result is ordered,
//! it holds the same items, and a sequence that is ordered already is left
//! as it is.

use vstd::prelude::*;
use vstd::relations::sorted_by;

verus! {

/// `le` compares any two values, and is transitive.
pub open spec fn total_preorder<T>(le: spec_fn(T, T) -> bool) -> bool {
    &&& forall|a: T, b: T| #[trigger] le(a, b) || #[trigger] le(b, a)
    &&& forall|a: T, b: T, c: T| #[trigger] le(a, b) && #[trigger] le(b, c) ==> le(a, c)
}

/// `s` with `x` put behind the last item that is not above `x`.
pub open spec fn insert_sorted<T>(s: Seq<T>, x: T, le: spec_fn(T, T) -> bool) -> Seq<T>
    decreases s.len(),
{
    if s.len() == 0 {
        seq![x]
    } else if le(s.last(), x) {
        s.push(x)
    } else {
        insert_sorted(s.drop_last(), x, le).push(s.last())
    }
}

/// The items of `s` in ascending order of `le`, items that `le` does not
/// tell apart in the order they have in `s`.
pub open spec fn stable_sort<T>(s: Seq<T>, le: spec_fn(T, T) -> bool) -> Seq<T>
    decreases s.len(),
{
    if s.len() == 0 {
        Seq::empty()
    } else {
        insert_sorted(stable_sort(s.drop_last(), le), s.last(), le)
    }
}

/// Inserting adds exactly one item, `x`.
pub proof fn lemma_insert_sorted_items<T>(s: Seq<T>, x: T, le: spec_fn(T, T) -> bool)
    ensures
        insert_sorted(s, x, le).len() == s.len() + 1,
        insert_sorted(s, x, le).to_multiset() == s.to_multiset().insert(x),
    decreases s.len(),
{
    broadcast use vstd::seq_lib::group_to_multiset_ensures;

    if s.len() > 0 && !le(s.last(), x) {
        let front = s.drop_last();
        lemma_insert_sorted_items(front, x, le);
        assert(s =~= front.push(s.last()));
    }
}

/// Where `pos` is the place behind the last item of `s` that is not above
/// `x`, inserting puts `x` at `pos`.
pub proof fn lemma_insert_sorted_at<T>(s: Seq<T>, x: T, le: spec_fn(T, T) -> bool, pos: int)
    requires
        0 <= pos <= s.len(),
        pos > 0 ==> le(s[pos - 1], x),
        forall|j: int| pos <= j < s.len() ==> !le(#[trigger] s[j], x),
    ensures
        insert_sorted(s, x, le) == s.insert(pos, x),
    decreases s.len(),
{
    if pos < s.len() {
        lemma_insert_sorted_at(s.drop_last(), x, le, pos);
    }
}

/// Inserting into an ordered sequence leaves it ordered.
pub proof fn lemma_insert_sorted_ordered<T>(s: Seq<T>, x: T, le: spec_fn(T, T) -> bool)
    requires
        total_preorder(le),
        sorted_by(s, le),
    ensures
        sorted_by(insert_sorted(s, x, le), le),
{
    let pos = lemma_insert_sorted_place(s, x, le);
    let out = s.insert(pos, x);
    assert forall|i: int, j: int| 0 <= i < j < out.len() implies le(out[i], out[j]) by {
        if i == pos {
            // Everything behind `x` is above `x`.
            assert(!le(s[j - 1], x));
        } else if j == pos {
            // Everything before `x` is at most the item just before `x`.
            if i < pos - 1 {
                assert(le(s[i], s[pos - 1]));
            }
        } else {
            let a = if i < pos {
                i
            } else {
                i - 1
            };
            let b = if j < pos {
                j
            } else {
                j - 1
            };
            assert(le(s[a], s[b]));
        }
    }
}

/// Inserting puts `x` at some place of `s` and moves nothing else. The
/// item before that place is not above `x`, and every item behind it is.
pub proof fn lemma_insert_sorted_place<T>(s: Seq<T>, x: T, le: spec_fn(T, T) -> bool) -> (pos:
    int)
    ensures
        0 <= pos <= s.len(),
        insert_sorted(s, x, le) == s.insert(pos, x),
        pos > 0 ==> le(s[pos - 1], x),
        forall|k: int| pos <= k < s.len() ==> !le(#[trigger] s[k], x),
    decreases s.len(),
{
    if s.len() == 0 {
        0
    } else if le(s.last(), x) {
        s.len() as int
    } else {
        let pos = lemma_insert_sorted_place(s.drop_last(), x, le);
        assert forall|k: int| pos <= k < s.len() implies !le(#[trigger] s[k], x) by {
            if k < s.len() - 1 {
                assert(s[k] == s.drop_last()[k]);
            }
        }
        pos
    }
}

/// `from` names, for each place of a rearranged sequence, a place of `s`,
/// no place twice, and the item there is the item at that place of `s`.
pub open spec fn rearranges<T>(from: Seq<int>, out: Seq<T>, s: Seq<T>) -> bool {
    &&& from.len() == s.len()
    &&& out.len() == s.len()
    &&& forall|i: int| 0 <= i < from.len() ==> 0 <= #[trigger] from[i] < s.len()
    &&& forall|i: int, j: int|
        0 <= i < from.len() && 0 <= j < from.len() && i != j ==> #[trigger] from[i]
            != #[trigger] from[j]
    &&& forall|i: int| 0 <= i < out.len() ==> #[trigger] out[i] == s[from[i]]
}

/// Of two items of `out` that stand against the order `le`, the first
/// comes from an earlier place.
pub open spec fn keeps_ties<T>(from: Seq<int>, out: Seq<T>, le: spec_fn(T, T) -> bool) -> bool {
    forall|i: int, j: int|
        0 <= i < j < out.len() && le(out[j], out[i]) ==> #[trigger] from[i] < #[trigger] from[j]
}

/// Sorting rearranges, and it is stable: each item of the result comes
/// from a place of its own in the input, and items that the result does not
/// put into ascending order stand as they stood in the input.
pub proof fn lemma_stable_sort_rearranges<T>(s: Seq<T>, le: spec_fn(T, T) -> bool) -> (from: Seq<
    int,
>)
    ensures
        rearranges(from, stable_sort(s, le), s),
        keeps_ties(from, stable_sort(s, le), le),
    decreases s.len(),
{
    if s.len() == 0 {
        Seq::empty()
    } else {
        let front = s.drop_last();
        let inner_from = lemma_stable_sort_rearranges(front, le);
        let inner = stable_sort(front, le);
        let pos = lemma_insert_sorted_place(inner, s.last(), le);
        inner_from.insert(pos, s.len() - 1)
    }
}

/// The result of sorting holds the items of the input, each as often.
pub proof fn lemma_stable_sort_items<T>(s: Seq<T>, le: spec_fn(T, T) -> bool)
    ensures
        stable_sort(s, le).len() == s.len(),
        stable_sort(s, le).to_multiset() == s.to_multiset(),
    decreases s.len(),
{
    broadcast use vstd::seq_lib::group_to_multiset_ensures;

    if s.len() > 0 {
        lemma_stable_sort_items(s.drop_last(), le);
        lemma_insert_sorted_items(stable_sort(s.drop_last(), le), s.last(), le);
        assert(s =~= s.drop_last().push(s.last()));
    }
}

/// The result of sorting is in ascending order.
pub proof fn lemma_stable_sort_ordered<T>(s: Seq<T>, le: spec_fn(T, T) -> bool)
    requires
        total_preorder(le),
    ensures
        sorted_by(stable_sort(s, le), le),
    decreases s.len(),
{
    if s.len() > 0 {
        lemma_stable_sort_ordered(s.drop_last(), le);
        lemma_insert_sorted_ordered(stable_sort(s.drop_last(), le), s.last(), le);
    }
}

/// Sorting leaves an ordered sequence as it is.
pub proof fn lemma_stable_sort_fixes_ordered<T>(s: Seq<T>, le: spec_fn(T, T) -> bool)
    requires
        sorted_by(s, le),
    ensures
        stable_sort(s, le) == s,
    decreases s.len(),
{
    if s.len() > 0 {
        lemma_stable_sort_fixes_ordered(s.drop_last(), le);
    }
}

/// Sorting twice is sorting once.
pub proof fn lemma_stable_sort_idempotent<T>(s: Seq<T>, le: spec_fn(T, T) -> bool)
    requires
        total_preorder(le),
    ensures
        stable_sort(stable_sort(s, le), le) == stable_sort(s, le),
{
    lemma_stable_sort_ordered(s, le);
    lemma_stable_sort_fixes_ordered(stable_sort(s, le), le);
}

} // verus!
