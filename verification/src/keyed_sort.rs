//! Sorting by an integer key, carried out by `itertools`.
//!
//! The items themselves are never handed to the sorting routine. Each item
//! is represented by the pair of its key and its position; the pairs are
//! sorted, and the items are then laid out in the order of the sorted
//! positions. No two pairs are equal, so the order of the pairs is fixed by
//! their values alone, and it is the order of a stable sort by key.

use itertools::Itertools;
use vstd::prelude::*;
use vstd::relations::{sorted_by, total_ordering};
use vstd::seq_lib::lemma_sorted_unique;
use crate::stable_sort::{
    insert_sorted,
    lemma_insert_sorted_items,
    lemma_stable_sort_items,
    lemma_stable_sort_ordered,
    stable_sort,
    total_preorder,
};

verus! {

/// The order of pairs of integers: by the first component, then the second.
pub open spec fn pair_order() -> spec_fn((i32, usize), (i32, usize)) -> bool {
    |a: (i32, usize), b: (i32, usize)| a.0 < b.0 || (a.0 == b.0 && a.1 <= b.1)
}

/// The order of items by an integer key.
pub open spec fn key_order<T>(key: spec_fn(T) -> int) -> spec_fn(T, T) -> bool {
    |a: T, b: T| key(a) <= key(b)
}

/// The items of `s` in ascending order of their keys, items with the same
/// key in the order they have in `s`.
pub open spec fn sorted_by_key<T>(s: Seq<T>, key: spec_fn(T) -> int) -> Seq<T> {
    stable_sort(s, key_order(key))
}

/// Sorts pairs of integers with `Itertools::sorted_by_key`, the key of a
/// pair being the pair itself.
///
/// Trusted: the result holds the pairs of the input, each as often as the
/// input does, in ascending order. Tuples are ordered by their first
/// component and then by their second.
#[verifier::external_body]
fn sorted_pairs(pairs: Vec<(i32, usize)>) -> (out: Vec<(i32, usize)>)
    ensures
        sorted_by(out@, pair_order()),
        out@.to_multiset() == pairs@.to_multiset(),
{
    pairs.into_iter().sorted_by_key(|pair| (pair.0, pair.1)).collect()
}

/// The order of pairs is a total order.
pub proof fn lemma_pair_order_total()
    ensures
        total_ordering(pair_order()),
        total_preorder(pair_order()),
{
}

/// Sorts pairs of integers into ascending order.
pub fn sort_pairs(pairs: Vec<(i32, usize)>) -> (out: Vec<(i32, usize)>)
    ensures
        out@ == stable_sort(pairs@, pair_order()),
{
    let ghost input = pairs@;
    let out = sorted_pairs(pairs);
    proof {
        lemma_pair_order_total();
        lemma_stable_sort_items(input, pair_order());
        lemma_stable_sort_ordered(input, pair_order());
        lemma_sorted_unique(out@, stable_sort(input, pair_order()), pair_order());
    }
    out
}

/// Each item of `s` as the pair of its key and its position.
pub open spec fn keyed<T>(s: Seq<T>, key: spec_fn(T) -> int) -> Seq<(i32, usize)> {
    Seq::new(s.len(), |i: int| (key(s[i]) as i32, i as usize))
}

/// The items of `s` at the positions that the pairs name.
pub open spec fn picked<T>(s: Seq<T>, pairs: Seq<(i32, usize)>) -> Seq<T> {
    Seq::new(pairs.len(), |i: int| s[pairs[i].1 as int])
}

/// Every pair names a position of `s` before `bound`, with the key of the
/// item there.
pub open spec fn names_items<T>(
    s: Seq<T>,
    key: spec_fn(T) -> int,
    pairs: Seq<(i32, usize)>,
    bound: int,
) -> bool {
    forall|i: int|
        0 <= i < pairs.len() ==> {
            &&& 0 <= (#[trigger] pairs[i]).1 < bound
            &&& bound <= s.len()
            &&& pairs[i].0 == key(s[pairs[i].1 as int])
        }
}

/// Inserting the pair of a new last item among the pairs of earlier items
/// puts it where the item itself would go among those items.
proof fn lemma_insert_pair<T>(
    s: Seq<T>,
    key: spec_fn(T) -> int,
    pairs: Seq<(i32, usize)>,
    last: int,
)
    requires
        0 <= last < s.len(),
        last <= usize::MAX,
        i32::MIN <= key(s[last]) <= i32::MAX,
        names_items(s, key, pairs, last),
    ensures
        picked(s, insert_sorted(pairs, (key(s[last]) as i32, last as usize), pair_order()))
            == insert_sorted(picked(s, pairs), s[last], key_order(key)),
        names_items(
            s,
            key,
            insert_sorted(pairs, (key(s[last]) as i32, last as usize), pair_order()),
            last + 1,
        ),
    decreases pairs.len(),
{
    let new_pair = (key(s[last]) as i32, last as usize);
    // The pair goes behind `pairs.last()` exactly when the item goes behind
    // the item that `pairs.last()` names: the new position is the largest.
    if pairs.len() > 0 && !pair_order()(pairs.last(), new_pair) {
        let front = pairs.drop_last();
        lemma_insert_pair(s, key, front, last);
        lemma_insert_sorted_items(front, new_pair, pair_order());
        assert(picked(s, front) =~= picked(s, pairs).drop_last());
    }
}

/// Sorting the pairs of the items of `s` arranges their positions as a
/// stable sort by key arranges the items.
pub proof fn lemma_sorted_pairs_pick_sorted_items<T>(s: Seq<T>, key: spec_fn(T) -> int)
    requires
        s.len() <= usize::MAX,
        forall|i: int| 0 <= i < s.len() ==> i32::MIN <= #[trigger] key(s[i]) <= i32::MAX,
    ensures
        picked(s, stable_sort(keyed(s, key), pair_order())) == sorted_by_key(s, key),
        names_items(s, key, stable_sort(keyed(s, key), pair_order()), s.len() as int),
    decreases s.len(),
{
    if s.len() > 0 {
        let front = s.drop_last();
        lemma_sorted_pairs_pick_sorted_items(front, key);
        let pairs = stable_sort(keyed(front, key), pair_order());
        assert(keyed(s, key).drop_last() =~= keyed(front, key));
        assert(picked(s, pairs) =~= picked(front, pairs));
        lemma_insert_pair(s, key, pairs, s.len() - 1);
    }
}

/// Arranges `items` in ascending order of `keys`, where `keys[i]` is the
/// key of `items[i]`; items with the same key keep their order.
pub(crate) fn sort_with_keys<T: Copy>(
    items: &Vec<T>,
    keys: &Vec<i32>,
    Ghost(key): Ghost<spec_fn(T) -> int>,
) -> (out: Vec<T>)
    requires
        keys@.len() == items@.len(),
        forall|i: int| 0 <= i < items@.len() ==> #[trigger] keys@[i] == key(items@[i]),
    ensures
        out@ == sorted_by_key(items@, key),
{
    let n: usize = items.len();
    let mut pairs: Vec<(i32, usize)> = Vec::new();
    let mut i: usize = 0;
    while i < n
        invariant
            n == items@.len(),
            n == keys@.len(),
            i <= n,
            pairs@.len() == i,
            forall|j: int| 0 <= j < i ==> #[trigger] pairs@[j] == (keys@[j], j as usize),
        decreases n - i,
    {
        pairs.push((keys[i], i));
        i = i + 1;
    }
    proof {
        assert(pairs@ =~= keyed(items@, key));
        assert forall|j: int| 0 <= j < items@.len() implies i32::MIN <= #[trigger] key(items@[j])
            <= i32::MAX by {
            assert(keys@[j] == key(items@[j]));
        }
        lemma_sorted_pairs_pick_sorted_items(items@, key);
    }
    let sorted = sort_pairs(pairs);
    proof {
        lemma_stable_sort_items(keyed(items@, key), pair_order());
    }
    let mut out: Vec<T> = Vec::new();
    let mut k: usize = 0;
    while k < n
        invariant
            n == items@.len(),
            sorted@.len() == n,
            k <= n,
            names_items(items@, key, sorted@, n as int),
            out@.len() == k,
            forall|j: int| 0 <= j < k ==> #[trigger] out@[j] == items@[sorted@[j].1 as int],
        decreases n - k,
    {
        let place: usize = sorted[k].1;
        out.push(items[place]);
        k = k + 1;
    }
    out
}

} // verus!
