//! Arranging items by a text key, lowest or highest first, so that items with
//! equal keys keep the order in which they were given.

use crate::text::{lemma_text_lt_asymmetric, lemma_text_lt_transitive, text_before, text_lt};
use vstd::prelude::*;

verus! {

/// Whether the item at place `i` must stand before the item at place `j`: its
/// key is the higher one where the highest comes first, the lower one where
/// the lowest does.
pub open spec fn goes_before(keys: Seq<Seq<char>>, i: usize, j: usize, descending: bool) -> bool {
    if descending {
        text_lt(keys[j as int], keys[i as int])
    } else {
        text_lt(keys[i as int], keys[j as int])
    }
}

/// Where place `i` is put into `order`: before the first place that it must
/// stand before, or at the end.
pub open spec fn slot(order: Seq<usize>, keys: Seq<Seq<char>>, i: usize, descending: bool) -> int
    decreases order.len(),
{
    if order.len() == 0 || goes_before(keys, i, order[0], descending) {
        0
    } else {
        1 + slot(order.drop_first(), keys, i, descending)
    }
}

/// The places `0` to `n - 1` in the order of their keys. Each place is put in
/// turn into the arrangement of the places before it, behind every place whose
/// key is equal to its own.
pub open spec fn arrangement(keys: Seq<Seq<char>>, n: nat, descending: bool) -> Seq<usize>
    decreases n,
{
    if n == 0 {
        Seq::empty()
    } else {
        let before = arrangement(keys, (n - 1) as nat, descending);
        before.insert(slot(before, keys, (n - 1) as usize, descending), (n - 1) as usize)
    }
}

/// The items in the order of their keys.
pub open spec fn arranged<T>(items: Seq<T>, keys: Seq<Seq<char>>, descending: bool) -> Seq<T> {
    arrangement(keys, keys.len(), descending).map_values(|i: usize| items[i as int])
}

/// The slot lies within the order or just behind it.
pub proof fn lemma_slot_bounds(order: Seq<usize>, keys: Seq<Seq<char>>, i: usize, descending: bool)
    ensures
        0 <= slot(order, keys, i, descending) <= order.len(),
    decreases order.len(),
{
    if order.len() != 0 && !goes_before(keys, i, order[0], descending) {
        lemma_slot_bounds(order.drop_first(), keys, i, descending);
    }
}

/// The slot is the first place of the order that `i` must stand before.
pub proof fn lemma_slot_is(
    order: Seq<usize>,
    keys: Seq<Seq<char>>,
    i: usize,
    descending: bool,
    p: int,
)
    requires
        0 <= p <= order.len(),
        forall|q: int| 0 <= q < p ==> !goes_before(keys, i, #[trigger] order[q], descending),
        p < order.len() ==> goes_before(keys, i, order[p], descending),
    ensures
        slot(order, keys, i, descending) == p,
    decreases order.len(),
{
    if p > 0 {
        assert(!goes_before(keys, i, order[0], descending));
        let rest = order.drop_first();
        assert forall|q: int| 0 <= q < p - 1 implies !goes_before(
            keys,
            i,
            #[trigger] rest[q],
            descending,
        ) by {
            assert(rest[q] == order[q + 1]);
        }
        lemma_slot_is(rest, keys, i, descending, p - 1);
    }
}

/// Nothing in the order below the slot has to stand behind `i`, and what
/// stands at the slot does.
pub proof fn lemma_slot_found(order: Seq<usize>, keys: Seq<Seq<char>>, i: usize, descending: bool)
    ensures
        0 <= slot(order, keys, i, descending) <= order.len(),
        forall|q: int|
            0 <= q < slot(order, keys, i, descending) ==> !goes_before(
                keys,
                i,
                #[trigger] order[q],
                descending,
            ),
        slot(order, keys, i, descending) < order.len() ==> goes_before(
            keys,
            i,
            order[slot(order, keys, i, descending)],
            descending,
        ),
    decreases order.len(),
{
    if order.len() != 0 && !goes_before(keys, i, order[0], descending) {
        let rest = order.drop_first();
        lemma_slot_found(rest, keys, i, descending);
        let p = slot(order, keys, i, descending);
        assert forall|q: int| 0 <= q < p implies !goes_before(
            keys,
            i,
            #[trigger] order[q],
            descending,
        ) by {
            if q > 0 {
                assert(order[q] == rest[q - 1]);
            }
        }
        if p < order.len() {
            assert(order[p] == rest[p - 1]);
        }
    }
}

/// Whether no place of `order` stands behind a place that it must stand
/// before.
pub open spec fn in_order(order: Seq<usize>, keys: Seq<Seq<char>>, descending: bool) -> bool {
    forall|j: int, k: int|
        0 <= j < k < order.len() ==> !goes_before(
            keys,
            #[trigger] order[k],
            #[trigger] order[j],
            descending,
        )
}

/// Whether places with equal keys stand in `order` as they were given: the
/// lower place first.
pub open spec fn keeps_ties(order: Seq<usize>, keys: Seq<Seq<char>>) -> bool {
    forall|j: int, k: int|
        0 <= j < k < order.len() && keys[(#[trigger] order[j]) as int] == keys[(
        #[trigger] order[k]) as int] ==> order[j] < order[k]
}

/// An arrangement is sorted: along it the keys never rise where the highest
/// comes first, and never fall where the lowest does. It holds every place
/// once, and places with equal keys stay as they were given.
pub proof fn lemma_arrangement_sorted(keys: Seq<Seq<char>>, n: nat, descending: bool)
    requires
        n <= keys.len(),
        n <= usize::MAX,
    ensures
        arrangement(keys, n, descending).len() == n,
        in_order(arrangement(keys, n, descending), keys, descending),
        keeps_ties(arrangement(keys, n, descending), keys),
        arrangement(keys, n, descending).no_duplicates(),
        forall|i: usize| i < n ==> #[trigger] arrangement(keys, n, descending).contains(i),
        forall|k: int| 0 <= k < n ==> (#[trigger] arrangement(keys, n, descending)[k]) < n,
    decreases n,
{
    lemma_arrangement_bounds(keys, n, descending);
    if n > 0 {
        let before = arrangement(keys, (n - 1) as nat, descending);
        let x = (n - 1) as usize;
        let p = slot(before, keys, x, descending);
        let after = arrangement(keys, n, descending);
        lemma_arrangement_sorted(keys, (n - 1) as nat, descending);
        lemma_slot_found(before, keys, x, descending);
        assert(after == before.insert(p, x));
        assert forall|k: int| 0 <= k < after.len() implies #[trigger] after[k] == (if k < p {
            before[k]
        } else if k == p {
            x
        } else {
            before[k - 1]
        }) by {}
        assert forall|j: int, k: int| 0 <= j < k < after.len() implies !goes_before(
            keys,
            #[trigger] after[k],
            #[trigger] after[j],
            descending,
        ) by {
            if k == p {
                assert(after[j] == before[j]);
            } else if j == p {
                let y = before[k - 1];
                let z = before[p];
                if goes_before(keys, y, x, descending) {
                    if descending {
                        lemma_text_lt_transitive(keys[z as int], keys[x as int], keys[y as int]);
                    } else {
                        lemma_text_lt_transitive(keys[y as int], keys[x as int], keys[z as int]);
                    }
                    if k - 1 == p {
                        lemma_text_lt_asymmetric(keys[x as int], keys[y as int]);
                    } else {
                        assert(!goes_before(keys, before[k - 1], before[p], descending));
                    }
                }
            } else {
                let jj = if j < p { j } else { j - 1 };
                let kk = if k < p { k } else { k - 1 };
                assert(after[j] == before[jj]);
                assert(after[k] == before[kk]);
                assert(!goes_before(keys, before[kk], before[jj], descending));
            }
        }
        assert forall|j: int, k: int|
            0 <= j < k < after.len() && keys[(#[trigger] after[j]) as int] == keys[(
            #[trigger] after[k]) as int] implies after[j] < after[k] by {
            if k == p {
                assert(after[j] == before[j]);
            } else if j == p {
                let y = before[k - 1];
                let z = before[p];
                assert(goes_before(keys, x, z, descending));
                if k - 1 == p {
                    lemma_text_lt_asymmetric(keys[x as int], keys[x as int]);
                } else {
                    assert(!goes_before(keys, before[k - 1], before[p], descending));
                }
            } else {
                let jj = if j < p { j } else { j - 1 };
                let kk = if k < p { k } else { k - 1 };
                assert(after[j] == before[jj]);
                assert(after[k] == before[kk]);
            }
        }
        assert forall|j: int, k: int|
            0 <= j < after.len() && 0 <= k < after.len() && j != k implies after[j] != after[k] by {
            let jj = if j < p { j } else { j - 1 };
            let kk = if k < p { k } else { k - 1 };
            if j != p && k != p {
                assert(after[j] == before[jj]);
                assert(after[k] == before[kk]);
                assert(before[jj] != before[kk]);
            } else if j == p {
                assert(after[k] == before[kk]);
                assert(before[kk] < n - 1);
            } else {
                assert(after[j] == before[jj]);
                assert(before[jj] < n - 1);
            }
        }
        assert forall|i: usize| i < n implies #[trigger] after.contains(i) by {
            if i == n - 1 {
                assert(after[p] == x);
            } else {
                assert(before.contains(i));
                let q = choose|q: int| 0 <= q < before.len() && before[q] == i;
                if q < p {
                    assert(after[q] == before[q]);
                } else {
                    assert(after[q + 1] == before[q]);
                }
            }
        }
    }
}

/// Arranging items changes their order only: as many come out as went in,
/// and an item comes out if and only if it went in.
pub proof fn lemma_arranged_same_items<T>(items: Seq<T>, keys: Seq<Seq<char>>, descending: bool)
    requires
        keys.len() == items.len(),
        items.len() <= usize::MAX,
    ensures
        arranged(items, keys, descending).len() == items.len(),
        forall|x: T|
            #[trigger] arranged(items, keys, descending).contains(x) <==> items.contains(x),
{
    let order = arrangement(keys, keys.len(), descending);
    let out = arranged(items, keys, descending);
    lemma_arrangement_sorted(keys, keys.len(), descending);
    assert forall|x: T| #[trigger] out.contains(x) <==> items.contains(x) by {
        if out.contains(x) {
            let k = choose|k: int| 0 <= k < out.len() && out[k] == x;
            assert(items[order[k] as int] == x);
        }
        if items.contains(x) {
            let i = choose|i: int| 0 <= i < items.len() && items[i] == x;
            assert(order.contains(i as usize));
            let k = choose|k: int| 0 <= k < order.len() && order[k] == i as usize;
            assert(out[k] == x);
        }
    }
}

/// Every arrangement of `n` places has `n` entries, each below `n`.
pub proof fn lemma_arrangement_bounds(keys: Seq<Seq<char>>, n: nat, descending: bool)
    ensures
        arrangement(keys, n, descending).len() == n,
        forall|k: int| 0 <= k < n ==> (#[trigger] arrangement(keys, n, descending)[k]) < n,
    decreases n,
{
    if n > 0 {
        let before = arrangement(keys, (n - 1) as nat, descending);
        lemma_arrangement_bounds(keys, (n - 1) as nat, descending);
        lemma_slot_bounds(before, keys, (n - 1) as usize, descending);
    }
}

/// Computes the arrangement of all the keys.
pub fn arrange(keys: &Vec<Vec<char>>, descending: bool) -> (order: Vec<usize>)
    ensures
        order@ == arrangement(keys.deep_view(), keys.len() as nat, descending),
        order.len() == keys.len(),
        forall|k: int| 0 <= k < order.len() ==> (#[trigger] order@[k]) < keys.len(),
{
    let ghost ks = keys.deep_view();
    let mut order: Vec<usize> = Vec::new();
    let mut n: usize = 0;
    while n < keys.len()
        invariant
            n <= keys.len(),
            ks == keys.deep_view(),
            order@ == arrangement(ks, n as nat, descending),
            order.len() == n,
            forall|k: int| 0 <= k < order.len() ==> (#[trigger] order@[k]) < n,
        decreases keys.len() - n,
    {
        let mut p: usize = 0;
        while p < order.len() && !stands_before(keys, n, order[p], descending)
            invariant
                p <= order.len(),
                n < keys.len(),
                ks == keys.deep_view(),
                forall|k: int| 0 <= k < order.len() ==> (#[trigger] order@[k]) < n,
                forall|q: int| 0 <= q < p ==> !goes_before(ks, n, #[trigger] order@[q], descending),
            decreases order.len() - p,
        {
            p += 1;
        }
        proof {
            lemma_slot_is(order@, ks, n, descending, p as int);
        }
        order.insert(p, n);
        n += 1;
    }
    proof {
        lemma_arrangement_bounds(ks, keys.len() as nat, descending);
    }
    order
}

/// Decides `goes_before` for two places of `keys`.
fn stands_before(keys: &Vec<Vec<char>>, i: usize, j: usize, descending: bool) -> (r: bool)
    requires
        i < keys.len(),
        j < keys.len(),
    ensures
        r == goes_before(keys.deep_view(), i, j, descending),
{
    assert(keys.deep_view()[i as int] == keys@[i as int]@);
    assert(keys.deep_view()[j as int] == keys@[j as int]@);
    if descending {
        text_before(&keys[j], &keys[i])
    } else {
        text_before(&keys[i], &keys[j])
    }
}

} // verus!
