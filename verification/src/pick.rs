//! Picking the items of a sequence that meet a condition, by their places.

use vstd::prelude::*;

verus! {

/// The places of `s` whose items meet `pred`, lowest first.
pub open spec fn places<T>(s: Seq<T>, pred: spec_fn(T) -> bool) -> Seq<int>
    decreases s.len(),
{
    if s.len() == 0 {
        Seq::empty()
    } else {
        let before = places(s.drop_last(), pred);
        if pred(s.last()) {
            before.push(s.len() - 1)
        } else {
            before
        }
    }
}

/// The items of `s` at the given places.
pub open spec fn items_at<T>(s: Seq<T>, at: Seq<int>) -> Seq<T> {
    at.map_values(|i: int| s[i])
}

/// How the filter grows when one more item of `s` is looked at.
pub proof fn lemma_filter_step<T>(s: Seq<T>, pred: spec_fn(T) -> bool, i: int)
    requires
        0 <= i < s.len(),
    ensures
        s.take(i + 1).filter(pred) == if pred(s[i]) {
            s.take(i).filter(pred).push(s[i])
        } else {
            s.take(i).filter(pred)
        },
{
    reveal(Seq::filter);
    assert(s.take(i + 1).drop_last() =~= s.take(i));
}

/// The places are those of items that meet the condition, they rise, and none
/// that meets the condition is left out.
pub proof fn lemma_places<T>(s: Seq<T>, pred: spec_fn(T) -> bool)
    ensures
        places(s, pred).len() <= s.len(),
        forall|k: int|
            0 <= k < places(s, pred).len() ==> 0 <= (#[trigger] places(s, pred)[k]) < s.len()
                && pred(s[places(s, pred)[k]]),
        forall|j: int, k: int|
            0 <= j < k < places(s, pred).len() ==> (#[trigger] places(s, pred)[j]) < (
            #[trigger] places(s, pred)[k]),
        forall|i: int|
            0 <= i < s.len() && pred(#[trigger] s[i]) ==> places(s, pred).contains(i),
    decreases s.len(),
{
    if s.len() > 0 {
        let t = s.drop_last();
        let before = places(t, pred);
        lemma_places(t, pred);
        let all = places(s, pred);
        assert forall|i: int| 0 <= i < s.len() && pred(#[trigger] s[i]) implies all.contains(i) by {
            if i < t.len() {
                assert(t[i] == s[i]);
                let k = choose|k: int| 0 <= k < before.len() && before[k] == i;
                assert(all[k] == i);
            } else {
                assert(all[all.len() - 1] == i);
            }
        }
        assert forall|k: int| 0 <= k < all.len() implies 0 <= (#[trigger] all[k]) < s.len()
            && pred(s[all[k]]) by {
            if k < before.len() {
                assert(all[k] == before[k]);
                assert(t[before[k]] == s[before[k]]);
            }
        }
    }
}

/// Filtering a sequence gives its items at the places that meet the condition.
pub proof fn lemma_filter_by_places<T>(s: Seq<T>, pred: spec_fn(T) -> bool)
    ensures
        s.filter(pred) == items_at(s, places(s, pred)),
    decreases s.len(),
{
    reveal(Seq::filter);
    if s.len() > 0 {
        let t = s.drop_last();
        lemma_filter_by_places(t, pred);
        lemma_places(t, pred);
        assert(items_at(t, places(t, pred)) =~= items_at(s, places(t, pred)));
        assert(s.filter(pred) =~= items_at(s, places(s, pred)));
    } else {
        assert(s.filter(pred) =~= items_at(s, places(s, pred)));
    }
}

/// An item is in the filter of a sequence if and only if it is in the
/// sequence and meets the condition.
pub proof fn lemma_filter_contains<T>(s: Seq<T>, pred: spec_fn(T) -> bool, x: T)
    ensures
        s.filter(pred).contains(x) <==> s.contains(x) && pred(x),
{
    lemma_places(s, pred);
    lemma_filter_by_places(s, pred);
    let at = places(s, pred);
    let f = s.filter(pred);
    if f.contains(x) {
        let k = choose|k: int| 0 <= k < f.len() && f[k] == x;
        assert(f[k] == s[at[k]]);
    }
    if s.contains(x) && pred(x) {
        let i = choose|i: int| 0 <= i < s.len() && s[i] == x;
        assert(at.contains(i));
        let k = choose|k: int| 0 <= k < at.len() && at[k] == i;
        assert(f[k] == x);
    }
}

/// Two conditions that agree on every item of a sequence pick the same items.
pub proof fn lemma_filter_same<T>(s: Seq<T>, p: spec_fn(T) -> bool, q: spec_fn(T) -> bool)
    requires
        forall|i: int| 0 <= i < s.len() ==> p(#[trigger] s[i]) == q(s[i]),
    ensures
        s.filter(p) == s.filter(q),
    decreases s.len(),
{
    reveal(Seq::filter);
    if s.len() > 0 {
        let t = s.drop_last();
        assert forall|i: int| 0 <= i < t.len() implies p(#[trigger] t[i]) == q(t[i]) by {
            assert(t[i] == s[i]);
        }
        lemma_filter_same(t, p, q);
        assert(p(s[s.len() - 1]) == q(s[s.len() - 1]));
    }
}

/// One if the condition holds, zero if not.
pub open spec fn one_if(b: bool) -> int {
    if b {
        1
    } else {
        0
    }
}

/// Replacing one item changes the number of items that meet a condition by
/// what the old item counted for and what the new one counts for.
pub proof fn lemma_filter_len_update<T>(s: Seq<T>, pred: spec_fn(T) -> bool, i: int, x: T)
    requires
        0 <= i < s.len(),
    ensures
        s.update(i, x).filter(pred).len() == s.filter(pred).len() - one_if(pred(s[i])) + one_if(
            pred(x),
        ),
    decreases s.len(),
{
    reveal(Seq::filter);
    let u = s.update(i, x);
    if i == s.len() - 1 {
        assert(u.drop_last() =~= s.drop_last());
    } else {
        assert(u.drop_last() =~= s.drop_last().update(i, x));
        lemma_filter_len_update(s.drop_last(), pred, i, x);
    }
}

/// One more item adds to the number of items that meet a condition what it
/// counts for.
pub proof fn lemma_filter_len_push<T>(s: Seq<T>, pred: spec_fn(T) -> bool, x: T)
    ensures
        s.push(x).filter(pred).len() == s.filter(pred).len() + one_if(pred(x)),
{
    reveal(Seq::filter);
    assert(s.push(x).drop_last() =~= s);
}

} // verus!
