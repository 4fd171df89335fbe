//! Sequences of values and sequences of their views.

use vstd::prelude::*;

verus! {

/// The views of the elements of a sequence.
pub open spec fn views<T: View>(s: Seq<T>) -> Seq<T::V> {
    Seq::new(s.len(), |i: int| s[i]@)
}

/// The view of what an option holds.
pub open spec fn view_opt<T: View>(o: Option<T>) -> Option<T::V> {
    match o {
        Some(v) => Some(v@),
        None => None,
    }
}

pub proof fn lemma_views_push<T: View>(s: Seq<T>, v: T)
    ensures
        views(s.push(v)) == views(s).push(v@),
{
    assert(views(s.push(v)) =~= views(s).push(v@));
}

/// What a filter keeps of one more element.
pub proof fn lemma_filter_next<A>(s: Seq<A>, i: int, keep: spec_fn(A) -> bool)
    requires
        0 <= i < s.len(),
    ensures
        s.take(i + 1).filter(keep) == (if keep(s[i]) {
            s.take(i).filter(keep).push(s[i])
        } else {
            s.take(i).filter(keep)
        }),
{
    reveal(Seq::filter);
    assert(s.take(i + 1).drop_last() =~= s.take(i));
}

/// What a filter keeps of nothing, and of everything.
pub proof fn lemma_filter_ends<A>(s: Seq<A>, keep: spec_fn(A) -> bool)
    ensures
        s.take(0).filter(keep) == Seq::<A>::empty(),
        s.take(s.len() as int).filter(keep) == s.filter(keep),
{
    reveal(Seq::filter);
    assert(s.take(0) =~= Seq::<A>::empty());
    assert(s.take(s.len() as int) =~= s);
}

/// What a filter keeps comes from the sequence.
pub proof fn lemma_filter_from<A>(s: Seq<A>, keep: spec_fn(A) -> bool, k: int) -> (from: int)
    requires
        0 <= k < s.filter(keep).len(),
    ensures
        0 <= from < s.len(),
        s[from] == s.filter(keep)[k],
        keep(s[from]),
{
    let v = s.filter(keep)[k];
    s.lemma_filter_pred(keep, k);
    assert(s.filter(keep).contains(v));
    s.lemma_filter_contains_rev(keep, v);
    choose|i: int| 0 <= i < s.len() && s[i] == v
}

/// A filter and its opposite share a sequence out among them.
pub proof fn lemma_filter_split<A>(
    s: Seq<A>,
    keep: spec_fn(A) -> bool,
    drop: spec_fn(A) -> bool,
)
    requires
        forall|v: A| #[trigger] drop(v) == !keep(v),
    ensures
        s.filter(keep).to_multiset().add(s.filter(drop).to_multiset()) == s.to_multiset(),
    decreases s.len(),
{
    broadcast use vstd::seq_lib::group_to_multiset_ensures;

    reveal(Seq::filter);
    if s.len() > 0 {
        let before = s.drop_last();
        lemma_filter_split(before, keep, drop);
        assert(before.push(s.last()) =~= s);
        let kept = before.filter(keep).to_multiset();
        let dropped = before.filter(drop).to_multiset();
        assert(s.to_multiset() =~= before.to_multiset().insert(s.last()));
        if keep(s.last()) {
            assert(kept.insert(s.last()).add(dropped) =~= kept.add(dropped).insert(s.last()));
        } else {
            assert(drop(s.last()));
            assert(kept.add(dropped.insert(s.last())) =~= kept.add(dropped).insert(s.last()));
        }
    } else {
        assert(s.filter(keep) =~= s);
        assert(s.filter(drop) =~= s);
        assert(s.to_multiset().add(s.to_multiset()) =~= s.to_multiset());
    }
}

/// Where an element belongs in a sequence ordered by key: behind all whose key is not larger,
/// as far as they come before the first whose key is.
pub open spec fn place_for<A>(s: Seq<A>, key: spec_fn(A) -> int, k: int) -> int
    decreases s.len(),
{
    if s.len() == 0 || key(s[0]) > k {
        0
    } else {
        1 + place_for(s.drop_first(), key, k)
    }
}

/// A sequence ordered by key; elements with the same key stay in the order in which they stood.
pub open spec fn sorted_by_key<A>(s: Seq<A>, key: spec_fn(A) -> int) -> Seq<A>
    decreases s.len(),
{
    if s.len() == 0 {
        s
    } else {
        let before = sorted_by_key(s.drop_last(), key);
        before.insert(place_for(before, key, key(s.last())), s.last())
    }
}

/// Whether a sequence is ordered by key.
pub open spec fn is_ordered<A>(s: Seq<A>, key: spec_fn(A) -> int) -> bool {
    forall|i: int, j: int| 0 <= i <= j < s.len() ==> key(#[trigger] s[i]) <= key(#[trigger] s[j])
}

pub proof fn lemma_place_for<A>(s: Seq<A>, key: spec_fn(A) -> int, k: int)
    ensures
        0 <= place_for(s, key, k) <= s.len(),
        forall|i: int| 0 <= i < place_for(s, key, k) ==> key(#[trigger] s[i]) <= k,
        place_for(s, key, k) < s.len() ==> key(s[place_for(s, key, k)]) > k,
    decreases s.len(),
{
    if s.len() > 0 && key(s[0]) <= k {
        lemma_place_for(s.drop_first(), key, k);
        assert forall|i: int| 0 <= i < place_for(s, key, k) implies key(#[trigger] s[i]) <= k by {
            if i > 0 {
                assert(s[i] == s.drop_first()[i - 1]);
            }
        }
    }
}

/// Sorting by key orders the elements, and neither adds nor loses any.
pub proof fn sorting_orders_the_elements<A>(s: Seq<A>, key: spec_fn(A) -> int)
    ensures
        is_ordered(sorted_by_key(s, key), key),
        sorted_by_key(s, key).to_multiset() == s.to_multiset(),
        sorted_by_key(s, key).len() == s.len(),
    decreases s.len(),
{
    broadcast use vstd::seq_lib::group_to_multiset_ensures;

    if s.len() > 0 {
        let before = sorted_by_key(s.drop_last(), key);
        let k = key(s.last());
        let at = place_for(before, key, k);
        sorting_orders_the_elements(s.drop_last(), key);
        lemma_place_for(before, key, k);
        let after = before.insert(at, s.last());
        assert forall|i: int, j: int| 0 <= i <= j < after.len() implies key(#[trigger] after[i])
            <= key(#[trigger] after[j]) by {
            let a = if i < at {
                before[i]
            } else {
                before[i - 1]
            };
            let b = if j < at {
                before[j]
            } else {
                before[j - 1]
            };
            if at < before.len() {
                assert(key(before[at]) > k);
            }
            if i != at && j != at {
                assert(after[i] == a && after[j] == b);
            }
        }
        assert(s.drop_last().push(s.last()) =~= s);
        assert(after.to_multiset() == before.to_multiset().insert(s.last()));
    }
}

/// Whether no two elements have the same key.
pub open spec fn distinct_keys<A>(s: Seq<A>, key: spec_fn(A) -> int) -> bool {
    forall|i: int, j: int| 0 <= i < j < s.len() ==> key(#[trigger] s[i]) != key(#[trigger] s[j])
}

proof fn lemma_ordered_is_unique<A>(one: Seq<A>, other: Seq<A>, key: spec_fn(A) -> int)
    requires
        is_ordered(one, key),
        is_ordered(other, key),
        distinct_keys(one, key),
        one.to_multiset() == other.to_multiset(),
    ensures
        one == other,
    decreases one.len(),
{
    broadcast use vstd::seq_lib::group_to_multiset_ensures;

    assert(one.len() == one.to_multiset().len());
    assert(other.len() == other.to_multiset().len());
    if one.len() > 0 {
        let n = one.len() - 1;
        assert(one.contains(other[n])) by {
            assert(other.contains(other[n]));
            assert(other.to_multiset().count(other[n]) > 0);
        }
        assert(other.contains(one[n])) by {
            assert(one.contains(one[n]));
            assert(one.to_multiset().count(one[n]) > 0);
        }
        let i = choose|i: int| 0 <= i < one.len() && one[i] == other[n];
        let j = choose|j: int| 0 <= j < other.len() && other[j] == one[n];
        assert(key(other[j]) <= key(other[n]));
        assert(key(one[i]) <= key(one[n]));
        assert(i == n);
        assert(one.remove(n) =~= one.drop_last());
        assert(other.remove(n) =~= other.drop_last());
        lemma_ordered_is_unique(one.drop_last(), other.drop_last(), key);
        assert(one =~= one.drop_last().push(one[n]));
        assert(other =~= other.drop_last().push(other[n]));
    } else {
        assert(one =~= other);
    }
}

proof fn lemma_none_kept<A>(s: Seq<A>, keep: spec_fn(A) -> bool)
    requires
        forall|i: int| 0 <= i < s.len() ==> !keep(#[trigger] s[i]),
    ensures
        s.filter(keep) == Seq::<A>::empty(),
    decreases s.len(),
{
    reveal(Seq::filter);
    if s.len() > 0 {
        assert(!keep(s[s.len() - 1]));
        assert forall|i: int| 0 <= i < s.len() - 1 implies !keep(#[trigger] s.drop_last()[i]) by {
            assert(!keep(s[i]));
        }
        lemma_none_kept(s.drop_last(), keep);
    }
}

/// Elements with the same key stay in the order in which they stood.
pub proof fn sorting_keeps_the_order_of_equals<A>(s: Seq<A>, key: spec_fn(A) -> int, k: int)
    ensures
        sorted_by_key(s, key).filter(|a: A| key(a) == k) == s.filter(|a: A| key(a) == k),
    decreases s.len(),
{
    let keep = |a: A| key(a) == k;
    if s.len() > 0 {
        let before = sorted_by_key(s.drop_last(), key);
        let last = s.last();
        let at = place_for(before, key, key(last));
        let front = before.take(at);
        let back = before.skip(at);
        sorting_keeps_the_order_of_equals(s.drop_last(), key, k);
        sorting_orders_the_elements(s.drop_last(), key);
        lemma_place_for(before, key, key(last));
        assert(before =~= front + back);
        assert(before.insert(at, last) =~= front + (seq![last] + back));
        assert(s =~= s.drop_last() + seq![last]);
        Seq::filter_distributes_over_add(front, back, keep);
        Seq::filter_distributes_over_add(front, seq![last] + back, keep);
        Seq::filter_distributes_over_add(seq![last], back, keep);
        Seq::filter_distributes_over_add(s.drop_last(), seq![last], keep);
        if key(last) == k {
            assert forall|i: int| 0 <= i < back.len() implies !keep(#[trigger] back[i]) by {
                assert(key(before[at]) <= key(before[at + i]));
            }
            lemma_none_kept(back, keep);
            assert(back.filter(keep) =~= Seq::<A>::empty());
            assert(front.filter(keep) + (seq![last].filter(keep) + back.filter(keep))
                =~= (front.filter(keep) + back.filter(keep)) + seq![last].filter(keep));
        } else {
            assert forall|i: int| 0 <= i < 1 implies !keep(#[trigger] seq![last][i]) by {
            }
            lemma_none_kept(seq![last], keep);
            assert(front.filter(keep) + (seq![last].filter(keep) + back.filter(keep))
                =~= front.filter(keep) + back.filter(keep));
            assert(s.drop_last().filter(keep) + seq![last].filter(keep)
                =~= s.drop_last().filter(keep));
        }
    }
}

/// Where no two elements have the same key, sorting comes to the same whatever order they were in.
pub proof fn sorting_forgets_the_order<A>(one: Seq<A>, other: Seq<A>, key: spec_fn(A) -> int)
    requires
        one.to_multiset() == other.to_multiset(),
        distinct_keys(sorted_by_key(one, key), key),
    ensures
        sorted_by_key(one, key) == sorted_by_key(other, key),
{
    sorting_orders_the_elements(one, key);
    sorting_orders_the_elements(other, key);
    lemma_ordered_is_unique(sorted_by_key(one, key), sorted_by_key(other, key), key);
}

/// Sorting keeps elements apart whose keys differ.
pub proof fn lemma_sorting_keeps_distinct<A>(s: Seq<A>, key: spec_fn(A) -> int)
    requires
        distinct_keys(s, key),
    ensures
        distinct_keys(sorted_by_key(s, key), key),
    decreases s.len(),
{
    if s.len() > 0 {
        let before = s.drop_last();
        let sorted = sorted_by_key(before, key);
        let at = place_for(sorted, key, key(s.last()));
        let new = sorted.insert(at, s.last());
        lemma_sorting_keeps_distinct(before, key);
        lemma_place_for(sorted, key, key(s.last()));
        sorting_orders_the_elements(before, key);
        assert forall|i: int| 0 <= i < sorted.len() implies key(#[trigger] sorted[i]) != key(
            s.last(),
        ) by {
            broadcast use vstd::seq_lib::group_to_multiset_ensures;

            assert(sorted.contains(sorted[i]));
            assert(sorted.to_multiset().count(sorted[i]) > 0);
            assert(before.contains(sorted[i]));
            let j = choose|j: int| 0 <= j < before.len() && before[j] == sorted[i];
            assert(key(s[j]) != key(s[s.len() - 1]));
        }
        assert forall|i: int, j: int| 0 <= i < j < new.len() implies key(#[trigger] new[i]) != key(
            #[trigger] new[j],
        ) by {
            let a = if i < at {
                i
            } else {
                i - 1
            };
            let b = if j < at {
                j
            } else {
                j - 1
            };
            if i == at {
                assert(new[j] == sorted[b]);
            } else if j == at {
                assert(new[i] == sorted[a]);
            } else {
                assert(new[i] == sorted[a] && new[j] == sorted[b]);
            }
        }
    }
}

/// Sorts some items by their keys, as `sorted_by_key` says.
pub(crate) fn sort_with_keys<T: View>(
    items: Vec<T>,
    keys: Vec<usize>,
    Ghost(key): Ghost<spec_fn(T::V) -> int>,
) -> (sorted: Vec<T>)
    requires
        keys@.len() == items@.len(),
        forall|i: int| 0 <= i < items@.len() ==> key(#[trigger] items@[i]@) == keys@[i],
    ensures
        views(sorted@) == sorted_by_key(views(items@), key),
{
    let mut items = items;
    let ghost all = views(items@);
    let n: usize = items.len();
    let mut sorted: Vec<T> = Vec::new();
    let mut sorted_keys: Vec<usize> = Vec::new();
    let mut i: usize = 0;
    proof {
        assert(views(sorted@) =~= sorted_by_key(all.take(0), key));
        assert(views(items@) =~= all.skip(0));
    }
    while i < n
        invariant
            i <= n == all.len() == keys@.len(),
            items@.len() == n - i,
            views(items@) == all.skip(i as int),
            forall|j: int| 0 <= j < n ==> key(#[trigger] all[j]) == keys@[j],
            sorted@.len() == i == sorted_keys@.len(),
            views(sorted@) == sorted_by_key(all.take(i as int), key),
            forall|j: int| 0 <= j < i ==> key(#[trigger] views(sorted@)[j]) == sorted_keys@[j],
        decreases n - i,
    {
        let ghost before = views(sorted@);
        let ghost old_items = items@;
        let item: T = items.remove(0);
        let k: usize = keys[i];
        proof {
            assert(views(old_items)[0] == all[i as int]);
            assert(item@ == all[i as int]);
            assert forall|j: int| 0 <= j < items@.len() implies #[trigger] views(items@)[j] == all.skip(
                i + 1,
            )[j] by {
                assert(views(old_items)[j + 1] == all.skip(i as int)[j + 1]);
            }
            assert(views(items@) =~= all.skip(i + 1));
            assert(before.skip(0) =~= before);
        }
        let mut at: usize = 0;
        while at < sorted_keys.len() && sorted_keys[at] <= k
            invariant
                at <= sorted_keys@.len() == before.len(),
                forall|j: int| 0 <= j < before.len() ==> key(#[trigger] before[j]) == sorted_keys@[j],
                place_for(before, key, k as int) == at + place_for(before.skip(at as int), key, k as int),
            decreases sorted_keys@.len() - at,
        {
            proof {
                assert(before.skip(at as int)[0] == before[at as int]);
                assert(before.skip(at as int).drop_first() =~= before.skip(at + 1));
            }
            at = at + 1;
        }
        proof {
            if at < before.len() {
                assert(before.skip(at as int)[0] == before[at as int]);
            }
            assert(place_for(before, key, k as int) == at);
            assert(all.take(i + 1).drop_last() =~= all.take(i as int));
        }
        sorted.insert(at, item);
        sorted_keys.insert(at, k);
        proof {
            assert(views(sorted@) =~= before.insert(at as int, all[i as int]));
            assert forall|j: int| 0 <= j < i + 1 implies key(#[trigger] views(sorted@)[j])
                == sorted_keys@[j] by {
                if j < at {
                    assert(views(sorted@)[j] == before[j]);
                } else if j > at {
                    assert(views(sorted@)[j] == before[j - 1]);
                }
            }
        }
        i = i + 1;
    }
    assert(all.take(i as int) =~= all);
    sorted
}

} // verus!
