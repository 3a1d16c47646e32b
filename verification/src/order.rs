//! Sorting by a key, largest first. Items with equal keys keep their order.

use vstd::prelude::*;

use crate::sieve;

verus! {

/// What is sorted by a number.
pub trait Keyed: Sized {
    /// The number that the item is sorted by.
    spec fn key(&self) -> u64;

    /// The number that the item is sorted by.
    fn key_of(&self) -> (k: u64)
        ensures
            k == self.key(),
    ;
}

/// `item` in its place before the items of `rest` whose key is not larger.
pub open spec fn placed<T: Keyed>(item: T, rest: Seq<T>) -> Seq<T>
    decreases rest.len(),
{
    if rest.len() == 0 || rest[0].key() <= item.key() {
        seq![item] + rest
    } else {
        seq![rest[0]] + placed(item, rest.drop_first())
    }
}

/// The items, largest key first, equal keys in the order they had.
pub open spec fn descending<T: Keyed>(items: Seq<T>) -> Seq<T>
    decreases items.len(),
{
    if items.len() == 0 {
        items
    } else {
        placed(items[0], descending(items.drop_first()))
    }
}

/// Where an item goes: past every larger key, and before the first that is not larger.
proof fn lemma_placed_at<T: Keyed>(item: T, rest: Seq<T>, at: int)
    requires
        0 <= at <= rest.len(),
        forall|i: int| 0 <= i < at ==> (#[trigger] rest[i]).key() > item.key(),
        at < rest.len() ==> rest[at].key() <= item.key(),
    ensures
        placed(item, rest) == rest.insert(at, item),
    decreases at,
{
    if at == 0 {
        assert(seq![item] + rest =~= rest.insert(0, item));
    } else {
        assert(rest[0].key() > item.key());
        let t = rest.drop_first();
        assert forall|i: int| 0 <= i < at - 1 implies (#[trigger] t[i]).key() > item.key() by {
            assert(t[i] == rest[i + 1]);
        }
        lemma_placed_at(item, t, at - 1);
        assert(seq![rest[0]] + t.insert(at - 1, item) =~= rest.insert(at, item));
    }
}

/// Sorts by key, largest first, keeping the order of equal keys.
pub fn sort_descending<T: Keyed>(items: Vec<T>) -> (out: Vec<T>)
    ensures
        out@ == descending(items@),
{
    let mut left: Vec<T> = items;
    let mut out: Vec<T> = Vec::new();
    assert(items@.skip(items@.len() as int) =~= Seq::<T>::empty());
    while left.len() > 0
        invariant
            left@.len() <= items@.len(),
            left@ == items@.take(left@.len() as int),
            out@ == descending(items@.skip(left@.len() as int)),
        decreases left@.len(),
    {
        let ghost n = left@.len() as int;
        match left.pop() {
            Some(item) => {
                let mut at: usize = 0;
                let k: u64 = item.key_of();
                while at < out.len() && out[at].key_of() > k
                    invariant
                        at <= out@.len(),
                        k == item.key(),
                        forall|i: int| 0 <= i < at ==> (#[trigger] out@[i]).key() > k,
                    ensures
                        at <= out@.len(),
                        forall|i: int| 0 <= i < at ==> (#[trigger] out@[i]).key() > k,
                        at < out@.len() ==> out@[at as int].key() <= k,
                    decreases out@.len() - at,
                {
                    at += 1;
                }
                proof {
                    lemma_placed_at(item, out@, at as int);
                    let s = items@.skip(n - 1);
                    assert(s[0] == item);
                    assert(s.drop_first() =~= items@.skip(n));
                }
                out.insert(at, item);
            },
            None => {},
        }
    }
    assert(items@.skip(0) =~= items@);
    out
}

/// Placing an item among sorted items leaves them sorted, and adds nothing else.
proof fn lemma_placed<T: Keyed>(item: T, rest: Seq<T>)
    requires
        forall|i: int, j: int|
            0 <= i < j < rest.len() ==> (#[trigger] rest[i]).key() >= (#[trigger] rest[j]).key(),
    ensures
        placed(item, rest).len() == rest.len() + 1,
        placed(item, rest).to_multiset() == rest.to_multiset().insert(item),
        forall|i: int, j: int|
            0 <= i < j < placed(item, rest).len() ==> (#[trigger] placed(item, rest)[i]).key() >= (
            #[trigger] placed(item, rest)[j]).key(),
        rest.len() > 0 ==> placed(item, rest)[0].key() == (if rest[0].key() > item.key() {
            rest[0].key()
        } else {
            item.key()
        }),
        rest.len() == 0 ==> placed(item, rest)[0].key() == item.key(),
    decreases rest.len(),
{
    broadcast use vstd::seq_lib::group_to_multiset_ensures;

    let p = placed(item, rest);
    if rest.len() == 0 || rest[0].key() <= item.key() {
        assert(p == rest.insert(0, item));
        assert forall|i: int, j: int| 0 <= i < j < p.len() implies (#[trigger] p[i]).key() >= (
        #[trigger] p[j]).key() by {
            assert(p[j] == rest[j - 1]);
            if i > 0 {
                assert(p[i] == rest[i - 1]);
            } else if j > 1 {
                assert(rest[0].key() >= rest[j - 1].key());
            }
        }
    } else {
        let t = rest.drop_first();
        assert forall|i: int, j: int| 0 <= i < j < t.len() implies (#[trigger] t[i]).key() >= (
        #[trigger] t[j]).key() by {
            assert(t[i] == rest[i + 1]);
            assert(t[j] == rest[j + 1]);
        }
        lemma_placed(item, t);
        let q = placed(item, t);
        assert(p == q.insert(0, rest[0]));
        assert(rest == t.insert(0, rest[0]));
        assert forall|i: int, j: int| 0 <= i < j < p.len() implies (#[trigger] p[i]).key() >= (
        #[trigger] p[j]).key() by {
            assert(p[j] == q[j - 1]);
            if i > 0 {
                assert(p[i] == q[i - 1]);
            } else {
                if t.len() > 0 {
                    assert(t[0] == rest[1]);
                    assert(rest[0].key() >= rest[1].key());
                }
                if j > 1 {
                    assert(q[0].key() >= q[j - 1].key());
                }
            }
        }
        assert(p.to_multiset() =~= rest.to_multiset().insert(item));
    }
}

/// Sorting puts the largest key first and loses nothing.
pub proof fn law_descending_is_sorted<T: Keyed>(items: Seq<T>)
    ensures
        descending(items).len() == items.len(),
        descending(items).to_multiset() == items.to_multiset(),
        forall|i: int, j: int|
            0 <= i < j < descending(items).len() ==> (#[trigger] descending(items)[i]).key() >= (
            #[trigger] descending(items)[j]).key(),
    decreases items.len(),
{
    broadcast use vstd::seq_lib::group_to_multiset_ensures;

    if items.len() > 0 {
        let t = items.drop_first();
        law_descending_is_sorted(t);
        lemma_placed(items[0], descending(t));
        assert(items == t.insert(0, items[0]));
        assert(descending(items).to_multiset() =~= items.to_multiset());
    }
}

/// What is sorted stays as it is.
pub proof fn law_sorted_items_stay<T: Keyed>(items: Seq<T>)
    requires
        forall|i: int, j: int|
            0 <= i < j < items.len() ==> (#[trigger] items[i]).key() >= (#[trigger] items[j]).key(),
    ensures
        descending(items) == items,
    decreases items.len(),
{
    if items.len() > 0 {
        let t = items.drop_first();
        assert forall|i: int, j: int| 0 <= i < j < t.len() implies (#[trigger] t[i]).key() >= (
        #[trigger] t[j]).key() by {
            assert(t[i] == items[i + 1]);
            assert(t[j] == items[j + 1]);
        }
        law_sorted_items_stay(t);
        if t.len() > 0 {
            assert(t[0] == items[1]);
            assert(items[0].key() >= items[1].key());
        }
        assert(seq![items[0]] + t =~= items);
    }
}

/// An item with a key no smaller than any other that stands first comes out first.
pub proof fn law_first_of_the_largest_stays_first<T: Keyed>(items: Seq<T>)
    requires
        items.len() > 0,
        forall|i: int| 0 <= i < items.len() ==> items[0].key() >= (#[trigger] items[i]).key(),
    ensures
        descending(items)[0] == items[0],
{
    let t = items.drop_first();
    let d = descending(t);
    law_descending_is_sorted(t);
    if d.len() > 0 {
        broadcast use vstd::seq_lib::group_to_multiset_ensures;

        assert(d.to_multiset().count(d[0]) > 0) by {
            assert(d.contains(d[0]));
        }
        assert(t.contains(d[0]));
        let k = choose|k: int| 0 <= k < t.len() && t[k] == d[0];
        assert(items[k + 1] == d[0]);
    }
}

/// Holds of the items that have the key `k`.
pub open spec fn has_key<T: Keyed>(k: u64) -> spec_fn(T) -> bool {
    |item: T| item.key() == k
}

/// Items with equal keys keep their order.
pub proof fn law_descending_is_stable<T: Keyed>(items: Seq<T>, k: u64)
    ensures
        descending(items).filter(has_key::<T>(k)) == items.filter(has_key::<T>(k)),
    decreases items.len(),
{
    if items.len() > 0 {
        let t = items.drop_first();
        law_descending_is_stable(t, k);
        lemma_placed_filtered(items[0], descending(t), k);
        assert(items =~= seq![items[0]] + t);
        Seq::filter_distributes_over_add(seq![items[0]], t, has_key::<T>(k));
    }
}

proof fn lemma_placed_filtered<T: Keyed>(item: T, rest: Seq<T>, k: u64)
    ensures
        placed(item, rest).filter(has_key::<T>(k)) == seq![item].filter(has_key::<T>(k))
            + rest.filter(has_key::<T>(k)),
    decreases rest.len(),
{
    let pred = has_key::<T>(k);
    if rest.len() == 0 || rest[0].key() <= item.key() {
        Seq::filter_distributes_over_add(seq![item], rest, pred);
    } else {
        let t = rest.drop_first();
        lemma_placed_filtered(item, t, k);
        Seq::filter_distributes_over_add(seq![rest[0]], placed(item, t), pred);
        Seq::filter_distributes_over_add(seq![rest[0]], t, pred);
        assert(rest =~= seq![rest[0]] + t);
        sieve::lemma_filter_one(item, pred);
        sieve::lemma_filter_one(rest[0], pred);
        assert(placed(item, rest).filter(pred) =~= seq![item].filter(pred) + rest.filter(pred));
    }
}

/// Two sorted sequences with the same items are the same, where equal keys mean equal items.
proof fn lemma_sorted_alike<T: Keyed>(x: Seq<T>, y: Seq<T>)
    requires
        x.to_multiset() == y.to_multiset(),
        forall|i: int, j: int|
            0 <= i < j < x.len() ==> (#[trigger] x[i]).key() >= (#[trigger] x[j]).key(),
        forall|i: int, j: int|
            0 <= i < j < y.len() ==> (#[trigger] y[i]).key() >= (#[trigger] y[j]).key(),
        forall|i: int, j: int|
            0 <= i < x.len() && 0 <= j < x.len() && (#[trigger] x[i]).key() == (
            #[trigger] x[j]).key() ==> x[i] == x[j],
    ensures
        x == y,
    decreases x.len(),
{
    broadcast use vstd::seq_lib::group_to_multiset_ensures;

    assert(x.len() == x.to_multiset().len() && y.len() == y.to_multiset().len());
    if x.len() > 0 {
        assert(x.contains(x[0]) && y.contains(y[0]));
        assert(y.to_multiset().count(x[0]) > 0 && x.to_multiset().count(y[0]) > 0);
        let k = choose|k: int| 0 <= k < y.len() && y[k] == x[0];
        let m = choose|m: int| 0 <= m < x.len() && x[m] == y[0];
        assert(x[0].key() >= x[m].key() && y[0].key() >= y[k].key());
        assert(x[0] == y[0]);
        let s = x.remove(0);
        let t = y.remove(0);
        assert(s.to_multiset() =~= t.to_multiset());
        assert forall|i: int, j: int| 0 <= i < j < s.len() implies (#[trigger] s[i]).key() >= (
        #[trigger] s[j]).key() by {
            assert(s[i] == x[i + 1] && s[j] == x[j + 1]);
        }
        assert forall|i: int, j: int| 0 <= i < j < t.len() implies (#[trigger] t[i]).key() >= (
        #[trigger] t[j]).key() by {
            assert(t[i] == y[i + 1] && t[j] == y[j + 1]);
        }
        assert forall|i: int, j: int|
            0 <= i < s.len() && 0 <= j < s.len() && (#[trigger] s[i]).key() == (
            #[trigger] s[j]).key() implies s[i] == s[j] by {
            assert(s[i] == x[i + 1] && s[j] == x[j + 1]);
        }
        lemma_sorted_alike(s, t);
        assert(x =~= seq![x[0]] + s);
        assert(y =~= seq![y[0]] + t);
    } else {
        assert(x =~= y);
    }
}

/// The order that the items had does not matter where no two different items have the same key.
pub proof fn law_distinct_keys_sort_alike<T: Keyed>(a: Seq<T>, b: Seq<T>)
    requires
        a.to_multiset() == b.to_multiset(),
        forall|i: int, j: int|
            0 <= i < a.len() && 0 <= j < a.len() && (#[trigger] a[i]).key() == (
            #[trigger] a[j]).key() ==> a[i] == a[j],
    ensures
        descending(a) == descending(b),
{
    broadcast use vstd::seq_lib::group_to_multiset_ensures;

    let x = descending(a);
    law_descending_is_sorted(a);
    law_descending_is_sorted(b);
    assert forall|i: int, j: int|
        0 <= i < x.len() && 0 <= j < x.len() && (#[trigger] x[i]).key() == (
        #[trigger] x[j]).key() implies x[i] == x[j] by {
        assert(x.contains(x[i]) && x.contains(x[j]));
        assert(a.to_multiset().count(x[i]) > 0 && a.to_multiset().count(x[j]) > 0);
        let k = choose|k: int| 0 <= k < a.len() && a[k] == x[i];
        let m = choose|m: int| 0 <= m < a.len() && a[m] == x[j];
        assert(a[k] == a[m]);
    }
    lemma_sorted_alike(x, descending(b));
}

/// An item with a key larger than those before it and no smaller than those behind it comes first,
/// and all the others come behind it as they would without it.
pub proof fn law_the_largest_leads_the_rest<T: Keyed>(a: Seq<T>, item: T, b: Seq<T>)
    requires
        forall|i: int| 0 <= i < a.len() ==> (#[trigger] a[i]).key() < item.key(),
        forall|i: int| 0 <= i < b.len() ==> (#[trigger] b[i]).key() <= item.key(),
    ensures
        descending(a + seq![item] + b) == seq![item] + descending(a + b),
    decreases a.len(),
{
    let all = a + seq![item] + b;
    if a.len() == 0 {
        broadcast use vstd::seq_lib::group_to_multiset_ensures;

        assert(all.drop_first() =~= b);
        assert(a + b =~= b);
        let d = descending(b);
        law_descending_is_sorted(b);
        if d.len() > 0 {
            assert(d.contains(d[0]));
            assert(b.to_multiset().count(d[0]) > 0);
            let k = choose|k: int| 0 <= k < b.len() && b[k] == d[0];
            assert(b[k].key() <= item.key());
        }
    } else {
        let rest = a.drop_first();
        assert forall|i: int| 0 <= i < rest.len() implies (#[trigger] rest[i]).key() < item.key() by {
            assert(rest[i] == a[i + 1]);
        }
        law_the_largest_leads_the_rest(rest, item, b);
        assert(all.drop_first() =~= rest + seq![item] + b);
        assert((a + b).drop_first() =~= rest + b);
        let d = seq![item] + descending(rest + b);
        assert(d.drop_first() =~= descending(rest + b));
        assert(a[0].key() < item.key());
        assert(all[0] == a[0] && (a + b)[0] == a[0]);
    }
}

} // verus!
