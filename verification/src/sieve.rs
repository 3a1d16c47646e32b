//! What a filter keeps of a sequence.

use vstd::prelude::*;

verus! {

/// One element passes a filter or does not.
pub proof fn lemma_filter_one<A>(item: A, pred: spec_fn(A) -> bool)
    ensures
        seq![item].filter(pred) == (if pred(item) {
            seq![item]
        } else {
            seq![]
        }),
{
    reveal(Seq::filter);
    assert(seq![item].drop_last() =~= Seq::<A>::empty());
    assert(Seq::<A>::empty().filter(pred) =~= Seq::<A>::empty());
    assert(Seq::<A>::empty().push(item) =~= seq![item]);
}

/// What a filter keeps passes it, and stood in what was filtered.
pub proof fn lemma_filter_is_from<A>(s: Seq<A>, pred: spec_fn(A) -> bool)
    ensures
        forall|i: int|
            0 <= i < s.filter(pred).len() ==> pred(#[trigger] s.filter(pred)[i]) && exists|k: int|
                0 <= k < s.len() && s[k] == s.filter(pred)[i],
    decreases s.len(),
{
    reveal(Seq::filter);
    if s.len() > 0 {
        let t = s.drop_last();
        lemma_filter_is_from(t, pred);
        assert forall|i: int| 0 <= i < s.filter(pred).len() implies pred(
            #[trigger] s.filter(pred)[i],
        ) && exists|k: int| 0 <= k < s.len() && s[k] == s.filter(pred)[i] by {
            if i < t.filter(pred).len() {
                assert(s.filter(pred)[i] == t.filter(pred)[i]);
                let k = choose|k: int| 0 <= k < t.len() && t[k] == t.filter(pred)[i];
                assert(s[k] == t[k]);
            } else {
                assert(s[s.len() - 1] == s.filter(pred)[i]);
            }
        }
    }
}

/// A filter that every element passes keeps everything.
pub proof fn lemma_filter_keeps_all<A>(s: Seq<A>, pred: spec_fn(A) -> bool)
    requires
        forall|k: int| 0 <= k < s.len() ==> pred(#[trigger] s[k]),
    ensures
        s.filter(pred) == s,
    decreases s.len(),
{
    reveal(Seq::filter);
    if s.len() > 0 {
        let t = s.drop_last();
        assert forall|k: int| 0 <= k < t.len() implies pred(#[trigger] t[k]) by {
            assert(t[k] == s[k]);
        }
        lemma_filter_keeps_all(t, pred);
        assert(pred(s[s.len() - 1]));
        assert(t.push(s.last()) == s);
    }
}

/// A filter that no element passes keeps nothing.
pub proof fn lemma_filter_drops_all<A>(s: Seq<A>, pred: spec_fn(A) -> bool)
    requires
        forall|i: int| 0 <= i < s.len() ==> !pred(#[trigger] s[i]),
    ensures
        s.filter(pred).len() == 0,
    decreases s.len(),
{
    reveal(Seq::filter);
    if s.len() > 0 {
        let t = s.drop_last();
        assert forall|i: int| 0 <= i < t.len() implies !pred(#[trigger] t[i]) by {
            assert(t[i] == s[i]);
        }
        lemma_filter_drops_all(t, pred);
        assert(!pred(s[s.len() - 1]));
    }
}

/// What passes a filter is kept as often as it stood there, and what does not is gone.
pub proof fn lemma_filter_counts<A>(s: Seq<A>, pred: spec_fn(A) -> bool, item: A)
    ensures
        s.filter(pred).to_multiset().count(item) == (if pred(item) {
            s.to_multiset().count(item)
        } else {
            0
        }),
    decreases s.len(),
{
    broadcast use vstd::seq_lib::group_to_multiset_ensures;

    reveal(Seq::filter);
    if s.len() > 0 {
        let t = s.drop_last();
        lemma_filter_counts(t, pred, item);
        assert(t.push(s.last()) =~= s);
        assert(s.to_multiset() =~= t.to_multiset().insert(s.last()));
    } else {
        assert(s.filter(pred) =~= s);
        assert(!s.contains(item));
    }
}

} // verus!
