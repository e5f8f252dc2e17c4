//! Facts about sequences that the proofs of the library share.

use vstd::prelude::*;

verus! {

/// Filtering a sequence that is not empty: its front filtered, and its last
/// item where the predicate holds of it.
pub proof fn lemma_filter_last<A>(s: Seq<A>, pred: spec_fn(A) -> bool)
    requires
        s.len() > 0,
    ensures
        s.filter(pred) == if pred(s.last()) {
            s.drop_last().filter(pred).push(s.last())
        } else {
            s.drop_last().filter(pred)
        },
{
    reveal(Seq::filter);
}

/// Filtering the empty sequence leaves it empty.
pub proof fn lemma_filter_none<A>(s: Seq<A>, pred: spec_fn(A) -> bool)
    requires
        s.len() == 0,
    ensures
        s.filter(pred) == Seq::<A>::empty(),
{
    reveal(Seq::filter);
    assert(s =~= Seq::<A>::empty());
}

/// The place of the first item of which the predicate holds, or the length of
/// the sequence where it holds of none.
pub open spec fn first_index<A>(s: Seq<A>, pred: spec_fn(A) -> bool) -> int
    decreases s.len(),
{
    if s.len() == 0 {
        0
    } else if pred(s.first()) {
        0
    } else {
        1 + first_index(s.drop_first(), pred)
    }
}

/// The place that `first_index` gives is the first of which the predicate
/// holds.
pub proof fn lemma_first_index<A>(s: Seq<A>, pred: spec_fn(A) -> bool)
    ensures
        0 <= first_index(s, pred) <= s.len(),
        first_index(s, pred) < s.len() ==> pred(s[first_index(s, pred)]),
        forall|k: int| 0 <= k < first_index(s, pred) ==> !pred(#[trigger] s[k]),
    decreases s.len(),
{
    if s.len() > 0 && !pred(s.first()) {
        let rest = s.drop_first();
        lemma_first_index(rest, pred);
        assert forall|k: int| 0 <= k < first_index(s, pred) implies !pred(#[trigger] s[k]) by {
            if k > 0 {
                assert(s[k] == rest[k - 1]);
            }
        }
    }
}

/// A place of which the predicate holds, and before which it holds of none,
/// is the place that `first_index` gives.
pub proof fn lemma_first_index_is<A>(s: Seq<A>, pred: spec_fn(A) -> bool, at: int)
    requires
        0 <= at <= s.len(),
        at < s.len() ==> pred(s[at]),
        forall|k: int| 0 <= k < at ==> !pred(#[trigger] s[k]),
    ensures
        first_index(s, pred) == at,
{
    lemma_first_index(s, pred);
    let found = first_index(s, pred);
    if found < at {
        assert(!pred(s[found]));
    }
}

/// Replacing an item by one of which the predicate holds just as well leaves
/// the first place of the predicate where it was.
pub proof fn lemma_first_index_update<A>(s: Seq<A>, pred: spec_fn(A) -> bool, at: int, x: A)
    requires
        0 <= at < s.len(),
        pred(s[at]) == pred(x),
    ensures
        first_index(s.update(at, x), pred) == first_index(s, pred),
{
    lemma_first_index(s, pred);
    let found = first_index(s, pred);
    let after = s.update(at, x);
    assert forall|k: int| 0 <= k < found implies !pred(#[trigger] after[k]) by {
        assert(!pred(s[k]));
    }
    lemma_first_index_is(after, pred, found);
}

/// One more item at the end leaves the first place of the predicate where it
/// was, if it was in the sequence; else the place is that of the new item where
/// the predicate holds of it, and behind it where not.
pub proof fn lemma_first_index_push<A>(s: Seq<A>, pred: spec_fn(A) -> bool, x: A)
    ensures
        first_index(s.push(x), pred) == if first_index(s, pred) < s.len() {
            first_index(s, pred)
        } else if pred(x) {
            s.len() as int
        } else {
            s.len() as int + 1
        },
{
    lemma_first_index(s, pred);
    let found = first_index(s, pred);
    let after = s.push(x);
    assert forall|k: int| 0 <= k < found implies !pred(#[trigger] after[k]) by {
        assert(!pred(s[k]));
    }
    if found < s.len() {
        assert(after[found] == s[found]);
        lemma_first_index_is(after, pred, found);
    } else if pred(x) {
        lemma_first_index_is(after, pred, s.len() as int);
    } else {
        lemma_first_index_is(after, pred, s.len() as int + 1);
    }
}

/// Where a predicate holds of an item of a sequence, there is a last item of
/// which it holds.
pub proof fn lemma_last_of<A>(s: Seq<A>, pred: spec_fn(A) -> bool) -> (last: int)
    requires
        exists|i: int| 0 <= i < s.len() && pred(#[trigger] s[i]),
    ensures
        0 <= last < s.len(),
        pred(s[last]),
        forall|j: int| last < j < s.len() ==> !pred(#[trigger] s[j]),
    decreases s.len(),
{
    if pred(s.last()) {
        s.len() - 1
    } else {
        let front = s.drop_last();
        let i = choose|i: int| 0 <= i < s.len() && pred(#[trigger] s[i]);
        assert(front[i] == s[i]);
        let last = lemma_last_of(front, pred);
        assert(front[last] == s[last]);
        assert forall|j: int| last < j < s.len() implies !pred(#[trigger] s[j]) by {
            if j < front.len() {
                assert(front[j] == s[j]);
            }
        }
        last
    }
}

/// A filtered sequence is no longer than the sequence.
pub proof fn lemma_filter_len_bound<A>(s: Seq<A>, pred: spec_fn(A) -> bool)
    ensures
        s.filter(pred).len() <= s.len(),
    decreases s.len(),
{
    reveal(Seq::filter);
    if s.len() > 0 {
        lemma_filter_len_bound(s.drop_last(), pred);
    }
}

/// An item is in the filtered sequence exactly when it is in the sequence and
/// the predicate holds of it.
pub proof fn lemma_filter_member<A>(s: Seq<A>, pred: spec_fn(A) -> bool, x: A)
    ensures
        s.filter(pred).contains(x) <==> s.contains(x) && pred(x),
    decreases s.len(),
{
    reveal(Seq::filter);
    if s.len() > 0 {
        lemma_filter_member(s.drop_last(), pred, x);
        let front = s.drop_last();
        if s.contains(x) && pred(x) {
            let i = choose|i: int| 0 <= i < s.len() && s[i] == x;
            if i < s.len() - 1 {
                assert(front[i] == x);
                assert(front.filter(pred).contains(x));
                let j = choose|j: int|
                    0 <= j < front.filter(pred).len() && front.filter(pred)[j] == x;
                assert(s.filter(pred)[j] == x);
            } else {
                assert(s.filter(pred).last() == x);
            }
        }
        if s.filter(pred).contains(x) {
            let j = choose|j: int| 0 <= j < s.filter(pred).len() && s.filter(pred)[j] == x;
            if pred(s.last()) && j == s.filter(pred).len() - 1 {
                assert(s[s.len() - 1] == x);
            } else {
                assert(front.filter(pred)[j] == x);
                assert(front.filter(pred).contains(x));
                let i = choose|i: int| 0 <= i < front.len() && front[i] == x;
                assert(s[i] == x);
            }
        }
    }
}

} // verus!
