//! Stable sorting by an integer key, stated on sequences.
//!
//! The sort is defined by insertion from the back, which makes it stable by
//! construction; the lemmas below say what that means without the recursion.

use vstd::prelude::*;

verus! {

/// `s` is in ascending order of `key`.
pub open spec fn is_sorted_by<T>(s: Seq<T>, key: spec_fn(T) -> int) -> bool {
    forall|i: int, j: int| 0 <= i < j < s.len() ==> key(s[i]) <= key(s[j])
}

/// The place of `x` in the sorted `s`: the number of leading items whose
/// key is below that of `x`.
pub open spec fn insert_position<T>(x: T, s: Seq<T>, key: spec_fn(T) -> int) -> int
    decreases s.len(),
{
    if s.len() == 0 || key(x) <= key(s[0]) {
        0
    } else {
        1 + insert_position(x, s.drop_first(), key)
    }
}

/// `s` with `x` put in front of the first item whose key is not below its own.
pub open spec fn insert_by<T>(x: T, s: Seq<T>, key: spec_fn(T) -> int) -> Seq<T> {
    s.insert(insert_position(x, s, key), x)
}

/// `s` in ascending order of `key`; items of equal key keep their order.
pub open spec fn stable_sort<T>(s: Seq<T>, key: spec_fn(T) -> int) -> Seq<T>
    decreases s.len(),
{
    if s.len() == 0 {
        s
    } else {
        insert_by(s[0], stable_sort(s.drop_first(), key), key)
    }
}

/// The test whether an item has the key `k`.
pub open spec fn has_key<T>(key: spec_fn(T) -> int, k: int) -> spec_fn(T) -> bool {
    |t: T| key(t) == k
}

/// The items of `s` whose key is `k`, in their order.
pub open spec fn with_key<T>(s: Seq<T>, key: spec_fn(T) -> int, k: int) -> Seq<T> {
    s.filter(has_key(key, k))
}

/// The insert position lies after every item with a smaller key and, in a
/// sorted sequence, before every other item.
pub proof fn lemma_insert_position<T>(x: T, s: Seq<T>, key: spec_fn(T) -> int)
    ensures
        0 <= insert_position(x, s, key) <= s.len(),
        forall|i: int| 0 <= i < insert_position(x, s, key) ==> key(#[trigger] s[i]) < key(x),
        insert_position(x, s, key) < s.len() ==> key(x) <= key(s[insert_position(x, s, key)]),
    decreases s.len(),
{
    if s.len() == 0 || key(x) <= key(s[0]) {
    } else {
        let tail = s.drop_first();
        lemma_insert_position(x, tail, key);
        let p = insert_position(x, tail, key);
        assert forall|i: int| 0 <= i < p + 1 implies key(#[trigger] s[i]) < key(x) by {
            if i > 0 {
                assert(s[i] == tail[i - 1]);
            }
        }
        if p + 1 < s.len() {
            assert(s[p + 1] == tail[p]);
        }
    }
}

/// An index that parts the smaller keys from an item that is not smaller is
/// the insert position.
pub proof fn lemma_insert_position_is<T>(x: T, s: Seq<T>, key: spec_fn(T) -> int, at: int)
    requires
        0 <= at <= s.len(),
        forall|i: int| 0 <= i < at ==> key(#[trigger] s[i]) < key(x),
        at < s.len() ==> key(x) <= key(s[at]),
    ensures
        insert_position(x, s, key) == at,
{
    lemma_insert_position(x, s, key);
    let p = insert_position(x, s, key);
    if p < at {
        assert(key(s[p]) < key(x));
    } else if at < p {
        assert(key(s[at]) < key(x));
    }
}

/// Inserting into a sorted sequence leaves it sorted.
pub proof fn lemma_insert_by_sorted<T>(x: T, s: Seq<T>, key: spec_fn(T) -> int)
    requires
        is_sorted_by(s, key),
    ensures
        is_sorted_by(insert_by(x, s, key), key),
{
    lemma_insert_position(x, s, key);
    let p = insert_position(x, s, key);
    let out = insert_by(x, s, key);
    assert forall|i: int, j: int| 0 <= i < j < out.len() implies key(out[i]) <= key(out[j]) by {
        if j < p {
            assert(out[i] == s[i] && out[j] == s[j]);
        } else if j == p {
            assert(out[i] == s[i]);
        } else if i < p {
            assert(out[i] == s[i] && out[j] == s[j - 1]);
            assert(key(s[i]) < key(x));
            assert(key(x) <= key(s[p]));
            if p < j - 1 {
                assert(key(s[p]) <= key(s[j - 1]));
            }
        } else if i == p {
            assert(out[j] == s[j - 1]);
            if p < j - 1 {
                assert(key(s[p]) <= key(s[j - 1]));
            }
        } else {
            assert(out[i] == s[i - 1] && out[j] == s[j - 1]);
        }
    }
}

/// The sort yields a sequence in ascending order of the key.
pub proof fn lemma_stable_sort_sorted<T>(s: Seq<T>, key: spec_fn(T) -> int)
    ensures
        is_sorted_by(stable_sort(s, key), key),
    decreases s.len(),
{
    if s.len() > 0 {
        lemma_stable_sort_sorted(s.drop_first(), key);
        lemma_insert_by_sorted(s[0], stable_sort(s.drop_first(), key), key);
    }
}

/// The sort neither drops nor adds an item.
pub proof fn lemma_stable_sort_permutes<T>(s: Seq<T>, key: spec_fn(T) -> int)
    ensures
        stable_sort(s, key).len() == s.len(),
        stable_sort(s, key).to_multiset() == s.to_multiset(),
    decreases s.len(),
{
    broadcast use vstd::seq_lib::to_multiset_insert;

    if s.len() > 0 {
        let tail = s.drop_first();
        let sorted_tail = stable_sort(tail, key);
        lemma_stable_sort_permutes(tail, key);
        lemma_insert_position(s[0], sorted_tail, key);
        assert(s =~= tail.insert(0, s[0]));
    }
}

/// What holds of every item before the sort holds of every item after it.
pub proof fn lemma_stable_sort_all<T>(s: Seq<T>, key: spec_fn(T) -> int, holds: spec_fn(T) -> bool)
    requires
        forall|i: int| 0 <= i < s.len() ==> holds(#[trigger] s[i]),
    ensures
        forall|i: int|
            0 <= i < stable_sort(s, key).len() ==> holds(#[trigger] stable_sort(s, key)[i]),
    decreases s.len(),
{
    if s.len() > 0 {
        let tail = s.drop_first();
        let sorted_tail = stable_sort(tail, key);
        assert forall|i: int| 0 <= i < tail.len() implies holds(#[trigger] tail[i]) by {
            assert(tail[i] == s[i + 1]);
        }
        lemma_stable_sort_all(tail, key, holds);
        lemma_insert_position(s[0], sorted_tail, key);
        let p = insert_position(s[0], sorted_tail, key);
        let out = stable_sort(s, key);
        assert forall|i: int| 0 <= i < out.len() implies holds(#[trigger] out[i]) by {
            if i < p {
                assert(out[i] == sorted_tail[i]);
            } else if i == p {
                assert(out[i] == s[0]);
            } else {
                assert(out[i] == sorted_tail[i - 1]);
            }
        }
    }
}

/// The sort is stable: the items of any one key come out in the order in
/// which they went in.
pub proof fn lemma_stable_sort_keeps_order<T>(s: Seq<T>, key: spec_fn(T) -> int, k: int)
    ensures
        with_key(stable_sort(s, key), key, k) == with_key(s, key, k),
    decreases s.len(),
{
    let pred = has_key(key, k);
    if s.len() > 0 {
        let x = s[0];
        let tail = s.drop_first();
        let sorted_tail = stable_sort(tail, key);
        lemma_stable_sort_keeps_order(tail, key, k);
        lemma_stable_sort_sorted(tail, key);
        lemma_insert_position(x, sorted_tail, key);
        let p = insert_position(x, sorted_tail, key);
        let before = sorted_tail.take(p);
        let after = sorted_tail.skip(p);
        assert(sorted_tail =~= before + after);
        assert(stable_sort(s, key) =~= (before + seq![x]) + after);
        assert(s =~= seq![x] + tail);
        Seq::filter_distributes_over_add(before, after, pred);
        Seq::filter_distributes_over_add(before, seq![x], pred);
        Seq::filter_distributes_over_add(before + seq![x], after, pred);
        Seq::filter_distributes_over_add(seq![x], tail, pred);
        lemma_filter_one(x, pred);
        if key(x) == k {
            assert forall|i: int| 0 <= i < before.len() implies !pred(#[trigger] before[i]) by {
                assert(before[i] == sorted_tail[i]);
            }
            lemma_filter_none(before, pred);
            assert(with_key(stable_sort(s, key), key, k) =~= with_key(s, key, k));
        } else {
            assert(with_key(stable_sort(s, key), key, k) =~= with_key(s, key, k));
        }
    }
}

proof fn lemma_filter_one<T>(x: T, pred: spec_fn(T) -> bool)
    ensures
        seq![x].filter(pred) == if pred(x) {
            seq![x]
        } else {
            Seq::<T>::empty()
        },
{
    reveal(Seq::filter);
    assert(seq![x].drop_last() =~= Seq::<T>::empty());
    assert(Seq::<T>::empty().filter(pred) =~= Seq::<T>::empty());
    assert(Seq::<T>::empty().push(x) =~= seq![x]);
}

proof fn lemma_filter_none<T>(s: Seq<T>, pred: spec_fn(T) -> bool)
    requires
        forall|i: int| 0 <= i < s.len() ==> !pred(#[trigger] s[i]),
    ensures
        s.filter(pred) == Seq::<T>::empty(),
    decreases s.len(),
{
    reveal(Seq::filter);
    if s.len() > 0 {
        let front = s.drop_last();
        assert forall|i: int| 0 <= i < front.len() implies !pred(#[trigger] front[i]) by {
            assert(front[i] == s[i]);
        }
        lemma_filter_none(front, pred);
        assert(!pred(s[s.len() - 1]));
    } else {
        assert(s =~= Seq::<T>::empty());
    }
}

} // verus!
