//! Stable ordering of lists by a "goes before" relation: the notes listing puts the most
//! recently modified first, and the search ranks its hits. Both sort by insertion, which
//! keeps items that neither goes before in the order they came.
use vstd::prelude::*;

verus! {

/// The first position of `s` whose item `x` goes before, or the length of `s` where there is
/// none.
pub open spec fn first_after<T>(s: Seq<T>, x: T, before: spec_fn(T, T) -> bool) -> int
    decreases s.len(),
{
    if s.len() == 0 {
        0
    } else if before(x, s[0]) {
        0
    } else {
        1 + first_after(s.drop_first(), x, before)
    }
}

/// `s` with `x` placed in front of the first item that it goes before.
pub open spec fn insert_in_order<T>(s: Seq<T>, x: T, before: spec_fn(T, T) -> bool) -> Seq<T> {
    s.insert(first_after(s, x, before), x)
}

/// The items of `s` sorted by insertion, one after the other in their order in `s`.
pub open spec fn sorted_stable<T>(s: Seq<T>, before: spec_fn(T, T) -> bool) -> Seq<T>
    decreases s.len(),
{
    if s.len() == 0 {
        s
    } else {
        insert_in_order(sorted_stable(s.drop_last(), before), s.last(), before)
    }
}

/// No item goes before an item that precedes it.
pub open spec fn is_ordered<T>(s: Seq<T>, before: spec_fn(T, T) -> bool) -> bool {
    forall|i: int, j: int| 0 <= i < j < s.len() ==> !before(#[trigger] s[j], #[trigger] s[i])
}

/// `before` is irreflexive and transitive.
pub open spec fn strict_order<T>(before: spec_fn(T, T) -> bool) -> bool {
    &&& forall|a: T| #![trigger before(a, a)] !before(a, a)
    &&& forall|a: T, b: T, c: T| #[trigger] before(a, b) && #[trigger] before(b, c) ==> before(a, c)
}

/// The position found by [`first_after`] is the first one that `x` goes before.
pub proof fn lemma_first_after<T>(s: Seq<T>, x: T, before: spec_fn(T, T) -> bool)
    ensures
        0 <= first_after(s, x, before) <= s.len(),
        forall|j: int| 0 <= j < first_after(s, x, before) ==> !before(x, #[trigger] s[j]),
        first_after(s, x, before) < s.len() ==> before(x, s[first_after(s, x, before)]),
    decreases s.len(),
{
    if s.len() > 0 && !before(x, s[0]) {
        lemma_first_after(s.drop_first(), x, before);
        assert forall|j: int| 0 <= j < first_after(s, x, before) implies !before(x, #[trigger] s[j]) by {
            if j > 0 {
                assert(s[j] == s.drop_first()[j - 1]);
            }
        }
    }
}

/// A position that `x` goes before, with none before it that `x` goes before, is the one
/// that [`first_after`] finds.
pub proof fn lemma_first_after_is<T>(s: Seq<T>, x: T, before: spec_fn(T, T) -> bool, p: int)
    requires
        0 <= p <= s.len(),
        forall|j: int| 0 <= j < p ==> !before(x, #[trigger] s[j]),
        p < s.len() ==> before(x, s[p]),
    ensures
        first_after(s, x, before) == p,
    decreases s.len(),
{
    if s.len() > 0 && p > 0 {
        assert(!before(x, s[0]));
        let t = s.drop_first();
        assert forall|j: int| 0 <= j < p - 1 implies !before(x, #[trigger] t[j]) by {
            assert(t[j] == s[j + 1]);
        }
        if p - 1 < t.len() {
            assert(t[p - 1] == s[p]);
        }
        lemma_first_after_is(t, x, before, p - 1);
    }
}

/// Sorting by insertion gives a list in order.
pub proof fn lemma_sorted_is_ordered<T>(s: Seq<T>, before: spec_fn(T, T) -> bool)
    requires
        strict_order(before),
    ensures
        is_ordered(sorted_stable(s, before), before),
        sorted_stable(s, before).len() == s.len(),
    decreases s.len(),
{
    if s.len() > 0 {
        let t = sorted_stable(s.drop_last(), before);
        lemma_sorted_is_ordered(s.drop_last(), before);
        let x = s.last();
        lemma_first_after(t, x, before);
        let p = first_after(t, x, before);
        let r = t.insert(p, x);
        assert forall|i: int, j: int| 0 <= i < j < r.len() implies !before(#[trigger] r[j], #[trigger] r[i]) by {
            if j < p {
                assert(r[i] == t[i] && r[j] == t[j]);
            } else if j == p {
                assert(r[i] == t[i]);
            } else if i == p {
                assert(r[j] == t[j - 1]);
                assert(before(x, t[p]));
                if before(t[j - 1], x) {
                    if j - 1 == p {
                    } else {
                        assert(!before(t[j - 1], t[p]));
                    }
                }
            } else if i < p {
                assert(r[i] == t[i] && r[j] == t[j - 1]);
            } else {
                assert(r[i] == t[i - 1] && r[j] == t[j - 1]);
            }
        }
    }
}

/// Sorting by insertion keeps every item, as often as it occurs.
pub proof fn lemma_sorted_is_permutation<T>(s: Seq<T>, before: spec_fn(T, T) -> bool)
    ensures
        sorted_stable(s, before).to_multiset() == s.to_multiset(),
    decreases s.len(),
{
    broadcast use vstd::seq_lib::group_to_multiset_ensures;

    if s.len() > 0 {
        let t = sorted_stable(s.drop_last(), before);
        lemma_sorted_is_permutation(s.drop_last(), before);
        lemma_first_after(t, s.last(), before);
        let p = first_after(t, s.last(), before);
        vstd::seq_lib::to_multiset_insert(t, p, s.last());
        assert(s.drop_last().push(s.last()) =~= s);
        s.drop_last().to_multiset_ensures();
    }
}

/// A (modification time, name) pair goes before another when it was modified later.
pub open spec fn newer(a: (i64, Seq<char>), b: (i64, Seq<char>)) -> bool {
    a.0 > b.0
}

/// [`newer`] as a relation.
pub open spec fn newer_first() -> spec_fn((i64, Seq<char>), (i64, Seq<char>)) -> bool {
    |a: (i64, Seq<char>), b: (i64, Seq<char>)| newer(a, b)
}

/// Pairs sorted most recent first; pairs with the same time keep their order.
pub open spec fn recency_sorted(s: Seq<(i64, Seq<char>)>) -> Seq<(i64, Seq<char>)> {
    sorted_stable(s, newer_first())
}

/// The value of a (time, name) pair.
pub open spec fn pair_view(p: (i64, String)) -> (i64, Seq<char>) {
    (p.0, p.1@)
}

/// Sorts (modification time, name) pairs most recent first, keeping the order of pairs with
/// the same time.
pub fn sort_by_recency(items: Vec<(i64, String)>) -> (r: Vec<(i64, String)>)
    ensures
        r@.map_values(|p: (i64, String)| pair_view(p)) == recency_sorted(
            items@.map_values(|p: (i64, String)| pair_view(p)),
        ),
{
    let ghost input = items@.map_values(|p: (i64, String)| pair_view(p));
    let mut out: Vec<(i64, String)> = Vec::new();
    let mut i: usize = 0;
    assert(input.take(0) =~= Seq::<(i64, Seq<char>)>::empty());
    while i < items.len()
        invariant
            i <= items@.len(),
            input == items@.map_values(|p: (i64, String)| pair_view(p)),
            out@.map_values(|p: (i64, String)| pair_view(p)) == sorted_stable(
                input.take(i as int),
                newer_first(),
            ),
        decreases items.len() - i,
    {
        let x: (i64, String) = (items[i].0, items[i].1.clone());
        let ghost xv = pair_view(x);
        let ghost cur = out@.map_values(|p: (i64, String)| pair_view(p));
        assert(xv == input[i as int]);
        let mut p: usize = 0;
        while p < out.len() && !(x.0 > out[p].0)
            invariant
                p <= out@.len(),
                cur == out@.map_values(|p: (i64, String)| pair_view(p)),
                xv == pair_view(x),
                forall|j: int| 0 <= j < p ==> !newer(xv, #[trigger] cur[j]),
            decreases out.len() - p,
        {
            p += 1;
        }
        proof {
            lemma_first_after_is(cur, xv, newer_first(), p as int);
        }
        out.insert(p, x);
        assert(out@.map_values(|p: (i64, String)| pair_view(p)) =~= cur.insert(p as int, xv));
        assert(input.take(i + 1).drop_last() =~= input.take(i as int));
        assert(input.take(i + 1).last() == xv);
        i += 1;
    }
    assert(input.take(items@.len() as int) =~= input);
    out
}

/// Sorting (time, name) pairs most recent first gives them in order of time, latest first,
/// and keeps every pair.
pub proof fn law_recency_ordered(s: Seq<(i64, Seq<char>)>)
    ensures
        is_ordered(recency_sorted(s), newer_first()),
        recency_sorted(s).to_multiset() == s.to_multiset(),
        forall|i: int, j: int| 0 <= i < j < recency_sorted(s).len() ==> #[trigger] recency_sorted(s)[i].0 >= #[trigger] recency_sorted(s)[j].0,
{
    assert(strict_order(newer_first()));
    lemma_sorted_is_ordered(s, newer_first());
    lemma_sorted_is_permutation(s, newer_first());
    let r = recency_sorted(s);
    assert forall|i: int, j: int| 0 <= i < j < r.len() implies #[trigger] r[i].0 >= #[trigger] r[j].0 by {
        assert(!newer_first()(r[j], r[i]));
    }
}

/// Sorting keeps exactly the items that were there.
pub proof fn lemma_sorted_members<T>(s: Seq<T>, before: spec_fn(T, T) -> bool, y: T)
    ensures
        sorted_stable(s, before).contains(y) <==> s.contains(y),
    decreases s.len(),
{
    if s.len() > 0 {
        let init = s.drop_last();
        let t = sorted_stable(init, before);
        lemma_sorted_members(init, before, y);
        lemma_first_after(t, s.last(), before);
        let p = first_after(t, s.last(), before);
        let r = t.insert(p, s.last());
        assert(s == init.push(s.last()));
        if r.contains(y) {
            let k = choose|k: int| 0 <= k < r.len() && r[k] == y;
            if k < p {
                assert(t[k] == y);
            } else if k > p {
                assert(t[k - 1] == y);
            }
            if y != s.last() {
                assert(t.contains(y));
                let m = choose|m: int| 0 <= m < init.len() && init[m] == y;
                assert(s[m] == y);
            } else {
                assert(s[s.len() - 1] == y);
            }
        }
        if s.contains(y) {
            let m = choose|m: int| 0 <= m < s.len() && s[m] == y;
            if m == s.len() - 1 {
                assert(r[p] == y);
            } else {
                assert(init[m] == y);
                assert(init.contains(y));
                let k = choose|k: int| 0 <= k < t.len() && t[k] == y;
                if k < p {
                    assert(r[k] == y);
                } else {
                    assert(r[k + 1] == y);
                }
            }
        }
    }
}

/// No two items share a key.
pub open spec fn keys_unique<T>(s: Seq<T>, key: spec_fn(T) -> Seq<char>) -> bool {
    forall|i: int, j: int| 0 <= i < s.len() && 0 <= j < s.len() && i != j ==> key(#[trigger] s[i]) != key(#[trigger] s[j])
}

/// Sorting keeps the keys of the items free of repeats.
pub proof fn lemma_sorted_keys_unique<T>(s: Seq<T>, before: spec_fn(T, T) -> bool, key: spec_fn(T) -> Seq<char>)
    requires
        keys_unique(s, key),
    ensures
        keys_unique(sorted_stable(s, before), key),
    decreases s.len(),
{
    if s.len() > 0 {
        let init = s.drop_last();
        assert(keys_unique(init, key)) by {
            assert forall|i: int, j: int| 0 <= i < init.len() && 0 <= j < init.len() && i != j implies key(#[trigger] init[i]) != key(#[trigger] init[j]) by {
                assert(init[i] == s[i] && init[j] == s[j]);
            }
        }
        lemma_sorted_keys_unique(init, before, key);
        let t = sorted_stable(init, before);
        let x = s.last();
        lemma_first_after(t, x, before);
        let p = first_after(t, x, before);
        let r = t.insert(p, x);
        assert forall|k: int| 0 <= k < t.len() implies key(#[trigger] t[k]) != key(x) by {
            assert(t.contains(t[k]));
            lemma_sorted_members(init, before, t[k]);
            let m = choose|m: int| 0 <= m < init.len() && init[m] == t[k];
            assert(s[m] == init[m]);
            assert(s[s.len() - 1] == x);
        }
        assert forall|i: int, j: int| 0 <= i < r.len() && 0 <= j < r.len() && i != j implies key(#[trigger] r[i]) != key(#[trigger] r[j]) by {
            if i == p {
                let tj = if j < p { j } else { j - 1 };
                assert(r[j] == t[tj]);
            } else if j == p {
                let ti = if i < p { i } else { i - 1 };
                assert(r[i] == t[ti]);
            } else {
                let ti = if i < p { i } else { i - 1 };
                let tj = if j < p { j } else { j - 1 };
                assert(r[i] == t[ti] && r[j] == t[tj]);
            }
        }
    }
}

/// Leaving items out keeps the keys free of repeats.
pub proof fn lemma_filter_keys_unique<T>(s: Seq<T>, pred: spec_fn(T) -> bool, key: spec_fn(T) -> Seq<char>)
    requires
        keys_unique(s, key),
    ensures
        keys_unique(s.filter(pred), key),
    decreases s.len(),
{
    reveal(Seq::filter);
    if s.len() > 0 {
        let init = s.drop_last();
        assert(keys_unique(init, key)) by {
            assert forall|i: int, j: int| 0 <= i < init.len() && 0 <= j < init.len() && i != j implies key(#[trigger] init[i]) != key(#[trigger] init[j]) by {
                assert(init[i] == s[i] && init[j] == s[j]);
            }
        }
        lemma_filter_keys_unique(init, pred, key);
        let fi = init.filter(pred);
        if pred(s.last()) {
            let f = fi.push(s.last());
            assert(s.filter(pred) == f);
            assert forall|a: int, b: int| 0 <= a < f.len() && 0 <= b < f.len() && a != b implies key(#[trigger] f[a]) != key(#[trigger] f[b]) by {
                if a == fi.len() || b == fi.len() {
                    let other = if a == fi.len() { b } else { a };
                    assert(fi.contains(fi[other]));
                    init.lemma_filter_contains_rev(pred, fi[other]);
                    let k = choose|k: int| 0 <= k < init.len() && init[k] == fi[other];
                    assert(s[k] == init[k]);
                    assert(s[s.len() - 1] == s.last());
                }
            }
        }
    }
}

} // verus!
