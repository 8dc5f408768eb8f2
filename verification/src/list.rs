//! Specifications of searches and selections in lists.

use vstd::prelude::*;

verus! {

/// The first index from `i` on whose element satisfies `p`.
pub open spec fn first_from<T>(s: Seq<T>, p: spec_fn(T) -> bool, i: int) -> Option<int>
    decreases s.len() - i,
{
    if i < 0 || i >= s.len() {
        None
    } else if p(s[i]) {
        Some(i)
    } else {
        first_from(s, p, i + 1)
    }
}

/// The first element that satisfies `p`.
pub open spec fn first<T>(s: Seq<T>, p: spec_fn(T) -> bool) -> Option<T> {
    match first_from(s, p, 0) {
        Some(i) => Some(s[i]),
        None => None,
    }
}

/// What `first_from` gives satisfies `p`, and nothing before it does.
pub proof fn lemma_first_from<T>(s: Seq<T>, p: spec_fn(T) -> bool, i: int)
    requires
        0 <= i,
    ensures
        match first_from(s, p, i) {
            Some(k) => i <= k < s.len() && p(s[k]) && forall|j: int| i <= j < k ==> !p(s[j]),
            None => forall|j: int| i <= j < s.len() ==> !p(s[j]),
        },
    decreases s.len() - i,
{
    if i < s.len() && !p(s[i]) {
        lemma_first_from(s, p, i + 1);
    }
}

/// The elements that satisfy `p`, in order.
pub open spec fn keep<T>(s: Seq<T>, p: spec_fn(T) -> bool) -> Seq<T>
    decreases s.len(),
{
    if s.len() == 0 {
        s
    } else if p(s.last()) {
        keep(s.drop_last(), p).push(s.last())
    } else {
        keep(s.drop_last(), p)
    }
}

/// Everything kept satisfies `p` and comes from `s`; everything of `s` that satisfies `p` is kept.
pub proof fn lemma_keep<T>(s: Seq<T>, p: spec_fn(T) -> bool)
    ensures
        keep(s, p).len() <= s.len(),
        forall|i: int|
            0 <= i < keep(s, p).len() ==> p(#[trigger] keep(s, p)[i]) && s.contains(keep(s, p)[i]),
        forall|x: T| #[trigger] s.contains(x) && p(x) ==> keep(s, p).contains(x),
    decreases s.len(),
{
    if s.len() > 0 {
        let front = s.drop_last();
        lemma_keep(front, p);
        let kept = keep(s, p);
        assert forall|i: int| 0 <= i < kept.len() implies p(#[trigger] kept[i]) && s.contains(
            kept[i],
        ) by {
            if i < keep(front, p).len() {
                assert(kept[i] == keep(front, p)[i]);
                let j = choose|j: int| 0 <= j < front.len() && front[j] == kept[i];
                assert(s[j] == kept[i]);
            } else {
                assert(s[s.len() - 1] == kept[i]);
            }
        }
        assert forall|x: T| #[trigger] s.contains(x) && p(x) implies kept.contains(x) by {
            let j = choose|j: int| 0 <= j < s.len() && s[j] == x;
            if j < s.len() - 1 {
                assert(front[j] == x);
                assert(front.contains(x));
                let k = choose|k: int|
                    0 <= k < keep(front, p).len() && keep(front, p)[k] == x;
                assert(kept[k] == x);
            } else {
                assert(kept.last() == x);
            }
        }
    }
}

/// Two conditions that agree keep the same elements.
pub proof fn lemma_keep_agrees<T>(s: Seq<T>, p: spec_fn(T) -> bool, q: spec_fn(T) -> bool)
    requires
        forall|x: T| #[trigger] p(x) == q(x),
    ensures
        keep(s, p) == keep(s, q),
    decreases s.len(),
{
    if s.len() > 0 {
        lemma_keep_agrees(s.drop_last(), p, q);
        assert(p(s.last()) == q(s.last()));
    }
}

/// The elements of `s` whose key no earlier element mentions, in order.
pub open spec fn distinct_by<T, K>(s: Seq<T>, key: spec_fn(T) -> K) -> Seq<T>
    decreases s.len(),
{
    if s.len() == 0 {
        s
    } else {
        let front = distinct_by(s.drop_last(), key);
        if exists|i: int| 0 <= i < front.len() && key(#[trigger] front[i]) == key(s.last()) {
            front
        } else {
            front.push(s.last())
        }
    }
}

/// No two elements of what `distinct_by` keeps share a key, every key of `s`
/// is still there, and the kept elements come from `s`.
pub proof fn lemma_distinct_by<T, K>(s: Seq<T>, key: spec_fn(T) -> K)
    ensures
        distinct_by(s, key).len() <= s.len(),
        forall|i: int, j: int|
            0 <= i < j < distinct_by(s, key).len() ==> key(#[trigger] distinct_by(s, key)[i])
                != key(#[trigger] distinct_by(s, key)[j]),
        forall|i: int|
            0 <= i < s.len() ==> exists|j: int|
                0 <= j < distinct_by(s, key).len() && key(#[trigger] distinct_by(s, key)[j]) == key(
                    #[trigger] s[i],
                ),
        forall|i: int|
            0 <= i < distinct_by(s, key).len() ==> s.contains(#[trigger] distinct_by(s, key)[i]),
    decreases s.len(),
{
    if s.len() > 0 {
        let before = s.drop_last();
        lemma_distinct_by(before, key);
        let front = distinct_by(before, key);
        let all = distinct_by(s, key);
        let seen = exists|i: int|
            0 <= i < front.len() && key(#[trigger] front[i]) == key(s.last());
        assert forall|i: int| 0 <= i < s.len() implies exists|j: int|
            0 <= j < all.len() && key(#[trigger] all[j]) == key(#[trigger] s[i]) by {
            if i < s.len() - 1 {
                assert(before[i] == s[i]);
                let j = choose|j: int|
                    0 <= j < front.len() && key(#[trigger] front[j]) == key(before[i]);
                assert(all[j] == front[j]);
            } else if seen {
                let j = choose|j: int|
                    0 <= j < front.len() && key(#[trigger] front[j]) == key(s.last());
                assert(all[j] == front[j]);
            } else {
                assert(all[all.len() - 1] == s.last());
            }
        }
        assert forall|i: int| 0 <= i < all.len() implies s.contains(#[trigger] all[i]) by {
            if i < front.len() {
                assert(all[i] == front[i]);
                let j = choose|j: int| 0 <= j < before.len() && before[j] == front[i];
                assert(s[j] == all[i]);
            } else {
                assert(s[s.len() - 1] == all[i]);
            }
        }
        if !seen {
            assert(all =~= front.push(s.last()));
            assert forall|i: int, j: int| 0 <= i < j < all.len() implies key(#[trigger] all[i])
                != key(#[trigger] all[j]) by {
                if j < front.len() {
                    assert(all[i] == front[i] && all[j] == front[j]);
                } else {
                    assert(all[i] == front[i] && all[j] == s.last());
                }
            }
        }
    }
}

/// A list without two elements of equal key is its own `distinct_by`.
pub proof fn lemma_distinct_by_fixed<T, K>(s: Seq<T>, key: spec_fn(T) -> K)
    requires
        forall|i: int, j: int| 0 <= i < j < s.len() ==> key(#[trigger] s[i]) != key(#[trigger] s[j]),
    ensures
        distinct_by(s, key) == s,
    decreases s.len(),
{
    if s.len() > 0 {
        let before = s.drop_last();
        assert forall|i: int, j: int| 0 <= i < j < before.len() implies key(#[trigger] before[i])
            != key(#[trigger] before[j]) by {
            assert(before[i] == s[i] && before[j] == s[j]);
        }
        lemma_distinct_by_fixed(before, key);
        assert forall|i: int| 0 <= i < before.len() implies key(#[trigger] before[i]) != key(
            s.last(),
        ) by {
            assert(before[i] == s[i]);
        }
        assert(distinct_by(s, key) =~= s);
    }
}

} // verus!
