//! Orders on texts and numbers, and a stable sort.

use vstd::prelude::*;

use crate::list;
use crate::text;
use crate::text::chars_of;

verus! {

// ---------------------------------------------------------------------------
// Texts
// ---------------------------------------------------------------------------

/// Lexicographic order by code point, from position `i` on.
pub open spec fn text_less_from(a: Seq<char>, b: Seq<char>, i: int) -> bool
    decreases b.len() - i,
{
    if i < 0 || i >= b.len() {
        false
    } else if i >= a.len() {
        true
    } else if a[i] != b[i] {
        a[i] < b[i]
    } else {
        text_less_from(a, b, i + 1)
    }
}

/// Lexicographic order by code point.
pub open spec fn text_less(a: Seq<char>, b: Seq<char>) -> bool {
    text_less_from(a, b, 0)
}

/// Whether `a` comes before `b` in lexicographic order.
pub fn text_before(a: &str, b: &str) -> (r: bool)
    ensures
        r == text_less(a@, b@),
{
    let x = chars_of(a);
    let y = chars_of(b);
    let mut i: usize = 0;
    while i < y.len()
        invariant
            x@ == a@,
            y@ == b@,
            i <= y.len(),
            text_less_from(a@, b@, i as int) == text_less(a@, b@),
        decreases y.len() - i,
    {
        if i >= x.len() {
            return true;
        }
        if x[i] != y[i] {
            return x[i] < y[i];
        }
        i += 1;
    }
    false
}

proof fn lemma_text_less_from(a: Seq<char>, b: Seq<char>, i: int)
    requires
        0 <= i,
        i <= a.len(),
        i <= b.len(),
        a.take(i) == b.take(i),
    ensures
        text_less_from(a, b, i) || text_less_from(b, a, i) || a == b,
        !(text_less_from(a, b, i) && text_less_from(b, a, i)),
    decreases b.len() - i,
{
    if i < a.len() && i < b.len() {
        if a[i] == b[i] {
            assert(a.take(i + 1) =~= b.take(i + 1)) by {
                assert(a.take(i + 1) =~= a.take(i).push(a[i]));
                assert(b.take(i + 1) =~= b.take(i).push(b[i]));
            }
            lemma_text_less_from(a, b, i + 1);
        }
    } else if i == a.len() && i == b.len() {
        assert(a =~= a.take(i));
        assert(b =~= b.take(i));
    }
}

proof fn lemma_text_less_trans_from(a: Seq<char>, b: Seq<char>, c: Seq<char>, i: int)
    requires
        0 <= i,
        text_less_from(a, b, i),
        text_less_from(b, c, i),
    ensures
        text_less_from(a, c, i),
    decreases b.len() - i,
{
    if i < a.len() && i < b.len() && i < c.len() && a[i] == b[i] && b[i] == c[i] {
        lemma_text_less_trans_from(a, b, c, i + 1);
    }
}

proof fn lemma_text_less_irreflexive_from(a: Seq<char>, i: int)
    requires
        0 <= i,
    ensures
        !text_less_from(a, a, i),
    decreases a.len() - i,
{
    if i < a.len() {
        lemma_text_less_irreflexive_from(a, i + 1);
    }
}

/// The order on texts is a strict total order.
pub proof fn lemma_text_less_total(a: Seq<char>, b: Seq<char>, c: Seq<char>)
    ensures
        !text_less(a, a),
        text_less(a, b) || text_less(b, a) || a == b,
        !(text_less(a, b) && text_less(b, a)),
        text_less(a, b) && text_less(b, c) ==> text_less(a, c),
{
    lemma_text_less_irreflexive_from(a, 0);
    assert(a.take(0) =~= b.take(0));
    lemma_text_less_from(a, b, 0);
    if text_less(a, b) && text_less(b, c) {
        lemma_text_less_trans_from(a, b, c, 0);
    }
}

/// Of two texts that agree up to some place, the one that ends there, or has the
/// smaller character there, comes first.
pub proof fn law_texts_are_ordered_at_their_first_difference(a: Seq<char>, b: Seq<char>, k: int)
    requires
        0 <= k <= a.len(),
        k < b.len(),
        a.take(k) == b.take(k),
        k == a.len() || a[k] < b[k],
    ensures
        text_less(a, b),
        !text_less(b, a),
{
    lemma_agreement_skipped(a, b, k, k);
    assert(text_less_from(a, b, k));
    lemma_text_less_total(a, b, a);
}

proof fn lemma_agreement_skipped(a: Seq<char>, b: Seq<char>, k: int, i: int)
    requires
        0 <= i <= k <= a.len(),
        k < b.len(),
        a.take(k) == b.take(k),
    ensures
        text_less_from(a, b, k - i) == text_less_from(a, b, k),
    decreases i,
{
    if i > 0 {
        lemma_agreement_skipped(a, b, k, i - 1);
        let at = k - i;
        assert(a.take(k)[at] == a[at] && b.take(k)[at] == b[at]);
        assert(text_less_from(a, b, at) == text_less_from(a, b, at + 1));
    }
}

// ---------------------------------------------------------------------------
// Stable sort
// ---------------------------------------------------------------------------

/// Where a new element goes in a list that is in order: behind the last
/// element that it does not precede.
pub open spec fn slot<T>(s: Seq<T>, x: T, before: spec_fn(T, T) -> bool) -> int
    decreases s.len(),
{
    if s.len() == 0 {
        0
    } else if before(x, s.last()) {
        slot(s.drop_last(), x, before)
    } else {
        s.len() as int
    }
}

/// The elements of `s` in order; elements of which neither precedes the other
/// keep their places relative to each other.
pub open spec fn sorted<T>(s: Seq<T>, before: spec_fn(T, T) -> bool) -> Seq<T>
    decreases s.len(),
{
    if s.len() == 0 {
        s
    } else {
        let front = sorted(s.drop_last(), before);
        front.insert(slot(front, s.last(), before), s.last())
    }
}

pub proof fn lemma_slot_range<T>(s: Seq<T>, x: T, before: spec_fn(T, T) -> bool)
    ensures
        0 <= slot(s, x, before) <= s.len(),
        slot(s, x, before) > 0 ==> !before(x, s[slot(s, x, before) - 1]),
        forall|i: int| slot(s, x, before) <= i < s.len() ==> before(x, s[i]),
    decreases s.len(),
{
    if s.len() > 0 && before(x, s.last()) {
        lemma_slot_range(s.drop_last(), x, before);
        let k = slot(s, x, before);
        assert forall|i: int| k <= i < s.len() implies before(x, s[i]) by {
            if i < s.len() - 1 {
                assert(s.drop_last()[i] == s[i]);
            }
        }
        if k > 0 {
            assert(s.drop_last()[k - 1] == s[k - 1]);
        }
    }
}

/// Sorting keeps the number of elements and the elements themselves.
pub proof fn lemma_sorted_permutation<T>(s: Seq<T>, before: spec_fn(T, T) -> bool)
    ensures
        sorted(s, before).len() == s.len(),
        sorted(s, before).to_multiset() == s.to_multiset(),
    decreases s.len(),
{
    broadcast use vstd::seq_lib::group_to_multiset_ensures;

    if s.len() > 0 {
        let front = sorted(s.drop_last(), before);
        lemma_sorted_permutation(s.drop_last(), before);
        lemma_slot_range(front, s.last(), before);
        let k = slot(front, s.last(), before);
        vstd::seq_lib::to_multiset_insert(front, k, s.last());
        assert(s =~= s.drop_last().push(s.last()));
        assert(s.to_multiset() =~= s.drop_last().to_multiset().insert(s.last()));
    }
}

/// No later element precedes an earlier one.
pub open spec fn in_order<T>(s: Seq<T>, before: spec_fn(T, T) -> bool) -> bool {
    forall|i: int, j: int| 0 <= i < j < s.len() ==> !#[trigger] before(s[j], s[i])
}

/// `before` is a strict weak order: asymmetric, and "does not precede" is transitive.
pub open spec fn weak_order<T>(before: spec_fn(T, T) -> bool) -> bool {
    &&& forall|a: T, b: T| #[trigger] before(a, b) ==> !before(b, a)
    &&& forall|a: T, b: T, c: T|
        !(#[trigger] before(a, b)) && !(#[trigger] before(b, c)) ==> !before(a, c)
}

/// Sorting puts the elements in order.
pub proof fn lemma_sorted_in_order<T>(s: Seq<T>, before: spec_fn(T, T) -> bool)
    requires
        weak_order(before),
    ensures
        in_order(sorted(s, before), before),
    decreases s.len(),
{
    if s.len() > 0 {
        let front = sorted(s.drop_last(), before);
        let x = s.last();
        lemma_sorted_in_order(s.drop_last(), before);
        lemma_slot_range(front, x, before);
        let k = slot(front, x, before);
        let r = front.insert(k, x);
        assert forall|i: int, j: int| 0 <= i < j < r.len() implies !#[trigger] before(
            r[j],
            r[i],
        ) by {
            let a = if i < k {
                i
            } else {
                i - 1
            };
            let b = if j < k {
                j
            } else {
                j - 1
            };
            if i == k {
                assert(r[j] == front[b]);
                assert(before(x, front[b]));
            } else if j == k {
                assert(r[i] == front[i]);
                assert(!before(x, front[k - 1]));
                if i < k - 1 {
                    assert(!before(front[k - 1], front[i]));
                }
            } else {
                assert(r[i] == front[a] && r[j] == front[b]);
            }
        }
    }
}

proof fn lemma_slot_agree<T>(
    s: Seq<T>,
    x: T,
    f: spec_fn(T, T) -> bool,
    g: spec_fn(T, T) -> bool,
)
    requires
        forall|i: int| 0 <= i < s.len() ==> f(x, #[trigger] s[i]) == g(x, s[i]),
    ensures
        slot(s, x, f) == slot(s, x, g),
    decreases s.len(),
{
    if s.len() > 0 {
        assert(f(x, s[s.len() - 1]) == g(x, s[s.len() - 1]));
        assert forall|i: int| 0 <= i < s.drop_last().len() implies f(
            x,
            #[trigger] s.drop_last()[i],
        ) == g(x, s.drop_last()[i]) by {
            assert(s.drop_last()[i] == s[i]);
        }
        lemma_slot_agree(s.drop_last(), x, f, g);
    }
}

/// Two orders that agree on the elements of a list sort it in the same way.
pub proof fn lemma_sorted_agree<T>(
    s: Seq<T>,
    f: spec_fn(T, T) -> bool,
    g: spec_fn(T, T) -> bool,
)
    requires
        forall|a: T, b: T|
            s.contains(a) && s.contains(b) ==> #[trigger] f(a, b) == #[trigger] g(a, b),
    ensures
        sorted(s, f) == sorted(s, g),
    decreases s.len(),
{
    if s.len() > 0 {
        let front = s.drop_last();
        let x = s.last();
        assert forall|a: T| front.contains(a) implies s.contains(a) by {
            let i = choose|i: int| 0 <= i < front.len() && front[i] == a;
            assert(s[i] == a);
        }
        assert(s[s.len() - 1] == x);
        lemma_sorted_agree(front, f, g);
        let r = sorted(front, f);
        lemma_sorted_permutation(front, f);
        r.to_multiset_ensures();
        front.to_multiset_ensures();
        assert forall|i: int| 0 <= i < r.len() implies f(x, #[trigger] r[i]) == g(x, r[i]) by {
            assert(r.to_multiset().count(r[i]) > 0);
            assert(front.contains(r[i]));
        }
        lemma_slot_agree(r, x, f, g);
    }
}

/// Sorting changes no element: what is in the sorted list is in the list, and
/// the other way round.
pub proof fn lemma_sorted_contains<T>(s: Seq<T>, before: spec_fn(T, T) -> bool)
    ensures
        forall|x: T| #[trigger] sorted(s, before).contains(x) <==> s.contains(x),
{
    let r = sorted(s, before);
    lemma_sorted_permutation(s, before);
    r.to_multiset_ensures();
    s.to_multiset_ensures();
    assert forall|x: T| #[trigger] r.contains(x) <==> s.contains(x) by {
        assert(r.contains(x) <==> r.to_multiset().count(x) > 0);
        assert(s.contains(x) <==> s.to_multiset().count(x) > 0);
    }
}

proof fn lemma_front_contained<T>(s: Seq<T>)
    requires
        s.len() > 0,
    ensures
        s.contains(s.last()),
        forall|x: T| #[trigger] s.drop_last().contains(x) ==> s.contains(x),
{
    assert(s[s.len() - 1] == s.last());
    assert forall|x: T| #[trigger] s.drop_last().contains(x) implies s.contains(x) by {
        let i = choose|i: int| 0 <= i < s.drop_last().len() && s.drop_last()[i] == x;
        assert(s[i] == x);
    }
}

/// An order that puts higher ranks first sorts a list so that its ranks never
/// rise.
pub proof fn lemma_sorted_falls<T>(
    s: Seq<T>,
    before: spec_fn(T, T) -> bool,
    rank: spec_fn(T) -> int,
)
    requires
        forall|a: T, b: T|
            s.contains(a) && s.contains(b) ==> (#[trigger] before(a, b) ==> rank(a) >= rank(b)) && (
            rank(a) > rank(b) ==> before(a, b)),
    ensures
        forall|i: int, j: int|
            0 <= i < j < sorted(s, before).len() ==> rank(#[trigger] sorted(s, before)[i]) >= rank(
                #[trigger] sorted(s, before)[j],
            ),
    decreases s.len(),
{
    if s.len() > 0 {
        let x = s.last();
        let front = sorted(s.drop_last(), before);
        lemma_front_contained(s);
        lemma_sorted_falls(s.drop_last(), before, rank);
        lemma_sorted_contains(s.drop_last(), before);
        lemma_slot_range(front, x, before);
        let k = slot(front, x, before);
        let r = front.insert(k, x);
        assert forall|i: int| 0 <= i < front.len() implies s.contains(#[trigger] front[i]) by {
            assert(front.contains(front[i]));
        }
        assert forall|i: int, j: int| 0 <= i < j < r.len() implies rank(#[trigger] r[i]) >= rank(
            #[trigger] r[j],
        ) by {
            if i == k {
                assert(r[j] == front[j - 1]);
                assert(before(x, front[j - 1]));
            } else if j == k {
                assert(r[i] == front[i]);
                assert(!before(x, front[k - 1]));
                if i < k - 1 {
                    assert(rank(front[i]) >= rank(front[k - 1]));
                }
            } else {
                let a = if i < k {
                    i
                } else {
                    i - 1
                };
                let b = if j < k {
                    j
                } else {
                    j - 1
                };
                assert(r[i] == front[a] && r[j] == front[b]);
            }
        }
    }
}

/// The `n` elements of `s` with the highest ranks, the highest first: none that
/// is left out ranks higher than one that is kept.
pub open spec fn takes_highest<T>(
    kept: Seq<T>,
    s: Seq<T>,
    rank: spec_fn(T) -> int,
    n: int,
) -> bool {
    &&& kept.len() == (if s.len() < n {
        s.len() as int
    } else {
        n
    })
    &&& kept.to_multiset().subset_of(s.to_multiset())
    &&& forall|i: int, j: int|
        0 <= i < j < kept.len() ==> rank(#[trigger] kept[i]) >= rank(#[trigger] kept[j])
    &&& forall|i: int, x: T|
        0 <= i < kept.len() && #[trigger] s.to_multiset().sub(kept.to_multiset()).count(x) > 0
            ==> rank(x) <= rank(#[trigger] kept[i])
}

/// An order that puts higher ranks first takes the highest first.
pub proof fn lemma_takes_highest<T>(
    s: Seq<T>,
    before: spec_fn(T, T) -> bool,
    rank: spec_fn(T) -> int,
    n: int,
)
    requires
        0 <= n,
        forall|a: T, b: T|
            s.contains(a) && s.contains(b) ==> (#[trigger] before(a, b) ==> rank(a) >= rank(b)) && (
            rank(a) > rank(b) ==> before(a, b)),
    ensures
        takes_highest(
            sorted(s, before).take(
                if s.len() < n {
                    s.len() as int
                } else {
                    n
                },
            ),
            s,
            rank,
            n,
        ),
{
    let all = sorted(s, before);
    let m = if s.len() < n {
        s.len() as int
    } else {
        n
    };
    lemma_sorted_permutation(s, before);
    lemma_sorted_falls(s, before, rank);
    let kept = all.take(m);
    let rest = all.skip(m);
    assert(all =~= kept + rest);
    vstd::seq_lib::lemma_multiset_commutative(kept, rest);
    rest.to_multiset_ensures();
    assert forall|i: int, j: int| 0 <= i < j < kept.len() implies rank(#[trigger] kept[i]) >= rank(
        #[trigger] kept[j],
    ) by {
        assert(kept[i] == all[i] && kept[j] == all[j]);
    }
    assert forall|i: int, x: T|
        0 <= i < kept.len() && #[trigger] s.to_multiset().sub(kept.to_multiset()).count(x)
            > 0 implies rank(x) <= rank(#[trigger] kept[i]) by {
        assert(rest.to_multiset().count(x) > 0);
        assert(rest.contains(x));
        let k = choose|k: int| 0 <= k < rest.len() && rest[k] == x;
        assert(kept[i] == all[i] && x == all[m + k]);
    }
}

proof fn lemma_keep_add<T>(a: Seq<T>, b: Seq<T>, p: spec_fn(T) -> bool)
    ensures
        list::keep(a + b, p) == list::keep(a, p) + list::keep(b, p),
    decreases b.len(),
{
    if b.len() == 0 {
        assert(a + b =~= a);
        assert(list::keep(a, p) + list::keep(b, p) =~= list::keep(a, p));
    } else {
        lemma_keep_add(a, b.drop_last(), p);
        assert((a + b).drop_last() =~= a + b.drop_last());
        assert((a + b).last() == b.last());
        assert(list::keep(a + b, p) =~= list::keep(a, p) + list::keep(b, p));
    }
}

proof fn lemma_keep_none<T>(s: Seq<T>, p: spec_fn(T) -> bool)
    requires
        forall|i: int| 0 <= i < s.len() ==> !p(#[trigger] s[i]),
    ensures
        list::keep(s, p).len() == 0,
    decreases s.len(),
{
    if s.len() > 0 {
        assert(!p(s[s.len() - 1]));
        assert forall|i: int| 0 <= i < s.drop_last().len() implies !p(
            #[trigger] s.drop_last()[i],
        ) by {
            assert(!p(s[i]));
        }
        lemma_keep_none(s.drop_last(), p);
    }
}

/// Sorting is stable: elements of which none precedes another stay in the order
/// in which they came.
pub proof fn law_sorting_is_stable<T>(
    s: Seq<T>,
    before: spec_fn(T, T) -> bool,
    p: spec_fn(T) -> bool,
)
    requires
        forall|a: T, b: T|
            s.contains(a) && s.contains(b) && p(a) && p(b) ==> !#[trigger] before(a, b),
    ensures
        list::keep(sorted(s, before), p) == list::keep(s, p),
    decreases s.len(),
{
    if s.len() > 0 {
        let x = s.last();
        let front = sorted(s.drop_last(), before);
        lemma_front_contained(s);
        law_sorting_is_stable(s.drop_last(), before, p);
        lemma_sorted_contains(s.drop_last(), before);
        lemma_slot_range(front, x, before);
        let k = slot(front, x, before);
        let low = front.take(k);
        let high = front.skip(k);
        assert(front =~= low + high);
        assert(sorted(s, before) =~= low.push(x) + high);
        lemma_keep_add(low, high, p);
        lemma_keep_add(low.push(x), high, p);
        assert(low.push(x).drop_last() =~= low);
        if p(x) {
            assert forall|i: int| 0 <= i < high.len() implies !p(#[trigger] high[i]) by {
                assert(high[i] == front[k + i]);
                assert(before(x, front[k + i]));
                assert(front.contains(front[k + i]));
            }
            lemma_keep_none(high, p);
            assert(list::keep(sorted(s, before), p) =~= list::keep(s, p));
        } else {
            assert(list::keep(sorted(s, before), p) =~= list::keep(s, p));
        }
    }
}

/// The elements of one rank.
pub open spec fn of_rank<T>(rank: spec_fn(T) -> int, r: int) -> spec_fn(T) -> bool {
    |x: T| rank(x) == r
}

/// The elements of `kept` with equal ranks are the first ones of `s` with that
/// rank, in the order in which they came.
pub open spec fn ties_stay<T>(kept: Seq<T>, s: Seq<T>, rank: spec_fn(T) -> int) -> bool {
    forall|r: int|
        (#[trigger] list::keep(kept, of_rank(rank, r))).is_prefix_of(
            list::keep(s, of_rank(rank, r)),
        )
}

/// An order by ranks alone leaves ties as they came.
pub proof fn lemma_ties_stay<T>(
    s: Seq<T>,
    before: spec_fn(T, T) -> bool,
    rank: spec_fn(T) -> int,
    n: int,
)
    requires
        0 <= n <= s.len(),
        forall|a: T, b: T|
            s.contains(a) && s.contains(b) ==> (#[trigger] before(a, b) ==> rank(a) > rank(b)),
    ensures
        ties_stay(sorted(s, before).take(n), s, rank),
{
    let all = sorted(s, before);
    let kept = all.take(n);
    lemma_sorted_permutation(s, before);
    assert forall|r: int| (#[trigger] list::keep(kept, of_rank(rank, r))).is_prefix_of(
        list::keep(s, of_rank(rank, r)),
    ) by {
        let p = of_rank(rank, r);
        law_sorting_is_stable(s, before, p);
        assert(all =~= kept + all.skip(n));
        lemma_keep_add(kept, all.skip(n), p);
        assert(list::keep(kept, p) =~= list::keep(s, p).take(
            list::keep(kept, p).len() as int,
        ));
    }
}

proof fn lemma_keep_pair<T>(s: Seq<T>, p: spec_fn(T) -> bool, i: int, j: int)
    requires
        0 <= i < j < s.len(),
        p(s[i]),
        p(s[j]),
    ensures
        exists|a: int, b: int|
            0 <= a < b < list::keep(s, p).len() && #[trigger] list::keep(s, p)[a] == s[i]
                && #[trigger] list::keep(s, p)[b] == s[j],
    decreases s.len(),
{
    let front = s.drop_last();
    let kept = list::keep(s, p);
    let before = list::keep(front, p);
    list::lemma_keep(front, p);
    if j < s.len() - 1 {
        lemma_keep_pair(front, p, i, j);
        let (a, b) = choose|a: int, b: int|
            0 <= a < b < before.len() && #[trigger] before[a] == front[i] && #[trigger] before[b]
                == front[j];
        assert(kept[a] == s[i] && kept[b] == s[j]);
    } else {
        assert(front[i] == s[i]);
        assert(front.contains(s[i]));
        assert(before.contains(s[i]));
        let a = choose|a: int| 0 <= a < before.len() && before[a] == s[i];
        assert(kept[a] == s[i] && kept[kept.len() - 1] == s[j]);
    }
}

proof fn lemma_keep_ascends<T>(s: Seq<T>, p: spec_fn(T) -> bool, place: spec_fn(T) -> int)
    requires
        forall|i: int, j: int|
            0 <= i < j < s.len() ==> place(#[trigger] s[i]) < place(#[trigger] s[j]),
    ensures
        forall|i: int, j: int|
            0 <= i < j < list::keep(s, p).len() ==> place(#[trigger] list::keep(s, p)[i]) < place(
                #[trigger] list::keep(s, p)[j],
            ),
    decreases s.len(),
{
    if s.len() > 0 {
        let front = s.drop_last();
        assert forall|i: int, j: int| 0 <= i < j < front.len() implies place(#[trigger] front[i])
            < place(#[trigger] front[j]) by {
            assert(front[i] == s[i] && front[j] == s[j]);
        }
        lemma_keep_ascends(front, p, place);
        list::lemma_keep(front, p);
        let before = list::keep(front, p);
        let kept = list::keep(s, p);
        assert forall|i: int, j: int| 0 <= i < j < kept.len() implies place(#[trigger] kept[i])
            < place(#[trigger] kept[j]) by {
            assert(kept[i] == before[i]);
            if j < before.len() {
                assert(kept[j] == before[j]);
            } else {
                assert(front.contains(before[i]));
                let k = choose|k: int| 0 <= k < front.len() && front[k] == before[i];
                assert(s[k] == kept[i] && kept[j] == s[s.len() - 1]);
            }
        }
    }
}

/// An order by ranks alone leaves elements of equal ranks in the order of their
/// places.
pub proof fn lemma_ties_ascend<T>(
    s: Seq<T>,
    before: spec_fn(T, T) -> bool,
    rank: spec_fn(T) -> int,
    place: spec_fn(T) -> int,
)
    requires
        forall|a: T, b: T|
            s.contains(a) && s.contains(b) ==> (#[trigger] before(a, b) ==> rank(a) > rank(b)),
        forall|i: int, j: int|
            0 <= i < j < s.len() ==> place(#[trigger] s[i]) < place(#[trigger] s[j]),
    ensures
        forall|i: int, j: int|
            0 <= i < j < sorted(s, before).len() && rank(sorted(s, before)[i]) == rank(
                sorted(s, before)[j],
            ) ==> place(#[trigger] sorted(s, before)[i]) < place(#[trigger] sorted(s, before)[j]),
{
    let r = sorted(s, before);
    assert forall|i: int, j: int| 0 <= i < j < r.len() && rank(r[i]) == rank(r[j]) implies place(
        #[trigger] r[i],
    ) < place(#[trigger] r[j]) by {
        let p = of_rank(rank, rank(r[i]));
        law_sorting_is_stable(s, before, p);
        lemma_keep_pair(r, p, i, j);
        lemma_keep_ascends(s, p, place);
        let kept = list::keep(r, p);
        let (a, b) = choose|a: int, b: int|
            0 <= a < b < kept.len() && #[trigger] kept[a] == r[i] && #[trigger] kept[b] == r[j];
        assert(place(kept[a]) < place(kept[b]));
    }
}

/// Higher ranks come first, and of equal ranks the names in order.
pub open spec fn falls_by_name<T>(
    s: Seq<T>,
    rank: spec_fn(T) -> int,
    name: spec_fn(T) -> Seq<char>,
) -> bool {
    forall|i: int, j: int|
        0 <= i < j < s.len() ==> rank(#[trigger] s[i]) > rank(#[trigger] s[j]) || (rank(s[i])
            == rank(s[j]) && !text_less(name(s[j]), name(s[i])))
}

/// An order by ranks, and by names where ranks are equal, puts a list in that
/// order.
pub proof fn lemma_falls_by_name<T>(
    s: Seq<T>,
    before: spec_fn(T, T) -> bool,
    rank: spec_fn(T) -> int,
    name: spec_fn(T) -> Seq<char>,
)
    requires
        forall|a: T, b: T|
            s.contains(a) && s.contains(b) ==> (#[trigger] before(a, b) <==> rank(a) > rank(b) || (
            rank(a) == rank(b) && text_less(name(a), name(b)))),
    ensures
        falls_by_name(sorted(s, before), rank, name),
{
    let g = |a: T, b: T|
        rank(a) > rank(b) || (rank(a) == rank(b) && text_less(name(a), name(b)));
    assert(weak_order(g)) by {
        assert forall|a: T, b: T| #[trigger] g(a, b) implies !g(b, a) by {
            lemma_text_less_total(name(a), name(b), name(a));
        }
        assert forall|a: T, b: T, c: T| !(#[trigger] g(a, b)) && !(#[trigger] g(b, c)) implies !g(
            a,
            c,
        ) by {
            lemma_text_less_total(name(a), name(b), name(c));
            lemma_text_less_total(name(c), name(b), name(a));
        }
    }
    lemma_sorted_agree(s, before, g);
    lemma_sorted_in_order(s, g);
    let r = sorted(s, before);
    assert forall|i: int, j: int| 0 <= i < j < r.len() implies rank(#[trigger] r[i]) > rank(
        #[trigger] r[j],
    ) || (rank(r[i]) == rank(r[j]) && !text_less(name(r[j]), name(r[i]))) by {
        assert(!g(r[j], r[i]));
    }
}

/// Sorts a list stably. `precedes` decides the order that `before` describes.
pub fn sort_by<T, F: Fn(&T, &T) -> bool>(
    items: Vec<T>,
    precedes: F,
    Ghost(before): Ghost<spec_fn(T, T) -> bool>,
) -> (r: Vec<T>)
    requires
        forall|a: &T, b: &T| #[trigger] call_requires(precedes, (a, b)),
        forall|a: &T, b: &T, x: bool| #[trigger]
            call_ensures(precedes, (a, b), x) ==> x == before(*a, *b),
    ensures
        r@ == sorted(items@, before),
{
    let mut rest = items;
    let mut pending: Vec<T> = Vec::new();
    let ghost all = items@;
    let n: usize = rest.len();
    // Turn the list round, so that elements come off its end in their first order.
    let mut i: usize = 0;
    while i < n
        invariant
            i <= n,
            n == all.len(),
            rest@ == all.take(n - i),
            pending@ == Seq::new(i as nat, |k: int| all[n - 1 - k]),
        decreases n - i,
    {
        match rest.pop() {
            Some(x) => {
                pending.push(x);
            },
            None => {},
        }
        i += 1;
        assert(pending@ =~= Seq::new(i as nat, |k: int| all[n - 1 - k]));
    }
    let mut out: Vec<T> = Vec::new();
    let mut done: usize = 0;
    while done < n
        invariant
            done <= n,
            n == all.len(),
            pending@ == Seq::new((n - done) as nat, |k: int| all[n - 1 - k]),
            out@ == sorted(all.take(done as int), before),
            forall|a: &T, b: &T| #[trigger] call_requires(precedes, (a, b)),
            forall|a: &T, b: &T, x: bool| #[trigger]
                call_ensures(precedes, (a, b), x) ==> x == before(*a, *b),
        decreases n - done,
    {
        let ghost front = out@;
        match pending.pop() {
            Some(x) => {
                assert(x == all[done as int]);
                let mut k: usize = out.len();
                assert(front.take(k as int) =~= front);
                while k > 0 && precedes(&x, &out[k - 1])
                    invariant
                        k <= out.len(),
                        out@ == front,
                        slot(front.take(k as int), x, before) == slot(front, x, before),
                        forall|a: &T, b: &T| #[trigger] call_requires(precedes, (a, b)),
                        forall|a: &T, b: &T, x: bool| #[trigger]
                            call_ensures(precedes, (a, b), x) ==> x == before(*a, *b),
                    decreases k,
                {
                    assert(front.take(k as int).drop_last() =~= front.take(k - 1));
                    k -= 1;
                }
                assert(k == slot(front, x, before));
                out.insert(k, x);
                assert(all.take(done + 1).drop_last() =~= all.take(done as int));
            },
            None => {},
        }
        done += 1;
        assert(pending@ =~= Seq::new((n - done) as nat, |k: int| all[n - 1 - k]));
    }
    assert(all.take(n as int) =~= all);
    out
}

/// Texts in lexicographic order.
pub open spec fn text_order() -> spec_fn(Seq<char>, Seq<char>) -> bool {
    |a: Seq<char>, b: Seq<char>| text_less(a, b)
}

spec fn string_order() -> spec_fn(String, String) -> bool {
    |a: String, b: String| text_less(a@, b@)
}

proof fn lemma_slot_views(s: Seq<String>, x: String)
    ensures
        slot(s, x, string_order()) == slot(text::views(s), x@, text_order()),
    decreases s.len(),
{
    if s.len() > 0 {
        assert(text::views(s).drop_last() =~= text::views(s.drop_last()));
        assert(text::views(s).last() == s.last()@);
        lemma_slot_views(s.drop_last(), x);
    }
}

proof fn lemma_sorted_views(s: Seq<String>)
    ensures
        text::views(sorted(s, string_order())) == sorted(text::views(s), text_order()),
    decreases s.len(),
{
    if s.len() > 0 {
        let front = sorted(s.drop_last(), string_order());
        assert(text::views(s).drop_last() =~= text::views(s.drop_last()));
        lemma_sorted_views(s.drop_last());
        lemma_slot_views(front, s.last());
        lemma_slot_range(front, s.last(), string_order());
        let k = slot(front, s.last(), string_order());
        assert(text::views(front.insert(k, s.last())) =~= text::views(front).insert(
            k,
            s.last()@,
        ));
    } else {
        assert(text::views(s) =~= Seq::<Seq<char>>::empty());
    }
}

/// Sorts texts.
pub fn sort_texts(items: Vec<String>) -> (r: Vec<String>)
    ensures
        text::views(r@) == sorted(text::views(items@), text_order()),
{
    let precedes = |a: &String, b: &String| -> (x: bool)
        ensures
            x == text_less(a@, b@),
        { text_before(a.as_str(), b.as_str()) };
    proof {
        lemma_sorted_views(items@);
    }
    sort_by(items, precedes, Ghost(string_order()))
}

} // verus!
