//! Rows gathered under keys: which rows share a key, how many there are, and
//! which keys hold the most of them.

use vstd::prelude::*;

use crate::groups;
use crate::groups::{cell_of, compose_group_key, is_blank_group_key, tokenize_words};
use crate::list;
use crate::num::Num;
use crate::order;
use crate::order::{sort_by, text_before};
use crate::periods;
use crate::periods::{can_parse_date, parse_date_like, Side, WindowSet};
use crate::plan::AnalysisPlan;
use crate::table;
use crate::table::matches_where_filters;
use crate::text;
use crate::text::same;

verus! {

// ---------------------------------------------------------------------------
// Gathering
// ---------------------------------------------------------------------------

/// A key and the places at which it stands, in ascending order.
#[derive(Debug)]
pub struct Segment {
    pub key: String,
    pub rows: Vec<usize>,
}

/// The places below `n` at which a key stands.
pub open spec fn places(keys: Seq<Seq<char>>, key: Seq<char>, n: int) -> Seq<usize>
    decreases n,
{
    if n <= 0 {
        Seq::empty()
    } else if keys[n - 1] == key {
        places(keys, key, n - 1).push((n - 1) as usize)
    } else {
        places(keys, key, n - 1)
    }
}

/// The keys ascend, so that none is there twice.
pub open spec fn ascending(segs: Seq<Segment>) -> bool {
    forall|i: int, j: int|
        0 <= i < j < segs.len() ==> order::text_less(
            (#[trigger] segs[i]).key@,
            (#[trigger] segs[j]).key@,
        )
}

/// There is a segment with this key.
pub open spec fn has_key(segs: Seq<Segment>, key: Seq<char>) -> bool {
    exists|i: int| 0 <= i < segs.len() && (#[trigger] segs[i]).key@ == key
}

/// The segments of the first `n` keys: ascending, each with all places of its
/// key, and one for every key.
pub open spec fn gathers(segs: Seq<Segment>, keys: Seq<Seq<char>>, n: int) -> bool {
    &&& ascending(segs)
    &&& forall|i: int|
        0 <= i < segs.len() ==> (#[trigger] segs[i]).rows@ == places(keys, segs[i].key@, n)
            && segs[i].rows@.len() > 0
    &&& forall|k: int| 0 <= k < n ==> has_key(segs, #[trigger] keys[k])
}

pub proof fn lemma_place_has_key(keys: Seq<Seq<char>>, key: Seq<char>, n: int)
    requires
        0 <= n <= keys.len(),
        places(keys, key, n).len() > 0,
    ensures
        exists|k: int| 0 <= k < n && #[trigger] keys[k] == key,
    decreases n,
{
    if n > 0 && keys[n - 1] != key {
        lemma_place_has_key(keys, key, n - 1);
    }
}

/// A key has no more places than there are keys.
pub proof fn lemma_places_few(keys: Seq<Seq<char>>, key: Seq<char>, n: int)
    requires
        0 <= n,
    ensures
        places(keys, key, n).len() <= n,
    decreases n,
{
    if n > 0 {
        lemma_places_few(keys, key, n - 1);
    }
}

pub proof fn lemma_places_in_range(keys: Seq<Seq<char>>, key: Seq<char>, n: int)
    requires
        0 <= n <= usize::MAX,
    ensures
        forall|i: int|
            0 <= i < places(keys, key, n).len() ==> 0 <= #[trigger] places(keys, key, n)[i] < n,
    decreases n,
{
    if n > 0 {
        lemma_places_in_range(keys, key, n - 1);
        let front = places(keys, key, n - 1);
        let all = places(keys, key, n);
        assert forall|i: int| 0 <= i < all.len() implies 0 <= #[trigger] all[i] < n by {
            if i < front.len() {
                assert(all[i] == front[i]);
            }
        }
    }
}

proof fn lemma_ascending_unique(a: Seq<Seq<char>>, b: Seq<Seq<char>>)
    requires
        forall|i: int, j: int| 0 <= i < j < a.len() ==> order::text_less(#[trigger] a[i], #[trigger] a[j]),
        forall|i: int, j: int| 0 <= i < j < b.len() ==> order::text_less(#[trigger] b[i], #[trigger] b[j]),
        forall|i: int| 0 <= i < a.len() ==> b.contains(#[trigger] a[i]),
        forall|i: int| 0 <= i < b.len() ==> a.contains(#[trigger] b[i]),
    ensures
        a == b,
    decreases a.len(),
{
    if a.len() == 0 {
        if b.len() > 0 {
            assert(a.contains(b[0]));
        }
        assert(a =~= b);
    } else {
        assert(b.contains(a[0]));
        let x = a.last();
        let y = b.last();
        assert(b.contains(a[a.len() - 1]) && a.contains(b[b.len() - 1]));
        let j = choose|j: int| 0 <= j < b.len() && b[j] == x;
        let i = choose|i: int| 0 <= i < a.len() && a[i] == y;
        order::lemma_text_less_total(x, y, x);
        assert(x == y);
        let fa = a.drop_last();
        let fb = b.drop_last();
        assert forall|k: int| 0 <= k < fa.len() implies fb.contains(#[trigger] fa[k]) by {
            assert(fa[k] == a[k] && order::text_less(a[k], a[a.len() - 1]));
            order::lemma_text_less_total(x, x, x);
            assert(b.contains(a[k]));
            let m = choose|m: int| 0 <= m < b.len() && b[m] == a[k];
            assert(fb[m] == fa[k]);
        }
        assert forall|k: int| 0 <= k < fb.len() implies fa.contains(#[trigger] fb[k]) by {
            assert(fb[k] == b[k] && order::text_less(b[k], b[b.len() - 1]));
            order::lemma_text_less_total(x, x, x);
            assert(a.contains(b[k]));
            let m = choose|m: int| 0 <= m < a.len() && a[m] == b[k];
            assert(fa[m] == fb[k]);
        }
        lemma_ascending_unique(fa, fb);
        assert(a =~= fa.push(x));
        assert(b =~= fb.push(y));
    }
}

proof fn lemma_keys_contained(a: Seq<Segment>, b: Seq<Segment>, keys: Seq<Seq<char>>, n: int)
    requires
        0 <= n <= keys.len(),
        gathers(a, keys, n),
        gathers(b, keys, n),
    ensures
        forall|i: int| 0 <= i < a.len() ==> keys_of(b).contains(#[trigger] keys_of(a)[i]),
{
    assert forall|i: int| 0 <= i < a.len() implies keys_of(b).contains(#[trigger] keys_of(a)[i]) by {
        assert(a[i].rows@.len() > 0);
        lemma_place_has_key(keys, a[i].key@, n);
        let k = choose|k: int| 0 <= k < n && #[trigger] keys[k] == a[i].key@;
        assert(has_key(b, keys[k]));
        let m = choose|m: int| 0 <= m < b.len() && (#[trigger] b[m]).key@ == keys[k];
        assert(keys_of(b)[m] == keys_of(a)[i]);
    }
}

/// Keys are gathered in one way only.
pub proof fn lemma_gathers_unique(a: Seq<Segment>, b: Seq<Segment>, keys: Seq<Seq<char>>, n: int)
    requires
        0 <= n <= keys.len(),
        gathers(a, keys, n),
        gathers(b, keys, n),
    ensures
        a.len() == b.len(),
        forall|i: int|
            0 <= i < a.len() ==> (#[trigger] a[i]).key@ == b[i].key@ && a[i].rows@ == b[i].rows@,
{
    lemma_keys_contained(a, b, keys, n);
    lemma_keys_contained(b, a, keys, n);
    assert forall|i: int, j: int| 0 <= i < j < keys_of(a).len() implies order::text_less(
        #[trigger] keys_of(a)[i],
        #[trigger] keys_of(a)[j],
    ) by {
        assert(order::text_less(a[i].key@, a[j].key@));
    }
    assert forall|i: int, j: int| 0 <= i < j < keys_of(b).len() implies order::text_less(
        #[trigger] keys_of(b)[i],
        #[trigger] keys_of(b)[j],
    ) by {
        assert(order::text_less(b[i].key@, b[j].key@));
    }
    lemma_ascending_unique(keys_of(a), keys_of(b));
    assert forall|i: int| 0 <= i < a.len() implies (#[trigger] a[i]).key@ == b[i].key@
        && a[i].rows@ == b[i].rows@ by {
        assert(keys_of(a)[i] == keys_of(b)[i]);
        assert(b[i].rows@ == places(keys, b[i].key@, n));
    }
}

/// The number of places that segments hold together.
pub open spec fn total(segs: Seq<Segment>) -> int
    decreases segs.len(),
{
    if segs.len() == 0 {
        0
    } else {
        total(segs.drop_last()) + segs.last().rows@.len()
    }
}

proof fn lemma_total_update(segs: Seq<Segment>, i: int, x: Segment)
    requires
        0 <= i < segs.len(),
    ensures
        total(segs.update(i, x)) == total(segs) - segs[i].rows@.len() + x.rows@.len(),
    decreases segs.len(),
{
    let after = segs.update(i, x);
    if i == segs.len() - 1 {
        assert(after.drop_last() =~= segs.drop_last());
    } else {
        assert(after.drop_last() =~= segs.drop_last().update(i, x));
        lemma_total_update(segs.drop_last(), i, x);
    }
}

proof fn lemma_total_insert(segs: Seq<Segment>, i: int, x: Segment)
    requires
        0 <= i <= segs.len(),
    ensures
        total(segs.insert(i, x)) == total(segs) + x.rows@.len(),
    decreases segs.len(),
{
    let after = segs.insert(i, x);
    if i == segs.len() {
        assert(after.drop_last() =~= segs);
    } else {
        assert(after.drop_last() =~= segs.drop_last().insert(i, x));
        assert(after.last() == segs.last());
        lemma_total_insert(segs.drop_last(), i, x);
    }
}

proof fn lemma_total_bounds(segs: Seq<Segment>)
    ensures
        0 <= total(segs),
        forall|k: int| 0 <= k <= segs.len() ==> 0 <= #[trigger] total(segs.take(k)) <= total(segs),
    decreases segs.len(),
{
    if segs.len() > 0 {
        lemma_total_bounds(segs.drop_last());
        assert forall|k: int| 0 <= k <= segs.len() implies 0 <= #[trigger] total(segs.take(k))
            <= total(segs) by {
            if k < segs.len() {
                assert(segs.take(k) =~= segs.drop_last().take(k));
            } else {
                assert(segs.take(k) =~= segs);
            }
        }
    } else {
        assert forall|k: int| 0 <= k <= segs.len() implies 0 <= #[trigger] total(segs.take(k))
            <= total(segs) by {
            assert(segs.take(k) =~= segs);
        }
    }
}

/// The first segment whose key does not come before `key`.
fn slot_of(segs: &Vec<Segment>, key: &str) -> (r: usize)
    requires
        ascending(segs@),
    ensures
        r <= segs.len(),
        forall|i: int| 0 <= i < r ==> order::text_less((#[trigger] segs@[i]).key@, key@),
        forall|i: int|
            r <= i < segs.len() ==> !order::text_less((#[trigger] segs@[i]).key@, key@),
{
    let mut lo: usize = 0;
    let mut hi: usize = segs.len();
    while lo < hi
        invariant
            lo <= hi <= segs.len(),
            ascending(segs@),
            forall|i: int| 0 <= i < lo ==> order::text_less((#[trigger] segs@[i]).key@, key@),
            forall|i: int|
                hi <= i < segs.len() ==> !order::text_less((#[trigger] segs@[i]).key@, key@),
        decreases hi - lo,
    {
        let mid: usize = lo + (hi - lo) / 2;
        if text_before(segs[mid].key.as_str(), key) {
            proof {
                assert forall|i: int| 0 <= i < mid + 1 implies order::text_less(
                    (#[trigger] segs@[i]).key@,
                    key@,
                ) by {
                    order::lemma_text_less_total(segs@[i].key@, segs@[mid as int].key@, key@);
                }
            }
            lo = mid + 1;
        } else {
            proof {
                assert forall|i: int| mid <= i < segs.len() implies !order::text_less(
                    (#[trigger] segs@[i]).key@,
                    key@,
                ) by {
                    order::lemma_text_less_total(segs@[mid as int].key@, segs@[i].key@, key@);
                }
            }
            hi = mid;
        }
    }
    lo
}

/// Puts one more place under its key.
fn file(segs: &mut Vec<Segment>, keys: &Vec<String>, place: usize)
    requires
        place < keys.len(),
        gathers(old(segs)@, text::views(keys@), place as int),
        total(old(segs)@) == place,
    ensures
        gathers(final(segs)@, text::views(keys@), place + 1),
        total(final(segs)@) == place + 1,
{
    let ghost all = text::views(keys@);
    let ghost before = segs@;
    let at: usize = slot_of(segs, keys[place].as_str());
    let ghost key = all[place as int];
    proof {
        assert(key == keys@[place as int]@);
        assert forall|i: int| 0 <= i < before.len() && (#[trigger] before[i]).key@ == key implies i
            == at by {
            order::lemma_text_less_total(key, key, key);
            if i > at {
                assert(order::text_less(before[at as int].key@, before[i].key@));
            }
        }
    }
    let known: bool = at < segs.len() && same(segs[at].key.as_str(), keys[place].as_str());
    if known {
        segs[at].rows.push(place);
        proof {
            let seg = segs@[at as int];
            assert(segs@ =~= before.update(at as int, seg));
            lemma_total_update(before, at as int, seg);
            assert(seg.rows@ =~= places(all, key, place + 1));
            assert forall|i: int| 0 <= i < segs@.len() implies (#[trigger] segs@[i]).rows@
                == places(all, segs@[i].key@, place + 1) && segs@[i].rows@.len() > 0 by {
                if i != at {
                    assert(segs@[i] == before[i]);
                }
            }
            assert forall|i: int, j: int| 0 <= i < j < segs@.len() implies order::text_less(
                (#[trigger] segs@[i]).key@,
                (#[trigger] segs@[j]).key@,
            ) by {
                assert(before[i].key@ == segs@[i].key@ && before[j].key@ == segs@[j].key@);
            }
            assert forall|k: int| 0 <= k < place + 1 implies has_key(segs@, #[trigger] all[k]) by {
                if k < place {
                    let i = choose|i: int|
                        0 <= i < before.len() && (#[trigger] before[i]).key@ == all[k];
                    assert(segs@[i].key@ == all[k]);
                } else {
                    assert(segs@[at as int].key@ == all[k]);
                }
            }
        }
    } else {
        let mut rows: Vec<usize> = Vec::new();
        rows.push(place);
        let seg = Segment { key: keys[place].clone(), rows };
        segs.insert(at, seg);
        proof {
            assert(!has_key(before, key));
            lemma_absent(before, all, place as int, key);
            lemma_total_insert(before, at as int, seg);
            assert(seg.rows@ =~= places(all, key, place + 1));
            assert forall|i: int| 0 <= i < segs@.len() implies (#[trigger] segs@[i]).rows@
                == places(all, segs@[i].key@, place + 1) && segs@[i].rows@.len() > 0 by {
                if i < at {
                    assert(segs@[i] == before[i]);
                } else if i > at {
                    assert(segs@[i] == before[i - 1]);
                }
            }
            assert forall|i: int, j: int| 0 <= i < j < segs@.len() implies order::text_less(
                (#[trigger] segs@[i]).key@,
                (#[trigger] segs@[j]).key@,
            ) by {
                let a = if i < at {
                    i
                } else {
                    i - 1
                };
                let b = if j < at {
                    j
                } else {
                    j - 1
                };
                if i == at {
                    assert(segs@[j] == before[b]);
                    order::lemma_text_less_total(key, before[b].key@, key);
                    assert(before[b].key@ != key);
                } else if j == at {
                    assert(segs@[i] == before[a]);
                } else {
                    assert(segs@[i] == before[a] && segs@[j] == before[b]);
                }
            }
            assert forall|k: int| 0 <= k < place + 1 implies has_key(segs@, #[trigger] all[k]) by {
                if k < place {
                    let i = choose|i: int|
                        0 <= i < before.len() && (#[trigger] before[i]).key@ == all[k];
                    if i < at {
                        assert(segs@[i].key@ == all[k]);
                    } else {
                        assert(segs@[i + 1].key@ == all[k]);
                    }
                } else {
                    assert(segs@[at as int].key@ == all[k]);
                }
            }
        }
    }
}

proof fn lemma_absent(segs: Seq<Segment>, keys: Seq<Seq<char>>, n: int, key: Seq<char>)
    requires
        0 <= n <= keys.len(),
        forall|k: int| 0 <= k < n ==> has_key(segs, #[trigger] keys[k]),
        !has_key(segs, key),
    ensures
        places(keys, key, n) == Seq::<usize>::empty(),
    decreases n,
{
    if n > 0 {
        assert(has_key(segs, keys[n - 1]));
        lemma_absent(segs, keys, n - 1, key);
    }
}

/// Gathers the places of equal keys. Together the segments hold every place once.
pub fn gather(keys: &Vec<String>) -> (r: Vec<Segment>)
    ensures
        gathers(r@, text::views(keys@), keys@.len() as int),
        total(r@) == keys@.len(),
{
    let mut out: Vec<Segment> = Vec::new();
    let mut i: usize = 0;
    while i < keys.len()
        invariant
            i <= keys.len(),
            gathers(out@, text::views(keys@), i as int),
            total(out@) == i,
        decreases keys.len() - i,
    {
        file(&mut out, keys, i);
        i += 1;
    }
    out
}

pub open spec fn keys_of(segs: Seq<Segment>) -> Seq<Seq<char>> {
    Seq::new(segs.len(), |i: int| segs[i].key@)
}

/// There are as many segments as different keys.
pub proof fn law_one_segment_for_each_key(segs: Seq<Segment>, keys: Seq<Seq<char>>)
    requires
        gathers(segs, keys, keys.len() as int),
    ensures
        segs.len() == list::distinct_by(keys, |k: Seq<char>| k).len(),
{
    let same_key = |k: Seq<char>| k;
    let distinct = list::distinct_by(keys, same_key);
    let held = keys_of(segs);
    list::lemma_distinct_by(keys, same_key);
    assert(distinct.no_duplicates()) by {
        assert forall|i: int, j: int|
            0 <= i < distinct.len() && 0 <= j < distinct.len() && i != j implies distinct[i]
            != distinct[j] by {
            if i < j {
                assert(same_key(distinct[i]) != same_key(distinct[j]));
            } else {
                assert(same_key(distinct[j]) != same_key(distinct[i]));
            }
        }
    }
    assert(held.no_duplicates()) by {
        assert forall|i: int, j: int|
            0 <= i < held.len() && 0 <= j < held.len() && i != j implies held[i] != held[j] by {
            order::lemma_text_less_total(held[i], held[i], held[i]);
            if i < j {
                assert(order::text_less(segs[i].key@, segs[j].key@));
            } else {
                assert(order::text_less(segs[j].key@, segs[i].key@));
            }
        }
    }
    assert(held.to_set() =~= distinct.to_set()) by {
        assert forall|x: Seq<char>| held.to_set().contains(x) implies distinct.to_set().contains(
            x,
        ) by {
            let i = choose|i: int| 0 <= i < held.len() && held[i] == x;
            assert(segs[i].rows@.len() > 0);
            lemma_place_has_key(keys, x, keys.len() as int);
            let k = choose|k: int| 0 <= k < keys.len() && #[trigger] keys[k] == x;
            let j = choose|j: int|
                0 <= j < distinct.len() && same_key(#[trigger] distinct[j]) == same_key(keys[k]);
            assert(distinct[j] == x);
            assert(distinct.contains(x));
        }
        assert forall|x: Seq<char>| distinct.to_set().contains(x) implies held.to_set().contains(
            x,
        ) by {
            let j = choose|j: int| 0 <= j < distinct.len() && distinct[j] == x;
            assert(keys.contains(distinct[j]));
            let k = choose|k: int| 0 <= k < keys.len() && keys[k] == x;
            assert(has_key(segs, keys[k]));
            let i = choose|i: int| 0 <= i < segs.len() && (#[trigger] segs[i]).key@ == keys[k];
            assert(held[i] == x);
            assert(held.contains(x));
        }
    }
    held.unique_seq_to_set();
    distinct.unique_seq_to_set();
}

proof fn lemma_places(keys: Seq<Seq<char>>, key: Seq<char>, n: int)
    requires
        0 <= n <= keys.len(),
        n <= usize::MAX,
    ensures
        forall|r: int|
            0 <= r < n ==> (places(keys, key, n).contains(r as usize) <==> #[trigger] keys[r]
                == key),
        forall|a: int, b: int|
            0 <= a < b < places(keys, key, n).len() ==> #[trigger] places(keys, key, n)[a]
                < #[trigger] places(keys, key, n)[b],
        forall|a: int|
            0 <= a < places(keys, key, n).len() ==> #[trigger] places(keys, key, n)[a] < n,
    decreases n,
{
    if n > 0 {
        lemma_places(keys, key, n - 1);
        let front = places(keys, key, n - 1);
        let all = places(keys, key, n);
        assert forall|r: int| 0 <= r < n implies (all.contains(r as usize) <==> #[trigger] keys[r]
            == key) by {
            if all.contains(r as usize) {
                let k = choose|k: int| 0 <= k < all.len() && all[k] == r as usize;
                if k < front.len() {
                    assert(front[k] == r as usize);
                    assert(front.contains(r as usize));
                }
            }
            if keys[r] == key {
                if r < n - 1 {
                    assert(front.contains(r as usize));
                    let k = choose|k: int| 0 <= k < front.len() && front[k] == r as usize;
                    assert(all[k] == r as usize);
                } else {
                    assert(all[all.len() - 1] == r as usize);
                }
            }
        }
        assert forall|a: int, b: int| 0 <= a < b < all.len() implies #[trigger] all[a]
            < #[trigger] all[b] by {
            if b < front.len() {
                assert(all[a] == front[a] && all[b] == front[b]);
            } else {
                assert(all[a] == front[a]);
            }
        }
        assert forall|a: int| 0 <= a < all.len() implies #[trigger] all[a] < n by {
            if a < front.len() {
                assert(all[a] == front[a]);
            }
        }
    }
}

/// A segment holds the rows of its own key, all of them and no others, each once
/// and in order. No row falls into two segments, and none into no segment.
pub proof fn law_segments_hold_the_rows_of_their_key(
    segs: Seq<Segment>,
    keys: Seq<Seq<char>>,
    i: int,
    r: int,
)
    requires
        gathers(segs, keys, keys.len() as int),
        keys.len() <= usize::MAX,
        0 <= i < segs.len(),
        0 <= r < keys.len(),
    ensures
        segs[i].rows@.contains(r as usize) <==> keys[r] == segs[i].key@,
        forall|a: int, b: int|
            0 <= a < b < segs[i].rows@.len() ==> #[trigger] segs[i].rows@[a]
                < #[trigger] segs[i].rows@[b],
        exists|k: int| 0 <= k < segs.len() && (#[trigger] segs[k]).rows@.contains(r as usize),
        forall|k: int|
            0 <= k < segs.len() && k != i && (#[trigger] segs[k]).rows@.contains(r as usize)
                ==> !segs[i].rows@.contains(r as usize),
{
    lemma_places(keys, segs[i].key@, keys.len() as int);
    assert(has_key(segs, keys[r]));
    let k = choose|k: int| 0 <= k < segs.len() && (#[trigger] segs[k]).key@ == keys[r];
    lemma_places(keys, segs[k].key@, keys.len() as int);
    assert(segs[k].rows@.contains(r as usize));
    assert forall|k: int|
        0 <= k < segs.len() && k != i && (#[trigger] segs[k]).rows@.contains(
            r as usize,
        ) implies !segs[i].rows@.contains(r as usize) by {
        lemma_places(keys, segs[k].key@, keys.len() as int);
        if i < k {
            order::lemma_text_less_total(segs[i].key@, segs[k].key@, segs[i].key@);
            assert(order::text_less(segs[i].key@, segs[k].key@));
        } else {
            order::lemma_text_less_total(segs[k].key@, segs[i].key@, segs[k].key@);
            assert(order::text_less(segs[k].key@, segs[i].key@));
        }
    }
}

/// How many different texts there are.
pub fn count_distinct(keys: &Vec<String>) -> (r: usize)
    ensures
        r == list::distinct_by(text::views(keys@), |k: Seq<char>| k).len(),
        r <= keys.len(),
{
    let segs = gather(keys);
    proof {
        law_one_segment_for_each_key(segs@, text::views(keys@));
        list::lemma_distinct_by(text::views(keys@), |k: Seq<char>| k);
    }
    segs.len()
}

// ---------------------------------------------------------------------------
// Rows
// ---------------------------------------------------------------------------

/// A row counts: it passes the filters and is not of a blank group that is left out.
pub open spec fn counts(
    plan: AnalysisPlan,
    row: Seq<String>,
    normalize_text_groups: bool,
    exclude_blank_groups: bool,
) -> bool {
    table::passes(row, table::filter_views(plan.filters@)) && !(exclude_blank_groups
        && groups::is_blank_key(
        groups::group_key(
            row,
            plan.group_idxs@,
            text::views(plan.groups@),
            normalize_text_groups,
        ),
    ))
}

/// The rows below `n` that count.
pub open spec fn counted(
    plan: AnalysisPlan,
    rows: Seq<Vec<String>>,
    normalize_text_groups: bool,
    exclude_blank_groups: bool,
    n: int,
) -> Seq<usize>
    decreases n,
{
    if n <= 0 {
        Seq::empty()
    } else {
        let front = counted(plan, rows, normalize_text_groups, exclude_blank_groups, n - 1);
        if counts(plan, rows[n - 1]@, normalize_text_groups, exclude_blank_groups) {
            front.push((n - 1) as usize)
        } else {
            front
        }
    }
}

/// The cells of a row in the columns of filters are the filters' values.
pub open spec fn equals_all(row: Seq<String>, filters: Seq<table::Filter>) -> bool {
    forall|f: int|
        0 <= f < filters.len() ==> groups::cell(row, (#[trigger] filters[f]).index as int)
            == filters[f].value@
}

/// A row counts exactly where its cells equal the values of all filters and,
/// where blank groups are left out, some part of its key is not blank. The rows
/// that count stay in order.
pub proof fn law_counted_rows_pass(
    plan: AnalysisPlan,
    rows: Seq<Vec<String>>,
    normalize_text_groups: bool,
    exclude_blank_groups: bool,
    n: int,
)
    requires
        0 <= n <= rows.len(),
        n <= usize::MAX,
    ensures
        ({
            let picked = counted(plan, rows, normalize_text_groups, exclude_blank_groups, n);
            &&& forall|i: int|
                0 <= i < n ==> (picked.contains(i as usize) <==> equals_all(
                    rows[i]@,
                    plan.filters@,
                ) && (exclude_blank_groups ==> !groups::is_blank_key(
                    groups::group_key(
                        (#[trigger] rows[i])@,
                        plan.group_idxs@,
                        text::views(plan.groups@),
                        normalize_text_groups,
                    ),
                )))
            &&& forall|a: int, b: int|
                0 <= a < b < picked.len() ==> #[trigger] picked[a] < #[trigger] picked[b]
            &&& forall|a: int| 0 <= a < picked.len() ==> #[trigger] picked[a] < n
        }),
    decreases n,
{
    if n > 0 {
        law_counted_rows_pass(plan, rows, normalize_text_groups, exclude_blank_groups, n - 1);
        let front = counted(plan, rows, normalize_text_groups, exclude_blank_groups, n - 1);
        let picked = counted(plan, rows, normalize_text_groups, exclude_blank_groups, n);
        assert forall|i: int| 0 <= i < n implies (picked.contains(i as usize) <==> equals_all(
            rows[i]@,
            plan.filters@,
        ) && (exclude_blank_groups ==> !groups::is_blank_key(
            groups::group_key(
                (#[trigger] rows[i])@,
                plan.group_idxs@,
                text::views(plan.groups@),
                normalize_text_groups,
            ),
        ))) by {
            let fs = table::filter_views(plan.filters@);
            assert(fs.len() == plan.filters@.len());
            assert forall|f: int| 0 <= f < fs.len() implies #[trigger] fs[f] == plan.filters@[f]@ by {}
            let each = equals_all(rows[i]@, plan.filters@);
            assert(table::passes(rows[i]@, fs) == each) by {
                if each {
                    assert forall|f: int| 0 <= f < fs.len() implies groups::cell(
                        rows[i]@,
                        (#[trigger] fs[f]).index,
                    ) == fs[f].value by {
                        assert(fs[f] == plan.filters@[f]@);
                    }
                }
                if table::passes(rows[i]@, fs) {
                    assert forall|f: int| 0 <= f < plan.filters@.len() implies groups::cell(
                        rows[i]@,
                        (#[trigger] plan.filters@[f]).index as int,
                    ) == plan.filters@[f].value@ by {
                        assert(fs[f] == plan.filters@[f]@);
                    }
                }
            }
            if picked.contains(i as usize) {
                let k = choose|k: int| 0 <= k < picked.len() && picked[k] == i as usize;
                if k < front.len() {
                    assert(front[k] == i as usize);
                    assert(front.contains(i as usize));
                }
            }
            if i < n - 1 && front.contains(i as usize) {
                let k = choose|k: int| 0 <= k < front.len() && front[k] == i as usize;
                assert(picked[k] == i as usize);
            }
            if i == n - 1 && counts(
                plan,
                rows[i]@,
                normalize_text_groups,
                exclude_blank_groups,
            ) {
                assert(picked[picked.len() - 1] == i as usize);
            }
        }
        assert forall|a: int, b: int| 0 <= a < b < picked.len() implies #[trigger] picked[a]
            < #[trigger] picked[b] by {
            if b < front.len() {
                assert(picked[a] == front[a] && picked[b] == front[b]);
            } else {
                assert(picked[a] == front[a]);
            }
        }
        assert forall|a: int| 0 <= a < picked.len() implies #[trigger] picked[a] < n by {
            if a < front.len() {
                assert(picked[a] == front[a]);
            }
        }
    }
}

/// The group keys of rows.
pub open spec fn row_keys(
    plan: AnalysisPlan,
    rows: Seq<Vec<String>>,
    picked: Seq<usize>,
    normalize_text_groups: bool,
) -> Seq<Seq<char>> {
    picked.map_values(
        |i: usize|
            groups::group_key(
                rows[i as int]@,
                plan.group_idxs@,
                text::views(plan.groups@),
                normalize_text_groups,
            ),
    )
}

/// Rows that count, and the segments into which they fall. The places of a
/// segment are places in `rows`.
#[derive(Debug)]
pub struct Grouping {
    pub rows: Vec<usize>,
    pub segments: Vec<Segment>,
}

impl Grouping {
    /// The rows are rows of a table of `n`, and the places of the segments are
    /// places among them.
    pub open spec fn is_valid(self, n: int) -> bool {
        &&& forall|i: int| 0 <= i < self.rows@.len() ==> #[trigger] self.rows@[i] < n
        &&& forall|s: int, k: int|
            0 <= s < self.segments@.len() && 0 <= k < self.segments@[s].rows@.len()
                ==> #[trigger] self.segments@[s].rows@[k] < self.rows@.len()
    }
}

/// Picks the rows that count and gathers them by their group keys.
pub fn group_rows(
    plan: &AnalysisPlan,
    rows: &Vec<Vec<String>>,
    normalize_text_groups: bool,
    exclude_blank_groups: bool,
) -> (r: Grouping)
    ensures
        r.rows@ == counted(
            *plan,
            rows@,
            normalize_text_groups,
            exclude_blank_groups,
            rows@.len() as int,
        ),
        gathers(
            r.segments@,
            row_keys(*plan, rows@, r.rows@, normalize_text_groups),
            r.rows@.len() as int,
        ),
        total(r.segments@) == r.rows@.len(),
        r.is_valid(rows@.len() as int),
{
    let mut picked: Vec<usize> = Vec::new();
    let mut keys: Vec<String> = Vec::new();
    let mut i: usize = 0;
    assert(text::views(keys@) =~= row_keys(*plan, rows@, picked@, normalize_text_groups));
    while i < rows.len()
        invariant
            i <= rows.len(),
            picked@ == counted(
                *plan,
                rows@,
                normalize_text_groups,
                exclude_blank_groups,
                i as int,
            ),
            text::views(keys@) == row_keys(*plan, rows@, picked@, normalize_text_groups),
            forall|k: int| 0 <= k < picked@.len() ==> #[trigger] picked@[k] < rows@.len(),
        decreases rows.len() - i,
    {
        let ghost before = text::views(keys@);
        if matches_where_filters(&rows[i], &plan.filters) {
            let key = compose_group_key(
                &rows[i],
                &plan.group_idxs,
                &plan.groups,
                normalize_text_groups,
            );
            if !(exclude_blank_groups && is_blank_group_key(key.as_str())) {
                picked.push(i);
                keys.push(key);
                assert(text::views(keys@) =~= before.push(key@));
                assert(text::views(keys@) =~= row_keys(
                    *plan,
                    rows@,
                    picked@,
                    normalize_text_groups,
                ));
            }
        }
        i += 1;
    }
    let segments = gather(&keys);
    proof {
        let all = text::views(keys@);
        assert(picked@.len() == picked.len() && all.len() == picked@.len());
        assert forall|s: int, k: int|
            0 <= s < segments@.len() && 0 <= k < segments@[s].rows@.len() implies #[trigger] segments@[s].rows@[k]
            < picked@.len() by {
            lemma_places_in_range(all, segments@[s].key@, picked@.len() as int);
        }
    }
    Grouping { rows: picked, segments }
}

/// The cells of a segment's rows in one column.
pub open spec fn cells_of_segment(
    grouping: Grouping,
    rows: Seq<Vec<String>>,
    segment: int,
    column: int,
) -> Seq<Seq<char>> {
    grouping.segments@[segment].rows@.map_values(
        |place: usize| groups::cell(rows[grouping.rows@[place as int] as int]@, column),
    )
}

/// The cells of a segment's rows in one column, trimmed; empty where a row is
/// too short.
pub fn segment_cells(
    grouping: &Grouping,
    rows: &Vec<Vec<String>>,
    segment: usize,
    column: usize,
) -> (r: Vec<String>)
    requires
        grouping.is_valid(rows@.len() as int),
        segment < grouping.segments@.len(),
    ensures
        text::views(r@) == cells_of_segment(*grouping, rows@, segment as int, column as int),
        r@.len() == grouping.segments@[segment as int].rows@.len(),
{
    let places = &grouping.segments[segment].rows;
    let mut out: Vec<String> = Vec::new();
    let mut k: usize = 0;
    while k < places.len()
        invariant
            k <= places.len(),
            segment < grouping.segments@.len(),
            places@ == grouping.segments@[segment as int].rows@,
            grouping.is_valid(rows@.len() as int),
            out.len() == k,
            forall|j: int|
                0 <= j < k ==> (#[trigger] out@[j])@ == cells_of_segment(
                    *grouping,
                    rows@,
                    segment as int,
                    column as int,
                )[j],
        decreases places.len() - k,
    {
        assert(grouping.segments@[segment as int].rows@[k as int] < grouping.rows@.len());
        let place: usize = places[k];
        let row: usize = grouping.rows[place];
        out.push(cell_of(&rows[row], column));
        k += 1;
    }
    assert(text::views(out@) =~= cells_of_segment(
        *grouping,
        rows@,
        segment as int,
        column as int,
    ));
    out
}

// ---------------------------------------------------------------------------
// Words
// ---------------------------------------------------------------------------

/// The telling words of a row's name and title columns, of the first `n`.
pub open spec fn words_in_row(plan: AnalysisPlan, row: Seq<String>, n: int) -> Seq<Seq<char>>
    decreases n,
{
    if n <= 0 {
        Seq::empty()
    } else {
        words_in_row(plan, row, n - 1) + groups::telling_words(
            groups::reduced_words(
                text::lower_case(
                    groups::cell(row, plan.group_idxs@[plan.word_columns@[n - 1] as int] as int),
                ),
            ),
        )
    }
}

/// The telling words of the first `n` of the picked rows.
pub open spec fn words_in_rows(
    plan: AnalysisPlan,
    rows: Seq<Vec<String>>,
    picked: Seq<usize>,
    n: int,
) -> Seq<Seq<char>>
    decreases n,
{
    if n <= 0 {
        Seq::empty()
    } else {
        words_in_rows(plan, rows, picked, n - 1) + words_in_row(
            plan,
            rows[picked[n - 1] as int]@,
            plan.word_columns@.len() as int,
        )
    }
}

fn push_all(out: &mut Vec<String>, more: Vec<String>)
    ensures
        text::views(final(out)@) == text::views(old(out)@) + text::views(more@),
{
    let ghost before = out@;
    let mut i: usize = 0;
    while i < more.len()
        invariant
            i <= more.len(),
            out@.len() == before.len() + i,
            forall|k: int| 0 <= k < before.len() ==> #[trigger] out@[k] == before[k],
            forall|k: int|
                0 <= k < i ==> (#[trigger] more@[k])@ == out@[before.len() + k]@,
        decreases more.len() - i,
    {
        out.push(more[i].clone());
        i += 1;
    }
    assert forall|k: int| 0 <= k < out@.len() implies text::views(out@)[k] == (text::views(before)
        + text::views(more@))[k] by {
        if k >= before.len() {
            assert(more@[k - before.len()]@ == out@[k]@);
        }
    }
    assert(text::views(out@) =~= text::views(before) + text::views(more@));
}

/// The telling words of the name and title columns of the picked rows.
pub fn collect_words(plan: &AnalysisPlan, rows: &Vec<Vec<String>>, picked: &Vec<usize>) -> (r: Vec<
    String,
>)
    requires
        crate::plan::plan_in_range(*plan),
        forall|i: int| 0 <= i < picked@.len() ==> #[trigger] picked@[i] < rows@.len(),
    ensures
        text::views(r@) == words_in_rows(*plan, rows@, picked@, picked@.len() as int),
{
    let mut out: Vec<String> = Vec::new();
    let mut i: usize = 0;
    assert(text::views(out@) =~= Seq::empty());
    while i < picked.len()
        invariant
            i <= picked.len(),
            crate::plan::plan_in_range(*plan),
            forall|i: int| 0 <= i < picked@.len() ==> #[trigger] picked@[i] < rows@.len(),
            text::views(out@) == words_in_rows(*plan, rows@, picked@, i as int),
        decreases picked.len() - i,
    {
        let ghost before = text::views(out@);
        let row = &rows[picked[i]];
        let mut k: usize = 0;
        assert(before + words_in_row(*plan, row@, 0) =~= before);
        while k < plan.word_columns.len()
            invariant
                k <= plan.word_columns.len(),
                crate::plan::plan_in_range(*plan),
                text::views(out@) == before + words_in_row(*plan, row@, k as int),
            decreases plan.word_columns.len() - k,
        {
            let c: usize = plan.word_columns[k];
            let raw = cell_of(row, plan.group_idxs[c]);
            let found = tokenize_words(raw.as_str());
            push_all(&mut out, found);
            k += 1;
            assert(text::views(out@) =~= before + words_in_row(*plan, row@, k as int));
        }
        i += 1;
    }
    out
}

/// A word comes first: it is more frequent, or as frequent and earlier in the alphabet.
pub open spec fn more_frequent(a: (String, u64), b: (String, u64)) -> bool {
    b.1 < a.1 || (a.1 == b.1 && order::text_less(a.0@, b.0@))
}

fn is_more_frequent(a: &(String, u64), b: &(String, u64)) -> (r: bool)
    ensures
        r == more_frequent(*a, *b),
{
    b.1 < a.1 || (a.1 == b.1 && text_before(a.0.as_str(), b.0.as_str()))
}

/// Words with their counts, as texts.
pub open spec fn tally(segs: Seq<Segment>) -> Seq<(Seq<char>, int)> {
    Seq::new(segs.len(), |i: int| (segs[i].key@, segs[i].rows@.len() as int))
}

pub open spec fn tally_views(s: Seq<(String, u64)>) -> Seq<(Seq<char>, int)> {
    Seq::new(s.len(), |i: int| (s[i].0@, s[i].1 as int))
}

/// How often each word of a list stands there, the words ascending.
pub fn count_words(words: &Vec<String>) -> (r: Vec<(String, u64)>)
    ensures
        exists|segs: Seq<Segment>|
            gathers(segs, text::views(words@), words@.len() as int) && tally_views(r@) == #[trigger] tally(
                segs,
            ),
{
    let segs = gather(words);
    let mut out: Vec<(String, u64)> = Vec::new();
    let mut i: usize = 0;
    while i < segs.len()
        invariant
            i <= segs.len(),
            out.len() == i,
            forall|k: int|
                0 <= k < i ==> (#[trigger] out@[k]).0@ == segs@[k].key@ && out@[k].1
                    == segs@[k].rows@.len(),
        decreases segs.len() - i,
    {
        out.push((segs[i].key.clone(), segs[i].rows.len() as u64));
        i += 1;
    }
    assert(tally_views(out@) =~= tally(segs@));
    out
}

/// The most frequent words, at most `top_n`; of equally frequent ones those
/// that come first in the alphabet.
pub fn top_word_counts(counts: Vec<(String, u64)>, top_n: usize) -> (r: Vec<(String, u64)>)
    ensures
        ({
            let all = order::sorted(
                counts@,
                |a: (String, u64), b: (String, u64)| more_frequent(a, b),
            );
            r@ == if all.len() > top_n {
                all.take(top_n as int)
            } else {
                all
            }
        }),
{
    let precedes = |a: &(String, u64), b: &(String, u64)| -> (x: bool)
        ensures
            x == more_frequent(*a, *b),
        { is_more_frequent(a, b) };
    let mut all = sort_by(
        counts,
        precedes,
        Ghost(|a: (String, u64), b: (String, u64)| more_frequent(a, b)),
    );
    if all.len() > top_n {
        all.truncate(top_n);
    }
    all
}

// ---------------------------------------------------------------------------
// Periods
// ---------------------------------------------------------------------------

/// A row that falls into a window, with its key and its side.
#[derive(Debug)]
pub struct DatedRow {
    pub row: usize,
    pub side: Side,
    pub key: String,
}

/// A dated row in views.
pub struct DatedRowView {
    pub row: int,
    pub side: Side,
    pub key: Seq<char>,
}

impl View for DatedRow {
    type V = DatedRowView;

    open spec fn view(&self) -> DatedRowView {
        DatedRowView { row: self.row as int, side: self.side, key: self.key@ }
    }
}

pub open spec fn dated_views(s: Seq<DatedRow>) -> Seq<DatedRowView> {
    Seq::new(s.len(), |i: int| s[i]@)
}

/// The side of a day: a day of both windows is current.
pub open spec fn side_current_first(w: WindowSet, d: crate::dates::Date) -> Side {
    if w.is_current(d) {
        Side::Current
    } else if w.is_previous(d) {
        Side::Previous
    } else {
        Side::Neither
    }
}

/// The side of a row.
pub open spec fn row_side(row: Seq<String>, date_idx: int, w: WindowSet) -> Side {
    match periods::cell_day(groups::cell(row, date_idx)) {
        None => Side::Neither,
        Some(d) => side_current_first(w, d),
    }
}

/// The first `n` picked rows that fall into a window.
pub open spec fn dated(
    plan: AnalysisPlan,
    rows: Seq<Vec<String>>,
    picked: Seq<usize>,
    w: WindowSet,
    normalize_text_groups: bool,
    n: int,
) -> Seq<DatedRowView>
    decreases n,
{
    if n <= 0 || plan.date_idx is None {
        Seq::empty()
    } else {
        let front = dated(plan, rows, picked, w, normalize_text_groups, n - 1);
        let row = rows[picked[n - 1] as int]@;
        let side = row_side(row, plan.date_idx->0 as int, w);
        if side == Side::Neither {
            front
        } else {
            front.push(
                DatedRowView {
                    row: picked[n - 1] as int,
                    side,
                    key: groups::group_key(
                        row,
                        plan.period_group_idxs@,
                        text::views(plan.period_groups@),
                        normalize_text_groups,
                    ),
                },
            )
        }
    }
}

/// The date cell of one of the first `n` picked rows cannot be cut at its tenth byte.
pub open spec fn dates_blocked(
    plan: AnalysisPlan,
    rows: Seq<Vec<String>>,
    picked: Seq<usize>,
    n: int,
) -> bool {
    plan.date_idx is Some && exists|i: int|
        0 <= i < n && !periods::is_sliceable(
            text::trim(groups::cell(#[trigger] rows[picked[i] as int]@, plan.date_idx->0 as int)),
        )
}

/// The picked rows that fall into one of the two windows, each with its side
/// and its key. There is no answer where a date cell has a multi-byte
/// character across its tenth byte.
#[verifier::loop_isolation(false)]
pub fn date_rows(
    plan: &AnalysisPlan,
    rows: &Vec<Vec<String>>,
    picked: &Vec<usize>,
    windows: WindowSet,
    normalize_text_groups: bool,
) -> (r: Option<Vec<DatedRow>>)
    requires
        forall|i: int| 0 <= i < picked@.len() ==> #[trigger] picked@[i] < rows@.len(),
    ensures
        match r {
            Some(v) => !dates_blocked(*plan, rows@, picked@, picked@.len() as int) && dated_views(
                v@,
            ) == dated(
                *plan,
                rows@,
                picked@,
                windows,
                normalize_text_groups,
                picked@.len() as int,
            ),
            None => dates_blocked(*plan, rows@, picked@, picked@.len() as int),
        },
{
    let mut out: Vec<DatedRow> = Vec::new();
    assert(dated_views(out@) =~= Seq::empty());
    let idx: usize = match plan.date_idx {
        None => {
            return Some(out);
        },
        Some(k) => k,
    };
    let mut i: usize = 0;
    while i < picked.len()
        invariant
            i <= picked.len(),
            !dates_blocked(*plan, rows@, picked@, i as int),
            dated_views(out@) == dated(
                *plan,
                rows@,
                picked@,
                windows,
                normalize_text_groups,
                i as int,
            ),
        decreases picked.len() - i,
    {
        let ghost before = dated_views(out@);
        let row = &rows[picked[i]];
        let raw = cell_of(row, idx);
        if !can_parse_date(raw.as_str()) {
            assert(!periods::is_sliceable(text::trim(groups::cell(row@, idx as int))));
            assert(rows@[picked@[i as int] as int]@ == row@);
            return None;
        }
        let side = match parse_date_like(raw.as_str()) {
            None => Side::Neither,
            Some(d) => if windows.in_current(d) {
                Side::Current
            } else if windows.in_previous(d) {
                Side::Previous
            } else {
                Side::Neither
            },
        };
        match side {
            Side::Neither => {},
            _ => {
                let key = compose_group_key(
                    row,
                    &plan.period_group_idxs,
                    &plan.period_groups,
                    normalize_text_groups,
                );
                out.push(DatedRow { row: picked[i], side, key });
                assert(dated_views(out@) =~= before.push(out@.last()@));
            },
        }
        i += 1;
    }
    Some(out)
}

/// The number of rows of a side.
pub open spec fn on_side(rows: Seq<DatedRowView>, side: Side) -> int {
    list::keep(rows, |r: DatedRowView| r.side == side).len() as int
}

/// How many rows are current and how many previous.
pub fn count_sides(rows: &Vec<DatedRow>) -> (r: (u64, u64))
    ensures
        r.0 == on_side(dated_views(rows@), Side::Current),
        r.1 == on_side(dated_views(rows@), Side::Previous),
{
    let ghost all = dated_views(rows@);
    let ghost c = |r: DatedRowView| r.side == Side::Current;
    let ghost p = |r: DatedRowView| r.side == Side::Previous;
    let mut current: u64 = 0;
    let mut previous: u64 = 0;
    let mut i: usize = 0;
    while i < rows.len()
        invariant
            i <= rows.len(),
            all == dated_views(rows@),
            c == (|r: DatedRowView| r.side == Side::Current),
            p == (|r: DatedRowView| r.side == Side::Previous),
            current <= i,
            previous <= i,
            current == list::keep(all.take(i as int), c).len(),
            previous == list::keep(all.take(i as int), p).len(),
        decreases rows.len() - i,
    {
        assert(all.take(i + 1).drop_last() =~= all.take(i as int));
        assert(all[i as int] == rows@[i as int]@);
        match rows[i].side {
            Side::Current => {
                current += 1;
            },
            Side::Previous => {
                previous += 1;
            },
            Side::Neither => {},
        }
        i += 1;
    }
    assert(all.take(all.len() as int) =~= all);
    (current, previous)
}

// ---------------------------------------------------------------------------
// Ranking
// ---------------------------------------------------------------------------

/// A segment that is ranked: its place among the segments, its number of
/// records, and the value by which it is ranked.
#[derive(Clone, Copy, Debug)]
pub struct Ranked {
    pub segment: usize,
    pub count: u64,
    pub value: Num,
}

pub open spec fn higher(a: Ranked, b: Ranked) -> bool {
    b.value.lt(a.value)
}

pub open spec fn lower(a: Ranked, b: Ranked) -> bool {
    a.value.lt(b.value)
}

pub open spec fn larger(a: Ranked, b: Ranked) -> bool {
    b.count < a.count
}

/// The segments with enough records, in the order of the segments.
pub open spec fn large_enough(items: Seq<Ranked>, min_records: u64) -> Seq<Ranked> {
    list::keep(items, |x: Ranked| x.count >= min_records)
}

/// The segments with at least `min_records` records.
pub fn keep_large(items: &Vec<Ranked>, min_records: u64) -> (r: Vec<Ranked>)
    ensures
        r@ == large_enough(items@, min_records),
{
    let ghost p = |x: Ranked| x.count >= min_records;
    let mut out: Vec<Ranked> = Vec::new();
    let mut i: usize = 0;
    while i < items.len()
        invariant
            i <= items.len(),
            p == (|x: Ranked| x.count >= min_records),
            out@ == list::keep(items@.take(i as int), p),
        decreases items.len() - i,
    {
        assert(items@.take(i + 1).drop_last() =~= items@.take(i as int));
        if items[i].count >= min_records {
            out.push(items[i]);
        }
        i += 1;
    }
    assert(items@.take(items@.len() as int) =~= items@);
    out
}

/// Puts the highest values first; equal values keep their order.
pub fn rank_by_value(items: Vec<Ranked>) -> (r: Vec<Ranked>)
    ensures
        r@ == order::sorted(items@, |a: Ranked, b: Ranked| higher(a, b)),
{
    let precedes = |a: &Ranked, b: &Ranked| -> (x: bool)
        ensures
            x == higher(*a, *b),
        { b.value.less(a.value) };
    sort_by(items, precedes, Ghost(|a: Ranked, b: Ranked| higher(a, b)))
}

/// Puts the lowest values first; equal values keep their order.
pub fn rank_by_value_ascending(items: Vec<Ranked>) -> (r: Vec<Ranked>)
    ensures
        r@ == order::sorted(items@, |a: Ranked, b: Ranked| lower(a, b)),
{
    let precedes = |a: &Ranked, b: &Ranked| -> (x: bool)
        ensures
            x == lower(*a, *b),
        { a.value.less(b.value) };
    sort_by(items, precedes, Ghost(|a: Ranked, b: Ranked| lower(a, b)))
}

/// Puts the segments with the most records first; equal ones keep their order.
pub fn rank_by_count(items: Vec<Ranked>) -> (r: Vec<Ranked>)
    ensures
        r@ == order::sorted(items@, |a: Ranked, b: Ranked| larger(a, b)),
{
    let precedes = |a: &Ranked, b: &Ranked| -> (x: bool)
        ensures
            x == larger(*a, *b),
        { b.count < a.count };
    sort_by(items, precedes, Ghost(|a: Ranked, b: Ranked| larger(a, b)))
}

/// The ranked segments: those with enough records, by value or by count.
pub open spec fn ranking(items: Seq<Ranked>, min_records: u64, by_value: bool) -> Seq<Ranked> {
    if by_value {
        order::sorted(large_enough(items, min_records), |a: Ranked, b: Ranked| higher(a, b))
    } else {
        order::sorted(large_enough(items, min_records), |a: Ranked, b: Ranked| larger(a, b))
    }
}

/// Ranks the segments that have enough records.
pub fn rank_segments(items: &Vec<Ranked>, min_records: u64, by_value: bool) -> (r: Vec<Ranked>)
    ensures
        r@ == ranking(items@, min_records, by_value),
{
    let kept = keep_large(items, min_records);
    if by_value {
        rank_by_value(kept)
    } else {
        rank_by_count(kept)
    }
}

/// A ranking by count never puts a smaller segment before a larger one.
pub proof fn law_ranking_descends(items: Seq<Ranked>, min_records: u64)
    ensures
        forall|i: int, j: int|
            #![trigger ranking(items, min_records, false)[i], ranking(items, min_records, false)[j]]
            0 <= i < j < ranking(items, min_records, false).len() ==> ranking(
                items,
                min_records,
                false,
            )[j].count <= ranking(items, min_records, false)[i].count,
{
    let before = |a: Ranked, b: Ranked| larger(a, b);
    order::lemma_sorted_in_order(large_enough(items, min_records), before);
    let s = ranking(items, min_records, false);
    assert forall|i: int, j: int| #![trigger s[i], s[j]] 0 <= i < j < s.len() implies s[j].count
        <= s[i].count by {
        assert(!before(s[j], s[i]));
    }
}

/// The last of the largest segments that are not blank, among the first `n` ranked ones.
pub open spec fn largest(ranked: Seq<Ranked>, segs: Seq<Segment>, n: int) -> Option<int>
    decreases n,
{
    if n <= 0 {
        None
    } else {
        let front = largest(ranked, segs, n - 1);
        let x = ranked[n - 1];
        if groups::is_blank_key(segs[x.segment as int].key@) {
            front
        } else {
            match front {
                None => Some(n - 1),
                Some(i) => if ranked[i].count <= x.count {
                    Some(n - 1)
                } else {
                    front
                },
            }
        }
    }
}

/// The segment that is reported as the largest: of those that are not blank
/// the last with the most records, and where all are blank the first.
pub open spec fn reported_largest(ranked: Seq<Ranked>, segs: Seq<Segment>) -> Option<int> {
    match largest(ranked, segs, ranked.len() as int) {
        Some(i) => Some(i),
        None => if ranked.len() > 0 {
            Some(0)
        } else {
            None
        },
    }
}

/// The place, in the ranking, of the segment that is reported as the largest.
pub fn largest_segment(ranked: &Vec<Ranked>, segs: &Vec<Segment>) -> (r: Option<usize>)
    requires
        forall|i: int| 0 <= i < ranked.len() ==> (#[trigger] ranked@[i]).segment < segs.len(),
    ensures
        match r {
            Some(i) => i < ranked.len() && reported_largest(ranked@, segs@) == Some(i as int),
            None => reported_largest(ranked@, segs@) is None,
        },
{
    let mut best: Option<usize> = None;
    let mut i: usize = 0;
    while i < ranked.len()
        invariant
            i <= ranked.len(),
            forall|i: int| 0 <= i < ranked.len() ==> (#[trigger] ranked@[i]).segment < segs.len(),
            match best {
                Some(b) => b < i && largest(ranked@, segs@, i as int) == Some(b as int),
                None => largest(ranked@, segs@, i as int) is None,
            },
        decreases ranked.len() - i,
    {
        let x = ranked[i];
        if !is_blank_group_key(segs[x.segment].key.as_str()) {
            match best {
                None => {
                    best = Some(i);
                },
                Some(b) => {
                    if ranked[b].count <= x.count {
                        best = Some(i);
                    }
                },
            }
        }
        i += 1;
    }
    match best {
        Some(b) => Some(b),
        None => if ranked.len() > 0 {
            Some(0)
        } else {
            None
        },
    }
}

/// The records of the first `n` ranked segments.
pub open spec fn records_of(ranked: Seq<Ranked>, n: int) -> int
    decreases n,
{
    if n <= 0 {
        0
    } else {
        records_of(ranked, n - 1) + ranked[n - 1].count
    }
}

/// The records of the first five ranked segments.
pub fn top_five_records(ranked: &Vec<Ranked>) -> (r: u128)
    ensures
        r == records_of(
            ranked@,
            if ranked@.len() < 5 {
                ranked@.len() as int
            } else {
                5
            },
        ),
{
    let n: usize = if ranked.len() < 5 {
        ranked.len()
    } else {
        5
    };
    let mut sum: u128 = 0;
    let mut i: usize = 0;
    while i < n
        invariant
            i <= n <= ranked.len(),
            n <= 5,
            sum == records_of(ranked@, i as int),
            sum <= i * 0xffff_ffff_ffff_ffff,
        decreases n - i,
    {
        sum = sum + ranked[i].count as u128;
        i += 1;
    }
    sum
}

/// The records of the blank segments among the first `n`.
pub open spec fn blank_total(segs: Seq<Segment>, n: int) -> int
    decreases n,
{
    if n <= 0 {
        0
    } else if groups::is_blank_key(segs[n - 1].key@) {
        blank_total(segs, n - 1) + segs[n - 1].rows@.len()
    } else {
        blank_total(segs, n - 1)
    }
}

/// The records of the blank segments.
pub fn blank_records(segs: &Vec<Segment>) -> (r: usize)
    requires
        total(segs@) <= usize::MAX,
    ensures
        r == blank_total(segs@, segs@.len() as int),
        r <= total(segs@),
{
    let mut sum: usize = 0;
    let mut i: usize = 0;
    proof {
        lemma_total_bounds(segs@);
    }
    while i < segs.len()
        invariant
            i <= segs.len(),
            total(segs@) <= usize::MAX,
            sum == blank_total(segs@, i as int),
            sum <= total(segs@.take(i as int)),
            forall|k: int|
                0 <= k <= segs@.len() ==> 0 <= #[trigger] total(segs@.take(k)) <= total(segs@),
        decreases segs.len() - i,
    {
        assert(segs@.take(i + 1).drop_last() =~= segs@.take(i as int));
        assert(total(segs@.take(i + 1)) <= total(segs@));
        if is_blank_group_key(segs[i].key.as_str()) {
            sum += segs[i].rows.len();
        }
        i += 1;
    }
    assert(segs@.take(segs@.len() as int) =~= segs@);
    sum
}

/// No segment with too few records is ranked, whatever the ranking goes by.
pub proof fn law_ranked_segments_are_large(items: Seq<Ranked>, min_records: u64, by_value: bool)
    ensures
        forall|i: int|
            0 <= i < ranking(items, min_records, by_value).len() ==> (#[trigger] ranking(
                items,
                min_records,
                by_value,
            )[i]).count >= min_records,
{
    let p = |x: Ranked| x.count >= min_records;
    let kept = large_enough(items, min_records);
    let before = if by_value {
        |a: Ranked, b: Ranked| higher(a, b)
    } else {
        |a: Ranked, b: Ranked| larger(a, b)
    };
    let s = ranking(items, min_records, by_value);
    list::lemma_keep(items, p);
    order::lemma_sorted_permutation(kept, before);
    s.to_multiset_ensures();
    kept.to_multiset_ensures();
    assert forall|i: int| 0 <= i < s.len() implies (#[trigger] s[i]).count >= min_records by {
        assert(s.to_multiset().count(s[i]) > 0);
        assert(kept.contains(s[i]));
        let k = choose|k: int| 0 <= k < kept.len() && kept[k] == s[i];
        assert(p(kept[k]));
    }
}

/// A ranking holds all segments with enough records and no others: by their
/// values, or else by their numbers of records, the highest first. Equal ones
/// keep their order. Every value is taken to be a number.
pub proof fn law_ranking_puts_the_highest_first(
    items: Seq<Ranked>,
    min_records: u64,
    by_value: bool,
)
    requires
        forall|i: int| 0 <= i < items.len() ==> !(#[trigger] items[i]).value.is_nan(),
    ensures
        ranking(items, min_records, by_value).to_multiset() == list::keep(
            items,
            |x: Ranked| min_records <= x.count,
        ).to_multiset(),
        forall|i: int, j: int|
            0 <= i < j < ranking(items, min_records, by_value).len() ==> if by_value {
                !(#[trigger] ranking(items, min_records, by_value)[i]).value.lt(
                    (#[trigger] ranking(items, min_records, by_value)[j]).value,
                )
            } else {
                ranking(items, min_records, by_value)[i].count >= ranking(
                    items,
                    min_records,
                    by_value,
                )[j].count
            },
        order::ties_stay(
            ranking(items, min_records, by_value),
            list::keep(items, |x: Ranked| min_records <= x.count),
            |x: Ranked|
                if by_value {
                    x.value.rank()
                } else {
                    x.count as int
                },
        ),
{
    let p = |x: Ranked| min_records <= x.count;
    let kept = list::keep(items, p);
    let rank = |x: Ranked|
        if by_value {
            x.value.rank()
        } else {
            x.count as int
        };
    list::lemma_keep(items, p);
    list::lemma_keep_agrees(items, p, |x: Ranked| x.count >= min_records);
    assert(large_enough(items, min_records) == kept);
    let before = if by_value {
        |a: Ranked, b: Ranked| higher(a, b)
    } else {
        |a: Ranked, b: Ranked| larger(a, b)
    };
    assert forall|a: Ranked, b: Ranked| kept.contains(a) && kept.contains(b) implies (
    #[trigger] before(a, b) <==> rank(a) > rank(b)) by {
        let i = choose|i: int| 0 <= i < kept.len() && kept[i] == a;
        let j = choose|j: int| 0 <= j < kept.len() && kept[j] == b;
        assert(items.contains(kept[i]) && items.contains(kept[j]));
    }
    let r = ranking(items, min_records, by_value);
    assert(r == order::sorted(kept, before));
    order::lemma_sorted_permutation(kept, before);
    order::lemma_sorted_contains(kept, before);
    order::lemma_sorted_falls(kept, before, rank);
    order::lemma_ties_stay(kept, before, rank, kept.len() as int);
    assert(r.take(r.len() as int) =~= r);
    assert forall|i: int, j: int| 0 <= i < j < r.len() implies if by_value {
        !(#[trigger] r[i]).value.lt((#[trigger] r[j]).value)
    } else {
        r[i].count >= r[j].count
    } by {
        assert(rank(r[i]) >= rank(r[j]));
    }
}

proof fn lemma_largest(ranked: Seq<Ranked>, segs: Seq<Segment>, n: int)
    requires
        0 <= n <= ranked.len(),
    ensures
        match largest(ranked, segs, n) {
            Some(i) => 0 <= i < n && !groups::is_blank_key(segs[ranked[i].segment as int].key@)
                && forall|k: int|
                0 <= k < n && !groups::is_blank_key(
                    segs[(#[trigger] ranked[k]).segment as int].key@,
                ) ==> ranked[k].count <= ranked[i].count,
            None => forall|k: int|
                0 <= k < n ==> groups::is_blank_key(
                    segs[(#[trigger] ranked[k]).segment as int].key@,
                ),
        },
    decreases n,
{
    if n > 0 {
        lemma_largest(ranked, segs, n - 1);
    }
}

/// The segment that is reported as the largest has a name where any ranked one
/// has, and no named one has more records. There is one where any is ranked.
pub proof fn law_reported_largest_has_most_records(ranked: Seq<Ranked>, segs: Seq<Segment>)
    ensures
        match reported_largest(ranked, segs) {
            Some(i) => 0 <= i < ranked.len() && forall|k: int|
                0 <= k < ranked.len() && !groups::is_blank_key(
                    segs[(#[trigger] ranked[k]).segment as int].key@,
                ) ==> ranked[k].count <= ranked[i].count && !groups::is_blank_key(
                    segs[ranked[i].segment as int].key@,
                ),
            None => ranked.len() == 0,
        },
{
    lemma_largest(ranked, segs, ranked.len() as int);
}

/// The records without a group are those of the segments whose key is blank.
pub proof fn law_blank_records_are_those_of_blank_keys(segs: Seq<Segment>, n: int)
    requires
        0 <= n <= segs.len(),
    ensures
        blank_total(segs, n) == total(
            list::keep(segs.take(n), |s: Segment| groups::is_blank_key(s.key@)),
        ),
    decreases n,
{
    let p = |s: Segment| groups::is_blank_key(s.key@);
    if n > 0 {
        law_blank_records_are_those_of_blank_keys(segs, n - 1);
        assert(segs.take(n).drop_last() =~= segs.take(n - 1));
        let front = list::keep(segs.take(n - 1), p);
        if p(segs[n - 1]) {
            assert(front.push(segs[n - 1]).drop_last() =~= front);
        }
    }
}

/// The records of the first ranked segments.
pub open spec fn record_counts(ranked: Seq<Ranked>) -> Seq<int> {
    ranked.map_values(|r: Ranked| r.count as int)
}

/// The records of ranked segments are the sum of their numbers of records.
pub proof fn law_records_add_up(ranked: Seq<Ranked>, n: int)
    requires
        0 <= n <= ranked.len(),
    ensures
        records_of(ranked, n) == record_counts(ranked.take(n)).fold_right(
            |x: int, sum: int| x + sum,
            0int,
        ),
    decreases n,
{
    let f = |x: int, sum: int| x + sum;
    if n > 0 {
        law_records_add_up(ranked, n - 1);
        let all = record_counts(ranked.take(n));
        assert(all.drop_last() =~= record_counts(ranked.take(n - 1)));
        assert(all.last() == ranked[n - 1].count);
        lemma_sum_from(all.drop_last(), all.last());
    } else {
        assert(record_counts(ranked.take(0)) =~= Seq::empty());
    }
}

proof fn lemma_sum_from(s: Seq<int>, start: int)
    ensures
        s.fold_right(|x: int, sum: int| x + sum, start) == s.fold_right(
            |x: int, sum: int| x + sum,
            0int,
        ) + start,
    decreases s.len(),
{
    let f = |x: int, sum: int| x + sum;
    if s.len() > 0 {
        lemma_sum_from(s.drop_last(), s.last() + start);
        lemma_sum_from(s.drop_last(), s.last() + 0);
    }
}

/// The words that are told are the ones that occur most often, the most frequent
/// first, and of equally frequent ones those that come first in the order of
/// texts.
pub proof fn law_told_words_are_the_most_frequent(counts: Seq<(String, u64)>, top_n: int)
    requires
        0 <= top_n,
    ensures
        ({
            let all = order::sorted(
                counts,
                |a: (String, u64), b: (String, u64)| more_frequent(a, b),
            );
            let kept = if all.len() > top_n {
                all.take(top_n)
            } else {
                all
            };
            &&& order::takes_highest(kept, counts, |c: (String, u64)| c.1 as int, top_n)
            &&& order::falls_by_name(
                kept,
                |c: (String, u64)| c.1 as int,
                |c: (String, u64)| c.0@,
            )
        }),
{
    let before = |a: (String, u64), b: (String, u64)| more_frequent(a, b);
    let rank = |c: (String, u64)| c.1 as int;
    let name = |c: (String, u64)| c.0@;
    let all = order::sorted(counts, before);
    order::lemma_sorted_permutation(counts, before);
    order::lemma_takes_highest(counts, before, rank, top_n);
    order::lemma_falls_by_name(counts, before, rank, name);
    let kept = if all.len() > top_n {
        all.take(top_n)
    } else {
        all
    };
    assert(all.take(all.len() as int) =~= all);
    assert forall|i: int| 0 <= i < kept.len() implies #[trigger] kept[i] == all[i] by {}
}

/// A counted row is told of a window exactly where its day lies in the window,
/// the first and the last day included; a day that lies in both counts as
/// current. It is told under its own key.
pub open spec fn is_told_of(
    d: DatedRowView,
    plan: AnalysisPlan,
    rows: Seq<Vec<String>>,
    w: WindowSet,
    normalize_text_groups: bool,
) -> bool {
    let row = rows[d.row]@;
    match periods::cell_day(groups::cell(row, plan.date_idx->0 as int)) {
        None => false,
        Some(day) => {
            &&& match d.side {
                Side::Current => w.current_start.le(day) && day.le(w.current_end),
                Side::Previous => w.previous_start.le(day) && day.le(w.previous_end) && !(
                w.current_start.le(day) && day.le(w.current_end)),
                Side::Neither => false,
            }
            &&& d.key == groups::group_key(
                row,
                plan.period_group_idxs@,
                text::views(plan.period_groups@),
                normalize_text_groups,
            )
        },
    }
}

/// The dated rows are the counted rows whose day lies in a window, each on its
/// side and in order.
pub proof fn law_dated_rows_lie_in_their_windows(
    plan: AnalysisPlan,
    rows: Seq<Vec<String>>,
    picked: Seq<usize>,
    w: WindowSet,
    normalize_text_groups: bool,
    n: int,
)
    requires
        plan.date_idx is Some,
        0 <= n <= picked.len(),
    ensures
        ({
            let all = dated(plan, rows, picked, w, normalize_text_groups, n);
            &&& forall|k: int|
                0 <= k < all.len() ==> is_told_of(
                    #[trigger] all[k],
                    plan,
                    rows,
                    w,
                    normalize_text_groups,
                )
            &&& all.map_values(|d: DatedRowView| d.row) == list::keep(
                picked.take(n),
                |i: usize| in_some_window(rows[i as int]@, plan.date_idx->0 as int, w),
            ).map_values(|i: usize| i as int)
        }),
    decreases n,
{
    let all = dated(plan, rows, picked, w, normalize_text_groups, n);
    let row_of = |d: DatedRowView| d.row;
    let inside = |i: usize| in_some_window(rows[i as int]@, plan.date_idx->0 as int, w);
    let as_int = |i: usize| i as int;
    if n > 0 {
        law_dated_rows_lie_in_their_windows(plan, rows, picked, w, normalize_text_groups, n - 1);
        let front = dated(plan, rows, picked, w, normalize_text_groups, n - 1);
        assert(picked.take(n).drop_last() =~= picked.take(n - 1));
        let last = picked[n - 1];
        if inside(last) {
            assert(all.map_values(row_of) =~= front.map_values(row_of).push(last as int));
            assert(list::keep(picked.take(n), inside).map_values(as_int) =~= list::keep(
                picked.take(n - 1),
                inside,
            ).map_values(as_int).push(last as int));
        }
        assert forall|k: int| 0 <= k < all.len() implies is_told_of(
            #[trigger] all[k],
            plan,
            rows,
            w,
            normalize_text_groups,
        ) by {
            if k < front.len() {
                assert(all[k] == front[k]);
            }
        }
    } else {
        assert(all.map_values(row_of) =~= list::keep(picked.take(n), inside).map_values(as_int));
    }
}

/// The day of a row lies in one of two windows.
pub open spec fn in_some_window(row: Seq<String>, date_idx: int, w: WindowSet) -> bool {
    match periods::cell_day(groups::cell(row, date_idx)) {
        None => false,
        Some(day) => (w.current_start.le(day) && day.le(w.current_end)) || (w.previous_start.le(day)
            && day.le(w.previous_end)),
    }
}

/// A tally tells every key with the number of its places.
pub proof fn law_tallies_count_every_key(segs: Seq<Segment>, keys: Seq<Seq<char>>, key: Seq<char>)
    requires
        gathers(segs, keys, keys.len() as int),
        keys.contains(key),
    ensures
        tally(segs).contains((key, places(keys, key, keys.len() as int).len() as int)),
{
    let k = choose|k: int| 0 <= k < keys.len() && keys[k] == key;
    assert(has_key(segs, keys[k]));
    let i = choose|i: int| 0 <= i < segs.len() && (#[trigger] segs[i]).key@ == key;
    assert(segs[i].rows@ == places(keys, segs[i].key@, keys.len() as int));
    assert(tally(segs)[i] == (key, places(keys, key, keys.len() as int).len() as int));
}

/// The words of a row are the telling words of its word columns.
pub proof fn law_words_come_from_the_word_columns(
    plan: AnalysisPlan,
    row: Seq<String>,
    n: int,
    c: int,
    w: Seq<char>,
)
    requires
        0 <= c < n <= plan.word_columns@.len(),
        groups::telling_words(
            groups::reduced_words(
                text::lower_case(
                    groups::cell(row, plan.group_idxs@[plan.word_columns@[c] as int] as int),
                ),
            ),
        ).contains(w),
    ensures
        words_in_row(plan, row, n).contains(w),
    decreases n,
{
    let front = words_in_row(plan, row, n - 1);
    let all = words_in_row(plan, row, n);
    let added = groups::telling_words(
        groups::reduced_words(
            text::lower_case(
                groups::cell(row, plan.group_idxs@[plan.word_columns@[n - 1] as int] as int),
            ),
        ),
    );
    if c < n - 1 {
        law_words_come_from_the_word_columns(plan, row, n - 1, c, w);
        let k = choose|k: int| 0 <= k < front.len() && front[k] == w;
        assert(all[k] == w);
    } else {
        let k = choose|k: int| 0 <= k < added.len() && added[k] == w;
        assert(all[front.len() + k] == w);
    }
}

/// The keys of the rows are those of the picked rows, in their order.
pub proof fn law_row_keys_are_those_of_the_picked_rows(
    plan: AnalysisPlan,
    rows: Seq<Vec<String>>,
    picked: Seq<usize>,
    normalize_text_groups: bool,
    i: int,
)
    requires
        0 <= i < picked.len(),
    ensures
        row_keys(plan, rows, picked, normalize_text_groups).len() == picked.len(),
        row_keys(plan, rows, picked, normalize_text_groups)[i] == groups::group_key(
            rows[picked[i] as int]@,
            plan.group_idxs@,
            text::views(plan.groups@),
            normalize_text_groups,
        ),
{
}

} // verus!
