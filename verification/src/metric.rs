//! Metric names and the spellings under which a metric is recognised.

use vstd::prelude::*;

use crate::order;
use crate::order::text_before;
use crate::scan;
use crate::scan::{ends, length, slice, split_at_first};
use crate::text;
use crate::text::{chars_of, digit, letter, same, to_lower};

verus! {

/// A metric name reduced to its letters and digits, in lower case.
pub open spec fn reduced(s: Seq<char>) -> Seq<char> {
    text::keep_chars(text::lower(s), |c: char| text::is_word_char(c))
}

/// Reduces a metric name to its ASCII letters and digits, in lower case.
pub fn normalize_metric_name(s: &str) -> (r: String)
    ensures
        r@ == reduced(s@),
{
    let l = to_lower(s);
    let v = chars_of(l.as_str());
    let ghost p = |c: char| text::is_word_char(c);
    let mut out = String::new();
    let mut i: usize = 0;
    while i < v.len()
        invariant
            i <= v.len(),
            v@ == text::lower(s@),
            p == (|c: char| text::is_word_char(c)),
            out@ == text::keep_chars(v@.take(i as int), p),
        decreases v.len() - i,
    {
        assert(v@.take(i + 1).drop_last() =~= v@.take(i as int));
        if letter(v[i]) || digit(v[i]) {
            out.push(v[i]);
        }
        i += 1;
    }
    assert(v@.take(v@.len() as int) =~= v@);
    out
}

/// `x` is what is left of the metric's name without the unit suffix.
pub open spec fn alias_without(expected: Seq<char>, suffix: Seq<char>, x: Seq<char>) -> bool {
    let l = text::lower(expected);
    scan::ends_with(l, suffix) && x == reduced(l.take(l.len() - suffix.len()))
}

/// `x` is the first part of a metric's name that has parts.
pub open spec fn alias_head(expected: Seq<char>, x: Seq<char>) -> bool {
    match scan::split_once(text::lower(expected), "_"@) {
        Some(p) => x == reduced(p.0),
        None => false,
    }
}

/// The spellings of a metric: its reduced name, the name without a unit suffix
/// and the first part of the name, as far as they are not empty.
pub open spec fn is_alias(expected: Seq<char>, x: Seq<char>) -> bool {
    x.len() > 0 && (x == reduced(expected) || alias_without(expected, "_usd"@, x) || alias_without(
        expected,
        "_amount"@,
        x,
    ) || alias_without(expected, "_pct"@, x) || alias_without(expected, "_rate"@, x)
        || alias_without(expected, "_ratio"@, x) || alias_head(expected, x))
}

/// In ascending order, without repetition.
pub open spec fn ascending(s: Seq<Seq<char>>) -> bool {
    forall|i: int, j: int|
        0 <= i < j < s.len() ==> order::text_less(#[trigger] s[i], #[trigger] s[j])
}

/// Files a text in an ascending list, unless it is there.
pub fn insert_ascending(list: &mut Vec<String>, x: String)
    requires
        ascending(text::views(old(list)@)),
    ensures
        ascending(text::views(final(list)@)),
        forall|y: Seq<char>| #[trigger]
            text::views(final(list)@).contains(y) <==> text::views(old(list)@).contains(y) || y
                == x@,
{
    let ghost start = text::views(list@);
    let mut k: usize = 0;
    while k < list.len() && text_before(list[k].as_str(), x.as_str())
        invariant
            k <= list.len(),
            text::views(list@) == start,
            forall|j: int| 0 <= j < k ==> order::text_less(start[j], x@),
        decreases list.len() - k,
    {
        k += 1;
    }
    if k < list.len() && same(list[k].as_str(), x.as_str()) {
        assert(start[k as int] == x@);
        return;
    }
    list.insert(k, x);
    let ghost end = text::views(list@);
    assert(end =~= start.insert(k as int, x@));
    proof {
        assert forall|i: int, j: int| 0 <= i < j < end.len() implies order::text_less(
            #[trigger] end[i],
            #[trigger] end[j],
        ) by {
            let a = if i < k {
                i
            } else {
                i - 1
            };
            let b = if j < k {
                j
            } else {
                j - 1
            };
            if i == k {
                assert(end[j] == start[b]);
                order::lemma_text_less_total(x@, start[k as int], start[b]);
                if b > k {
                    assert(order::text_less(start[k as int], start[b]));
                }
            } else if j == k {
                assert(end[i] == start[i]);
            } else {
                assert(end[i] == start[a] && end[j] == start[b]);
            }
        }
        assert forall|y: Seq<char>| #[trigger] end.contains(y) <==> start.contains(y) || y
            == x@ by {
            if start.contains(y) {
                let j = choose|j: int| 0 <= j < start.len() && start[j] == y;
                assert(end[if j < k {
                    j
                } else {
                    j + 1
                }] == y);
            }
            if y == x@ {
                assert(end[k as int] == y);
            }
            if end.contains(y) && y != x@ {
                let j = choose|j: int| 0 <= j < end.len() && end[j] == y;
                assert(start[if j < k {
                    j
                } else {
                    j - 1
                }] == y);
            }
        }
    }
}

fn add_without(list: &mut Vec<String>, lowered: &str, suffix: &str, Ghost(expected): Ghost<Seq<char>>)
    requires
        ascending(text::views(old(list)@)),
        lowered@ == text::lower(expected),
    ensures
        ascending(text::views(final(list)@)),
        forall|y: Seq<char>| #[trigger]
            text::views(final(list)@).contains(y) <==> text::views(old(list)@).contains(y) || (
            y.len() > 0 && alias_without(expected, suffix@, y)),
{
    if ends(lowered, suffix) {
        let n: usize = length(lowered);
        let m: usize = length(suffix);
        let base = slice(lowered, 0, n - m);
        assert(base@ =~= lowered@.take(n - m));
        let a = normalize_metric_name(base.as_str());
        if !a.as_str().is_empty() {
            insert_ascending(list, a);
        }
    }
}

/// The spellings of a metric in ascending order, without repetition.
pub fn metric_aliases(expected: &str) -> (r: Vec<String>)
    ensures
        ascending(text::views(r@)),
        forall|y: Seq<char>| #[trigger] text::views(r@).contains(y) <==> is_alias(expected@, y),
{
    let mut out: Vec<String> = Vec::new();
    let name = normalize_metric_name(expected);
    assert(forall|y: Seq<char>| !#[trigger] text::views(out@).contains(y));
    if !name.as_str().is_empty() {
        insert_ascending(&mut out, name);
    }
    let lowered = to_lower(expected);
    add_without(&mut out, lowered.as_str(), "_usd", Ghost(expected@));
    add_without(&mut out, lowered.as_str(), "_amount", Ghost(expected@));
    add_without(&mut out, lowered.as_str(), "_pct", Ghost(expected@));
    add_without(&mut out, lowered.as_str(), "_rate", Ghost(expected@));
    add_without(&mut out, lowered.as_str(), "_ratio", Ghost(expected@));
    match split_at_first(lowered.as_str(), "_") {
        Some(p) => {
            let a = normalize_metric_name(p.0.as_str());
            if !a.as_str().is_empty() {
                insert_ascending(&mut out, a);
            }
        },
        None => {},
    }
    out
}

/// Whether `list` holds `x`.
pub fn holds(list: &Vec<String>, x: &str) -> (r: bool)
    ensures
        r == text::views(list@).contains(x@),
{
    let mut i: usize = 0;
    while i < list.len()
        invariant
            i <= list.len(),
            forall|j: int| 0 <= j < i ==> text::views(list@)[j] != x@,
        decreases list.len() - i,
    {
        if same(list[i].as_str(), x) {
            assert(text::views(list@)[i as int] == x@);
            return true;
        }
        i += 1;
    }
    false
}

/// `requested` names the metric `expected` in one of its spellings.
pub open spec fn names_metric(requested: Seq<char>, expected: Seq<char>) -> bool {
    reduced(requested).len() > 0 && is_alias(expected, reduced(requested))
}

/// Whether a requested name is one of the spellings of the expected metric.
pub fn metric_matches_expected(requested: &str, expected: &str) -> (r: bool)
    ensures
        r == names_metric(requested@, expected@),
{
    let name = normalize_metric_name(requested);
    if name.as_str().is_empty() {
        return false;
    }
    let aliases = metric_aliases(expected);
    holds(&aliases, name.as_str())
}

/// A metric whose name has a letter or a digit is recognised under its own
/// name, whatever the case of its letters.
pub proof fn law_metric_matches_itself(requested: Seq<char>, expected: Seq<char>)
    requires
        text::same_ignoring_case(requested, expected),
        reduced(expected).len() > 0,
    ensures
        names_metric(requested, expected),
{
}

proof fn lemma_lower_add(a: Seq<char>, b: Seq<char>)
    ensures
        text::lower(a + b) == text::lower(a) + text::lower(b),
        text::lower(text::lower(a)) == text::lower(a),
{
    assert(text::lower(a + b) =~= text::lower(a) + text::lower(b));
    assert(text::lower(text::lower(a)) =~= text::lower(a));
}

proof fn lemma_cut_suffix(stem: Seq<char>, suffix: Seq<char>)
    requires
        text::lower(suffix) == suffix,
        reduced(stem).len() > 0,
    ensures
        alias_without(stem + suffix, suffix, reduced(stem)),
{
    lemma_lower_add(stem, suffix);
    let l = text::lower(stem + suffix);
    assert(l.subrange(l.len() - suffix.len(), l.len() as int) =~= suffix);
    assert(l.take(l.len() - suffix.len()) =~= text::lower(stem));
    assert(text::lower(text::lower(stem)) == text::lower(stem));
}

/// A metric may be named without its unit: in dollars, an amount, a percentage, a
/// rate or a ratio.
pub proof fn law_units_may_be_left_out(stem: Seq<char>)
    requires
        reduced(stem).len() > 0,
    ensures
        names_metric(stem, stem + "_usd"@),
        names_metric(stem, stem + "_amount"@),
        names_metric(stem, stem + "_pct"@),
        names_metric(stem, stem + "_rate"@),
        names_metric(stem, stem + "_ratio"@),
{
    reveal_strlit("_usd");
    reveal_strlit("_amount");
    reveal_strlit("_pct");
    reveal_strlit("_rate");
    reveal_strlit("_ratio");
    assert(text::lower("_usd"@) =~= "_usd"@);
    assert(text::lower("_amount"@) =~= "_amount"@);
    assert(text::lower("_pct"@) =~= "_pct"@);
    assert(text::lower("_rate"@) =~= "_rate"@);
    assert(text::lower("_ratio"@) =~= "_ratio"@);
    lemma_cut_suffix(stem, "_usd"@);
    lemma_cut_suffix(stem, "_amount"@);
    lemma_cut_suffix(stem, "_pct"@);
    lemma_cut_suffix(stem, "_rate"@);
    lemma_cut_suffix(stem, "_ratio"@);
}

/// A metric may be named by what stands before the first underscore of its name.
pub proof fn law_metrics_may_be_named_by_their_head(head: Seq<char>, rest: Seq<char>)
    requires
        reduced(head).len() > 0,
        forall|i: int| 0 <= i < head.len() ==> #[trigger] head[i] != '_',
    ensures
        names_metric(head, head + seq!['_'] + rest),
{
    lemma_lower_add(head + seq!['_'], rest);
    lemma_lower_add(head, seq!['_']);
    reveal_strlit("_");
    assert("_"@ =~= seq!['_']);
    assert(text::lower(seq!['_']) =~= seq!['_']);
    assert forall|i: int| 0 <= i < text::lower(head).len() implies #[trigger] text::lower(head)[i]
        != '_' by {
        assert(head[i] != '_');
    }
    scan::law_split_once_parts_at_the_first_place(text::lower(head), text::lower(rest), '_');
    lemma_lower_add(head, head);
}

/// A name without a letter or digit names no metric.
pub proof fn law_empty_names_name_no_metric(requested: Seq<char>, expected: Seq<char>)
    requires
        forall|i: int| 0 <= i < requested.len() ==> !text::is_word_char(#[trigger] requested[i]),
    ensures
        !names_metric(requested, expected),
{
    let p = |c: char| text::is_word_char(c);
    let l = text::lower(requested);
    assert forall|i: int| 0 <= i < l.len() implies !p(#[trigger] l[i]) by {
        assert(!text::is_word_char(requested[i]));
    }
    lemma_none_kept(l, p);
}

proof fn lemma_none_kept(s: Seq<char>, p: spec_fn(char) -> bool)
    requires
        forall|i: int| 0 <= i < s.len() ==> !p(#[trigger] s[i]),
    ensures
        text::keep_chars(s, p).len() == 0,
    decreases s.len(),
{
    if s.len() > 0 {
        assert(!p(s[s.len() - 1]));
        assert forall|i: int| 0 <= i < s.drop_last().len() implies !p(
            #[trigger] s.drop_last()[i],
        ) by {
            assert(s.drop_last()[i] == s[i]);
        }
        lemma_none_kept(s.drop_last(), p);
    }
}

} // verus!
