//! Searching, splitting, joining and replacing in texts.

use vstd::prelude::*;

use crate::text;
use crate::text::{chars_of, text_of, white};

verus! {

// ---------------------------------------------------------------------------
// Occurrences
// ---------------------------------------------------------------------------

/// `n` stands in `h` at position `i`.
pub open spec fn occurs_at(h: Seq<char>, n: Seq<char>, i: int) -> bool {
    0 <= i && i + n.len() <= h.len() && h.subrange(i, i + n.len()) == n
}

/// The first position from `i` on at which `n` stands in `h`.
pub open spec fn find_from(h: Seq<char>, n: Seq<char>, i: int) -> Option<int>
    decreases h.len() - i + 1,
{
    if i < 0 || i + n.len() > h.len() {
        None
    } else if occurs_at(h, n, i) {
        Some(i)
    } else {
        find_from(h, n, i + 1)
    }
}

/// The first position at which `n` stands in `h`.
pub open spec fn find(h: Seq<char>, n: Seq<char>) -> Option<int> {
    find_from(h, n, 0)
}

/// `n` stands somewhere in `h`.
pub open spec fn contains(h: Seq<char>, n: Seq<char>) -> bool {
    exists|i: int| occurs_at(h, n, i)
}

/// The last position up to `i` at which `n` stands in `h`.
pub open spec fn find_back(h: Seq<char>, n: Seq<char>, i: int) -> Option<int>
    decreases i + 1,
{
    if i < 0 {
        None
    } else if occurs_at(h, n, i) {
        Some(i)
    } else {
        find_back(h, n, i - 1)
    }
}

/// The last position at which `n` stands in `h`.
pub open spec fn find_last(h: Seq<char>, n: Seq<char>) -> Option<int> {
    find_back(h, n, h.len() - n.len())
}

pub open spec fn starts_with(h: Seq<char>, n: Seq<char>) -> bool {
    occurs_at(h, n, 0)
}

pub open spec fn ends_with(h: Seq<char>, n: Seq<char>) -> bool {
    occurs_at(h, n, h.len() - n.len())
}

/// What `find_from` gives is the first occurrence, and `None` means that there is none.
pub proof fn lemma_find_from(h: Seq<char>, n: Seq<char>, i: int)
    requires
        0 <= i,
    ensures
        match find_from(h, n, i) {
            Some(k) => i <= k && occurs_at(h, n, k) && forall|j: int|
                i <= j < k ==> !occurs_at(h, n, j),
            None => forall|j: int| i <= j ==> !occurs_at(h, n, j),
        },
    decreases h.len() - i + 1,
{
    if i + n.len() <= h.len() && !occurs_at(h, n, i) {
        lemma_find_from(h, n, i + 1);
    }
}

fn at(h: &Vec<char>, n: &Vec<char>, i: usize) -> (r: bool)
    requires
        i <= h.len(),
    ensures
        r == occurs_at(h@, n@, i as int),
{
    if n.len() > h.len() - i {
        return false;
    }
    let mut k: usize = 0;
    while k < n.len()
        invariant
            k <= n.len(),
            i + n.len() <= h.len(),
            forall|j: int| 0 <= j < k ==> h@[i + j] == n@[j],
        decreases n.len() - k,
    {
        if h[i + k] != n[k] {
            assert(h@.subrange(i as int, i + n@.len())[k as int] != n@[k as int]);
            return false;
        }
        k += 1;
    }
    assert(h@.subrange(i as int, i + n@.len()) =~= n@);
    true
}

/// The first occurrence of `n` in `h` from `start` on.
pub fn find_in(h: &Vec<char>, n: &Vec<char>, start: usize) -> (r: Option<usize>)
    requires
        start <= h.len(),
    ensures
        match r {
            Some(i) => find_from(h@, n@, start as int) == Some(i as int) && start <= i && i
                + n@.len() <= h@.len(),
            None => find_from(h@, n@, start as int) is None,
        },
{
    let mut i: usize = start;
    while i <= h.len() && n.len() <= h.len() - i
        invariant
            start <= i <= h.len() + 1,
            find_from(h@, n@, i as int) == find_from(h@, n@, start as int),
        decreases h.len() + 1 - i,
    {
        if at(h, n, i) {
            return Some(i);
        }
        if i == h.len() {
            assert(find_from(h@, n@, i + 1) is None);
            return None;
        }
        i += 1;
    }
    None
}

/// Whether `n` stands somewhere in `h`.
pub fn mentions(h: &str, n: &str) -> (r: bool)
    ensures
        r == contains(h@, n@),
{
    proof {
        lemma_find_from(h@, n@, 0);
    }
    let r = find_in(&chars_of(h), &chars_of(n), 0);
    match r {
        Some(i) => {
            assert(occurs_at(h@, n@, i as int));
            true
        },
        None => false,
    }
}

/// The position of the first `n` in `h`, if there is one.
pub fn position_of(h: &str, n: &str) -> (r: Option<usize>)
    ensures
        match r {
            Some(i) => find(h@, n@) == Some(i as int) && i + n@.len() <= h@.len(),
            None => find(h@, n@) is None,
        },
{
    find_in(&chars_of(h), &chars_of(n), 0)
}

/// The position of the last `n` in `h`, if there is one.
pub fn last_position_of(h: &str, n: &str) -> (r: Option<usize>)
    ensures
        match r {
            Some(i) => find_last(h@, n@) == Some(i as int) && i + n@.len() <= h@.len(),
            None => find_last(h@, n@) is None,
        },
{
    let hv = chars_of(h);
    let nv = chars_of(n);
    if nv.len() > hv.len() {
        return None;
    }
    let mut i: usize = hv.len() - nv.len();
    loop
        invariant
            hv@ == h@,
            nv@ == n@,
            i + nv.len() <= hv.len(),
            find_back(h@, n@, i as int) == find_last(h@, n@),
        decreases i,
    {
        if at(&hv, &nv, i) {
            return Some(i);
        }
        if i == 0 {
            assert(find_back(h@, n@, -1) is None);
            return None;
        }
        i -= 1;
    }
}

/// Whether `h` begins with `n`.
pub fn begins(h: &str, n: &str) -> (r: bool)
    ensures
        r == starts_with(h@, n@),
{
    at(&chars_of(h), &chars_of(n), 0)
}

/// Whether `h` ends with `n`.
pub fn ends(h: &str, n: &str) -> (r: bool)
    ensures
        r == ends_with(h@, n@),
{
    let hv = chars_of(h);
    let nv = chars_of(n);
    if nv.len() > hv.len() {
        return false;
    }
    at(&hv, &nv, hv.len() - nv.len())
}

/// The part of `h` from position `from` up to `to`.
pub fn slice(h: &str, from: usize, to: usize) -> (r: String)
    requires
        from <= to <= h@.len(),
    ensures
        r@ == h@.subrange(from as int, to as int),
{
    text_of(&chars_of(h), from, to)
}

/// How many characters `h` has.
pub fn length(h: &str) -> (r: usize)
    ensures
        r == h@.len(),
{
    chars_of(h).len()
}

// ---------------------------------------------------------------------------
// Splitting
// ---------------------------------------------------------------------------

/// The parts of `s` between the occurrences of `sep`, taken from the left.
pub open spec fn split(s: Seq<char>, sep: Seq<char>) -> Seq<Seq<char>>
    decreases s.len(),
{
    match find(s, sep) {
        Some(i) => if 0 <= i && i + sep.len() <= s.len() && sep.len() > 0 {
            seq![s.take(i)] + split(s.skip(i + sep.len()), sep)
        } else {
            seq![s]
        },
        None => seq![s],
    }
}

/// The text before and the text after the first `sep`.
pub open spec fn split_once(s: Seq<char>, sep: Seq<char>) -> Option<(Seq<char>, Seq<char>)> {
    match find(s, sep) {
        Some(i) => Some((s.take(i), s.skip(i + sep.len()))),
        None => None,
    }
}

proof fn lemma_find_shift(h: Seq<char>, n: Seq<char>, a: int, i: int)
    requires
        0 <= a <= i,
        a <= h.len(),
    ensures
        find_from(h.skip(a), n, i - a) == (match find_from(h, n, i) {
            Some(k) => Some(k - a),
            None => None::<int>,
        }),
    decreases h.len() - i + 1,
{
    if i + n.len() <= h.len() {
        assert(h.skip(a).subrange(i - a, i - a + n.len()) =~= h.subrange(i, i + n.len()));
        if !occurs_at(h, n, i) {
            lemma_find_shift(h, n, a, i + 1);
        }
    }
}

/// The parts of `s` between the occurrences of `sep`.
pub fn split_text(s: &str, sep: &str) -> (r: Vec<String>)
    requires
        sep@.len() > 0,
    ensures
        text::views(r@) == split(s@, sep@),
        r.len() >= 1,
{
    let sv = chars_of(s);
    let nv = chars_of(sep);
    let mut out: Vec<String> = Vec::new();
    let mut start: usize = 0;
    assert(s@.skip(0) =~= s@);
    assert(text::views(out@) + split(s@.skip(0), sep@) =~= split(s@, sep@));
    loop
        invariant
            sv@ == s@,
            nv@ == sep@,
            sep@.len() > 0,
            start <= sv.len(),
            text::views(out@) + split(s@.skip(start as int), sep@) == split(s@, sep@),
        decreases sv.len() - start,
    {
        let ghost rest = s@.skip(start as int);
        let ghost before = text::views(out@);
        proof {
            lemma_find_shift(s@, sep@, start as int, start as int);
            lemma_find_from(s@, sep@, start as int);
        }
        match find_in(&sv, &nv, start) {
            Some(i) => {
                let part = text_of(&sv, start, i);
                assert(part@ =~= rest.take(i - start));
                assert(rest.skip(i - start + sep@.len()) =~= s@.skip(i + sep@.len()));
                out.push(part);
                start = i + nv.len();
                assert(text::views(out@) =~= before.push(part@));
                assert(before + split(rest, sep@) =~= before.push(part@) + split(
                    s@.skip(start as int),
                    sep@,
                ));
            },
            None => {
                let part = text_of(&sv, start, sv.len());
                assert(part@ =~= rest);
                out.push(part);
                assert(text::views(out@) =~= before + split(rest, sep@));
                return out;
            },
        }
    }
}

/// The text before and the text after the first `sep`.
pub fn split_at_first(s: &str, sep: &str) -> (r: Option<(String, String)>)
    ensures
        match r {
            Some(p) => split_once(s@, sep@) == Some((p.0@, p.1@)),
            None => split_once(s@, sep@) is None,
        },
{
    match position_of(s, sep) {
        Some(i) => {
            let v = chars_of(s);
            let nv = chars_of(sep);
            let total: usize = v.len();
            let a = text_of(&v, 0, i);
            let b = text_of(&v, i + nv.len(), total);
            assert(a@ =~= s@.take(i as int));
            assert(b@ =~= s@.skip(i + sep@.len()));
            Some((a, b))
        },
        None => None,
    }
}

// ---------------------------------------------------------------------------
// Lines and words
// ---------------------------------------------------------------------------

/// A line without the carriage return that may end it.
pub open spec fn without_cr(s: Seq<char>) -> Seq<char> {
    if s.len() > 0 && s.last() == '\r' {
        s.drop_last()
    } else {
        s
    }
}

/// The first position of `c` in `s` from `i` on, or the length of `s`.
pub open spec fn index_of(s: Seq<char>, c: char, i: int) -> int
    decreases s.len() - i,
{
    if i < 0 || i >= s.len() {
        s.len() as int
    } else if s[i] == c {
        i
    } else {
        index_of(s, c, i + 1)
    }
}

proof fn lemma_index_of(s: Seq<char>, c: char, i: int)
    requires
        0 <= i <= s.len(),
    ensures
        i <= index_of(s, c, i) <= s.len(),
        index_of(s, c, i) < s.len() ==> s[index_of(s, c, i)] == c,
        forall|j: int| i <= j < index_of(s, c, i) ==> s[j] != c,
    decreases s.len() - i,
{
    if i < s.len() && s[i] != c {
        lemma_index_of(s, c, i + 1);
    }
}

/// The lines of `s`: what stands between line feeds, each without a carriage
/// return at its end; a line feed at the end of `s` opens no further line.
pub open spec fn lines_from(s: Seq<char>, i: int) -> Seq<Seq<char>>
    decreases s.len() - i,
    via lines_from_decreases
{
    if i < 0 || i >= s.len() {
        Seq::empty()
    } else {
        let k = index_of(s, '\n', i);
        if k >= s.len() {
            seq![s.subrange(i, s.len() as int)]
        } else {
            seq![without_cr(s.subrange(i, k))] + lines_from(s, k + 1)
        }
    }
}

#[via_fn]
proof fn lines_from_decreases(s: Seq<char>, i: int) {
    if 0 <= i < s.len() {
        lemma_index_of(s, '\n', i);
    }
}

pub open spec fn lines(s: Seq<char>) -> Seq<Seq<char>> {
    lines_from(s, 0)
}

/// The lines of a text.
pub fn lines_of(s: &str) -> (r: Vec<String>)
    ensures
        text::views(r@) == lines(s@),
{
    let v = chars_of(s);
    let mut out: Vec<String> = Vec::new();
    let mut i: usize = 0;
    assert(text::views(out@) + lines_from(s@, 0) =~= lines(s@));
    while i < v.len()
        invariant
            v@ == s@,
            i <= v.len(),
            text::views(out@) + lines_from(s@, i as int) == lines(s@),
        decreases v.len() - i,
    {
        let ghost before = text::views(out@);
        proof {
            lemma_index_of(s@, '\n', i as int);
        }
        let mut k: usize = i;
        while k < v.len() && v[k] != '\n'
            invariant
                v@ == s@,
                i <= k <= v.len(),
                index_of(s@, '\n', k as int) == index_of(s@, '\n', i as int),
            decreases v.len() - k,
        {
            k += 1;
        }
        assert(k == index_of(s@, '\n', i as int));
        if k < v.len() {
            let end: usize = if k > i && v[k - 1] == '\r' {
                k - 1
            } else {
                k
            };
            let part = text_of(&v, i, end);
            assert(part@ =~= without_cr(s@.subrange(i as int, k as int)));
            out.push(part);
            assert(text::views(out@) =~= before.push(part@));
            assert(before + lines_from(s@, i as int) =~= before.push(part@) + lines_from(
                s@,
                k + 1,
            ));
            i = k + 1;
        } else {
            let part = text_of(&v, i, v.len());
            out.push(part);
            assert(text::views(out@) =~= before.push(part@));
            assert(before + lines_from(s@, i as int) =~= before.push(part@));
            i = v.len();
            assert(text::views(out@) + lines_from(s@, i as int) =~= before.push(part@));
        }
    }
    assert(text::views(out@) + lines_from(s@, i as int) =~= text::views(out@));
    out
}

/// The first position from `i` on at which white space begins, or the length.
pub open spec fn word_end(s: Seq<char>, i: int) -> int
    decreases s.len() - i,
{
    if i < 0 || i >= s.len() {
        s.len() as int
    } else if text::is_white(s[i]) {
        i
    } else {
        word_end(s, i + 1)
    }
}

proof fn lemma_word_end(s: Seq<char>, i: int)
    requires
        0 <= i <= s.len(),
    ensures
        i <= word_end(s, i) <= s.len(),
        i < s.len() && !text::is_white(s[i]) ==> i < word_end(s, i),
        word_end(s, i) < s.len() ==> text::is_white(s[word_end(s, i)]),
    decreases s.len() - i,
{
    if i < s.len() && !text::is_white(s[i]) {
        lemma_word_end(s, i + 1);
    }
}

/// The words of `s` from `i` on: its longest runs without white space.
pub open spec fn words_from(s: Seq<char>, i: int) -> Seq<Seq<char>>
    decreases s.len() - i,
    via words_from_decreases
{
    if i < 0 || i >= s.len() {
        Seq::empty()
    } else if text::is_white(s[i]) {
        words_from(s, i + 1)
    } else {
        seq![s.subrange(i, word_end(s, i))] + words_from(s, word_end(s, i))
    }
}

#[via_fn]
proof fn words_from_decreases(s: Seq<char>, i: int) {
    if 0 <= i < s.len() {
        lemma_word_end(s, i);
    }
}

pub open spec fn words(s: Seq<char>) -> Seq<Seq<char>> {
    words_from(s, 0)
}

/// The words of a text.
pub fn words_of(s: &str) -> (r: Vec<String>)
    ensures
        text::views(r@) == words(s@),
{
    let v = chars_of(s);
    let mut out: Vec<String> = Vec::new();
    let mut i: usize = 0;
    assert(text::views(out@) + words_from(s@, 0) =~= words(s@));
    while i < v.len()
        invariant
            v@ == s@,
            i <= v.len(),
            text::views(out@) + words_from(s@, i as int) == words(s@),
        decreases v.len() - i,
    {
        if white(v[i]) {
            i += 1;
        } else {
            let ghost before = text::views(out@);
            proof {
                lemma_word_end(s@, i as int);
            }
            let mut k: usize = i;
            while k < v.len() && !white(v[k])
                invariant
                    v@ == s@,
                    i <= k <= v.len(),
                    word_end(s@, k as int) == word_end(s@, i as int),
                decreases v.len() - k,
            {
                k += 1;
            }
            assert(k == word_end(s@, i as int));
            let part = text_of(&v, i, k);
            out.push(part);
            assert(text::views(out@) =~= before.push(part@));
            assert(before + words_from(s@, i as int) =~= before.push(part@) + words_from(
                s@,
                k as int,
            ));
            i = k;
        }
    }
    assert(text::views(out@) + words_from(s@, i as int) =~= text::views(out@));
    out
}

// ---------------------------------------------------------------------------
// Joining and replacing
// ---------------------------------------------------------------------------

/// The parts one after the other, with `sep` between neighbours.
pub open spec fn join(parts: Seq<Seq<char>>, sep: Seq<char>) -> Seq<char>
    decreases parts.len(),
{
    if parts.len() == 0 {
        Seq::empty()
    } else if parts.len() == 1 {
        parts[0]
    } else {
        join(parts.drop_last(), sep) + sep + parts.last()
    }
}

/// Joins the parts with `sep` between neighbours.
pub fn join_text(parts: &Vec<String>, sep: &str) -> (r: String)
    ensures
        r@ == join(text::views(parts@), sep@),
{
    let mut out = String::new();
    let mut i: usize = 0;
    while i < parts.len()
        invariant
            i <= parts.len(),
            out@ == join(text::views(parts@).take(i as int), sep@),
        decreases parts.len() - i,
    {
        let ghost all = text::views(parts@);
        assert(all.take(i + 1).drop_last() =~= all.take(i as int));
        if i > 0 {
            out.append(sep);
        } else {
            assert(out@ + parts@[0]@ =~= parts@[0]@);
        }
        out.append(parts[i].as_str());
        i += 1;
    }
    assert(text::views(parts@).take(parts.len() as int) =~= text::views(parts@));
    out
}

/// Every character `c` of `s` gives way to `with`.
pub open spec fn replace_char(s: Seq<char>, c: char, with: Seq<char>) -> Seq<char>
    decreases s.len(),
{
    if s.len() == 0 {
        Seq::empty()
    } else {
        replace_char(s.drop_last(), c, with) + (if s.last() == c {
            with
        } else {
            seq![s.last()]
        })
    }
}

/// Replaces every `c` by `with`.
pub fn replaced_char(s: &str, c: char, with: &str) -> (r: String)
    ensures
        r@ == replace_char(s@, c, with@),
{
    let v = chars_of(s);
    let mut out = String::new();
    let mut i: usize = 0;
    while i < v.len()
        invariant
            v@ == s@,
            i <= v.len(),
            out@ == replace_char(s@.take(i as int), c, with@),
        decreases v.len() - i,
    {
        assert(s@.take(i + 1).drop_last() =~= s@.take(i as int));
        let ghost before = out@;
        if v[i] == c {
            out.append(with);
        } else {
            out.push(v[i]);
            assert(out@ =~= before + seq![v@[i as int]]);
        }
        i += 1;
    }
    assert(s@.take(s@.len() as int) =~= s@);
    out
}

/// Every occurrence of `from` in `s`, taken from the left, gives way to `with`.
pub open spec fn replace(s: Seq<char>, from: Seq<char>, with: Seq<char>) -> Seq<char> {
    join(split(s, from), with)
}

/// Replaces every occurrence of `from` by `with`.
pub fn replaced(s: &str, from: &str, with: &str) -> (r: String)
    requires
        from@.len() > 0,
    ensures
        r@ == replace(s@, from@, with@),
{
    let parts = split_text(s, from);
    join_text(&parts, with)
}

/// `s` without every character that is `a` or `b`.
pub fn without_chars(s: &str, a: char, b: char) -> (r: String)
    ensures
        r@ == text::keep_chars(s@, |c: char| c != a && c != b),
{
    let v = chars_of(s);
    let mut out = String::new();
    let mut i: usize = 0;
    let ghost p = |c: char| c != a && c != b;
    while i < v.len()
        invariant
            v@ == s@,
            i <= v.len(),
            p == (|c: char| c != a && c != b),
            out@ == text::keep_chars(s@.take(i as int), p),
        decreases v.len() - i,
    {
        assert(s@.take(i + 1).drop_last() =~= s@.take(i as int));
        if v[i] != a && v[i] != b {
            out.push(v[i]);
        }
        i += 1;
    }
    assert(s@.take(s@.len() as int) =~= s@);
    out
}

proof fn lemma_find_back(h: Seq<char>, n: Seq<char>, i: int)
    ensures
        match find_back(h, n, i) {
            Some(k) => 0 <= k <= i && occurs_at(h, n, k) && forall|j: int|
                k < j <= i ==> !occurs_at(h, n, j),
            None => forall|j: int| j <= i ==> !occurs_at(h, n, j),
        },
    decreases i + 1,
{
    if i >= 0 && !occurs_at(h, n, i) {
        lemma_find_back(h, n, i - 1);
    }
}

/// The last place of a text in another is one behind which there is no other.
pub proof fn law_the_last_place_has_none_behind_it(h: Seq<char>, n: Seq<char>, j: int)
    ensures
        match find_last(h, n) {
            Some(k) => occurs_at(h, n, k) && (occurs_at(h, n, j) ==> j <= k),
            None => !occurs_at(h, n, j),
        },
{
    lemma_find_back(h, n, h.len() - n.len());
}

proof fn lemma_join_front(first: Seq<char>, rest: Seq<Seq<char>>, sep: Seq<char>)
    requires
        rest.len() > 0,
    ensures
        join(seq![first] + rest, sep) == first + sep + join(rest, sep),
    decreases rest.len(),
{
    let all = seq![first] + rest;
    if rest.len() == 1 {
        assert(all.drop_last() =~= seq![first]);
        assert(all.last() == rest[0]);
        assert(join(all.drop_last(), sep) == first);
        assert(join(rest, sep) == rest[0]);
        assert(join(all, sep) =~= first + sep + join(rest, sep));
    } else {
        lemma_join_front(first, rest.drop_last(), sep);
        assert(all.drop_last() =~= seq![first] + rest.drop_last());
        assert(all.last() == rest.last());
        assert(join(all, sep) =~= first + sep + join(rest, sep));
    }
}

/// Splitting loses nothing: the parts, joined by what they were split at, are the
/// text again. No part holds the separator.
pub proof fn law_split_parts_join_to_the_text(s: Seq<char>, sep: Seq<char>)
    requires
        sep.len() > 0,
    ensures
        split(s, sep).len() > 0,
        join(split(s, sep), sep) == s,
        forall|k: int|
            0 <= k < split(s, sep).len() ==> find(#[trigger] split(s, sep)[k], sep) is None,
    decreases s.len(),
{
    lemma_find_from(s, sep, 0);
    match find(s, sep) {
        Some(i) => {
            let rest = s.skip(i + sep.len());
            law_split_parts_join_to_the_text(rest, sep);
            lemma_join_front(s.take(i), split(rest, sep), sep);
            assert(s.subrange(i, i + sep.len()) == sep);
            assert(s.take(i) + sep + rest =~= s);
            lemma_find_from(s.take(i), sep, 0);
            if let Some(k) = find(s.take(i), sep) {
                assert(s.take(i).subrange(k, k + sep.len()) =~= s.subrange(k, k + sep.len()));
                assert(occurs_at(s, sep, k));
            }
            let all = split(s, sep);
            assert forall|k: int| 0 <= k < all.len() implies find(#[trigger] all[k], sep) is None by {
                if k > 0 {
                    assert(all[k] == split(rest, sep)[k - 1]);
                } else {
                    assert(all[k] == s.take(i));
                }
            }
        },
        None => {},
    }
}

/// Splitting once parts a text at the first place of the separator.
pub proof fn law_split_once_parts_at_the_first_place(a: Seq<char>, b: Seq<char>, sep: char)
    requires
        forall|i: int| 0 <= i < a.len() ==> #[trigger] a[i] != sep,
    ensures
        split_once(a + seq![sep] + b, seq![sep]) == Some((a, b)),
        split_once(a, seq![sep]) is None,
{
    let s = a + seq![sep] + b;
    let at = a.len() as int;
    lemma_char_at(s, sep, at);
    lemma_find_from(s, seq![sep], 0);
    lemma_find_from(a, seq![sep], 0);
    if let Some(k) = find(s, seq![sep]) {
        lemma_char_at(s, sep, k);
        assert(k <= at);
        assert(k < at ==> s[k] == a[k]);
        assert(k == at);
        assert(s.take(at) =~= a);
        assert(s.skip(at + 1) =~= b);
    }
    if let Some(k) = find(a, seq![sep]) {
        lemma_char_at(a, sep, k);
    }
}

proof fn lemma_char_at(s: Seq<char>, c: char, k: int)
    ensures
        occurs_at(s, seq![c], k) <==> 0 <= k < s.len() && s[k] == c,
{
    if 0 <= k < s.len() {
        assert(s.subrange(k, k + 1) =~= seq![s[k]]);
        if occurs_at(s, seq![c], k) {
            assert(seq![s[k]][0] == seq![c][0]);
        }
    }
}

proof fn lemma_index_of_skip(s: Seq<char>, c: char, a: int, i: int)
    requires
        0 <= a <= i <= s.len(),
    ensures
        index_of(s.skip(a), c, i - a) == index_of(s, c, i) - a,
    decreases s.len() - i,
{
    if i < s.len() && s[i] != c {
        lemma_index_of_skip(s, c, a, i + 1);
    }
}

proof fn lemma_lines_skip(s: Seq<char>, a: int, i: int)
    requires
        0 <= a <= i <= s.len(),
    ensures
        lines_from(s.skip(a), i - a) == lines_from(s, i),
    decreases s.len() - i,
{
    if i < s.len() {
        lemma_index_of(s, '\n', i);
        lemma_index_of_skip(s, '\n', a, i);
        let k = index_of(s, '\n', i);
        if k < s.len() {
            assert(s.skip(a).subrange(i - a, k - a) =~= s.subrange(i, k));
            lemma_lines_skip(s, a, k + 1);
        } else {
            assert(s.skip(a).subrange(i - a, s.len() - a) =~= s.subrange(i, s.len() as int));
        }
    }
}

/// A text is read line by line: what stands before a line break is one line,
/// without a carriage return at its end, and the rest is read on its own. A rest
/// without a line break is the last line.
pub proof fn law_lines_end_at_line_breaks(line: Seq<char>, rest: Seq<char>)
    requires
        forall|i: int| 0 <= i < line.len() ==> #[trigger] line[i] != '\n',
    ensures
        lines(line + seq!['\n'] + rest) == seq![without_cr(line)] + lines(rest),
        line.len() > 0 ==> lines(line) == seq![line],
        lines(Seq::empty()).len() == 0,
{
    let s = line + seq!['\n'] + rest;
    let at = line.len() as int;
    lemma_index_of(s, '\n', 0);
    lemma_index_of(line, '\n', 0);
    let k = index_of(s, '\n', 0);
    assert(s[at] == '\n');
    assert forall|j: int| 0 <= j < at implies s[j] != '\n' by {
        assert(s[j] == line[j]);
    }
    assert(k == at);
    assert(s.subrange(0, at) =~= line);
    assert(s.skip(at + 1) =~= rest);
    lemma_lines_skip(s, at + 1, at + 1);
    assert(line.subrange(0, at) =~= line);
}

proof fn lemma_word_end_skip(s: Seq<char>, a: int, i: int)
    requires
        0 <= a <= i <= s.len(),
    ensures
        word_end(s.skip(a), i - a) == word_end(s, i) - a,
    decreases s.len() - i,
{
    if i < s.len() && !text::is_white(s[i]) {
        lemma_word_end_skip(s, a, i + 1);
    }
}

proof fn lemma_words_skip(s: Seq<char>, a: int, i: int)
    requires
        0 <= a <= i <= s.len(),
    ensures
        words_from(s.skip(a), i - a) == words_from(s, i),
    decreases s.len() - i,
{
    if i < s.len() {
        lemma_word_end(s, i);
        lemma_word_end_skip(s, a, i);
        if text::is_white(s[i]) {
            lemma_words_skip(s, a, i + 1);
        } else {
            let k = word_end(s, i);
            assert(s.skip(a).subrange(i - a, k - a) =~= s.subrange(i, k));
            lemma_words_skip(s, a, k);
        }
    }
}

proof fn lemma_word_end_within(s: Seq<char>, at: int, i: int)
    requires
        0 <= i <= at < s.len(),
        text::is_white(s[at]),
        forall|j: int| i <= j < at ==> !text::is_white(#[trigger] s[j]),
    ensures
        word_end(s, i) == at,
    decreases at - i,
{
    if i < at {
        assert(!text::is_white(s[i]));
        lemma_word_end_within(s, at, i + 1);
    }
}

proof fn lemma_word_end_at_end(s: Seq<char>, i: int)
    requires
        0 <= i <= s.len(),
        forall|j: int| i <= j < s.len() ==> !text::is_white(#[trigger] s[j]),
    ensures
        word_end(s, i) == s.len(),
    decreases s.len() - i,
{
    if i < s.len() {
        assert(!text::is_white(s[i]));
        lemma_word_end_at_end(s, i + 1);
    }
}

/// A text is read word by word: white space before a word is passed over, and a
/// word goes up to the next white space or to the end.
pub proof fn law_words_end_at_white_space(word: Seq<char>, white: char, rest: Seq<char>)
    requires
        word.len() > 0,
        forall|i: int| 0 <= i < word.len() ==> !text::is_white(#[trigger] word[i]),
        text::is_white(white),
    ensures
        words(word + seq![white] + rest) == seq![word] + words(rest),
        words(seq![white] + rest) == words(rest),
        words(word) == seq![word],
        words(Seq::empty()).len() == 0,
{
    let s = word + seq![white] + rest;
    let at = word.len() as int;
    assert(s[0] == word[0]);
    assert(s[at] == white);
    assert forall|j: int| 0 <= j < at implies !text::is_white(#[trigger] s[j]) by {
        assert(s[j] == word[j]);
    }
    lemma_word_end_within(s, at, 0);
    assert(s.subrange(0, at) =~= word);
    assert(s.skip(at + 1) =~= rest);
    lemma_words_skip(s, at + 1, at + 1);
    assert(words_from(s, at) == words_from(s, at + 1));
    let t = seq![white] + rest;
    assert(t[0] == white);
    assert(t.skip(1) =~= rest);
    lemma_words_skip(t, 1, 1);
    lemma_word_end_at_end(word, 0);
    assert(word.subrange(0, at) =~= word);
    assert(words_from(word, at).len() == 0);
    assert(words(word) =~= seq![word]);
}

/// Replacing a character goes through a text piece by piece, puts the other text
/// for that character and leaves every other one.
pub proof fn law_characters_are_replaced_one_by_one(
    a: Seq<char>,
    b: Seq<char>,
    c: char,
    with: Seq<char>,
)
    ensures
        replace_char(a + b, c, with) == replace_char(a, c, with) + replace_char(b, c, with),
        replace_char(seq![c], c, with) == with,
        (forall|i: int| 0 <= i < b.len() ==> #[trigger] b[i] != c) ==> replace_char(b, c, with)
            == b,
    decreases b.len(),
{
    assert(seq![c].drop_last() =~= Seq::empty());
    assert(replace_char(Seq::empty(), c, with) + with =~= with);
    if b.len() > 0 {
        law_characters_are_replaced_one_by_one(a, b.drop_last(), c, with);
        assert((a + b).drop_last() =~= a + b.drop_last());
        assert(replace_char(a + b, c, with) =~= replace_char(a, c, with) + replace_char(
            b,
            c,
            with,
        ));
        if forall|i: int| 0 <= i < b.len() ==> #[trigger] b[i] != c {
            assert forall|i: int| 0 <= i < b.drop_last().len() implies #[trigger] b.drop_last()[i]
                != c by {
                assert(b.drop_last()[i] == b[i]);
            }
            assert(b[b.len() - 1] != c);
            assert(b.drop_last() + seq![b.last()] =~= b);
        }
    } else {
        assert(a + b =~= a);
        assert(replace_char(a, c, with) + replace_char(b, c, with) =~= replace_char(a, c, with));
    }
}

} // verus!
