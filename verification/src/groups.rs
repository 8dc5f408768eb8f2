//! Group keys: which value of a cell a row is grouped under.

use vstd::prelude::*;

use crate::scan;
use crate::scan::{join_text, mentions, split_text, words_of};
use crate::text;
use crate::text::{
    chars_of, digit, is_alphanumeric, same, to_lower_case, trimmed, white,
};

verus! {

/// A column whose values are names or titles, by its name in lower case.
pub open spec fn is_name_column(lowered: Seq<char>) -> bool {
    scan::contains(lowered, "name"@) || scan::contains(lowered, "title"@)
}

/// Whether a column's values are names or titles.
pub fn should_normalize_group_column(col: &str) -> (r: bool)
    ensures
        r == is_name_column(text::lower_case(col@)),
{
    let c = to_lower_case(col);
    mentions(c.as_str(), "name") || mentions(c.as_str(), "title")
}

/// The letters and digits of `s` with single spaces between words: other
/// characters are dropped, and each run of white space, whatever was dropped
/// inside it, becomes one space. `spaced` says whether a space has just been
/// written.
pub open spec fn squeezed(s: Seq<char>) -> (Seq<char>, bool)
    decreases s.len(),
{
    if s.len() == 0 {
        (Seq::empty(), false)
    } else {
        let (front, spaced) = squeezed(s.drop_last());
        let c = s.last();
        if !text::alphanumeric(c) && !text::is_white(c) {
            (front, spaced)
        } else if text::is_white(c) {
            if spaced {
                (front, true)
            } else {
                (front.push(' '), true)
            }
        } else {
            (front.push(c), false)
        }
    }
}

/// A text in lower case reduced to its words.
pub open spec fn reduced_words(lowered: Seq<char>) -> Seq<char> {
    text::trim(squeezed(lowered).0)
}

/// Reduces a text in lower case to its words.
pub fn reduce_words(lowered: &str) -> (r: String)
    ensures
        r@ == reduced_words(lowered@),
{
    let v = chars_of(lowered);
    let mut out = String::new();
    let mut prev_space: bool = false;
    let mut i: usize = 0;
    while i < v.len()
        invariant
            v@ == lowered@,
            i <= v.len(),
            squeezed(v@.take(i as int)) == (out@, prev_space),
        decreases v.len() - i,
    {
        assert(v@.take(i + 1).drop_last() =~= v@.take(i as int));
        let c: char = v[i];
        let space: bool = white(c);
        if is_alphanumeric(c) || space {
            if space {
                if !prev_space {
                    out.push(' ');
                }
                prev_space = true;
            } else {
                out.push(c);
                prev_space = false;
            }
        }
        i += 1;
    }
    assert(v@.take(v@.len() as int) =~= v@);
    trimmed(out.as_str())
}

/// A name or title without punctuation, in lower case, with single spaces.
pub fn normalize_group_value(s: &str) -> (r: String)
    ensures
        r@ == reduced_words(text::lower_case(s@)),
{
    let lowered = to_lower_case(s);
    reduce_words(lowered.as_str())
}

/// Letters, digits and spaces, with no two spaces in a row.
pub open spec fn is_single_spaced(t: Seq<char>) -> bool {
    &&& forall|i: int|
        0 <= i < t.len() ==> (text::alphanumeric(#[trigger] t[i]) && !text::is_white(t[i]))
            || t[i] == ' '
    &&& forall|i: int, j: int|
        0 <= i && j == i + 1 && j < t.len() ==> !(#[trigger] t[i] == ' ' && #[trigger] t[j] == ' ')
}

/// Words of letters and digits with one space between each two of them, and
/// none before the first or after the last.
pub open spec fn is_reduced(t: Seq<char>) -> bool {
    &&& is_single_spaced(t)
    &&& t.len() > 0 ==> t[0] != ' ' && t.last() != ' '
}

proof fn lemma_squeezed(s: Seq<char>)
    ensures
        is_single_spaced(squeezed(s).0),
        squeezed(s).1 == (squeezed(s).0.len() > 0 && squeezed(s).0.last() == ' '),
    decreases s.len(),
{
    if s.len() > 0 {
        lemma_squeezed(s.drop_last());
    }
}

proof fn lemma_squeezed_stays(t: Seq<char>)
    requires
        is_single_spaced(t),
    ensures
        squeezed(t) == (t, t.len() > 0 && t.last() == ' '),
    decreases t.len(),
{
    if t.len() > 0 {
        let front = t.drop_last();
        lemma_squeezed_stays(front);
        assert(t =~= front.push(t.last()));
        if front.len() > 0 {
            assert(front.last() == t[t.len() - 2]);
        }
    }
}

proof fn lemma_reduced_stays(t: Seq<char>)
    requires
        is_reduced(t),
    ensures
        reduced_words(t) == t,
{
    lemma_squeezed_stays(t);
    assert(text::trim(t) == t);
}

/// ASCII without upper case letters.
pub open spec fn is_settled_ascii(s: Seq<char>) -> bool {
    forall|i: int| 0 <= i < s.len() ==> (#[trigger] s[i] as u32) < 128 && !('A' <= s[i] <= 'Z')
}

proof fn lemma_squeezed_settled(s: Seq<char>)
    requires
        is_settled_ascii(s),
    ensures
        is_settled_ascii(squeezed(s).0),
    decreases s.len(),
{
    if s.len() > 0 {
        lemma_squeezed_settled(s.drop_last());
    }
}

/// A text reduced to its words is made of words with single spaces between
/// them, and reducing it again leaves it as it is.
pub proof fn law_reduced_to_words(s: Seq<char>)
    ensures
        is_reduced(reduced_words(s)),
        reduced_words(reduced_words(s)) == reduced_words(s),
{
    let whole = squeezed(s).0;
    let t = reduced_words(s);
    lemma_squeezed(s);
    let start = text::lemma_trim_part(whole);
    text::lemma_trim_idempotent(whole);
    assert forall|i: int| 0 <= i < t.len() implies #[trigger] t[i] == whole[start + i] by {}
    lemma_reduced_stays(t);
}

/// A normalised name is made of words with single spaces between them. Where
/// it is in lower case, normalising it again leaves it as it is.
pub proof fn law_normalized_value_stays(s: Seq<char>)
    ensures
        ({
            let r = reduced_words(text::lower_case(s));
            &&& is_reduced(r)
            &&& text::lower_case(r) == r ==> reduced_words(text::lower_case(r)) == r
        }),
{
    law_reduced_to_words(text::lower_case(s));
}

/// A normalised ASCII name is in lower case, and normalising it again leaves it
/// as it is.
pub proof fn law_normalized_ascii_stays(s: Seq<char>)
    requires
        text::all_ascii(s),
    ensures
        ({
            let r = reduced_words(text::lower_case(s));
            &&& text::all_ascii(r)
            &&& text::lower_case(r) == r
            &&& reduced_words(text::lower_case(r)) == r
        }),
{
    let lowered = text::lower(s);
    let whole = squeezed(lowered).0;
    let r = reduced_words(lowered);
    assert(is_settled_ascii(lowered));
    lemma_squeezed_settled(lowered);
    let start = text::lemma_trim_part(whole);
    assert forall|i: int| 0 <= i < r.len() implies #[trigger] r[i] == whole[start + i] by {}
    assert(text::lower(r) =~= r);
    law_reduced_to_words(lowered);
}

/// Words that say nothing about a segment.
pub open spec fn is_stop_word(w: Seq<char>) -> bool {
    w == "the"@ || w == "and"@ || w == "for"@ || w == "of"@ || w == "to"@ || w == "in"@ || w
        == "on"@ || w == "with"@ || w == "a"@ || w == "an"@ || w == "or"@ || w == "by"@ || w
        == "from"@ || w == "per"@ || w == "will"@ || w == "assumes"@ || w == "assume"@ || w
        == "data"@
}

fn stop_word(w: &str) -> (r: bool)
    ensures
        r == is_stop_word(w@),
{
    same(w, "the") || same(w, "and") || same(w, "for") || same(w, "of") || same(w, "to") || same(
        w,
        "in",
    ) || same(w, "on") || same(w, "with") || same(w, "a") || same(w, "an") || same(w, "or") || same(
        w,
        "by",
    ) || same(w, "from") || same(w, "per") || same(w, "will") || same(w, "assumes") || same(
        w,
        "assume",
    ) || same(w, "data")
}

/// A word made of digits alone.
pub open spec fn all_digits(w: Seq<char>) -> bool {
    forall|i: int| 0 <= i < w.len() ==> text::is_digit(#[trigger] w[i])
}

fn only_digits(w: &str) -> (r: bool)
    ensures
        r == all_digits(w@),
{
    let v = chars_of(w);
    let mut i: usize = 0;
    while i < v.len()
        invariant
            v@ == w@,
            i <= v.len(),
            forall|j: int| 0 <= j < i ==> text::is_digit(#[trigger] v@[j]),
        decreases v.len() - i,
    {
        if !digit(v[i]) {
            return false;
        }
        i += 1;
    }
    true
}

/// A word worth counting: of at least three bytes, not a stop word, not a number.
pub open spec fn is_telling_word(w: Seq<char>) -> bool {
    crate::planner::byte_len(w) >= 3 && !is_stop_word(w) && !all_digits(w)
}

/// The words worth counting in a text that is already reduced to words.
pub open spec fn telling_words(reduced: Seq<char>) -> Seq<Seq<char>> {
    crate::list::keep(scan::words(reduced), |w: Seq<char>| is_telling_word(w))
}

/// The words worth counting in a text that is already reduced to words.
pub fn pick_telling_words(reduced: &str) -> (r: Vec<String>)
    ensures
        text::views(r@) == telling_words(reduced@),
{
    let words = words_of(reduced);
    let ghost all = scan::words(reduced@);
    let ghost p = |w: Seq<char>| is_telling_word(w);
    let mut out: Vec<String> = Vec::new();
    let mut i: usize = 0;
    assert(text::views(out@) =~= crate::list::keep(all.take(0), p));
    while i < words.len()
        invariant
            i <= words.len(),
            all == text::views(words@),
            p == (|w: Seq<char>| is_telling_word(w)),
            text::views(out@) == crate::list::keep(all.take(i as int), p),
        decreases words.len() - i,
    {
        assert(all.take(i + 1).drop_last() =~= all.take(i as int));
        assert(all[i as int] == words@[i as int]@);
        let ghost before = text::views(out@);
        let w = words[i].as_str();
        if !(w.len() < 3 || stop_word(w) || only_digits(w)) {
            out.push(words[i].clone());
            assert(text::views(out@) =~= before.push(all[i as int]));
        }
        i += 1;
    }
    assert(all.take(all.len() as int) =~= all);
    out
}

/// The words worth counting in a name or title.
pub fn tokenize_words(s: &str) -> (r: Vec<String>)
    ensures
        text::views(r@) == telling_words(reduced_words(text::lower_case(s@))),
{
    let normalized = normalize_group_value(s);
    pick_telling_words(normalized.as_str())
}

/// A value without a letter or digit.
pub open spec fn is_empty_value(s: Seq<char>) -> bool {
    let t = text::trim(s);
    forall|i: int| 0 <= i < t.len() ==> !text::alphanumeric(#[trigger] t[i])
}

/// Whether a value has no letter and no digit in it.
pub fn is_effectively_blank(s: &str) -> (r: bool)
    ensures
        r == is_empty_value(s@),
{
    let t = trimmed(s);
    let v = chars_of(t.as_str());
    let mut i: usize = 0;
    while i < v.len()
        invariant
            v@ == text::trim(s@),
            i <= v.len(),
            forall|j: int| 0 <= j < i ==> !text::alphanumeric(#[trigger] v@[j]),
        decreases v.len() - i,
    {
        if is_alphanumeric(v[i]) {
            return false;
        }
        i += 1;
    }
    true
}

/// The parts of a group key.
pub open spec fn key_parts(group: Seq<char>) -> Seq<Seq<char>> {
    scan::split(group, " | "@)
}

/// A group key all of whose parts stand for an empty value.
pub open spec fn is_blank_key(group: Seq<char>) -> bool {
    forall|i: int|
        0 <= i < key_parts(group).len() ==> text::trim(#[trigger] key_parts(group)[i])
            == "(blank)"@
}

/// Whether all parts of a group key stand for an empty value.
pub fn is_blank_group_key(group: &str) -> (r: bool)
    ensures
        r == is_blank_key(group@),
{
    proof {
        reveal_strlit(" | ");
    }
    let parts = split_text(group, " | ");
    let mut i: usize = 0;
    while i < parts.len()
        invariant
            i <= parts.len(),
            text::views(parts@) == key_parts(group@),
            forall|j: int|
                0 <= j < i ==> text::trim(#[trigger] key_parts(group@)[j]) == "(blank)"@,
        decreases parts.len() - i,
    {
        assert(key_parts(group@)[i as int] == parts@[i as int]@);
        let t = trimmed(parts[i].as_str());
        if !same(t.as_str(), "(blank)") {
            return false;
        }
        i += 1;
    }
    true
}

// ---------------------------------------------------------------------------
// Composed keys
// ---------------------------------------------------------------------------

/// A cell of a row, trimmed; empty where the row is too short.
pub open spec fn cell(row: Seq<String>, i: int) -> Seq<char> {
    if 0 <= i < row.len() {
        text::trim(row[i]@)
    } else {
        text::trim(""@)
    }
}

/// A cell of a row, trimmed; empty where the row is too short.
pub fn cell_of(row: &Vec<String>, i: usize) -> (r: String)
    ensures
        r@ == cell(row@, i as int),
{
    if i < row.len() {
        trimmed(row[i].as_str())
    } else {
        trimmed("")
    }
}

/// The value under which a row is grouped along one column.
pub open spec fn group_value(row: Seq<String>, idx: int, normalize: bool) -> Seq<char> {
    let raw = cell(row, idx);
    let v = if normalize {
        reduced_words(text::lower_case(raw))
    } else {
        raw
    };
    if is_empty_value(v) {
        "(blank)"@
    } else {
        v
    }
}

/// The values along a column are reduced to words.
pub open spec fn normalizes(names: Seq<Seq<char>>, i: int, normalize_text_groups: bool) -> bool {
    normalize_text_groups && i < names.len() && is_name_column(text::lower_case(names[i]))
}

/// The key under which a row is grouped.
pub open spec fn group_key(
    row: Seq<String>,
    idxs: Seq<usize>,
    names: Seq<Seq<char>>,
    normalize_text_groups: bool,
) -> Seq<char> {
    scan::join(
        Seq::new(
            idxs.len(),
            |i: int|
                group_value(row, idxs[i] as int, normalizes(names, i, normalize_text_groups)),
        ),
        " | "@,
    )
}

/// The key under which a row is grouped: its values along the group columns.
pub fn compose_group_key(
    row: &Vec<String>,
    group_idxs: &Vec<usize>,
    group_names: &Vec<String>,
    normalize_text_groups: bool,
) -> (r: String)
    ensures
        r@ == group_key(row@, group_idxs@, text::views(group_names@), normalize_text_groups),
{
    let ghost names = text::views(group_names@);
    let mut parts: Vec<String> = Vec::new();
    let mut i: usize = 0;
    while i < group_idxs.len()
        invariant
            i <= group_idxs.len(),
            parts.len() == i,
            names == text::views(group_names@),
            forall|j: int|
                0 <= j < i ==> (#[trigger] parts@[j])@ == group_value(
                    row@,
                    group_idxs@[j] as int,
                    normalizes(names, j, normalize_text_groups),
                ),
        decreases group_idxs.len() - i,
    {
        let raw = cell_of(row, group_idxs[i]);
        let mut normalize: bool = false;
        if normalize_text_groups && i < group_names.len() {
            assert(names[i as int] == group_names@[i as int]@);
            normalize = should_normalize_group_column(group_names[i].as_str());
        }
        let v = if normalize {
            normalize_group_value(raw.as_str())
        } else {
            raw
        };
        if is_effectively_blank(v.as_str()) {
            parts.push("(blank)".to_owned());
        } else {
            parts.push(v);
        }
        i += 1;
    }
    assert(text::views(parts@) =~= Seq::new(
        group_idxs@.len(),
        |i: int|
            group_value(
                row@,
                group_idxs@[i] as int,
                normalizes(names, i, normalize_text_groups),
            ),
    ));
    join_text(&parts, " | ")
}

/// A row that is grouped along one column has its trimmed cell as its key, and
/// `(blank)` where the cell has no letter and no digit.
pub proof fn law_one_column_keys_are_cells(row: Seq<String>, idx: usize, name: Seq<char>)
    ensures
        group_key(row, seq![idx], seq![name], false) == (if (exists|i: int|
            0 <= i < cell(row, idx as int).len() && text::alphanumeric(
                #[trigger] cell(row, idx as int)[i],
            )) {
            cell(row, idx as int)
        } else {
            "(blank)"@
        }),
{
    let v = cell(row, idx as int);
    let raw = if 0 <= idx < row.len() {
        row[idx as int]@
    } else {
        ""@
    };
    text::lemma_trim_idempotent(raw);
    assert(text::trim(v) == v);
    assert(is_empty_value(v) <==> !(exists|i: int|
        0 <= i < v.len() && text::alphanumeric(#[trigger] v[i])));
}

/// Rows with the same cells in the group columns have the same key, and the key
/// of more columns is that of fewer, a bar, and the value along the last one.
pub proof fn law_keys_depend_on_the_group_columns_alone(
    a: Seq<String>,
    b: Seq<String>,
    idxs: Seq<usize>,
    names: Seq<Seq<char>>,
    normalize: bool,
)
    requires
        forall|i: int|
            0 <= i < idxs.len() ==> cell(a, #[trigger] idxs[i] as int) == cell(b, idxs[i] as int),
    ensures
        group_key(a, idxs, names, normalize) == group_key(b, idxs, names, normalize),
        idxs.len() > 1 ==> group_key(a, idxs, names, normalize) == group_key(
            a,
            idxs.drop_last(),
            names,
            normalize,
        ) + " | "@ + group_value(
            a,
            idxs.last() as int,
            normalizes(names, idxs.len() - 1, normalize),
        ),
{
    let values = |row: Seq<String>, idxs: Seq<usize>|
        Seq::new(
            idxs.len(),
            |i: int| group_value(row, idxs[i] as int, normalizes(names, i, normalize)),
        );
    assert(values(a, idxs) =~= values(b, idxs));
    if idxs.len() > 1 {
        assert(values(a, idxs).drop_last() =~= values(a, idxs.drop_last()));
        assert(values(a, idxs).last() == group_value(
            a,
            idxs.last() as int,
            normalizes(names, idxs.len() - 1, normalize),
        ));
    }
}

/// The telling words of a text are its words of at least three bytes that are
/// neither numbers nor of the words that say nothing, in their order.
pub proof fn law_telling_words_say_something(reduced: Seq<char>, w: Seq<char>)
    ensures
        telling_words(reduced).contains(w) ==> scan::words(reduced).contains(w)
            && crate::planner::byte_len(w) >= 3 && w != "the"@ && w != "and"@ && w != "for"@ && w
            != "with"@ && w != "from"@ && w != "data"@ && exists|i: int|
            0 <= i < w.len() && !('0' <= #[trigger] w[i] <= '9'),
        scan::words(reduced).contains(w) && crate::planner::byte_len(w) >= 3 && !is_stop_word(w) && (
        exists|i: int| 0 <= i < w.len() && !('0' <= #[trigger] w[i] <= '9')) ==> telling_words(
            reduced,
        ).contains(w),
{
    let telling = |w: Seq<char>| is_telling_word(w);
    let all = scan::words(reduced);
    crate::list::lemma_keep(all, telling);
    let kept = telling_words(reduced);
    if kept.contains(w) {
        let k = choose|k: int| 0 <= k < kept.len() && kept[k] == w;
        assert(telling(kept[k]) && all.contains(kept[k]));
        let i = choose|i: int| 0 <= i < w.len() && !text::is_digit(#[trigger] w[i]);
        assert(!('0' <= w[i] <= '9'));
    }
    if all.contains(w) && crate::planner::byte_len(w) >= 3 && !is_stop_word(w) && (exists|i: int|
        0 <= i < w.len() && !('0' <= #[trigger] w[i] <= '9')) {
        let i = choose|i: int| 0 <= i < w.len() && !('0' <= #[trigger] w[i] <= '9');
        assert(!text::is_digit(w[i]));
        assert(telling(w));
    }
}

} // verus!
