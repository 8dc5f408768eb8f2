//! The names of statistical factors, and the labels that explain them.

use vstd::prelude::*;

use crate::digits;
use crate::digits::{count_text, read_count};
use crate::list;
use crate::num::Num;
use crate::order;
use crate::order::sort_by;
use crate::report;
use crate::scan;
use crate::scan::{begins, ends, join_text, length, lines_of, slice, split_at_first};
use crate::text;
use crate::text::{blank, cat2, cat3, cat4, cat5, same, to_lower_case, trimmed};

verus! {

// ---------------------------------------------------------------------------
// Names
// ---------------------------------------------------------------------------

/// The column that holds a factor's contributions, by a trimmed name.
pub open spec fn column_named(n: Seq<char>) -> Seq<char> {
    if scan::starts_with(n, "factor_"@) && scan::ends_with(n, "_contrib"@) {
        n
    } else if scan::starts_with(n, "factor_"@) {
        n + "_contrib"@
    } else {
        "factor_"@ + n + "_contrib"@
    }
}

/// The column that holds a factor's contributions.
pub open spec fn factor_column(name: Seq<char>) -> Seq<char> {
    column_named(text::trim(name))
}

/// The name of the column that holds a factor's contributions.
pub fn normalize_factor_name(name: &str) -> (r: String)
    ensures
        r@ == factor_column(name@),
{
    let n = trimmed(name);
    if begins(n.as_str(), "factor_") && ends(n.as_str(), "_contrib") {
        n
    } else if begins(n.as_str(), "factor_") {
        cat2(n.as_str(), "_contrib")
    } else {
        cat3("factor_", n.as_str(), "_contrib")
    }
}

/// The name of a column stays as it is.
pub proof fn law_factor_columns_are_stable(name: Seq<char>)
    ensures
        factor_column(factor_column(name)) == factor_column(name),
        scan::starts_with(factor_column(name), "factor_"@),
        scan::ends_with(factor_column(name), "_contrib"@),
{
    reveal_strlit("factor_");
    reveal_strlit("_contrib");
    let n = text::trim(name);
    let c = column_named(n);
    text::lemma_trim_idempotent(name);
    if scan::starts_with(n, "factor_"@) && scan::ends_with(n, "_contrib"@) {
    } else if scan::starts_with(n, "factor_"@) {
        assert(c.subrange(0, 7) =~= n.subrange(0, 7));
        assert(c.subrange(c.len() - 8, c.len() as int) =~= "_contrib"@);
    } else {
        assert(c.subrange(0, 7) =~= "factor_"@);
        assert(c.subrange(c.len() - 8, c.len() as int) =~= "_contrib"@);
    }
    assert(c[0] == 'f') by {
        assert(c.subrange(0, 7)[0] == "factor_"@[0]);
    }
    assert(c.last() == 'b') by {
        assert(c.subrange(c.len() - 8, c.len() as int)[7] == "_contrib"@[7]);
    }
    assert(text::trim_start(c) == c);
    assert(text::trim(c) == c);
}

/// The text behind `factor_`, without `_contrib` where it ends so.
pub open spec fn index_text(s: Seq<char>) -> Option<Seq<char>> {
    if !scan::starts_with(s, "factor_"@) {
        None
    } else {
        let rest = s.skip(7);
        if scan::ends_with(rest, "_contrib"@) {
            Some(rest.take(rest.len() - 8))
        } else {
            Some(rest)
        }
    }
}

/// The number of a factor, where its name holds one.
pub open spec fn index_in(raw: Seq<char>) -> Option<usize> {
    match index_text(text::trim(raw)) {
        Some(t) => digits::count_in(t),
        None => None,
    }
}

/// The number of a factor, where its name holds one.
pub fn factor_index(raw: &str) -> (r: Option<usize>)
    ensures
        r == index_in(raw@),
{
    proof {
        reveal_strlit("factor_");
        reveal_strlit("_contrib");
    }
    let s = trimmed(raw);
    if !begins(s.as_str(), "factor_") {
        return None;
    }
    let n: usize = length(s.as_str());
    let rest = slice(s.as_str(), 7, n);
    assert(rest@ =~= s@.skip(7));
    if ends(rest.as_str(), "_contrib") {
        let m: usize = length(rest.as_str());
        let core = slice(rest.as_str(), 0, m - 8);
        assert(core@ =~= rest@.take(rest@.len() - 8));
        read_count(core.as_str())
    } else {
        read_count(rest.as_str())
    }
}

/// A numbered factor is found again by its number, with or without the ending.
pub proof fn law_numbered_factors_keep_their_number(i: usize)
    ensures
        index_in("factor_"@ + digits::decimal(i as nat)) == Some(i),
        index_in("factor_"@ + digits::decimal(i as nat) + "_contrib"@) == Some(i),
{
    reveal_strlit("factor_");
    reveal_strlit("_contrib");
    let d = digits::decimal(i as nat);
    digits::law_decimal_reads_back(i as nat);
    let a = "factor_"@ + d;
    let b = "factor_"@ + d + "_contrib"@;
    assert(text::is_digit(d[d.len() - 1]));
    assert(a[0] == 'f' && a.last() == d.last());
    assert(text::trim_start(a) == a && text::trim(a) == a);
    assert(b[0] == 'f' && b.last() == 'b');
    assert(text::trim_start(b) == b && text::trim(b) == b);
    assert(a.subrange(0, 7) =~= "factor_"@);
    assert(b.subrange(0, 7) =~= "factor_"@);
    assert(a.skip(7) =~= d);
    assert(!scan::ends_with(d, "_contrib"@)) by {
        if scan::ends_with(d, "_contrib"@) {
            assert(d.subrange(d.len() - 8, d.len() as int)[7] == d[d.len() - 1]);
            assert("_contrib"@[7] == 'b');
        }
    }
    let rest = b.skip(7);
    assert(rest =~= d + "_contrib"@);
    assert(rest.subrange(rest.len() - 8, rest.len() as int) =~= "_contrib"@);
    assert(rest.take(rest.len() - 8) =~= d);
}

/// What a factor usually stands for.
pub open spec fn usual_name(index: Option<usize>) -> Seq<char> {
    match index {
        Some(1) => "Primary Shared Move"@,
        Some(2) => "Secondary Shared Move"@,
        Some(3) => "Cross-Asset Spread"@,
        Some(4) => "Higher-Order Pattern"@,
        Some(5) => "Higher-Order Pattern"@,
        _ => "Latent Statistical Factor"@,
    }
}

/// What a factor usually stands for, by its number.
pub fn factor_normal_name(raw: &str) -> (r: &'static str)
    ensures
        r@ == usual_name(index_in(raw@)),
{
    match factor_index(raw) {
        Some(1) => "Primary Shared Move",
        Some(2) => "Secondary Shared Move",
        Some(3) => "Cross-Asset Spread",
        Some(4) => "Higher-Order Pattern",
        Some(5) => "Higher-Order Pattern",
        _ => "Latent Statistical Factor",
    }
}

// ---------------------------------------------------------------------------
// Labels
// ---------------------------------------------------------------------------

/// Labels in views.
pub open spec fn label_views(labels: Seq<(String, String)>) -> Seq<(Seq<char>, Seq<char>)> {
    Seq::new(labels.len(), |i: int| (labels[i].0@, labels[i].1@))
}

/// The label of a column: the last of the first `n` that are given for it.
pub open spec fn label_of(
    labels: Seq<(Seq<char>, Seq<char>)>,
    column: Seq<char>,
    n: int,
) -> Option<Seq<char>>
    decreases n,
{
    if n <= 0 {
        None
    } else if labels[n - 1].0 == column {
        Some(labels[n - 1].1)
    } else {
        label_of(labels, column, n - 1)
    }
}

fn find_label<'a>(labels: &'a Vec<(String, String)>, column: &str) -> (r: Option<&'a str>)
    ensures
        match r {
            Some(s) => label_of(label_views(labels@), column@, labels@.len() as int) == Some(s@),
            None => label_of(label_views(labels@), column@, labels@.len() as int) is None,
        },
{
    let mut i: usize = labels.len();
    while i > 0
        invariant
            i <= labels.len(),
            label_of(label_views(labels@), column@, i as int) == label_of(
                label_views(labels@),
                column@,
                labels@.len() as int,
            ),
        decreases i,
    {
        if same(labels[i - 1].0.as_str(), column) {
            return Some(labels[i - 1].1.as_str());
        }
        i -= 1;
    }
    None
}

/// A factor with its label, or with what it usually stands for.
pub open spec fn labelled(raw: Seq<char>, labels: Seq<(Seq<char>, Seq<char>)>) -> Seq<char> {
    let name = match label_of(labels, factor_column(raw), labels.len() as int) {
        Some(custom) => custom,
        None => usual_name(index_in(raw)),
    };
    factor_column(raw) + " ("@ + name + ")"@
}

/// A factor with its label, or with what it usually stands for.
pub fn factor_with_label(raw: &str, labels: &Vec<(String, String)>) -> (r: String)
    ensures
        r@ == labelled(raw@, label_views(labels@)),
{
    let column = normalize_factor_name(raw);
    match find_label(labels, column.as_str()) {
        Some(custom) => cat4(column.as_str(), " (", custom, ")"),
        None => cat4(column.as_str(), " (", factor_normal_name(raw), ")"),
    }
}

/// What a line of a label file says: nothing, a label, or why it is refused.
pub open spec fn label_in_line(raw: Seq<char>, lowered: Seq<char>, first: bool) -> Result<
    Option<(Seq<char>, Seq<char>)>,
    Seq<char>,
> {
    if raw.len() == 0 || raw[0] == '#' {
        Ok(None)
    } else if first && (lowered == "factor,label"@ || lowered == "factor_name,label"@) {
        Ok(None)
    } else {
        let parts = match scan::split_once(raw, ","@) {
            Some(p) => Some(p),
            None => scan::split_once(raw, "\t"@),
        };
        match parts {
            None => Err(
                "invalid factor label line '"@ + raw + "'; expected factor,label"@,
            ),
            Some(p) => if text::is_blank(p.0) || text::is_blank(p.1) {
                Err(
                    "invalid factor label line '"@ + raw
                        + "'; factor and label are required"@,
                )
            } else {
                Ok(Some((factor_column(text::trim(p.0)), text::trim(p.1))))
            },
        }
    }
}

/// A label, or why there is none, in views.
pub open spec fn label_result(r: Result<Option<(String, String)>, String>) -> Result<
    Option<(Seq<char>, Seq<char>)>,
    Seq<char>,
> {
    match r {
        Ok(Some(p)) => Ok(Some((p.0@, p.1@))),
        Ok(None) => Ok(None),
        Err(e) => Err(e@),
    }
}

/// Reads a trimmed line of a label file. `lowered` is the line in lower case.
pub fn read_label_line(raw: &str, lowered: &str, first: bool) -> (r: Result<
    Option<(String, String)>,
    String,
>)
    ensures
        label_result(r) == label_in_line(raw@, lowered@, first),
{
    proof {
        reveal_strlit("#");
    }
    if length(raw) == 0 {
        return Ok(None);
    }
    if begins(raw, "#") {
        assert(raw@.subrange(0, 1)[0] == "#"@[0]);
        return Ok(None);
    }
    assert(raw@[0] != '#') by {
        if raw@[0] == '#' {
            assert(raw@.subrange(0, 1) =~= "#"@);
        }
    }
    if first && (same(lowered, "factor,label") || same(lowered, "factor_name,label")) {
        return Ok(None);
    }
    let parts = match split_at_first(raw, ",") {
        Some(p) => p,
        None => match split_at_first(raw, "\t") {
            Some(p) => p,
            None => {
                return Err(
                    cat3("invalid factor label line '", raw, "'; expected factor,label"),
                );
            },
        },
    };
    if blank(parts.0.as_str()) || blank(parts.1.as_str()) {
        return Err(
            cat3("invalid factor label line '", raw, "'; factor and label are required"),
        );
    }
    let name = trimmed(parts.0.as_str());
    Ok(Some((normalize_factor_name(name.as_str()), trimmed(parts.1.as_str()))))
}

/// The labels that the first `n` lines give, or why the file is refused.
pub open spec fn labels_in(lines: Seq<Seq<char>>, n: int) -> Result<
    Seq<(Seq<char>, Seq<char>)>,
    Seq<char>,
>
    decreases n,
{
    if n <= 0 {
        Ok(Seq::empty())
    } else {
        match labels_in(lines, n - 1) {
            Err(e) => Err(e),
            Ok(out) => {
                let raw = text::trim(lines[n - 1]);
                match label_in_line(raw, text::lower_case(raw), n == 1) {
                    Err(e) => Err(e),
                    Ok(None) => Ok(out),
                    Ok(Some(p)) => Ok(out.push(p)),
                }
            },
        }
    }
}

proof fn lemma_labels_refused(lines: Seq<Seq<char>>, n: int, m: int)
    requires
        n <= m,
        labels_in(lines, n) is Err,
    ensures
        labels_in(lines, m) == labels_in(lines, n),
    decreases m - n,
{
    if n < m {
        lemma_labels_refused(lines, n, m - 1);
    }
}

/// Reads a label file: a factor and its label on each line, split by a comma
/// or a tab.
#[verifier::loop_isolation(false)]
pub fn parse_factor_labels(content: &str) -> (r: Result<Vec<(String, String)>, String>)
    ensures
        match r {
            Ok(labels) => labels_in(scan::lines(content@), scan::lines(content@).len() as int)
                == Ok::<Seq<(Seq<char>, Seq<char>)>, Seq<char>>(label_views(labels@)),
            Err(e) => labels_in(scan::lines(content@), scan::lines(content@).len() as int)
                == Err::<Seq<(Seq<char>, Seq<char>)>, Seq<char>>(e@),
        },
{
    let lines = lines_of(content);
    let ghost all = scan::lines(content@);
    let mut out: Vec<(String, String)> = Vec::new();
    let mut i: usize = 0;
    assert(label_views(out@) =~= Seq::empty());
    while i < lines.len()
        invariant
            i <= lines.len(),
            labels_in(all, i as int) == Ok::<Seq<(Seq<char>, Seq<char>)>, Seq<char>>(
                label_views(out@),
            ),
        decreases lines.len() - i,
    {
        assert(all[i as int] == lines@[i as int]@);
        let raw = trimmed(lines[i].as_str());
        let lowered = to_lower_case(raw.as_str());
        match read_label_line(raw.as_str(), lowered.as_str(), i == 0) {
            Ok(None) => {},
            Ok(Some(p)) => {
                let ghost before = label_views(out@);
                out.push(p);
                assert(label_views(out@) =~= before.push((p.0@, p.1@)));
            },
            Err(e) => {
                proof {
                    lemma_labels_refused(all, i + 1, all.len() as int);
                }
                return Err(e);
            },
        }
        i += 1;
    }
    Ok(out)
}

// ---------------------------------------------------------------------------
// Labels from loadings
// ---------------------------------------------------------------------------

/// An asset with the weight of a factor in it.
#[derive(Clone, Copy, Debug)]
pub struct AssetLoading {
    pub asset: usize,
    pub value: Num,
}

/// The weight of a factor in an asset; zero where none is given.
pub open spec fn loading(loadings: Seq<Vec<Num>>, asset: int, factor: int) -> Num {
    if asset < loadings.len() && factor < loadings[asset]@.len() {
        loadings[asset]@[factor]
    } else {
        Num::zero_spec()
    }
}

pub open spec fn weighs_less(a: AssetLoading, b: AssetLoading) -> bool {
    a.value.lt(b.value)
}

/// Smaller weights come first.
pub open spec fn lighter() -> spec_fn(AssetLoading, AssetLoading) -> bool {
    |a: AssetLoading, b: AssetLoading| weighs_less(a, b)
}

/// The assets with the weights of a factor.
pub open spec fn weighted(count: nat, loadings: Seq<Vec<Num>>, factor: int) -> Seq<AssetLoading> {
    Seq::new(
        count,
        |i: int| AssetLoading { asset: i as usize, value: loading(loadings, i, factor) },
    )
}

/// The assets in which a factor weighs less than nothing.
pub open spec fn below_zero() -> spec_fn(AssetLoading) -> bool {
    |a: AssetLoading| a.value.lt(Num::zero_spec())
}

/// The assets in which a factor weighs more than nothing.
pub open spec fn above_zero() -> spec_fn(AssetLoading) -> bool {
    |a: AssetLoading| Num::zero_spec().lt(a.value)
}

/// The assets on one side of a factor, from the smallest weight to the largest.
pub open spec fn on_side(
    count: nat,
    loadings: Seq<Vec<Num>>,
    factor: int,
    side: spec_fn(AssetLoading) -> bool,
) -> Seq<AssetLoading> {
    order::sorted(list::keep(weighted(count, loadings, factor), side), lighter())
}

/// The tickers on one side of a factor, from the smallest weight to the largest.
pub open spec fn tickers_on_side(
    tickers: Seq<Seq<char>>,
    loadings: Seq<Vec<Num>>,
    factor: int,
    side: spec_fn(AssetLoading) -> bool,
) -> Seq<Seq<char>> {
    let s = on_side(tickers.len(), loadings, factor, side);
    Seq::new(s.len(), |i: int| tickers[s[i].asset as int])
}

proof fn lemma_on_side(
    count: nat,
    loadings: Seq<Vec<Num>>,
    factor: int,
    side: spec_fn(AssetLoading) -> bool,
)
    ensures
        forall|k: int|
            0 <= k < on_side(count, loadings, factor, side).len() ==> {
                let a = #[trigger] on_side(count, loadings, factor, side)[k];
                side(a) && weighted(count, loadings, factor).contains(a)
            },
{
    let all = weighted(count, loadings, factor);
    let kept = list::keep(all, side);
    let s = on_side(count, loadings, factor, side);
    list::lemma_keep(all, side);
    order::lemma_sorted_permutation(kept, lighter());
    s.to_multiset_ensures();
    kept.to_multiset_ensures();
    assert forall|k: int| 0 <= k < s.len() implies side(#[trigger] s[k]) && all.contains(s[k]) by {
        assert(s.to_multiset().count(s[k]) > 0);
        assert(kept.contains(s[k]));
    }
}

/// The tickers below zero, or those above it, from the smallest weight to the
/// largest.
#[verifier::loop_isolation(false)]
fn rank_side(tickers: &Vec<String>, loadings: &Vec<Vec<Num>>, factor: usize, above: bool) -> (r: Vec<
    String,
>)
    ensures
        text::views(r@) == tickers_on_side(
            text::views(tickers@),
            loadings@,
            factor as int,
            if above {
                above_zero()
            } else {
                below_zero()
            },
        ),
{
    let ghost side = if above {
        above_zero()
    } else {
        below_zero()
    };
    let ghost all = weighted(text::views(tickers@).len(), loadings@, factor as int);
    let mut items: Vec<AssetLoading> = Vec::new();
    let mut i: usize = 0;
    assert(items@ =~= list::keep(all.take(0), side));
    while i < tickers.len()
        invariant
            i <= tickers.len(),
            items@ == list::keep(all.take(i as int), side),
        decreases tickers.len() - i,
    {
        assert(all.take(i + 1).drop_last() =~= all.take(i as int));
        let value = if i < loadings.len() && factor < loadings[i].len() {
            loadings[i][factor]
        } else {
            Num::zero()
        };
        let item = AssetLoading { asset: i, value };
        assert(all.take(i + 1).last() == item);
        let counts: bool = if above {
            Num::zero().less(value)
        } else {
            value.less(Num::zero())
        };
        if counts {
            items.push(item);
        }
        i += 1;
    }
    assert(all.take(all.len() as int) =~= all);
    let precedes = |a: &AssetLoading, b: &AssetLoading| -> (x: bool)
        ensures
            x == weighs_less(*a, *b),
        { a.value.less(b.value) };
    let sorted = sort_by(items, precedes, Ghost(lighter()));
    proof {
        lemma_on_side(text::views(tickers@).len(), loadings@, factor as int, side);
        let s = on_side(text::views(tickers@).len(), loadings@, factor as int, side);
        assert(sorted@ == s);
        assert forall|k: int| 0 <= k < sorted@.len() implies (#[trigger] sorted@[k]).asset
            < tickers@.len() by {
            assert(all.contains(s[k]));
        }
    }
    let mut out: Vec<String> = Vec::new();
    let mut k: usize = 0;
    while k < sorted.len()
        invariant
            k <= sorted.len(),
            out.len() == k,
            forall|j: int| 0 <= j < k ==> (#[trigger] out@[j])@ == tickers@[sorted@[j].asset as int]@,
        decreases sorted.len() - k,
    {
        out.push(tickers[sorted[k].asset].clone());
        k += 1;
    }
    assert(text::views(out@) =~= tickers_on_side(
        text::views(tickers@),
        loadings@,
        factor as int,
        side,
    ));
    out
}

/// The last tickers among the first `n` that are not low ones, at most `room`.
pub open spec fn high_tickers(
    names: Seq<Seq<char>>,
    lows: Seq<Seq<char>>,
    n: int,
    room: int,
) -> Seq<Seq<char>>
    decreases n,
{
    if n <= 0 || room <= 0 {
        Seq::empty()
    } else if lows.contains(names[n - 1]) {
        high_tickers(names, lows, n - 1, room)
    } else {
        seq![names[n - 1]] + high_tickers(names, lows, n - 1, room - 1)
    }
}

fn contains_name(names: &Vec<String>, name: &str) -> (r: bool)
    ensures
        r == text::views(names@).contains(name@),
{
    let mut i: usize = 0;
    while i < names.len()
        invariant
            i <= names.len(),
            forall|k: int| 0 <= k < i ==> (#[trigger] names@[k])@ != name@,
        decreases names.len() - i,
    {
        if same(names[i].as_str(), name) {
            assert(text::views(names@)[i as int] == name@);
            return true;
        }
        i += 1;
    }
    assert forall|k: int| 0 <= k < text::views(names@).len() implies text::views(names@)[k]
        != name@ by {
        assert(names@[k]@ != name@);
    }
    false
}

#[verifier::loop_isolation(false)]
fn pick_high_tickers(names: &Vec<String>, lows: &Vec<String>) -> (r: Vec<String>)
    ensures
        text::views(r@) == high_tickers(
            text::views(names@),
            text::views(lows@),
            names@.len() as int,
            2,
        ),
{
    let ghost all = text::views(names@);
    let ghost low = text::views(lows@);
    let ghost whole = high_tickers(all, low, all.len() as int, 2);
    let mut out: Vec<String> = Vec::new();
    let mut i: usize = names.len();
    assert(text::views(out@) + whole =~= whole);
    while i > 0 && out.len() < 2
        invariant
            i <= names.len(),
            out.len() <= 2,
            text::views(out@) + high_tickers(all, low, i as int, 2 - out@.len()) == whole,
        decreases i,
    {
        assert(all[i - 1] == names@[i - 1]@);
        if !contains_name(lows, names[i - 1].as_str()) {
            let ghost before = text::views(out@);
            let ghost rest = high_tickers(all, low, i - 1, 2 - out@.len() - 1);
            out.push(names[i - 1].clone());
            assert(text::views(out@) =~= before.push(all[i - 1]));
            assert(before + (seq![all[i - 1]] + rest) =~= before.push(all[i - 1]) + rest);
        }
        i -= 1;
    }
    assert(text::views(out@) + Seq::<Seq<char>>::empty() =~= text::views(out@));
    out
}

/// The tickers with the smallest loadings below zero, two at most, the
/// smallest first.
pub open spec fn low_side(tickers: Seq<Seq<char>>, loadings: Seq<Vec<Num>>, factor: int) -> Seq<
    Seq<char>,
> {
    let names = tickers_on_side(tickers, loadings, factor, below_zero());
    names.take(report::least(names.len() as int, 2))
}

/// The tickers with the largest loadings above zero, two at most, the largest
/// first. A ticker of the low side is not among them.
pub open spec fn high_side(tickers: Seq<Seq<char>>, loadings: Seq<Vec<Num>>, factor: int) -> Seq<
    Seq<char>,
> {
    let names = tickers_on_side(tickers, loadings, factor, above_zero());
    high_tickers(names, low_side(tickers, loadings, factor), names.len() as int, 2)
}

/// One side of a label.
pub open spec fn side_text(names: Seq<Seq<char>>) -> Seq<char> {
    if names.len() == 0 {
        "n/a"@
    } else {
        scan::join(names, "/"@)
    }
}

fn write_side(names: &Vec<String>) -> (r: String)
    ensures
        r@ == side_text(text::views(names@)),
{
    assert(text::views(names@).len() == names@.len());
    if names.len() == 0 {
        "n/a".to_owned()
    } else {
        join_text(names, "/")
    }
}

/// The label of a factor by the assets in which it weighs most and least.
pub open spec fn spread_label(highs: Seq<Seq<char>>, lows: Seq<Seq<char>>, index: int) -> Seq<char> {
    usual_name(Some(index as usize)) + " (high: "@ + side_text(highs) + "; low: "@ + side_text(lows)
        + ")"@
}

fn write_spread_label(highs: &Vec<String>, lows: &Vec<String>, index: usize) -> (r: String)
    ensures
        r@ == spread_label(text::views(highs@), text::views(lows@), index as int),
{
    let high = write_side(highs);
    let low = write_side(lows);
    let name = cat2("factor_", count_text(index).as_str());
    proof {
        law_numbered_factors_keep_their_number(index);
    }
    let mut out = cat5(
        factor_normal_name(name.as_str()),
        " (high: ",
        high.as_str(),
        "; low: ",
        low.as_str(),
    );
    out.append(")");
    out
}

/// The labels that the loadings suggest for the first `k` factors.
pub open spec fn suggested_labels(
    tickers: Seq<Seq<char>>,
    loadings: Seq<Vec<Num>>,
    k: int,
) -> Seq<(Seq<char>, Seq<char>)> {
    Seq::new(
        k as nat,
        |f: int|
            (
                "factor_"@ + digits::decimal((f + 1) as nat) + "_contrib"@,
                spread_label(
                    high_side(tickers, loadings, f),
                    low_side(tickers, loadings, f),
                    f + 1,
                ),
            ),
    )
}

/// The labels that the loadings suggest: what a factor usually stands for, the
/// assets in which it weighs most above zero, and those in which it weighs
/// most below.
#[verifier::loop_isolation(false)]
pub fn auto_factor_labels(k: usize, tickers: &Vec<String>, loadings: &Vec<Vec<Num>>) -> (r: Vec<
    (String, String),
>)
    ensures
        label_views(r@) == suggested_labels(text::views(tickers@), loadings@, k as int),
{
    let ghost ts = text::views(tickers@);
    let mut out: Vec<(String, String)> = Vec::new();
    let mut f: usize = 0;
    while f < k
        invariant
            f <= k,
            out.len() == f,
            forall|j: int|
                0 <= j < f ==> (#[trigger] out@[j]).0@ == "factor_"@ + digits::decimal(
                    (j + 1) as nat,
                ) + "_contrib"@ && out@[j].1@ == spread_label(
                    high_side(ts, loadings@, j),
                    low_side(ts, loadings@, j),
                    j + 1,
                ),
        decreases k - f,
    {
        let mut lows = rank_side(tickers, loadings, f, false);
        let ghost below = text::views(lows@);
        if lows.len() > 2 {
            lows.truncate(2);
        }
        assert(text::views(lows@) =~= below.take(report::least(below.len() as int, 2)));
        let above = rank_side(tickers, loadings, f, true);
        let highs = pick_high_tickers(&above, &lows);
        let column = cat3("factor_", count_text(f + 1).as_str(), "_contrib");
        let label = write_spread_label(&highs, &lows, f + 1);
        out.push((column, label));
        f += 1;
    }
    assert(label_views(out@) =~= suggested_labels(ts, loadings@, k as int));
    out
}

proof fn lemma_high_tickers(names: Seq<Seq<char>>, lows: Seq<Seq<char>>, n: int, room: int)
    requires
        0 <= n <= names.len(),
        0 <= room,
    ensures
        high_tickers(names, lows, n, room).len() <= room,
        forall|k: int|
            0 <= k < high_tickers(names, lows, n, room).len() ==> {
                let t = #[trigger] high_tickers(names, lows, n, room)[k];
                !lows.contains(t) && names.contains(t)
            },
    decreases n,
{
    if n > 0 && room > 0 {
        if lows.contains(names[n - 1]) {
            lemma_high_tickers(names, lows, n - 1, room);
        } else {
            lemma_high_tickers(names, lows, n - 1, room - 1);
            let rest = high_tickers(names, lows, n - 1, room - 1);
            let all = high_tickers(names, lows, n, room);
            assert forall|k: int| 0 <= k < all.len() implies !lows.contains(#[trigger] all[k])
                && names.contains(all[k]) by {
                if k == 0 {
                    assert(all[k] == names[n - 1]);
                } else {
                    assert(all[k] == rest[k - 1]);
                }
            }
        }
    }
}

/// A factor has an asset of this name with this property of its weight.
pub open spec fn weighs_somewhere(
    tickers: Seq<Seq<char>>,
    loadings: Seq<Vec<Num>>,
    factor: int,
    name: Seq<char>,
    side: spec_fn(AssetLoading) -> bool,
) -> bool {
    exists|i: int|
        0 <= i < tickers.len() && #[trigger] tickers[i] == name && side(
            AssetLoading { asset: i as usize, value: loading(loadings, i, factor) },
        )
}

/// A label names two tickers on either side at most. Those on its high side
/// have loadings above zero, those on its low side below it, and no ticker
/// stands on both.
pub proof fn law_label_sides(tickers: Seq<Seq<char>>, loadings: Seq<Vec<Num>>, factor: int)
    requires
        tickers.len() <= usize::MAX,
    ensures
        high_side(tickers, loadings, factor).len() <= 2,
        low_side(tickers, loadings, factor).len() <= 2,
        forall|k: int|
            0 <= k < high_side(tickers, loadings, factor).len() ==> {
                let t = #[trigger] high_side(tickers, loadings, factor)[k];
                weighs_somewhere(tickers, loadings, factor, t, above_zero()) && !low_side(
                    tickers,
                    loadings,
                    factor,
                ).contains(t)
            },
        forall|k: int|
            0 <= k < low_side(tickers, loadings, factor).len() ==> weighs_somewhere(
                tickers,
                loadings,
                factor,
                #[trigger] low_side(tickers, loadings, factor)[k],
                below_zero(),
            ),
{
    let lows = low_side(tickers, loadings, factor);
    let highs = high_side(tickers, loadings, factor);
    let above = tickers_on_side(tickers, loadings, factor, above_zero());
    let below = tickers_on_side(tickers, loadings, factor, below_zero());
    lemma_on_side(tickers.len(), loadings, factor, above_zero());
    lemma_on_side(tickers.len(), loadings, factor, below_zero());
    lemma_high_tickers(above, lows, above.len() as int, 2);
    assert forall|k: int| 0 <= k < highs.len() implies weighs_somewhere(
        tickers,
        loadings,
        factor,
        #[trigger] highs[k],
        above_zero(),
    ) by {
        let j = choose|j: int| 0 <= j < above.len() && above[j] == highs[k];
        let a = on_side(tickers.len(), loadings, factor, above_zero())[j];
        let all = weighted(tickers.len(), loadings, factor);
        let i = choose|i: int| 0 <= i < all.len() && all[i] == a;
        assert(a.asset == i && tickers[i] == highs[k]);
    }
    assert forall|k: int| 0 <= k < lows.len() implies weighs_somewhere(
        tickers,
        loadings,
        factor,
        #[trigger] lows[k],
        below_zero(),
    ) by {
        let a = on_side(tickers.len(), loadings, factor, below_zero())[k];
        let all = weighted(tickers.len(), loadings, factor);
        let i = choose|i: int| 0 <= i < all.len() && all[i] == a;
        assert(a.asset == i && tickers[i] == lows[k]);
    }
}

/// A numbered factor may be named by its number, by `factor_` and its number,
/// or by its column: all three mean the same column.
pub proof fn law_factor_keys_agree(i: nat)
    ensures
        factor_column(digits::decimal(i)) == "factor_"@ + digits::decimal(i) + "_contrib"@,
        factor_column("factor_"@ + digits::decimal(i)) == "factor_"@ + digits::decimal(i)
            + "_contrib"@,
        factor_column("factor_"@ + digits::decimal(i) + "_contrib"@) == "factor_"@
            + digits::decimal(i) + "_contrib"@,
{
    reveal_strlit("factor_");
    reveal_strlit("_contrib");
    let d = digits::decimal(i);
    digits::law_decimal_reads_back(i);
    assert(text::is_digit(d[0]) && text::is_digit(d[d.len() - 1]));
    assert(text::trim_start(d) == d && text::trim(d) == d);
    assert(!scan::starts_with(d, "factor_"@)) by {
        if scan::starts_with(d, "factor_"@) {
            assert(d.subrange(0, 7)[0] == "factor_"@[0]);
        }
    }
    let a = "factor_"@ + d;
    assert(a[0] == 'f' && a.last() == d.last());
    assert(text::trim_start(a) == a && text::trim(a) == a);
    assert(a.subrange(0, 7) =~= "factor_"@);
    assert(!scan::ends_with(a, "_contrib"@)) by {
        if scan::ends_with(a, "_contrib"@) {
            assert(a.subrange(a.len() - 8, a.len() as int)[7] == "_contrib"@[7]);
        }
    }
    law_factor_columns_are_stable(d);
}

/// A line that begins with `#` says nothing.
pub proof fn law_comment_lines_say_nothing(raw: Seq<char>, lowered: Seq<char>, first: bool)
    requires
        raw.len() > 0,
        raw[0] == '#',
    ensures
        label_in_line(raw, lowered, first) == Ok::<Option<(Seq<char>, Seq<char>)>, Seq<char>>(None),
{
}

/// A label that is given later replaces one that is given earlier.
pub proof fn law_later_labels_win(
    first: Seq<(Seq<char>, Seq<char>)>,
    then: Seq<(Seq<char>, Seq<char>)>,
    column: Seq<char>,
)
    ensures
        label_of(first + then, column, (first + then).len() as int) == (match label_of(
            then,
            column,
            then.len() as int,
        ) {
            Some(s) => Some(s),
            None => label_of(first, column, first.len() as int),
        }),
    decreases then.len(),
{
    lemma_labels_joined(first, then, column, then.len() as int);
}

proof fn lemma_labels_joined(
    first: Seq<(Seq<char>, Seq<char>)>,
    then: Seq<(Seq<char>, Seq<char>)>,
    column: Seq<char>,
    n: int,
)
    requires
        0 <= n <= then.len(),
    ensures
        label_of(first + then, column, first.len() + n) == (match label_of(then, column, n) {
            Some(s) => Some(s),
            None => label_of(first, column, first.len() as int),
        }),
    decreases n,
{
    if n > 0 {
        assert((first + then)[first.len() + n - 1] == then[n - 1]);
        lemma_labels_joined(first, then, column, n - 1);
    } else {
        lemma_labels_prefix(first, then, column, first.len() as int);
    }
}

proof fn lemma_labels_prefix(
    first: Seq<(Seq<char>, Seq<char>)>,
    then: Seq<(Seq<char>, Seq<char>)>,
    column: Seq<char>,
    n: int,
)
    requires
        0 <= n <= first.len(),
    ensures
        label_of(first + then, column, n) == label_of(first, column, n),
    decreases n,
{
    if n > 0 {
        assert((first + then)[n - 1] == first[n - 1]);
        lemma_labels_prefix(first, then, column, n - 1);
    }
}

proof fn lemma_sides(
    count: nat,
    loadings: Seq<Vec<Num>>,
    factor: int,
    side: spec_fn(AssetLoading) -> bool,
)
    requires
        count <= usize::MAX,
        forall|a: AssetLoading| #[trigger] side(a) ==> !a.value.is_nan(),
    ensures
        ({
            let s = on_side(count, loadings, factor, side);
            &&& forall|i: int, j: int|
                0 <= i < j < s.len() ==> (#[trigger] s[i]).value.rank() <= (
                #[trigger] s[j]).value.rank()
            &&& forall|k: int|
                0 <= k < s.len() ==> side(#[trigger] s[k]) && s[k].asset < count && s[k].value
                    == loading(loadings, s[k].asset as int, factor)
            &&& forall|i: int|
                0 <= i < count && side(
                    AssetLoading {
                        asset: i as usize,
                        value: #[trigger] loading(loadings, i, factor),
                    },
                ) ==> s.contains(
                    AssetLoading { asset: i as usize, value: loading(loadings, i, factor) },
                )
        }),
{
    let all = weighted(count, loadings, factor);
    let kept = list::keep(all, side);
    let s = on_side(count, loadings, factor, side);
    let rank = |a: AssetLoading| -a.value.rank();
    list::lemma_keep(all, side);
    assert forall|a: AssetLoading| #[trigger] kept.contains(a) implies side(a) && a.asset < count
        && a.value == loading(loadings, a.asset as int, factor) by {
        let k = choose|k: int| 0 <= k < kept.len() && kept[k] == a;
        assert(all.contains(kept[k]));
        let i = choose|i: int| 0 <= i < all.len() && all[i] == kept[k];
        assert(all[i].asset == i);
    }
    order::lemma_sorted_falls(kept, lighter(), rank);
    order::lemma_sorted_contains(kept, lighter());
    assert forall|k: int| 0 <= k < s.len() implies kept.contains(#[trigger] s[k]) by {
        assert(s.contains(s[k]));
    }
    assert forall|i: int, j: int| 0 <= i < j < s.len() implies (#[trigger] s[i]).value.rank() <= (
    #[trigger] s[j]).value.rank() by {
        assert(rank(s[i]) >= rank(s[j]));
    }
    assert forall|i: int|
        0 <= i < count && side(
            AssetLoading { asset: i as usize, value: #[trigger] loading(loadings, i, factor) },
        ) implies s.contains(
        AssetLoading { asset: i as usize, value: loading(loadings, i, factor) },
    ) by {
        let a = AssetLoading { asset: i as usize, value: loading(loadings, i, factor) };
        assert(all[i] == a);
        assert(all.contains(a));
        assert(kept.contains(a));
        assert(s.contains(a));
    }
}

/// The tickers told on the low side of a factor are those of the lowest weights
/// below zero: of a ticker that is not told there, the weight is not below that
/// of one that is.
pub proof fn law_low_sides_weigh_least(
    tickers: Seq<Seq<char>>,
    loadings: Seq<Vec<Num>>,
    factor: int,
    i: int,
    j: int,
)
    requires
        tickers.len() <= usize::MAX,
        tickers.no_duplicates(),
        0 <= i < tickers.len(),
        0 <= j < tickers.len(),
        loading(loadings, i, factor).lt(Num::zero_spec()),
        loading(loadings, j, factor).lt(Num::zero_spec()),
        low_side(tickers, loadings, factor).contains(tickers[i]),
        !low_side(tickers, loadings, factor).contains(tickers[j]),
    ensures
        loading(loadings, i, factor).rank() <= loading(loadings, j, factor).rank(),
        low_side(tickers, loadings, factor).len() == 2,
{
    let s = on_side(tickers.len(), loadings, factor, below_zero());
    let names = tickers_on_side(tickers, loadings, factor, below_zero());
    let lows = low_side(tickers, loadings, factor);
    lemma_sides(tickers.len(), loadings, factor, below_zero());
    let a = AssetLoading { asset: i as usize, value: loading(loadings, i, factor) };
    let b = AssetLoading { asset: j as usize, value: loading(loadings, j, factor) };
    assert(below_zero()(a) && below_zero()(b));
    assert(s.contains(a) && s.contains(b));
    let k = choose|k: int| 0 <= k < lows.len() && lows[k] == tickers[i];
    assert(names[k] == tickers[i]);
    assert(s[k].asset == i);
    let m = choose|m: int| 0 <= m < s.len() && s[m] == b;
    assert(names[m] == tickers[j]);
    if m < lows.len() {
        assert(lows[m] == tickers[j]);
    }
}

proof fn lemma_high_tickers_from_the_end(
    names: Seq<Seq<char>>,
    lows: Seq<Seq<char>>,
    n: int,
    room: int,
    m: int,
)
    requires
        0 <= m < n <= names.len(),
        0 <= room,
        !lows.contains(names[m]),
        !high_tickers(names, lows, n, room).contains(names[m]),
    ensures
        high_tickers(names, lows, n, room).len() == room,
        forall|k: int|
            0 <= k < high_tickers(names, lows, n, room).len() ==> comes_behind(
                names,
                m,
                #[trigger] high_tickers(names, lows, n, room)[k],
            ),
    decreases n,
{
    let all = high_tickers(names, lows, n, room);
    if room > 0 {
        if lows.contains(names[n - 1]) {
            assert(m < n - 1);
            lemma_high_tickers_from_the_end(names, lows, n - 1, room, m);
        } else {
            let rest = high_tickers(names, lows, n - 1, room - 1);
            assert(all[0] == names[n - 1]);
            assert(m < n - 1);
            if rest.contains(names[m]) {
                let k = choose|k: int| 0 <= k < rest.len() && rest[k] == names[m];
                assert(all[k + 1] == names[m]);
            }
            lemma_high_tickers_from_the_end(names, lows, n - 1, room - 1, m);
            assert forall|k: int| 0 <= k < all.len() implies comes_behind(
                names,
                m,
                #[trigger] all[k],
            ) by {
                if k > 0 {
                    assert(all[k] == rest[k - 1]);
                } else {
                    assert(names[n - 1] == all[k]);
                }
            }
        }
    }
}

spec fn comes_behind(names: Seq<Seq<char>>, m: int, name: Seq<char>) -> bool {
    exists|k: int| m < k < names.len() && #[trigger] names[k] == name
}

/// The tickers told on the high side of a factor are those of the highest
/// weights above zero: of a ticker that is not told there, the weight is not
/// above that of one that is.
pub proof fn law_high_sides_weigh_most(
    tickers: Seq<Seq<char>>,
    loadings: Seq<Vec<Num>>,
    factor: int,
    i: int,
    j: int,
)
    requires
        tickers.len() <= usize::MAX,
        tickers.no_duplicates(),
        0 <= i < tickers.len(),
        0 <= j < tickers.len(),
        Num::zero_spec().lt(loading(loadings, i, factor)),
        Num::zero_spec().lt(loading(loadings, j, factor)),
        high_side(tickers, loadings, factor).contains(tickers[i]),
        !high_side(tickers, loadings, factor).contains(tickers[j]),
    ensures
        loading(loadings, j, factor).rank() <= loading(loadings, i, factor).rank(),
        high_side(tickers, loadings, factor).len() == 2,
{
    let s = on_side(tickers.len(), loadings, factor, above_zero());
    let names = tickers_on_side(tickers, loadings, factor, above_zero());
    let lows = low_side(tickers, loadings, factor);
    let highs = high_side(tickers, loadings, factor);
    lemma_sides(tickers.len(), loadings, factor, above_zero());
    law_label_sides(tickers, loadings, factor);
    let b = AssetLoading { asset: j as usize, value: loading(loadings, j, factor) };
    assert(above_zero()(b));
    assert(s.contains(b));
    let m = choose|m: int| 0 <= m < s.len() && s[m] == b;
    assert(names[m] == tickers[j]);
    if lows.contains(tickers[j]) {
        let k = choose|k: int| 0 <= k < lows.len() && lows[k] == tickers[j];
        assert(weighs_somewhere(tickers, loadings, factor, lows[k], below_zero()));
        let p = choose|p: int|
            0 <= p < tickers.len() && #[trigger] tickers[p] == tickers[j] && below_zero()(
                AssetLoading { asset: p as usize, value: loading(loadings, p, factor) },
            );
        assert(p == j);
    }
    lemma_high_tickers_from_the_end(names, lows, names.len() as int, 2, m);
    let k = choose|k: int| 0 <= k < highs.len() && highs[k] == tickers[i];
    assert(comes_behind(names, m, highs[k]));
    let q = choose|q: int| m < q < names.len() && #[trigger] names[q] == tickers[i];
    assert(names[q] == tickers[s[q].asset as int]);
    assert(s[q].asset == i);
}

/// A line of a factor, a comma and a label is read as that label of the factor's
/// column.
pub proof fn law_label_lines_are_read(name: Seq<char>, label: Seq<char>, lowered: Seq<char>)
    requires
        !text::is_blank(name),
        !text::is_blank(label),
        name.len() > 0,
        name[0] != '#',
        !scan::contains(name, ","@),
    ensures
        label_in_line(name + ","@ + label, lowered, false) == Ok::<_, Seq<char>>(
            Some((factor_column(text::trim(name)), text::trim(label))),
        ),
{
    let raw = name + ","@ + label;
    let at = name.len() as int;
    reveal_strlit(",");
    assert(raw[0] == name[0]);
    assert(raw.subrange(at, at + 1) =~= ","@);
    assert(scan::occurs_at(raw, ","@, at));
    scan::lemma_find_from(raw, ","@, 0);
    match scan::find(raw, ","@) {
        None => {},
        Some(k) => {
            if k < at {
                assert(name.subrange(k, k + 1) =~= raw.subrange(k, k + 1));
                assert(scan::occurs_at(name, ","@, k));
            }
        },
    }
    assert(raw.take(at) =~= name);
    assert(raw.skip(at + 1) =~= label);
}

/// A file of labels is read line by line: every line that gives a label adds it,
/// in order, and one line that cannot be read refuses the file.
pub proof fn law_labels_come_from_their_lines(lines: Seq<Seq<char>>, n: int)
    requires
        0 <= n <= lines.len(),
    ensures
        match labels_in(lines, n) {
            Ok(labels) => forall|i: int|
                0 <= i < n ==> match label_in_line(
                    text::trim(#[trigger] lines[i]),
                    text::lower_case(text::trim(lines[i])),
                    i == 0,
                ) {
                    Ok(Some(p)) => labels.contains(p),
                    Ok(None) => true,
                    Err(_) => false,
                },
            Err(_) => exists|i: int|
                0 <= i < n && label_in_line(
                    text::trim(#[trigger] lines[i]),
                    text::lower_case(text::trim(lines[i])),
                    i == 0,
                ) is Err,
        },
    decreases n,
{
    if n > 0 {
        law_labels_come_from_their_lines(lines, n - 1);
        if let Ok(front) = labels_in(lines, n - 1) {
            if let Ok(labels) = labels_in(lines, n) {
                assert forall|i: int| 0 <= i < n implies match label_in_line(
                    text::trim(#[trigger] lines[i]),
                    text::lower_case(text::trim(lines[i])),
                    i == 0,
                ) {
                    Ok(Some(p)) => labels.contains(p),
                    Ok(None) => true,
                    Err(_) => false,
                } by {
                    if let Ok(Some(p)) = label_in_line(
                        text::trim(lines[i]),
                        text::lower_case(text::trim(lines[i])),
                        i == 0,
                    ) {
                        if i < n - 1 {
                            assert(front.contains(p));
                            let k = choose|k: int| 0 <= k < front.len() && front[k] == p;
                            assert(labels[k] == p);
                        } else {
                            assert(labels[labels.len() - 1] == p);
                        }
                    }
                }
            } else {
                assert(label_in_line(
                    text::trim(lines[n - 1]),
                    text::lower_case(text::trim(lines[n - 1])),
                    n - 1 == 0,
                ) is Err);
            }
        }
    }
}

/// A suggested label belongs to the factor of its number and names the tickers of
/// that factor's own two sides.
pub proof fn law_suggested_labels_belong_to_their_factor(
    tickers: Seq<Seq<char>>,
    loadings: Seq<Vec<Num>>,
    k: int,
    f: int,
)
    requires
        0 <= f < k < usize::MAX,
    ensures
        suggested_labels(tickers, loadings, k).len() == k,
        index_in(suggested_labels(tickers, loadings, k)[f].0) == Some((f + 1) as usize),
        scan::contains(
            suggested_labels(tickers, loadings, k)[f].1,
            " (high: "@ + side_text(high_side(tickers, loadings, f)) + "; low: "@ + side_text(
                low_side(tickers, loadings, f),
            ) + ")"@,
        ),
{
    law_numbered_factors_keep_their_number((f + 1) as usize);
    let label = suggested_labels(tickers, loadings, k)[f].1;
    let tail = " (high: "@ + side_text(high_side(tickers, loadings, f)) + "; low: "@ + side_text(
        low_side(tickers, loadings, f),
    ) + ")"@;
    let at = label.len() - tail.len();
    assert(label =~= usual_name(Some((f + 1) as usize)) + tail);
    assert(label.subrange(at, label.len() as int) =~= tail);
    assert(scan::occurs_at(label, tail, at));
}

} // verus!
