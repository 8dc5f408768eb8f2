//! The days of an attribution, and what is said of the worst of them.

use vstd::prelude::*;

use crate::digits;
use crate::digits::count_text;
use crate::factors;
use crate::factors::{factor_with_label, normalize_factor_name};
use crate::num::Num;
use crate::order;
use crate::order::sort_by;
use crate::report;
use crate::report::lesser;
use crate::scan;
use crate::scan::{begins, ends, join_text, mentions};
use crate::text;
use crate::text::{cat2, cat3, cat5, same, to_lower_case};

verus! {

// ---------------------------------------------------------------------------
// Columns
// ---------------------------------------------------------------------------

/// The columns of an attribution file for `k` factors.
pub open spec fn attribution_columns(k: int) -> Seq<Seq<char>> {
    Seq::new(
        (k + 2) as nat,
        |i: int|
            if i == 0 {
                "date"@
            } else if i <= k {
                "factor_"@ + digits::decimal(i as nat) + "_contrib"@
            } else {
                "total_factor_contrib"@
            },
    )
}

/// The first row of an attribution file.
#[verifier::loop_isolation(false)]
pub fn attribution_header(k: usize) -> (r: Vec<String>)
    ensures
        text::views(r@) == attribution_columns(k as int),
{
    let mut out: Vec<String> = Vec::new();
    out.push("date".to_owned());
    let mut i: usize = 0;
    while i < k
        invariant
            i <= k,
            out.len() == i + 1,
            out@[0]@ == "date"@,
            forall|j: int|
                1 <= j <= i ==> (#[trigger] out@[j])@ == "factor_"@ + digits::decimal(j as nat)
                    + "_contrib"@,
        decreases k - i,
    {
        out.push(cat3("factor_", count_text(i + 1).as_str(), "_contrib"));
        i += 1;
    }
    out.push("total_factor_contrib".to_owned());
    assert(text::views(out@) =~= attribution_columns(k as int));
    out
}

/// The columns of an exposure file for `k` factors.
pub open spec fn exposure_columns(k: int) -> Seq<Seq<char>> {
    Seq::new(
        (k + 1) as nat,
        |i: int|
            if i == 0 {
                "ticker"@
            } else {
                "factor_"@ + digits::decimal(i as nat)
            },
    )
}

/// The first row of an exposure file.
#[verifier::loop_isolation(false)]
pub fn exposure_header(k: usize) -> (r: Vec<String>)
    ensures
        text::views(r@) == exposure_columns(k as int),
{
    let mut out: Vec<String> = Vec::new();
    out.push("ticker".to_owned());
    let mut i: usize = 0;
    while i < k
        invariant
            i <= k,
            out.len() == i + 1,
            out@[0]@ == "ticker"@,
            forall|j: int|
                1 <= j <= i ==> (#[trigger] out@[j])@ == "factor_"@ + digits::decimal(j as nat),
        decreases k - i,
    {
        out.push(cat2("factor_", count_text(i + 1).as_str()));
        i += 1;
    }
    assert(text::views(out@) =~= exposure_columns(k as int));
    out
}

/// Where a name first stands among the first `n` from place `i`.
pub open spec fn place_of(names: Seq<Seq<char>>, name: Seq<char>, i: int) -> Option<int>
    decreases names.len() - i,
{
    if i >= names.len() {
        None
    } else if names[i] == name {
        Some(i)
    } else {
        place_of(names, name, i + 1)
    }
}

fn find_place(names: &Vec<String>, name: &str) -> (r: Option<usize>)
    ensures
        match r {
            Some(i) => i < names@.len() && place_of(text::views(names@), name@, 0) == Some(i as int),
            None => place_of(text::views(names@), name@, 0) is None,
        },
{
    let mut i: usize = 0;
    while i < names.len()
        invariant
            i <= names.len(),
            place_of(text::views(names@), name@, i as int) == place_of(
                text::views(names@),
                name@,
                0,
            ),
        decreases names.len() - i,
    {
        if same(names[i].as_str(), name) {
            return Some(i);
        }
        i += 1;
    }
    None
}

/// Whether a column holds the contributions of a factor that is asked for;
/// where none is named, all are.
pub open spec fn is_wanted(name: Seq<char>, wanted: Seq<Seq<char>>) -> bool {
    scan::starts_with(name, "factor_"@) && scan::ends_with(name, "_contrib"@) && (wanted.len() == 0
        || wanted.contains(name))
}

/// The wanted columns among the first `n`.
pub open spec fn wanted_columns(
    headers: Seq<Seq<char>>,
    wanted: Seq<Seq<char>>,
    n: int,
) -> Seq<usize>
    decreases n,
{
    if n <= 0 {
        Seq::empty()
    } else if is_wanted(headers[n - 1], wanted) {
        wanted_columns(headers, wanted, n - 1).push((n - 1) as usize)
    } else {
        wanted_columns(headers, wanted, n - 1)
    }
}

/// The columns of the factors that are asked for.
pub open spec fn focus_columns(focus: Seq<Seq<char>>) -> Seq<Seq<char>> {
    focus.map_values(|f: Seq<char>| factors::factor_column(f))
}

/// The columns of an attribution that are read.
#[derive(Clone, Debug)]
pub struct AttributionColumns {
    pub date: usize,
    pub total: usize,
    pub factors: Vec<usize>,
}

fn name_columns(focus: &Vec<String>) -> (r: Vec<String>)
    ensures
        text::views(r@) == focus_columns(text::views(focus@)),
{
    let mut out: Vec<String> = Vec::new();
    let mut i: usize = 0;
    while i < focus.len()
        invariant
            i <= focus.len(),
            out.len() == i,
            forall|k: int|
                0 <= k < i ==> (#[trigger] out@[k])@ == factors::factor_column(focus@[k]@),
        decreases focus.len() - i,
    {
        out.push(normalize_factor_name(focus[i].as_str()));
        i += 1;
    }
    assert(text::views(out@) =~= focus_columns(text::views(focus@)));
    out
}

#[verifier::loop_isolation(false)]
fn wants(name: &str, wanted: &Vec<String>) -> (r: bool)
    ensures
        r == is_wanted(name@, text::views(wanted@)),
{
    if !begins(name, "factor_") || !ends(name, "_contrib") {
        return false;
    }
    assert(wanted@.len() == text::views(wanted@).len());
    if wanted.len() == 0 {
        return true;
    }
    let mut i: usize = 0;
    while i < wanted.len()
        invariant
            i <= wanted.len(),
            forall|k: int| 0 <= k < i ==> (#[trigger] wanted@[k])@ != name@,
        decreases wanted.len() - i,
    {
        if same(wanted[i].as_str(), name) {
            assert(text::views(wanted@)[i as int] == name@);
            return true;
        }
        i += 1;
    }
    assert forall|k: int| 0 <= k < wanted@.len() implies text::views(wanted@)[k] != name@ by {
        assert(wanted@[k]@ != name@);
    }
    false
}

/// Finds the columns of an attribution. The total is asked for before the day.
#[verifier::loop_isolation(false)]
pub fn find_attribution_columns(headers: &Vec<String>, focus: &Vec<String>) -> (r: Result<
    AttributionColumns,
    String,
>)
    ensures
        ({
            let hs = text::views(headers@);
            match r {
                Ok(c) => {
                    &&& place_of(hs, "total_factor_contrib"@, 0) == Some(c.total as int)
                    &&& place_of(hs, "date"@, 0) == Some(c.date as int)
                    &&& c.factors@ == wanted_columns(
                        hs,
                        focus_columns(text::views(focus@)),
                        hs.len() as int,
                    )
                },
                Err(e) => if place_of(hs, "total_factor_contrib"@, 0) is None {
                    e@ == "attribution.csv missing total_factor_contrib column"@
                } else {
                    place_of(hs, "date"@, 0) is None && e@
                        == "attribution.csv missing date column"@
                },
            }
        }),
{
    let total: usize = match find_place(headers, "total_factor_contrib") {
        Some(i) => i,
        None => {
            return Err("attribution.csv missing total_factor_contrib column".to_owned());
        },
    };
    let date: usize = match find_place(headers, "date") {
        Some(i) => i,
        None => {
            return Err("attribution.csv missing date column".to_owned());
        },
    };
    let wanted = name_columns(focus);
    let ghost hs = text::views(headers@);
    let ghost ws = text::views(wanted@);
    let mut factors: Vec<usize> = Vec::new();
    let mut i: usize = 0;
    while i < headers.len()
        invariant
            i <= headers.len(),
            factors@ == wanted_columns(hs, ws, i as int),
        decreases headers.len() - i,
    {
        assert(hs[i as int] == headers@[i as int]@);
        if wants(headers[i].as_str(), &wanted) {
            factors.push(i);
        }
        i += 1;
    }
    Ok(AttributionColumns { date, total, factors })
}

proof fn lemma_all_wanted(k: int, n: int)
    requires
        0 <= k < usize::MAX,
        1 <= n <= k + 1,
    ensures
        wanted_columns(attribution_columns(k), Seq::empty(), n) == Seq::new(
            (n - 1) as nat,
            |i: int| (i + 1) as usize,
        ),
    decreases n,
{
    reveal_strlit("date");
    reveal_strlit("factor_");
    reveal_strlit("_contrib");
    let cs = attribution_columns(k);
    reveal_with_fuel(wanted_columns, 2);
    if n == 1 {
        assert(!scan::starts_with(cs[0], "factor_"@));
        assert(wanted_columns(cs, Seq::empty(), 1) =~= Seq::new(0, |i: int| (i + 1) as usize));
    } else {
        lemma_all_wanted(k, n - 1);
        let c = cs[n - 1];
        assert(c.subrange(0, 7) =~= "factor_"@);
        assert(c.subrange(c.len() - 8, c.len() as int) =~= "_contrib"@);
        assert(is_wanted(c, Seq::empty()));
        assert(Seq::new((n - 2) as nat, |i: int| (i + 1) as usize).push((n - 1) as usize)
            =~= Seq::new((n - 1) as nat, |i: int| (i + 1) as usize));
    }
}

proof fn lemma_first_place(names: Seq<Seq<char>>, name: Seq<char>, i: int, at: int)
    requires
        0 <= i <= at < names.len(),
        names[at] == name,
        forall|j: int| i <= j < at ==> names[j] != name,
    ensures
        place_of(names, name, i) == Some(at),
    decreases at - i,
{
    if i < at {
        lemma_first_place(names, name, i + 1, at);
    }
}

/// The columns that an attribution is written with are the ones that are
/// found in it: the day first, the total last, and every factor in between.
pub proof fn law_written_columns_are_found(k: int)
    requires
        0 <= k < usize::MAX - 1,
    ensures
        place_of(attribution_columns(k), "date"@, 0) == Some(0int),
        place_of(attribution_columns(k), "total_factor_contrib"@, 0) == Some(k + 1),
        wanted_columns(attribution_columns(k), Seq::empty(), k + 2) == Seq::new(
            k as nat,
            |i: int| (i + 1) as usize,
        ),
{
    reveal_strlit("date");
    reveal_strlit("factor_");
    reveal_strlit("_contrib");
    reveal_strlit("total_factor_contrib");
    let cs = attribution_columns(k);
    lemma_first_place(cs, "date"@, 0, 0);
    assert forall|j: int| 0 <= j < k + 1 implies cs[j] != "total_factor_contrib"@ by {
        if j == 0 {
            assert(cs[0].len() == 4);
        } else {
            assert(cs[j][0] == 'f');
            assert("total_factor_contrib"@[0] == 't');
        }
    }
    lemma_first_place(cs, "total_factor_contrib"@, 0, k + 1);
    lemma_all_wanted(k, k + 1);
    assert(!scan::starts_with(cs[k + 1], "factor_"@)) by {
        if scan::starts_with(cs[k + 1], "factor_"@) {
            assert(cs[k + 1].subrange(0, 7)[0] == "factor_"@[0]);
        }
    }
}

// ---------------------------------------------------------------------------
// The worst day
// ---------------------------------------------------------------------------

/// A factor with its contribution.
#[derive(Clone, Debug)]
pub struct Contribution {
    pub factor: String,
    pub value: Num,
}

/// A day with the sum of all contributions and those that were asked for.
#[derive(Clone, Debug)]
pub struct AttributionInsight {
    pub date: String,
    pub total: Num,
    pub factors: Vec<Contribution>,
}

pub open spec fn contributes_less(a: Contribution, b: Contribution) -> bool {
    a.value.lt(b.value)
}

/// Smaller contributions come first.
pub open spec fn smaller() -> spec_fn(Contribution, Contribution) -> bool {
    |a: Contribution, b: Contribution| contributes_less(a, b)
}

/// The first of the first `n` days that no earlier one undercuts: a later day
/// takes its place only where its total is smaller.
pub open spec fn worst_place(days: Seq<AttributionInsight>, n: int) -> int
    decreases n,
{
    if n <= 1 {
        0
    } else {
        let w = worst_place(days, n - 1);
        if days[n - 1].total.lt(days[w].total) {
            n - 1
        } else {
            w
        }
    }
}

proof fn lemma_worst_place(days: Seq<AttributionInsight>, n: int)
    requires
        1 <= n,
    ensures
        0 <= worst_place(days, n) < n,
    decreases n,
{
    if n > 1 {
        lemma_worst_place(days, n - 1);
    }
}

/// No day has a smaller total than the worst one, as long as every total is a
/// number.
pub proof fn law_worst_day_is_lowest(days: Seq<AttributionInsight>, n: int)
    requires
        1 <= n <= days.len(),
        forall|i: int| 0 <= i < n ==> !(#[trigger] days[i]).total.is_nan(),
    ensures
        0 <= worst_place(days, n) < n,
        forall|i: int| 0 <= i < n ==> !(#[trigger] days[i]).total.lt(
            days[worst_place(days, n)].total,
        ),
    decreases n,
{
    if n > 1 {
        law_worst_day_is_lowest(days, n - 1);
    }
}

/// The day with the smallest total, its contributions from the smallest up.
#[verifier::loop_isolation(false)]
pub fn find_worst_day(days: &Vec<AttributionInsight>) -> (r: Option<AttributionInsight>)
    ensures
        match r {
            Some(d) => {
                let w = days@[worst_place(days@, days@.len() as int)];
                &&& days@.len() > 0
                &&& d.date@ == w.date@
                &&& d.total == w.total
                &&& d.factors@ == order::sorted(w.factors@, smaller())
            },
            None => days@.len() == 0,
        },
{
    if days.len() == 0 {
        return None;
    }
    let mut w: usize = 0;
    let mut i: usize = 1;
    while i < days.len()
        invariant
            1 <= i <= days.len(),
            w < i,
            w == worst_place(days@, i as int),
        decreases days.len() - i,
    {
        if days[i].total.less(days[w].total) {
            w = i;
        }
        i += 1;
    }
    let day = &days[w];
    Some(
        AttributionInsight {
            date: day.date.clone(),
            total: day.total,
            factors: sort_contributions(&day.factors),
        },
    )
}

fn sort_contributions(items: &Vec<Contribution>) -> (r: Vec<Contribution>)
    ensures
        r@ == order::sorted(items@, smaller()),
{
    let mut copy: Vec<Contribution> = Vec::new();
    let mut i: usize = 0;
    while i < items.len()
        invariant
            i <= items.len(),
            copy.len() == i,
            forall|k: int| 0 <= k < i ==> #[trigger] copy@[k] == items@[k],
        decreases items.len() - i,
    {
        copy.push(Contribution { factor: items[i].factor.clone(), value: items[i].value });
        i += 1;
    }
    let precedes = |a: &Contribution, b: &Contribution| -> (x: bool)
        ensures
            x == contributes_less(*a, *b),
        { a.value.less(b.value) };
    assert(copy@ =~= items@);
    sort_by(copy, precedes, Ghost(smaller()))
}

// ---------------------------------------------------------------------------
// Answers
// ---------------------------------------------------------------------------

/// Whether a question, in lower case, asks for a drawdown.
pub open spec fn asks_for_drawdown(q: Seq<char>) -> bool {
    scan::contains(q, "drawdown"@) || scan::contains(q, "dropped"@) || scan::contains(q, "drop"@)
}

/// Contributions with their values as texts, from place `from` up to `to`.
pub open spec fn contribution_texts(
    items: Seq<Contribution>,
    values: Seq<String>,
    labels: Seq<(Seq<char>, Seq<char>)>,
    from: int,
    to: int,
) -> Seq<Seq<char>> {
    Seq::new(
        (to - from) as nat,
        |i: int|
            factors::labelled(items[from + i].factor@, labels) + "="@ + values[from + i]@,
    )
}

#[verifier::loop_isolation(false)]
fn write_contributions(
    items: &Vec<Contribution>,
    values: &Vec<String>,
    labels: &Vec<(String, String)>,
    from: usize,
    to: usize,
) -> (r: Vec<String>)
    requires
        from <= to <= items.len(),
        items.len() == values.len(),
    ensures
        text::views(r@) == contribution_texts(
            items@,
            values@,
            factors::label_views(labels@),
            from as int,
            to as int,
        ),
{
    let ghost ls = factors::label_views(labels@);
    let mut out: Vec<String> = Vec::new();
    let mut i: usize = from;
    while i < to
        invariant
            from <= i <= to,
            out.len() == i - from,
            forall|k: int|
                0 <= k < i - from ==> (#[trigger] out@[k])@ == factors::labelled(
                    items@[from + k].factor@,
                    ls,
                ) + "="@ + values@[from + k]@,
        decreases to - i,
    {
        let name = factor_with_label(items[i].factor.as_str(), labels);
        out.push(cat3(name.as_str(), "=", values[i].as_str()));
        i += 1;
    }
    assert(text::views(out@) =~= contribution_texts(
        items@,
        values@,
        ls,
        from as int,
        to as int,
    ));
    out
}

/// The figures of a day as texts: the total, each contribution, and the share
/// of the first one in percent.
#[derive(Clone, Debug)]
pub struct InsightTexts {
    pub total: String,
    pub values: Vec<String>,
    pub share: String,
}

/// What is said of the worst day.
pub open spec fn drawdown_text(
    insight: AttributionInsight,
    t: InsightTexts,
    labels: Seq<(Seq<char>, Seq<char>)>,
) -> Seq<char> {
    let items = insight.factors@;
    let others = scan::join(
        contribution_texts(
            items,
            t.values@,
            labels,
            1,
            report::least(items.len() as int, 4),
        ),
        ", "@,
    );
    "Largest modeled drawdown day is "@ + insight.date@ + " with total factor contribution "@
        + t.total@ + ". Primary driver is "@ + factors::labelled(items[0].factor@, labels) + " at "@
        + t.values@[0]@ + " ("@ + t.share@ + "% of total). Other selected factor contributions: "@
        + (if others.len() == 0 {
        "none"@
    } else {
        others
    }) + "."@
}

/// What is said without a model, by the question in lower case.
pub open spec fn ready_answer(
    q: Seq<char>,
    insight: Option<AttributionInsight>,
    t: InsightTexts,
    labels: Seq<(Seq<char>, Seq<char>)>,
) -> Option<Seq<char>> {
    if !asks_for_drawdown(q) {
        None
    } else {
        match insight {
            None => None,
            Some(d) => if d.factors@.len() == 0 {
                Some("Unable to isolate factor drivers from attribution.csv."@)
            } else {
                Some(drawdown_text(d, t, labels))
            },
        }
    }
}

/// The answer to a question that is already in lower case.
pub fn answer_lowered(
    q: &str,
    insight: &Option<AttributionInsight>,
    texts: &InsightTexts,
    labels: &Vec<(String, String)>,
) -> (r: Option<String>)
    requires
        match insight {
            Some(d) => d.factors@.len() == texts.values@.len(),
            None => true,
        },
    ensures
        match r {
            Some(s) => ready_answer(q@, *insight, *texts, factors::label_views(labels@)) == Some(
                s@,
            ),
            None => ready_answer(q@, *insight, *texts, factors::label_views(labels@)) is None,
        },
{
    if !(mentions(q, "drawdown") || mentions(q, "dropped") || mentions(q, "drop")) {
        return None;
    }
    let day = match insight {
        Some(day) => day,
        None => {
            return None;
        },
    };
    if day.factors.len() == 0 {
        return Some("Unable to isolate factor drivers from attribution.csv.".to_owned());
    }
    let last: usize = lesser(day.factors.len(), 4);
    let rest = write_contributions(&day.factors, &texts.values, labels, 1, last);
    let others = join_text(&rest, ", ");
    let driver = factor_with_label(day.factors[0].factor.as_str(), labels);
    let mut out = cat5(
        "Largest modeled drawdown day is ",
        day.date.as_str(),
        " with total factor contribution ",
        texts.total.as_str(),
        ". Primary driver is ",
    );
    out.append(driver.as_str());
    out.append(" at ");
    out.append(texts.values[0].as_str());
    out.append(" (");
    out.append(texts.share.as_str());
    out.append("% of total). Other selected factor contributions: ");
    if scan::length(others.as_str()) == 0 {
        out.append("none");
    } else {
        out.append(others.as_str());
    }
    out.append(".");
    Some(out)
}

/// The answer that needs no model: the worst day, for a question about a
/// drawdown.
pub fn deterministic_answer(
    question: &str,
    insight: &Option<AttributionInsight>,
    texts: &InsightTexts,
    labels: &Vec<(String, String)>,
) -> (r: Option<String>)
    requires
        match insight {
            Some(d) => d.factors@.len() == texts.values@.len(),
            None => true,
        },
    ensures
        match r {
            Some(s) => ready_answer(
                text::lower_case(question@),
                *insight,
                *texts,
                factors::label_views(labels@),
            ) == Some(s@),
            None => ready_answer(
                text::lower_case(question@),
                *insight,
                *texts,
                factors::label_views(labels@),
            ) is None,
        },
{
    let q = to_lower_case(question);
    answer_lowered(q.as_str(), insight, texts, labels)
}

// ---------------------------------------------------------------------------
// The context of a question
// ---------------------------------------------------------------------------

/// A fitted model as a prompt shows it, its figures as texts.
#[derive(Clone, Debug)]
pub struct ModelBrief {
    pub k: usize,
    pub assets: usize,
    pub observations: usize,
    pub variances: Vec<String>,
    pub outliers: Vec<(String, String)>,
    pub artifacts: String,
}

/// The explained variances, at most five.
pub open spec fn variance_texts(values: Seq<String>) -> Seq<Seq<char>> {
    Seq::new(
        report::least(values.len() as int, 5) as nat,
        |i: int| "factor_"@ + digits::decimal((i + 1) as nat) + ": "@ + values[i]@,
    )
}

/// The outliers, at most ten.
pub open spec fn outlier_texts(items: Seq<(String, String)>) -> Seq<Seq<char>> {
    Seq::new(
        report::least(items.len() as int, 10) as nat,
        |i: int| items[i].0@ + " residual "@ + items[i].1@,
    )
}

fn write_variances(values: &Vec<String>) -> (r: Vec<String>)
    ensures
        text::views(r@) == variance_texts(values@),
{
    let mut out: Vec<String> = Vec::new();
    let count: usize = lesser(values.len(), 5);
    let mut i: usize = 0;
    while i < count
        invariant
            i <= count,
            count == report::least(values@.len() as int, 5),
            out.len() == i,
            forall|k: int|
                0 <= k < i ==> (#[trigger] out@[k])@ == "factor_"@ + digits::decimal(
                    (k + 1) as nat,
                ) + ": "@ + values@[k]@,
        decreases count - i,
    {
        let mut line = cat3("factor_", count_text(i + 1).as_str(), ": ");
        line.append(values[i].as_str());
        out.push(line);
        i += 1;
    }
    assert(text::views(out@) =~= variance_texts(values@));
    out
}

fn write_outliers(items: &Vec<(String, String)>) -> (r: Vec<String>)
    ensures
        text::views(r@) == outlier_texts(items@),
{
    let mut out: Vec<String> = Vec::new();
    let count: usize = lesser(items.len(), 10);
    let mut i: usize = 0;
    while i < count
        invariant
            i <= count,
            count == report::least(items@.len() as int, 10),
            out.len() == i,
            forall|k: int|
                0 <= k < i ==> (#[trigger] out@[k])@ == items@[k].0@ + " residual "@ + items@[k].1@,
        decreases count - i,
    {
        out.push(cat3(items[i].0.as_str(), " residual ", items[i].1.as_str()));
        i += 1;
    }
    assert(text::views(out@) =~= outlier_texts(items@));
    out
}

/// The context that a question about a model is asked with.
pub open spec fn model_context(
    m: ModelBrief,
    focus: Seq<Seq<char>>,
    insight: Option<AttributionInsight>,
    t: InsightTexts,
    labels: Seq<(Seq<char>, Seq<char>)>,
) -> Seq<char> {
    "k="@ + digits::decimal(m.k as nat) + " | assets="@ + digits::decimal(m.assets as nat)
        + " | observations="@ + digits::decimal(m.observations as nat) + "\nexplained_variance="@
        + scan::join(variance_texts(m.variances@), ", "@) + "\noutliers="@ + scan::join(
        outlier_texts(m.outliers@),
        "; "@,
    ) + "\n"@ + (if focus.len() == 0 {
        "focus_factors=all"@
    } else {
        "focus_factors="@ + scan::join(focus, ","@)
    }) + "\nartifacts_dir="@ + m.artifacts@ + "\n"@ + (match insight {
        None => "worst_day_total_factor_contrib=unknown"@,
        Some(d) => "worst_day_total_factor_contrib: date="@ + d.date@ + " value="@ + t.total@
            + " breakdown: "@ + scan::join(
            contribution_texts(d.factors@, t.values@, labels, 0, d.factors@.len() as int),
            ", "@,
        ),
    })
}

/// The context that a question about a model is asked with.
pub fn build_prompt_context(
    m: &ModelBrief,
    focus_factors: &Vec<String>,
    insight: &Option<AttributionInsight>,
    texts: &InsightTexts,
    labels: &Vec<(String, String)>,
) -> (r: String)
    requires
        match insight {
            Some(d) => d.factors@.len() == texts.values@.len(),
            None => true,
        },
    ensures
        r@ == model_context(
            *m,
            text::views(focus_factors@),
            *insight,
            *texts,
            factors::label_views(labels@),
        ),
{
    let variances = join_text(&write_variances(&m.variances), ", ");
    let outliers = join_text(&write_outliers(&m.outliers), "; ");
    assert(focus_factors@.len() == text::views(focus_factors@).len());
    let focus = if focus_factors.len() == 0 {
        "focus_factors=all".to_owned()
    } else {
        cat2("focus_factors=", join_text(focus_factors, ",").as_str())
    };
    let drawdown = match insight {
        None => "worst_day_total_factor_contrib=unknown".to_owned(),
        Some(d) => {
            let parts = write_contributions(&d.factors, &texts.values, labels, 0, d.factors.len());
            let mut line = cat5(
                "worst_day_total_factor_contrib: date=",
                d.date.as_str(),
                " value=",
                texts.total.as_str(),
                " breakdown: ",
            );
            line.append(join_text(&parts, ", ").as_str());
            line
        },
    };
    let mut out = cat5(
        "k=",
        count_text(m.k).as_str(),
        " | assets=",
        count_text(m.assets).as_str(),
        " | observations=",
    );
    out.append(count_text(m.observations).as_str());
    out.append("\nexplained_variance=");
    out.append(variances.as_str());
    out.append("\noutliers=");
    out.append(outliers.as_str());
    out.append("\n");
    out.append(focus.as_str());
    out.append("\nartifacts_dir=");
    out.append(m.artifacts.as_str());
    out.append("\n");
    out.append(drawdown.as_str());
    out
}

/// The worst day is the first of the lowest: every day before it is higher.
pub proof fn law_the_first_of_the_lowest_days_is_worst(days: Seq<AttributionInsight>, n: int)
    requires
        1 <= n <= days.len(),
        forall|i: int| 0 <= i < n ==> !(#[trigger] days[i]).total.is_nan(),
    ensures
        0 <= worst_place(days, n) < n,
        forall|i: int|
            0 <= i < worst_place(days, n) ==> days[worst_place(days, n)].total.rank() < (
            #[trigger] days[i]).total.rank(),
        forall|i: int|
            0 <= i < n ==> days[worst_place(days, n)].total.rank() <= (
            #[trigger] days[i]).total.rank(),
    decreases n,
{
    if n > 1 {
        law_the_first_of_the_lowest_days_is_worst(days, n - 1);
    }
}

/// The factors of a day are told from the lowest contribution up, equal ones as
/// they came.
pub proof fn law_contributions_are_told_from_the_lowest(items: Seq<Contribution>)
    requires
        forall|i: int| 0 <= i < items.len() ==> !(#[trigger] items[i]).value.is_nan(),
    ensures
        order::sorted(items, smaller()).to_multiset() == items.to_multiset(),
        forall|i: int, j: int|
            0 <= i < j < items.len() ==> (#[trigger] order::sorted(items, smaller())[i]).value.rank()
                <= (#[trigger] order::sorted(items, smaller())[j]).value.rank(),
        order::ties_stay(
            order::sorted(items, smaller()),
            items,
            |c: Contribution| -c.value.rank(),
        ),
{
    let rank = |c: Contribution| -c.value.rank();
    let s = order::sorted(items, smaller());
    assert forall|c: Contribution| #[trigger] items.contains(c) implies !c.value.is_nan() by {
        let i = choose|i: int| 0 <= i < items.len() && items[i] == c;
        assert(!items[i].value.is_nan());
    }
    order::lemma_sorted_permutation(items, smaller());
    order::lemma_sorted_falls(items, smaller(), rank);
    order::lemma_ties_stay(items, smaller(), rank, items.len() as int);
    assert(s.take(items.len() as int) =~= s);
    assert forall|i: int, j: int| 0 <= i < j < items.len() implies (#[trigger] s[i]).value.rank()
        <= (#[trigger] s[j]).value.rank() by {
        assert(rank(s[i]) >= rank(s[j]));
    }
}

/// The columns that are looked at are those of factors, and of these the wanted
/// ones, if any are wanted, in the order of the table.
pub proof fn law_wanted_columns_are_those_of_factors(
    headers: Seq<Seq<char>>,
    wanted: Seq<Seq<char>>,
    n: int,
)
    requires
        0 <= n <= headers.len() <= usize::MAX,
    ensures
        forall|i: int|
            0 <= i < n ==> (wanted_columns(headers, wanted, n).contains(i as usize) <==> (
            scan::starts_with(#[trigger] headers[i], "factor_"@) && scan::ends_with(
                headers[i],
                "_contrib"@,
            ) && (wanted.len() == 0 || wanted.contains(headers[i])))),
        forall|k: int|
            0 <= k < wanted_columns(headers, wanted, n).len() ==> #[trigger] wanted_columns(
                headers,
                wanted,
                n,
            )[k] < n,
        forall|i: int, j: int|
            0 <= i < j < wanted_columns(headers, wanted, n).len() ==> #[trigger] wanted_columns(
                headers,
                wanted,
                n,
            )[i] < #[trigger] wanted_columns(headers, wanted, n)[j],
    decreases n,
{
    if n > 0 {
        law_wanted_columns_are_those_of_factors(headers, wanted, n - 1);
        let front = wanted_columns(headers, wanted, n - 1);
        let all = wanted_columns(headers, wanted, n);
        assert forall|k: int| 0 <= k < front.len() implies #[trigger] all[k] == front[k] by {}
        assert forall|i: int| 0 <= i < n implies (all.contains(i as usize) <==> (scan::starts_with(
            #[trigger] headers[i],
            "factor_"@,
        ) && scan::ends_with(headers[i], "_contrib"@) && (wanted.len() == 0 || wanted.contains(
            headers[i],
        )))) by {
            if all.contains(i as usize) {
                let k = choose|k: int| 0 <= k < all.len() && all[k] == i as usize;
                if k < front.len() {
                    assert(front[k] == i as usize);
                    assert(front.contains(i as usize));
                }
            }
            if i < n - 1 {
                if front.contains(i as usize) {
                    let k = choose|k: int| 0 <= k < front.len() && front[k] == i as usize;
                    assert(all[k] == i as usize);
                }
            } else if all.len() > front.len() {
                assert(all[all.len() - 1] == i as usize);
            }
        }
    }
}

} // verus!
