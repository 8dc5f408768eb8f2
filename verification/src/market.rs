//! Prices, weights and known factors, lined up for the fits.

use vstd::prelude::*;

use crate::args::TimeGrain;
use crate::dates;
use crate::dates::{days_since_monday, Date};
use crate::digits;
use crate::digits::count_text;
use crate::drill::push_distinct;
use crate::list;
use crate::num::Num;
use crate::order;
use crate::order::{sort_by, sort_texts};
use crate::periods;
use crate::periods::parse_date;
use crate::report;
use crate::text;
use crate::text::{cat3, eq_ignore_case, same, trimmed};

verus! {

/// The closing price of an asset on a day.
#[derive(Clone, Debug)]
pub struct PricePoint {
    pub date: Date,
    pub ticker: String,
    pub close: Num,
}

/// The weight of an asset in a portfolio.
#[derive(Clone, Debug)]
pub struct PortfolioWeight {
    pub ticker: String,
    pub weight: Num,
}

/// Reads a day as it stands in a price file.
pub fn read_price_day(raw: &str) -> (r: Option<Date>)
    ensures
        r == periods::date_under(raw@, "%Y-%m-%d"@),
        match r {
            Some(d) => d.is_valid(),
            None => true,
        },
{
    parse_date(raw, "%Y-%m-%d")
}

/// Gives every asset the same weight.
pub fn equal_weights(tickers: &Vec<String>, weight: Num) -> (r: Vec<PortfolioWeight>)
    ensures
        r@.len() == tickers@.len(),
        forall|i: int|
            0 <= i < r@.len() ==> (#[trigger] r@[i]).ticker@ == tickers@[i]@ && r@[i].weight
                == weight,
{
    let mut out: Vec<PortfolioWeight> = Vec::new();
    let mut i: usize = 0;
    while i < tickers.len()
        invariant
            i <= tickers.len(),
            out.len() == i,
            forall|k: int|
                0 <= k < i ==> (#[trigger] out@[k]).ticker@ == tickers@[k]@ && out@[k].weight
                    == weight,
        decreases tickers.len() - i,
    {
        out.push(PortfolioWeight { ticker: tickers[i].clone(), weight });
        i += 1;
    }
    out
}

// ---------------------------------------------------------------------------
// Prices
// ---------------------------------------------------------------------------

/// A Saturday or a Sunday.
pub open spec fn is_weekend(d: Date) -> bool {
    (d.number() - 1) % 7 >= 5
}

/// The prices of working days.
pub open spec fn working_days(prices: Seq<PricePoint>) -> Seq<PricePoint> {
    list::keep(prices, |p: PricePoint| !is_weekend(p.date))
}

/// Leaves out the prices of weekends.
pub fn drop_weekends(prices: &Vec<PricePoint>) -> (r: Vec<PricePoint>)
    requires
        forall|i: int| 0 <= i < prices@.len() ==> (#[trigger] prices@[i]).date.is_valid(),
    ensures
        r@ == working_days(prices@),
{
    let ghost works = |p: PricePoint| !is_weekend(p.date);
    let mut out: Vec<PricePoint> = Vec::new();
    let mut i: usize = 0;
    while i < prices.len()
        invariant
            i <= prices.len(),
            works == (|p: PricePoint| !is_weekend(p.date)),
            forall|k: int| 0 <= k < prices@.len() ==> (#[trigger] prices@[k]).date.is_valid(),
            out@ == list::keep(prices@.take(i as int), works),
        decreases prices.len() - i,
    {
        assert(prices@.take(i + 1).drop_last() =~= prices@.take(i as int));
        let p = &prices[i];
        if days_since_monday(p.date) < 5 {
            let copy = PricePoint { date: p.date, ticker: p.ticker.clone(), close: p.close };
            assert(copy == prices@[i as int]);
            out.push(copy);
        }
        i += 1;
    }
    assert(prices@.take(prices@.len() as int) =~= prices@);
    out
}

/// No price of a weekend is left, and every price of a working day is.
pub proof fn law_weekends_are_left_out(prices: Seq<PricePoint>)
    ensures
        forall|i: int|
            0 <= i < working_days(prices).len() ==> !is_weekend(
                (#[trigger] working_days(prices)[i]).date,
            ),
        forall|p: PricePoint| #[trigger]
            prices.contains(p) && !is_weekend(p.date) ==> working_days(prices).contains(p),
        forall|p: PricePoint| #[trigger]
            working_days(prices).contains(p) ==> prices.contains(p),
{
    let works = |p: PricePoint| !is_weekend(p.date);
    list::lemma_keep(prices, works);
    let kept = working_days(prices);
    assert forall|i: int| 0 <= i < kept.len() implies !is_weekend((#[trigger] kept[i]).date) by {
        assert(works(kept[i]));
    }
    assert forall|p: PricePoint| #[trigger] prices.contains(p) && !is_weekend(p.date) implies
        kept.contains(p) by {
        assert(works(p));
    }
}

/// A weekend is made of the last two days of the week from Monday to Sunday.
pub proof fn law_weekends_end_the_week(d: Date)
    requires
        d.is_valid(),
        dates::containing_fits(d, TimeGrain::Week),
    ensures
        is_weekend(d) <==> dates::containing(d, TimeGrain::Week).1.number() - d.number() < 2,
{
    dates::lemma_containing_valid(d, TimeGrain::Week);
}

/// The tickers of prices, one for each price.
pub open spec fn ticker_of_each(prices: Seq<PricePoint>) -> Seq<Seq<char>> {
    Seq::new(prices.len(), |i: int| prices[i].ticker@)
}

/// The tickers of prices, each once, in order.
pub open spec fn tickers_in(prices: Seq<PricePoint>) -> Seq<Seq<char>> {
    order::sorted(
        list::distinct_by(ticker_of_each(prices), |d: Seq<char>| d),
        order::text_order(),
    )
}

/// The tickers of prices, each once, in order.
#[verifier::loop_isolation(false)]
pub fn distinct_tickers(prices: &Vec<PricePoint>) -> (r: Vec<String>)
    ensures
        text::views(r@) == tickers_in(prices@),
{
    let ghost all = ticker_of_each(prices@);
    let mut names: Vec<String> = Vec::new();
    let mut i: usize = 0;
    assert(all.take(0) =~= Seq::<Seq<char>>::empty());
    assert(text::views(names@) =~= list::distinct_by(all.take(0), |d: Seq<char>| d));
    while i < prices.len()
        invariant
            i <= prices.len(),
            text::views(names@) == list::distinct_by(all.take(i as int), |d: Seq<char>| d),
        decreases prices.len() - i,
    {
        push_distinct(&mut names, prices[i].ticker.as_str(), Ghost(all.take(i as int)));
        assert(all.take(i as int).push(prices@[i as int].ticker@) =~= all.take(i + 1));
        i += 1;
    }
    assert(all.take(all.len() as int) =~= all);
    sort_texts(names)
}

/// The tickers ascend, so that none is there twice, and every price has its
/// ticker among them.
pub proof fn law_tickers_ascend(prices: Seq<PricePoint>)
    ensures
        forall|i: int, j: int|
            0 <= i < j < tickers_in(prices).len() ==> order::text_less(
                #[trigger] tickers_in(prices)[i],
                #[trigger] tickers_in(prices)[j],
            ),
        forall|i: int|
            0 <= i < prices.len() ==> tickers_in(prices).contains((#[trigger] prices[i]).ticker@),
{
    let names = ticker_of_each(prices);
    let key = |d: Seq<char>| d;
    let distinct = list::distinct_by(names, key);
    let out = tickers_in(prices);
    let before = order::text_order();
    list::lemma_distinct_by(names, key);
    order::lemma_sorted_permutation(distinct, before);
    assert(order::weak_order(before)) by {
        assert forall|a: Seq<char>, b: Seq<char>| #[trigger] before(a, b) implies !before(b, a) by {
            order::lemma_text_less_total(a, b, a);
        }
        assert forall|a: Seq<char>, b: Seq<char>, c: Seq<char>|
            !(#[trigger] before(a, b)) && !(#[trigger] before(b, c)) implies !before(a, c) by {
            order::lemma_text_less_total(a, b, c);
            order::lemma_text_less_total(c, b, a);
        }
    }
    order::lemma_sorted_in_order(distinct, before);
    out.to_multiset_ensures();
    distinct.to_multiset_ensures();
    assert(distinct.no_duplicates()) by {
        assert forall|i: int, j: int|
            0 <= i < distinct.len() && 0 <= j < distinct.len() && i != j implies distinct[i]
            != distinct[j] by {
            if i < j {
                assert(key(distinct[i]) != key(distinct[j]));
            } else {
                assert(key(distinct[j]) != key(distinct[i]));
            }
        }
    }
    distinct.lemma_multiset_has_no_duplicates();
    out.lemma_multiset_has_no_duplicates_conv();
    assert forall|i: int, j: int| 0 <= i < j < out.len() implies order::text_less(
        #[trigger] out[i],
        #[trigger] out[j],
    ) by {
        assert(!before(out[j], out[i]));
        assert(out[i] != out[j]);
        order::lemma_text_less_total(out[i], out[j], out[i]);
    }
    assert forall|i: int| 0 <= i < prices.len() implies out.contains(
        (#[trigger] prices[i]).ticker@,
    ) by {
        let t = prices[i].ticker@;
        assert(names[i] == t);
        assert(exists|k: int| 0 <= k < distinct.len() && key(#[trigger] distinct[k]) == key(names[i]));
        let k = choose|k: int| 0 <= k < distinct.len() && key(#[trigger] distinct[k]) == key(names[i]);
        assert(distinct.contains(t));
        assert(distinct.to_multiset().count(t) > 0);
        assert(out.to_multiset().count(t) > 0);
    }
}

/// The number of factors where none is asked for: one less than there are
/// assets, from one to ten.
pub open spec fn usual_factor_count(assets: int) -> int {
    if assets <= 2 {
        1
    } else if assets - 1 > 10 {
        10
    } else {
        assets - 1
    }
}

/// The number of factors for a number of assets.
pub fn auto_factor_count(assets: usize) -> (r: usize)
    ensures
        r == usual_factor_count(assets as int),
        1 <= r <= 10,
        assets >= 2 ==> r < assets,
{
    if assets <= 2 {
        1
    } else if assets - 1 > 10 {
        10
    } else {
        assets - 1
    }
}

/// The number of factors that a fit keeps: as many as are asked for, no more
/// than there are assets, at least one.
pub fn kept_factor_count(k: usize, assets: usize) -> (r: usize)
    ensures
        r == (if k > assets && assets >= 1 {
            assets
        } else if k < 1 || assets < 1 {
            1
        } else {
            k
        }),
{
    let least: usize = if k < assets {
        k
    } else {
        assets
    };
    if least < 1 {
        1
    } else {
        least
    }
}

// ---------------------------------------------------------------------------
// Price steps
// ---------------------------------------------------------------------------

/// A price on a day.
#[derive(Clone, Copy, Debug)]
pub struct DatedPrice {
    pub date: Date,
    pub close: Num,
}

/// A change of price: the day on which it is reached, the price before it and
/// the price on it.
#[derive(Clone, Copy, Debug)]
pub struct PriceStep {
    pub date: Date,
    pub from: Num,
    pub to: Num,
}

/// The prices of a ticker among the first `n`, as they come.
pub open spec fn prices_of(prices: Seq<PricePoint>, ticker: Seq<char>, n: int) -> Seq<DatedPrice>
    decreases n,
{
    if n <= 0 {
        Seq::empty()
    } else {
        let rest = prices_of(prices, ticker, n - 1);
        let p = prices[n - 1];
        if p.ticker@ == ticker {
            rest.push(DatedPrice { date: p.date, close: p.close })
        } else {
            rest
        }
    }
}

pub open spec fn is_earlier(a: DatedPrice, b: DatedPrice) -> bool {
    !b.date.le(a.date)
}

/// Earlier days come first.
pub open spec fn earlier() -> spec_fn(DatedPrice, DatedPrice) -> bool {
    |a: DatedPrice, b: DatedPrice| is_earlier(a, b)
}

/// Whether two prices make a step: the second is on a later day, and the first
/// is above zero. Where `strict` does not hold, a first price that is not a
/// number counts too.
pub open spec fn makes_step(a: DatedPrice, b: DatedPrice, strict: bool) -> bool {
    is_earlier(a, b) && if strict {
        Num::zero_spec().lt(a.close)
    } else {
        !a.close.le(Num::zero_spec())
    }
}

/// The steps between neighbours among the first `n` prices.
pub open spec fn steps_between(s: Seq<DatedPrice>, strict: bool, n: int) -> Seq<PriceStep>
    decreases n,
{
    if n <= 1 {
        Seq::empty()
    } else {
        let rest = steps_between(s, strict, n - 1);
        let a = s[n - 2];
        let b = s[n - 1];
        if makes_step(a, b, strict) {
            rest.push(PriceStep { date: b.date, from: a.close, to: b.close })
        } else {
            rest
        }
    }
}

/// The steps of a ticker, day by day.
pub open spec fn steps_of(prices: Seq<PricePoint>, ticker: Seq<char>, strict: bool) -> Seq<
    PriceStep,
> {
    let s = order::sorted(prices_of(prices, ticker, prices.len() as int), earlier());
    steps_between(s, strict, s.len() as int)
}

#[verifier::loop_isolation(false)]
fn find_steps(prices: &Vec<PricePoint>, ticker: &str, strict: bool) -> (r: Vec<PriceStep>)
    ensures
        r@ == steps_of(prices@, ticker@, strict),
{
    let mut series: Vec<DatedPrice> = Vec::new();
    let mut i: usize = 0;
    while i < prices.len()
        invariant
            i <= prices.len(),
            series@ == prices_of(prices@, ticker@, i as int),
        decreases prices.len() - i,
    {
        if same(prices[i].ticker.as_str(), ticker) {
            series.push(DatedPrice { date: prices[i].date, close: prices[i].close });
        }
        i += 1;
    }
    let precedes = |a: &DatedPrice, b: &DatedPrice| -> (x: bool)
        ensures
            x == is_earlier(*a, *b),
        { !b.date.at_most(a.date) };
    let s = sort_by(series, precedes, Ghost(earlier()));
    let mut out: Vec<PriceStep> = Vec::new();
    if s.len() == 0 {
        return out;
    }
    let zero = Num::zero();
    let mut k: usize = 1;
    while k < s.len()
        invariant
            1 <= k <= s.len(),
            out@ == steps_between(s@, strict, k as int),
        decreases s.len() - k,
    {
        let a = s[k - 1];
        let b = s[k];
        let later = !b.date.at_most(a.date);
        let counts = if strict {
            zero.less(a.close)
        } else {
            !a.close.at_most(zero)
        };
        if later && counts {
            out.push(PriceStep { date: b.date, from: a.close, to: b.close });
        }
        k += 1;
    }
    out
}

/// The step that is reached on a day, among those from place `i` on.
pub open spec fn step_on(steps: Seq<PriceStep>, day: Date, i: int) -> Option<PriceStep>
    decreases steps.len() - i,
{
    if i >= steps.len() {
        None
    } else if steps[i].date == day {
        Some(steps[i])
    } else {
        step_on(steps, day, i + 1)
    }
}

fn find_step(steps: &Vec<PriceStep>, day: Date) -> (r: Option<PriceStep>)
    ensures
        r == step_on(steps@, day, 0),
{
    let mut i: usize = 0;
    while i < steps.len()
        invariant
            i <= steps.len(),
            step_on(steps@, day, i as int) == step_on(steps@, day, 0),
        decreases steps.len() - i,
    {
        if steps[i].date == day {
            return Some(steps[i]);
        }
        i += 1;
    }
    None
}

/// The steps of a ticker are in the order of their days, and no day is there
/// twice.
pub proof fn law_steps_ascend(prices: Seq<PricePoint>, ticker: Seq<char>, strict: bool)
    ensures
        forall|i: int, j: int|
            0 <= i < j < steps_of(prices, ticker, strict).len() ==> !(#[trigger] steps_of(
                prices,
                ticker,
                strict,
            )[j]).date.le((#[trigger] steps_of(prices, ticker, strict)[i]).date),
{
    let series = prices_of(prices, ticker, prices.len() as int);
    let s = order::sorted(series, earlier());
    order::lemma_sorted_in_order(series, earlier());
    assert forall|i: int, j: int| 0 <= i < j < s.len() implies (#[trigger] s[i]).date.le(
        (#[trigger] s[j]).date,
    ) by {
        assert(!earlier()(s[j], s[i]));
    }
    lemma_steps_between(s, strict, s.len() as int);
}

proof fn lemma_steps_between(s: Seq<DatedPrice>, strict: bool, n: int)
    requires
        0 <= n <= s.len(),
        forall|i: int, j: int|
            0 <= i < j < s.len() ==> (#[trigger] s[i]).date.le((#[trigger] s[j]).date),
    ensures
        forall|i: int, j: int|
            0 <= i < j < steps_between(s, strict, n).len() ==> !(#[trigger] steps_between(
                s,
                strict,
                n,
            )[j]).date.le((#[trigger] steps_between(s, strict, n)[i]).date),
        forall|i: int|
            0 <= i < steps_between(s, strict, n).len() ==> n >= 1 && (#[trigger] steps_between(
                s,
                strict,
                n,
            )[i]).date.le(s[n - 1].date),
    decreases n,
{
    if n > 1 {
        lemma_steps_between(s, strict, n - 1);
        let rest = steps_between(s, strict, n - 1);
        let all = steps_between(s, strict, n);
        let a = s[n - 2];
        let b = s[n - 1];
        assert(a.date.le(b.date));
        if makes_step(a, b, strict) {
            assert forall|i: int, j: int| 0 <= i < j < all.len() implies !(
            #[trigger] all[j]).date.le((#[trigger] all[i]).date) by {
                if j == all.len() - 1 {
                    assert(all[i] == rest[i]);
                    assert(rest[i].date.le(a.date));
                } else {
                    assert(all[i] == rest[i] && all[j] == rest[j]);
                }
            }
            assert forall|i: int| 0 <= i < all.len() implies (#[trigger] all[i]).date.le(
                b.date,
            ) by {
                if i < all.len() - 1 {
                    assert(all[i] == rest[i]);
                    assert(rest[i].date.le(a.date));
                }
            }
        } else {
            assert forall|i: int| 0 <= i < all.len() implies (#[trigger] all[i]).date.le(
                b.date,
            ) by {
                assert(all[i] == rest[i]);
                assert(rest[i].date.le(a.date));
            }
        }
    }
}

/// A step of a ticker as its prices show it: from the close of the latest
/// earlier day that has a price to the close of its own day, both closes of the
/// ticker itself, with no price of the ticker in between. The close that it
/// starts from is above zero, or, where `strict` does not hold, not at most zero.
pub open spec fn joins_neighbouring_days(
    step: PriceStep,
    prices: Seq<PricePoint>,
    ticker: Seq<char>,
    strict: bool,
) -> bool {
    exists|p: int, q: int|
        0 <= p < prices.len() && 0 <= q < prices.len() && (#[trigger] prices[p]).ticker@ == ticker
            && (#[trigger] prices[q]).ticker@ == ticker && prices[q].date == step.date
            && prices[q].close == step.to && prices[p].close == step.from && !prices[q].date.le(
            prices[p].date,
        ) && (if strict {
            Num::zero_spec().lt(prices[p].close)
        } else {
            !prices[p].close.le(Num::zero_spec())
        }) && no_price_between(prices, ticker, prices[p].date, prices[q].date)
}

/// A ticker has no price after one day and before another.
pub open spec fn no_price_between(
    prices: Seq<PricePoint>,
    ticker: Seq<char>,
    after: Date,
    until: Date,
) -> bool {
    forall|r: int|
        0 <= r < prices.len() && (#[trigger] prices[r]).ticker@ == ticker ==> prices[r].date.le(
            after,
        ) || until.le(prices[r].date)
}

spec fn is_price(prices: Seq<PricePoint>, ticker: Seq<char>, r: int, x: DatedPrice) -> bool {
    0 <= r < prices.len() && prices[r].ticker@ == ticker && prices[r].date == x.date
        && prices[r].close == x.close
}

spec fn is_step(s: Seq<DatedPrice>, strict: bool, m: int, x: PriceStep) -> bool {
    1 <= m < s.len() && makes_step(s[m - 1], s[m], strict) && x.date == s[m].date && x.from == s[m
        - 1].close && x.to == s[m].close
}

spec fn some_price(prices: Seq<PricePoint>, ticker: Seq<char>, x: DatedPrice) -> bool {
    exists|r: int| #[trigger] is_price(prices, ticker, r, x)
}

spec fn some_step(s: Seq<DatedPrice>, strict: bool, x: PriceStep) -> bool {
    exists|m: int| #[trigger] is_step(s, strict, m, x)
}

proof fn lemma_prices_of(prices: Seq<PricePoint>, ticker: Seq<char>, n: int)
    requires
        0 <= n <= prices.len(),
    ensures
        forall|k: int|
            0 <= k < prices_of(prices, ticker, n).len() ==> some_price(
                prices,
                ticker,
                #[trigger] prices_of(prices, ticker, n)[k],
            ),
        forall|r: int, x: DatedPrice|
            r < n && #[trigger] is_price(prices, ticker, r, x) ==> prices_of(
                prices,
                ticker,
                n,
            ).contains(x),
    decreases n,
{
    if n > 0 {
        lemma_prices_of(prices, ticker, n - 1);
        let front = prices_of(prices, ticker, n - 1);
        let all = prices_of(prices, ticker, n);
        assert forall|k: int| 0 <= k < all.len() implies some_price(
            prices,
            ticker,
            #[trigger] all[k],
        ) by {
            if k < front.len() {
                assert(all[k] == front[k]);
            } else {
                assert(is_price(prices, ticker, n - 1, all[k]));
            }
        }
        assert forall|r: int, x: DatedPrice|
            r < n && #[trigger] is_price(prices, ticker, r, x) implies all.contains(x) by {
            if r < n - 1 {
                assert(front.contains(x));
                let k = choose|k: int| 0 <= k < front.len() && front[k] == x;
                assert(all[k] == x);
            } else {
                assert(all[all.len() - 1] == x);
            }
        }
    }
}

proof fn lemma_steps_join(s: Seq<DatedPrice>, strict: bool, n: int)
    requires
        0 <= n <= s.len(),
    ensures
        forall|k: int|
            0 <= k < steps_between(s, strict, n).len() ==> some_step(
                s,
                strict,
                #[trigger] steps_between(s, strict, n)[k],
            ),
        forall|m: int, x: PriceStep|
            m < n && #[trigger] is_step(s, strict, m, x) ==> steps_between(s, strict, n).contains(
                x,
            ),
    decreases n,
{
    if n > 1 {
        lemma_steps_join(s, strict, n - 1);
        let front = steps_between(s, strict, n - 1);
        let all = steps_between(s, strict, n);
        assert forall|k: int| 0 <= k < all.len() implies some_step(
            s,
            strict,
            #[trigger] all[k],
        ) by {
            if k < front.len() {
                assert(all[k] == front[k]);
            } else {
                assert(is_step(s, strict, n - 1, all[k]));
            }
        }
        assert forall|m: int, x: PriceStep|
            m < n && #[trigger] is_step(s, strict, m, x) implies all.contains(x) by {
            if m < n - 1 {
                assert(front.contains(x));
                let k = choose|k: int| 0 <= k < front.len() && front[k] == x;
                assert(all[k] == x);
            } else {
                assert(all[all.len() - 1] == x);
            }
        }
    }
}

spec fn sorted_prices(prices: Seq<PricePoint>, ticker: Seq<char>) -> Seq<DatedPrice> {
    order::sorted(prices_of(prices, ticker, prices.len() as int), earlier())
}

proof fn lemma_series(prices: Seq<PricePoint>, ticker: Seq<char>)
    ensures
        ({
            let s = sorted_prices(prices, ticker);
            &&& forall|k: int|
                0 <= k < s.len() ==> some_price(prices, ticker, #[trigger] s[k])
            &&& forall|r: int, x: DatedPrice| #[trigger]
                is_price(prices, ticker, r, x) ==> s.contains(x)
            &&& forall|i: int, j: int|
                0 <= i < j < s.len() ==> (#[trigger] s[i]).date.le((#[trigger] s[j]).date)
        }),
{
    let series = prices_of(prices, ticker, prices.len() as int);
    let s = sorted_prices(prices, ticker);
    lemma_prices_of(prices, ticker, prices.len() as int);
    order::lemma_sorted_contains(series, earlier());
    order::lemma_sorted_in_order(series, earlier());
    assert forall|i: int, j: int| 0 <= i < j < s.len() implies (#[trigger] s[i]).date.le(
        (#[trigger] s[j]).date,
    ) by {
        assert(!earlier()(s[j], s[i]));
    }
    assert forall|k: int| 0 <= k < s.len() implies some_price(
        prices,
        ticker,
        #[trigger] s[k],
    ) by {
        assert(s.contains(s[k]));
        let e = choose|e: int| 0 <= e < series.len() && series[e] == s[k];
        assert(some_price(prices, ticker, series[e]));
    }
}

proof fn lemma_none_between(prices: Seq<PricePoint>, ticker: Seq<char>, m: int)
    requires
        1 <= m < sorted_prices(prices, ticker).len(),
    ensures
        no_price_between(
            prices,
            ticker,
            sorted_prices(prices, ticker)[m - 1].date,
            sorted_prices(prices, ticker)[m].date,
        ),
{
    let s = sorted_prices(prices, ticker);
    lemma_series(prices, ticker);
    assert forall|r: int|
        0 <= r < prices.len() && (#[trigger] prices[r]).ticker@ == ticker implies prices[r].date.le(
        s[m - 1].date,
    ) || s[m].date.le(prices[r].date) by {
        let x = DatedPrice { date: prices[r].date, close: prices[r].close };
        assert(is_price(prices, ticker, r, x));
        let e = choose|e: int| 0 <= e < s.len() && s[e] == x;
        if e < m - 1 {
            assert(s[e].date.le(s[m - 1].date));
        } else if e > m {
            assert(s[m].date.le(s[e].date));
        }
    }
}

/// Every step of a ticker leads from its close on the latest earlier day that
/// has a price to its close on the step's own day.
pub proof fn law_steps_join_neighbouring_days(
    prices: Seq<PricePoint>,
    ticker: Seq<char>,
    strict: bool,
)
    ensures
        forall|k: int|
            0 <= k < steps_of(prices, ticker, strict).len() ==> joins_neighbouring_days(
                #[trigger] steps_of(prices, ticker, strict)[k],
                prices,
                ticker,
                strict,
            ),
{
    let s = sorted_prices(prices, ticker);
    let steps = steps_of(prices, ticker, strict);
    lemma_series(prices, ticker);
    lemma_steps_join(s, strict, s.len() as int);
    assert forall|k: int| 0 <= k < steps.len() implies joins_neighbouring_days(
        #[trigger] steps[k],
        prices,
        ticker,
        strict,
    ) by {
        assert(some_step(s, strict, steps[k]));
        let m = choose|m: int| #[trigger] is_step(s, strict, m, steps[k]);
        assert(some_price(prices, ticker, s[m - 1]) && some_price(prices, ticker, s[m]));
        let p = choose|r: int| #[trigger] is_price(prices, ticker, r, s[m - 1]);
        let q = choose|r: int| #[trigger] is_price(prices, ticker, r, s[m]);
        lemma_none_between(prices, ticker, m);
        assert(prices[p].ticker@ == ticker && prices[q].ticker@ == ticker);
    }
}

/// A ticker has a step on every day on which it has a price, but for its first
/// one, as long as its closes on earlier days are above zero.
pub proof fn law_every_priced_day_has_a_step(
    prices: Seq<PricePoint>,
    ticker: Seq<char>,
    strict: bool,
    p: int,
    q: int,
)
    requires
        0 <= p < prices.len() && 0 <= q < prices.len(),
        prices[p].ticker@ == ticker && prices[q].ticker@ == ticker,
        !prices[q].date.le(prices[p].date),
        forall|r: int|
            0 <= r < prices.len() && (#[trigger] prices[r]).ticker@ == ticker && !prices[q].date.le(
                prices[r].date,
            ) && prices[p].date.le(prices[r].date) ==> Num::zero_spec().lt(prices[r].close),
    ensures
        exists|k: int|
            0 <= k < steps_of(prices, ticker, strict).len() && (#[trigger] steps_of(
                prices,
                ticker,
                strict,
            )[k]).date == prices[q].date,
{
    let s = sorted_prices(prices, ticker);
    let steps = steps_of(prices, ticker, strict);
    lemma_series(prices, ticker);
    lemma_steps_join(s, strict, s.len() as int);
    let x = DatedPrice { date: prices[p].date, close: prices[p].close };
    let y = DatedPrice { date: prices[q].date, close: prices[q].close };
    assert(is_price(prices, ticker, p, x) && is_price(prices, ticker, q, y));
    let low = choose|k: int| 0 <= k < s.len() && s[k] == x;
    let high = choose|k: int| 0 <= k < s.len() && s[k] == y;
    if high < low {
        assert(s[high].date.le(s[low].date));
    }
    let m = lemma_first_of_day(s, low, high);
    assert(some_price(prices, ticker, s[m - 1]));
    let r = choose|r: int| #[trigger] is_price(prices, ticker, r, s[m - 1]);
    if low < m - 1 {
        assert(s[low].date.le(s[m - 1].date));
    }
    assert(prices[r].ticker@ == ticker);
    let step = PriceStep { date: s[m].date, from: s[m - 1].close, to: s[m].close };
    assert(is_step(s, strict, m, step));
    let k = choose|k: int| 0 <= k < steps.len() && steps[k] == step;
    assert(steps[k].date == prices[q].date);
}

proof fn lemma_first_of_day(s: Seq<DatedPrice>, low: int, high: int) -> (m: int)
    requires
        0 <= low < high < s.len(),
        !s[high].date.le(s[low].date),
        forall|i: int, j: int|
            0 <= i < j < s.len() ==> (#[trigger] s[i]).date.le((#[trigger] s[j]).date),
    ensures
        low < m <= high,
        s[m].date == s[high].date,
        !s[m].date.le(s[m - 1].date),
    decreases high - low,
{
    if s[high].date.le(s[high - 1].date) {
        assert(s[high - 1].date.le(s[high].date));
        assert(s[high - 1].date == s[high].date);
        lemma_first_of_day(s, low, high - 1)
    } else {
        high
    }
}

/// A ticker has a step on a day.
pub open spec fn has_step_on(
    prices: Seq<PricePoint>,
    ticker: Seq<char>,
    strict: bool,
    day: Date,
) -> bool {
    exists|k: int|
        0 <= k < steps_of(prices, ticker, strict).len() && (#[trigger] steps_of(
            prices,
            ticker,
            strict,
        )[k]).date == day
}

proof fn lemma_step_on(steps: Seq<PriceStep>, day: Date, i: int)
    requires
        0 <= i <= steps.len(),
    ensures
        match step_on(steps, day, i) {
            Some(step) => steps.contains(step) && step.date == day,
            None => forall|k: int| i <= k < steps.len() ==> (#[trigger] steps[k]).date != day,
        },
    decreases steps.len() - i,
{
    if i < steps.len() {
        if steps[i].date == day {
            assert(steps.contains(steps[i]));
        } else {
            lemma_step_on(steps, day, i + 1);
        }
    }
}

// ---------------------------------------------------------------------------
// The returns of a fit
// ---------------------------------------------------------------------------

/// The steps from which a fit takes its returns: a row for each day on which
/// every ticker has one.
#[derive(Clone, Debug)]
pub struct ReturnPlan {
    pub dates: Vec<Date>,
    pub tickers: Vec<String>,
    pub steps: Vec<Vec<PriceStep>>,
}

/// Whether every ticker among the first `n` has a step on a day.
pub open spec fn all_step_on(
    prices: Seq<PricePoint>,
    tickers: Seq<Seq<char>>,
    day: Date,
    n: int,
) -> bool {
    forall|j: int|
        0 <= j < n ==> step_on(steps_of(prices, #[trigger] tickers[j], false), day, 0) is Some
}

/// The days of the first ticker's steps, up to the `n`th, on which every
/// ticker has one.
pub open spec fn common_days(prices: Seq<PricePoint>, tickers: Seq<Seq<char>>, n: int) -> Seq<Date>
    decreases n,
{
    if n <= 0 {
        Seq::empty()
    } else {
        let rest = common_days(prices, tickers, n - 1);
        let day = steps_of(prices, tickers[0], false)[n - 1].date;
        if all_step_on(prices, tickers, day, tickers.len() as int) {
            rest.push(day)
        } else {
            rest
        }
    }
}

/// The days on which every ticker has a step.
pub open spec fn shared_days(prices: Seq<PricePoint>) -> Seq<Date> {
    let tickers = tickers_in(prices);
    common_days(prices, tickers, steps_of(prices, tickers[0], false).len() as int)
}

/// Why prices allow no fit.
pub open spec fn returns_refused(prices: Seq<PricePoint>) -> Option<Seq<char>> {
    if prices.len() == 0 {
        Some("no prices"@)
    } else if tickers_in(prices).len() < 2 {
        Some("need at least 2 tickers"@)
    } else if shared_days(prices).len() < 20 {
        Some("not enough overlapping return rows (need >= 20)"@)
    } else {
        None
    }
}

/// The plan holds the steps of all tickers on all shared days.
pub open spec fn plans_returns(p: ReturnPlan, prices: Seq<PricePoint>) -> bool {
    &&& text::views(p.tickers@) == tickers_in(prices)
    &&& p.dates@ == shared_days(prices)
    &&& p.steps@.len() == p.dates@.len()
    &&& forall|i: int|
        0 <= i < p.steps@.len() ==> is_row((#[trigger] p.steps@[i])@, prices, p.dates@[i])
}

/// A step for each ticker, all on one day.
pub open spec fn is_row(row: Seq<PriceStep>, prices: Seq<PricePoint>, day: Date) -> bool {
    let tickers = tickers_in(prices);
    &&& row.len() == tickers.len()
    &&& forall|j: int|
        0 <= j < row.len() ==> step_on(steps_of(prices, tickers[j], false), day, 0) == Some(
            #[trigger] row[j],
        )
}

#[verifier::loop_isolation(false)]
fn read_row(all: &Vec<Vec<PriceStep>>, day: Date) -> (r: Option<Vec<PriceStep>>)
    ensures
        match r {
            Some(row) => row@.len() == all@.len() && forall|j: int|
                0 <= j < row@.len() ==> step_on(all@[j]@, day, 0) == Some(#[trigger] row@[j]),
            None => exists|j: int|
                0 <= j < all@.len() && step_on((#[trigger] all@[j])@, day, 0) is None,
        },
{
    let mut row: Vec<PriceStep> = Vec::new();
    let mut j: usize = 0;
    while j < all.len()
        invariant
            j <= all.len(),
            row.len() == j,
            forall|k: int|
                0 <= k < j ==> step_on(all@[k]@, day, 0) == Some(#[trigger] row@[k]),
        decreases all.len() - j,
    {
        match find_step(&all[j], day) {
            Some(s) => {
                row.push(s);
            },
            None => {
                assert(step_on(all@[j as int]@, day, 0) is None);
                return None;
            },
        }
        j += 1;
    }
    Some(row)
}

/// Lines up the prices of all tickers. Refuses an empty list, fewer than two
/// tickers, and fewer than twenty shared days, in this order.
#[verifier::loop_isolation(false)]
pub fn plan_returns(prices: &Vec<PricePoint>) -> (r: Result<ReturnPlan, String>)
    ensures
        match r {
            Ok(p) => returns_refused(prices@) is None && plans_returns(p, prices@),
            Err(e) => returns_refused(prices@) == Some(e@),
        },
{
    if prices.len() == 0 {
        return Err("no prices".to_owned());
    }
    let tickers = distinct_tickers(prices);
    let ghost names = tickers_in(prices@);
    assert(tickers@.len() == names.len());
    if tickers.len() < 2 {
        return Err("need at least 2 tickers".to_owned());
    }
    let mut all: Vec<Vec<PriceStep>> = Vec::new();
    let mut t: usize = 0;
    while t < tickers.len()
        invariant
            t <= tickers.len(),
            all.len() == t,
            forall|j: int|
                0 <= j < t ==> (#[trigger] all@[j])@ == steps_of(prices@, names[j], false),
        decreases tickers.len() - t,
    {
        assert(names[t as int] == tickers@[t as int]@);
        all.push(find_steps(prices, tickers[t].as_str(), false));
        t += 1;
    }
    let mut dates: Vec<Date> = Vec::new();
    let mut steps: Vec<Vec<PriceStep>> = Vec::new();
    let mut i: usize = 0;
    assert(all@[0]@ == steps_of(prices@, names[0], false));
    while i < all[0].len()
        invariant
            i <= all@[0]@.len(),
            dates@ == common_days(prices@, names, i as int),
            steps@.len() == dates@.len(),
            forall|k: int|
                0 <= k < steps@.len() ==> is_row((#[trigger] steps@[k])@, prices@, dates@[k]),
        decreases all@[0]@.len() - i,
    {
        let day = all[0][i].date;
        match read_row(&all, day) {
            Some(row) => {
                assert forall|j: int| 0 <= j < names.len() implies step_on(
                    steps_of(prices@, #[trigger] names[j], false),
                    day,
                    0,
                ) is Some by {
                    assert(step_on(all@[j]@, day, 0) == Some(row@[j]));
                }
                assert(all_step_on(prices@, names, day, names.len() as int));
                assert(is_row(row@, prices@, day)) by {
                    assert forall|j: int| 0 <= j < row@.len() implies step_on(
                        steps_of(prices@, names[j], false),
                        day,
                        0,
                    ) == Some(#[trigger] row@[j]) by {
                        assert(all@[j]@ == steps_of(prices@, names[j], false));
                    }
                }
                dates.push(day);
                steps.push(row);
            },
            None => {
                assert(!all_step_on(prices@, names, day, names.len() as int)) by {
                    let j = choose|j: int|
                        0 <= j < all@.len() && step_on((#[trigger] all@[j])@, day, 0) is None;
                    assert(step_on(steps_of(prices@, names[j], false), day, 0) is None);
                }
            },
        }
        i += 1;
    }
    if dates.len() < 20 {
        return Err("not enough overlapping return rows (need >= 20)".to_owned());
    }
    Ok(ReturnPlan { dates, tickers, steps })
}

proof fn lemma_common_days(prices: Seq<PricePoint>, tickers: Seq<Seq<char>>, n: int)
    requires
        0 <= n <= steps_of(prices, tickers[0], false).len(),
        tickers.len() > 0,
    ensures
        forall|k: int|
            0 <= k < common_days(prices, tickers, n).len() ==> exists|i: int|
                0 <= i < n && common_days(prices, tickers, n)[k] == (#[trigger] steps_of(
                    prices,
                    tickers[0],
                    false,
                )[i]).date && all_step_on(
                    prices,
                    tickers,
                    #[trigger] common_days(prices, tickers, n)[k],
                    tickers.len() as int,
                ),
        forall|i: int|
            0 <= i < n && all_step_on(
                prices,
                tickers,
                (#[trigger] steps_of(prices, tickers[0], false)[i]).date,
                tickers.len() as int,
            ) ==> common_days(prices, tickers, n).contains(
                steps_of(prices, tickers[0], false)[i].date,
            ),
        forall|i: int, j: int|
            0 <= i < j < common_days(prices, tickers, n).len() ==> !(#[trigger] common_days(
                prices,
                tickers,
                n,
            )[j]).le(#[trigger] common_days(prices, tickers, n)[i]),
    decreases n,
{
    let first = steps_of(prices, tickers[0], false);
    law_steps_ascend(prices, tickers[0], false);
    if n > 0 {
        lemma_common_days(prices, tickers, n - 1);
        let front = common_days(prices, tickers, n - 1);
        let all = common_days(prices, tickers, n);
        assert forall|k: int| 0 <= k < all.len() implies exists|i: int|
            0 <= i < n && all[k] == (#[trigger] first[i]).date && all_step_on(
                prices,
                tickers,
                #[trigger] all[k],
                tickers.len() as int,
            ) by {
            if k < front.len() {
                assert(all[k] == front[k]);
            } else {
                assert(all[k] == first[n - 1].date);
            }
        }
        assert forall|i: int|
            0 <= i < n && all_step_on(
                prices,
                tickers,
                (#[trigger] first[i]).date,
                tickers.len() as int,
            ) implies all.contains(first[i].date) by {
            if i < n - 1 {
                assert(front.contains(first[i].date));
                let k = choose|k: int| 0 <= k < front.len() && front[k] == first[i].date;
                assert(all[k] == first[i].date);
            } else {
                assert(all[all.len() - 1] == first[i].date);
            }
        }
        assert forall|i: int, j: int| 0 <= i < j < all.len() implies !(#[trigger] all[j]).le(
            #[trigger] all[i],
        ) by {
            if j < front.len() {
                assert(all[i] == front[i] && all[j] == front[j]);
            } else {
                assert(all[i] == front[i]);
                let e = choose|e: int| 0 <= e < n - 1 && front[i] == (#[trigger] first[e]).date;
                assert(!first[n - 1].date.le(first[e].date));
            }
        }
    }
}

/// The returns of a fit have a row for each day on which every ticker has a
/// step, the earliest first, and in each row every ticker has its own step of
/// that day: from its close on the latest earlier day to its close on the day.
pub proof fn law_return_rows_hold_each_ticker_on_its_day(p: ReturnPlan, prices: Seq<PricePoint>)
    requires
        plans_returns(p, prices),
        returns_refused(prices) is None,
    ensures
        p.steps@.len() == p.dates@.len(),
        forall|i: int, j: int|
            0 <= i < p.steps@.len() && 0 <= j < p.tickers@.len() ==> p.steps@[i]@.len()
                == p.tickers@.len() && (#[trigger] p.steps@[i]@[j]).date == p.dates@[i]
                && joins_neighbouring_days(p.steps@[i]@[j], prices, p.tickers@[j]@, false),
        forall|i: int, j: int|
            0 <= i < j < p.dates@.len() ==> !(#[trigger] p.dates@[j]).le(#[trigger] p.dates@[i]),
        forall|day: Date|
            (forall|j: int|
                0 <= j < p.tickers@.len() ==> has_step_on(
                    prices,
                    (#[trigger] p.tickers@[j])@,
                    false,
                    day,
                )) ==> #[trigger] p.dates@.contains(day),
{
    let tickers = tickers_in(prices);
    assert(tickers.len() == p.tickers@.len());
    assert forall|j: int| 0 <= j < tickers.len() implies #[trigger] tickers[j] == p.tickers@[j]@ by {
        assert(text::views(p.tickers@)[j] == p.tickers@[j]@);
    }
    let first = steps_of(prices, tickers[0], false);
    lemma_common_days(prices, tickers, first.len() as int);
    assert forall|i: int, j: int| 0 <= i < p.steps@.len() && 0 <= j < p.tickers@.len() implies p.steps@[i]@.len()
        == p.tickers@.len() && (#[trigger] p.steps@[i]@[j]).date == p.dates@[i]
        && joins_neighbouring_days(p.steps@[i]@[j], prices, p.tickers@[j]@, false) by {
        let steps = steps_of(prices, tickers[j], false);
        assert(is_row(p.steps@[i]@, prices, p.dates@[i]));
        assert(step_on(steps, p.dates@[i], 0) == Some(p.steps@[i]@[j]));
        lemma_step_on(steps, p.dates@[i], 0);
        law_steps_join_neighbouring_days(prices, tickers[j], false);
        let k = choose|k: int| 0 <= k < steps.len() && steps[k] == p.steps@[i]@[j];
        assert(joins_neighbouring_days(steps[k], prices, tickers[j], false));
    }
    assert forall|day: Date|
        (forall|j: int|
            0 <= j < p.tickers@.len() ==> has_step_on(
                prices,
                (#[trigger] p.tickers@[j])@,
                false,
                day,
            )) implies #[trigger] p.dates@.contains(day) by {
        assert forall|j: int| 0 <= j < tickers.len() implies step_on(
            steps_of(prices, #[trigger] tickers[j], false),
            day,
            0,
        ) is Some by {
            assert(tickers[j] == p.tickers@[j]@);
            assert(has_step_on(prices, tickers[j], false, day));
            lemma_step_on(steps_of(prices, tickers[j], false), day, 0);
        }
        assert(all_step_on(prices, tickers, day, tickers.len() as int));
        assert(tickers[0] == p.tickers@[0]@);
        assert(has_step_on(prices, tickers[0], false, day));
        let k = choose|k: int| 0 <= k < first.len() && (#[trigger] first[k]).date == day;
        assert(first[k].date == day);
    }
}

// ---------------------------------------------------------------------------
// Weights
// ---------------------------------------------------------------------------

/// The weight of a ticker: the last of the first `n` that are given for it.
pub open spec fn weight_of(
    weights: Seq<PortfolioWeight>,
    ticker: Seq<char>,
    n: int,
) -> Option<Num>
    decreases n,
{
    if n <= 0 {
        None
    } else if weights[n - 1].ticker@ == ticker {
        Some(weights[n - 1].weight)
    } else {
        weight_of(weights, ticker, n - 1)
    }
}

fn find_weight(weights: &Vec<PortfolioWeight>, ticker: &str) -> (r: Option<Num>)
    ensures
        r == weight_of(weights@, ticker@, weights@.len() as int),
{
    let mut i: usize = weights.len();
    while i > 0
        invariant
            i <= weights.len(),
            weight_of(weights@, ticker@, i as int) == weight_of(
                weights@,
                ticker@,
                weights@.len() as int,
            ),
        decreases i,
    {
        if same(weights[i - 1].ticker.as_str(), ticker) {
            return Some(weights[i - 1].weight);
        }
        i -= 1;
    }
    None
}

/// The weight of a ticker, zero where none is given.
pub open spec fn weight_or_zero(weights: Seq<PortfolioWeight>, ticker: Seq<char>) -> Num {
    match weight_of(weights, ticker, weights.len() as int) {
        Some(w) => w,
        None => Num::zero_spec(),
    }
}

/// The weights of tickers, in their order.
pub fn weights_for(tickers: &Vec<String>, weights: &Vec<PortfolioWeight>) -> (r: Vec<Num>)
    ensures
        r@ == Seq::new(tickers@.len(), |i: int| weight_or_zero(weights@, tickers@[i]@)),
{
    let mut out: Vec<Num> = Vec::new();
    let mut i: usize = 0;
    while i < tickers.len()
        invariant
            i <= tickers.len(),
            out.len() == i,
            forall|k: int|
                0 <= k < i ==> #[trigger] out@[k] == weight_or_zero(weights@, tickers@[k]@),
        decreases tickers.len() - i,
    {
        match find_weight(weights, tickers[i].as_str()) {
            Some(w) => {
                out.push(w);
            },
            None => {
                out.push(Num::zero());
            },
        }
        i += 1;
    }
    assert(out@ =~= Seq::new(tickers@.len(), |i: int| weight_or_zero(weights@, tickers@[i]@)));
    out
}

/// A weight that is the last one given for a ticker.
pub open spec fn is_last_weight(
    w: Num,
    weights: Seq<PortfolioWeight>,
    ticker: Seq<char>,
) -> bool {
    exists|i: int|
        0 <= i < weights.len() && (#[trigger] weights[i]).ticker@ == ticker && weights[i].weight
            == w && forall|k: int|
            i < k < weights.len() ==> (#[trigger] weights[k]).ticker@ != ticker
}

proof fn lemma_weight_of(weights: Seq<PortfolioWeight>, ticker: Seq<char>, n: int)
    requires
        0 <= n <= weights.len(),
    ensures
        match weight_of(weights, ticker, n) {
            Some(w) => exists|i: int|
                0 <= i < n && (#[trigger] weights[i]).ticker@ == ticker && weights[i].weight == w
                    && forall|k: int| i < k < n ==> (#[trigger] weights[k]).ticker@ != ticker,
            None => forall|k: int| 0 <= k < n ==> (#[trigger] weights[k]).ticker@ != ticker,
        },
    decreases n,
{
    if n > 0 {
        if weights[n - 1].ticker@ == ticker {
            assert(weights[n - 1].weight == weight_of(weights, ticker, n)->0);
        } else {
            lemma_weight_of(weights, ticker, n - 1);
            match weight_of(weights, ticker, n - 1) {
                Some(w) => {
                    let i = choose|i: int|
                        0 <= i < n - 1 && (#[trigger] weights[i]).ticker@ == ticker
                            && weights[i].weight == w && forall|k: int|
                            i < k < n - 1 ==> (#[trigger] weights[k]).ticker@ != ticker;
                    assert(weights[i].ticker@ == ticker);
                },
                None => {},
            }
        }
    }
}

/// A ticker has the weight that is given for it last, and none where none is
/// given.
pub proof fn law_the_last_weight_counts(weights: Seq<PortfolioWeight>, ticker: Seq<char>)
    ensures
        (exists|i: int| 0 <= i < weights.len() && (#[trigger] weights[i]).ticker@ == ticker)
            ==> is_last_weight(weight_or_zero(weights, ticker), weights, ticker),
        !(exists|i: int| 0 <= i < weights.len() && (#[trigger] weights[i]).ticker@ == ticker)
            ==> weight_or_zero(weights, ticker) == (Num { bits: 0 }),
{
    lemma_weight_of(weights, ticker, weights.len() as int);
}

/// 1e-12.
pub const TINY: u64 = 0x3d719799812dea11;

/// Checks that the weights of a portfolio's tickers in a model do not sum up
/// to nothing.
pub fn check_model_weights(sum: Num) -> (r: Result<(), String>)
    ensures
        match r {
            Ok(_) => !sum.abs_spec().le(Num { bits: TINY }),
            Err(e) => sum.abs_spec().le(Num { bits: TINY }) && e@
                == "portfolio has no overlap with model tickers"@,
        },
{
    if sum.abs().at_most(Num { bits: TINY }) {
        Err("portfolio has no overlap with model tickers".to_owned())
    } else {
        Ok(())
    }
}

/// Checks that the weights of a portfolio's tickers among prices do not sum up
/// to nothing.
pub fn check_price_weights(sum: Num) -> (r: Result<(), String>)
    ensures
        match r {
            Ok(_) => !sum.abs_spec().lt(Num { bits: TINY }),
            Err(e) => sum.abs_spec().lt(Num { bits: TINY }) && e@
                == "portfolio weights do not overlap with prices tickers"@,
        },
{
    if sum.abs().less(Num { bits: TINY }) {
        Err("portfolio weights do not overlap with prices tickers".to_owned())
    } else {
        Ok(())
    }
}

/// The tickers of weights, one for each weight.
pub open spec fn weighted_tickers(weights: Seq<PortfolioWeight>) -> Seq<Seq<char>> {
    Seq::new(weights.len(), |i: int| weights[i].ticker@)
}

/// The tickers of a portfolio, each once.
pub open spec fn portfolio_tickers(weights: Seq<PortfolioWeight>) -> Seq<Seq<char>> {
    list::distinct_by(weighted_tickers(weights), |d: Seq<char>| d)
}

#[verifier::loop_isolation(false)]
fn list_portfolio(weights: &Vec<PortfolioWeight>) -> (r: Vec<String>)
    ensures
        text::views(r@) == portfolio_tickers(weights@),
{
    let ghost all = weighted_tickers(weights@);
    let mut names: Vec<String> = Vec::new();
    let mut i: usize = 0;
    assert(all.take(0) =~= Seq::<Seq<char>>::empty());
    assert(text::views(names@) =~= list::distinct_by(all.take(0), |d: Seq<char>| d));
    while i < weights.len()
        invariant
            i <= weights.len(),
            text::views(names@) == list::distinct_by(all.take(i as int), |d: Seq<char>| d),
        decreases weights.len() - i,
    {
        push_distinct(&mut names, weights[i].ticker.as_str(), Ghost(all.take(i as int)));
        assert(all.take(i as int).push(weights@[i as int].ticker@) =~= all.take(i + 1));
        i += 1;
    }
    assert(all.take(all.len() as int) =~= all);
    names
}

/// The weights of the first `n` portfolio tickers that have prices.
pub open spec fn priced_weights(
    prices: Seq<PricePoint>,
    weights: Seq<PortfolioWeight>,
    n: int,
) -> Seq<Num>
    decreases n,
{
    if n <= 0 {
        Seq::empty()
    } else {
        let rest = priced_weights(prices, weights, n - 1);
        let ticker = portfolio_tickers(weights)[n - 1];
        if ticker_of_each(prices).contains(ticker) {
            rest.push(weight_or_zero(weights, ticker))
        } else {
            rest
        }
    }
}

fn has_prices(prices: &Vec<PricePoint>, ticker: &str) -> (r: bool)
    ensures
        r == ticker_of_each(prices@).contains(ticker@),
{
    let mut i: usize = 0;
    while i < prices.len()
        invariant
            i <= prices.len(),
            forall|k: int| 0 <= k < i ==> (#[trigger] prices@[k]).ticker@ != ticker@,
        decreases prices.len() - i,
    {
        if same(prices[i].ticker.as_str(), ticker) {
            assert(ticker_of_each(prices@)[i as int] == ticker@);
            return true;
        }
        i += 1;
    }
    assert forall|k: int| 0 <= k < ticker_of_each(prices@).len() implies ticker_of_each(prices@)[k]
        != ticker@ by {
        assert(prices@[k].ticker@ != ticker@);
    }
    false
}

/// The weights of the portfolio's tickers that have prices.
#[verifier::loop_isolation(false)]
pub fn list_priced_weights(prices: &Vec<PricePoint>, weights: &Vec<PortfolioWeight>) -> (r: Vec<
    Num,
>)
    ensures
        r@ == priced_weights(prices@, weights@, portfolio_tickers(weights@).len() as int),
{
    let names = list_portfolio(weights);
    assert(names@.len() == portfolio_tickers(weights@).len());
    let mut out: Vec<Num> = Vec::new();
    let mut i: usize = 0;
    while i < names.len()
        invariant
            i <= names.len(),
            out@ == priced_weights(prices@, weights@, i as int),
        decreases names.len() - i,
    {
        assert(names@[i as int]@ == portfolio_tickers(weights@)[i as int]);
        if has_prices(prices, names[i].as_str()) {
            match find_weight(weights, names[i].as_str()) {
                Some(w) => {
                    out.push(w);
                },
                None => {
                    out.push(Num::zero());
                },
            }
        }
        i += 1;
    }
    out
}

/// The priced tickers of a portfolio are counted once each, every one with the
/// weight that is given for it last.
pub proof fn law_priced_weights_are_those_of_priced_tickers(
    prices: Seq<PricePoint>,
    weights: Seq<PortfolioWeight>,
)
    ensures
        exists|names: Seq<Seq<char>>| #[trigger]
            weighs_priced_tickers(
                priced_weights(prices, weights, portfolio_tickers(weights).len() as int),
                names,
                prices,
                weights,
            ),
{
    let n = portfolio_tickers(weights).len() as int;
    lemma_portfolio(weights);
    let names = lemma_priced_weights(prices, weights, n);
    assert(weighs_priced_tickers(priced_weights(prices, weights, n), names, prices, weights));
}

/// The weights belong to `names`: every ticker of the portfolio that has a price
/// once, and no other.
pub open spec fn weighs_priced_tickers(
    listed: Seq<Num>,
    names: Seq<Seq<char>>,
    prices: Seq<PricePoint>,
    weights: Seq<PortfolioWeight>,
) -> bool {
    &&& listed.len() == names.len()
    &&& names.no_duplicates()
    &&& forall|k: int|
        0 <= k < names.len() ==> is_last_weight(listed[k], weights, #[trigger] names[k])
            && ticker_of_each(prices).contains(names[k])
    &&& forall|i: int|
        0 <= i < weights.len() && ticker_of_each(prices).contains((#[trigger] weights[i]).ticker@)
            ==> names.contains(weights[i].ticker@)
}

proof fn lemma_portfolio(weights: Seq<PortfolioWeight>)
    ensures
        portfolio_tickers(weights).no_duplicates(),
        forall|i: int|
            0 <= i < weights.len() ==> portfolio_tickers(weights).contains(
                (#[trigger] weights[i]).ticker@,
            ),
        forall|k: int|
            0 <= k < portfolio_tickers(weights).len() ==> is_last_weight(
                weight_or_zero(weights, portfolio_tickers(weights)[k]),
                weights,
                #[trigger] portfolio_tickers(weights)[k],
            ),
{
    let all = weighted_tickers(weights);
    let key = |d: Seq<char>| d;
    let names = portfolio_tickers(weights);
    list::lemma_distinct_by(all, key);
    assert forall|i: int, j: int| 0 <= i < names.len() && 0 <= j < names.len() && i != j implies names[i]
        != names[j] by {
        if i < j {
            assert(key(names[i]) != key(names[j]));
        } else {
            assert(key(names[j]) != key(names[i]));
        }
    }
    assert forall|i: int| 0 <= i < weights.len() implies names.contains(
        (#[trigger] weights[i]).ticker@,
    ) by {
        assert(all[i] == weights[i].ticker@);
        let k = choose|k: int| 0 <= k < names.len() && key(#[trigger] names[k]) == key(all[i]);
        assert(names[k] == weights[i].ticker@);
    }
    assert forall|k: int| 0 <= k < names.len() implies is_last_weight(
        weight_or_zero(weights, names[k]),
        weights,
        #[trigger] names[k],
    ) by {
        assert(all.contains(names[k]));
        let i = choose|i: int| 0 <= i < all.len() && all[i] == names[k];
        assert(weights[i].ticker@ == names[k]);
        law_the_last_weight_counts(weights, names[k]);
    }
}

proof fn lemma_priced_weights(
    prices: Seq<PricePoint>,
    weights: Seq<PortfolioWeight>,
    n: int,
) -> (names: Seq<Seq<char>>)
    requires
        0 <= n <= portfolio_tickers(weights).len(),
    ensures
        ({
            let listed = priced_weights(prices, weights, n);
            let all = portfolio_tickers(weights);
            &&& listed.len() == names.len()
            &&& names.no_duplicates()
            &&& forall|k: int|
                0 <= k < names.len() ==> is_last_weight(listed[k], weights, #[trigger] names[k])
                    && ticker_of_each(prices).contains(names[k]) && all.take(n).contains(names[k])
            &&& forall|i: int|
                0 <= i < n && ticker_of_each(prices).contains(#[trigger] all[i]) ==> names.contains(
                    all[i],
                )
        }),
    decreases n,
{
    let all = portfolio_tickers(weights);
    lemma_portfolio(weights);
    if n <= 0 {
        Seq::empty()
    } else {
        let front = lemma_priced_weights(prices, weights, n - 1);
        let listed = priced_weights(prices, weights, n);
        let ticker = all[n - 1];
        let names = if ticker_of_each(prices).contains(ticker) {
            front.push(ticker)
        } else {
            front
        };
        lemma_taken_one_more(all, n);
        assert forall|k: int| 0 <= k < names.len() implies is_last_weight(
            listed[k],
            weights,
            #[trigger] names[k],
        ) && ticker_of_each(prices).contains(names[k]) && all.take(n).contains(names[k]) by {
            if k < front.len() {
                assert(names[k] == front[k]);
                assert(all.take(n - 1).contains(front[k]));
            } else {
                assert(all.take(n)[n - 1] == ticker);
            }
        }
        assert forall|i: int| 0 <= i < n && ticker_of_each(prices).contains(#[trigger] all[i]) implies names.contains(
        all[i]) by {
            if i < n - 1 {
                let k = choose|k: int| 0 <= k < front.len() && front[k] == all[i];
                assert(names[k] == all[i]);
            } else {
                assert(names[names.len() - 1] == all[i]);
            }
        }
        assert(names.no_duplicates()) by {
            if front.contains(ticker) {
                let k = choose|k: int| 0 <= k < front.len() && front[k] == ticker;
                assert(all.take(n - 1).contains(front[k]));
            }
        }
        names
    }
}

proof fn lemma_taken_one_more(all: Seq<Seq<char>>, n: int)
    requires
        0 < n <= all.len(),
        all.no_duplicates(),
    ensures
        forall|x: Seq<char>| #[trigger] all.take(n - 1).contains(x) ==> all.take(n).contains(x),
        !all.take(n - 1).contains(all[n - 1]),
{
    let front = all.take(n - 1);
    assert forall|x: Seq<char>| #[trigger] front.contains(x) implies all.take(n).contains(x) by {
        let k = choose|k: int| 0 <= k < front.len() && front[k] == x;
        assert(all.take(n)[k] == x);
    }
    if front.contains(all[n - 1]) {
        let k = choose|k: int| 0 <= k < front.len() && front[k] == all[n - 1];
        assert(all[k] == all[n - 1]);
    }
}

// ---------------------------------------------------------------------------
// Outliers
// ---------------------------------------------------------------------------

/// A day on which the fit leaves a residual.
#[derive(Clone, Copy, Debug)]
pub struct OutlierDay {
    pub date: Date,
    pub residual: Num,
    pub abs_residual: Num,
}

pub open spec fn strays_more(a: OutlierDay, b: OutlierDay) -> bool {
    b.abs_residual.lt(a.abs_residual)
}

/// Larger residuals come first.
pub open spec fn further() -> spec_fn(OutlierDay, OutlierDay) -> bool {
    |a: OutlierDay, b: OutlierDay| strays_more(a, b)
}

/// The days with their residuals.
pub open spec fn residual_days(dates: Seq<Date>, residuals: Seq<Num>) -> Seq<OutlierDay> {
    Seq::new(
        dates.len(),
        |i: int|
            OutlierDay {
                date: dates[i],
                residual: residuals[i],
                abs_residual: residuals[i].abs_spec(),
            },
    )
}

/// The days with the largest residuals.
pub open spec fn outliers(dates: Seq<Date>, residuals: Seq<Num>, top_n: int) -> Seq<OutlierDay> {
    let s = order::sorted(residual_days(dates, residuals), further());
    s.take(report::least(s.len() as int, top_n))
}

/// The `top_n` days with the largest residuals, the largest first.
pub fn rank_outliers(dates: &Vec<Date>, residuals: &Vec<Num>, top_n: usize) -> (r: Vec<OutlierDay>)
    requires
        dates.len() == residuals.len(),
    ensures
        r@ == outliers(dates@, residuals@, top_n as int),
{
    let mut all: Vec<OutlierDay> = Vec::new();
    let mut i: usize = 0;
    while i < dates.len()
        invariant
            i <= dates.len(),
            dates.len() == residuals.len(),
            all.len() == i,
            forall|k: int|
                0 <= k < i ==> #[trigger] all@[k] == residual_days(dates@, residuals@)[k],
        decreases dates.len() - i,
    {
        let residual = residuals[i];
        all.push(OutlierDay { date: dates[i], residual, abs_residual: residual.abs() });
        i += 1;
    }
    assert(all@ =~= residual_days(dates@, residuals@));
    let precedes = |a: &OutlierDay, b: &OutlierDay| -> (x: bool)
        ensures
            x == strays_more(*a, *b),
        { b.abs_residual.less(a.abs_residual) };
    let mut out = sort_by(all, precedes, Ghost(further()));
    if out.len() > top_n {
        out.truncate(top_n);
    }
    out
}

/// The reported days are those with the largest residuals, whatever their sign,
/// the largest first, each with the residual of its own day; equal ones keep
/// their order. Every residual is taken to be a number.
pub proof fn law_outliers_stray_most(dates: Seq<Date>, residuals: Seq<Num>, top_n: int)
    requires
        0 <= top_n,
        dates.len() == residuals.len(),
        forall|i: int| 0 <= i < residuals.len() ==> !(#[trigger] residuals[i]).is_nan(),
    ensures
        forall|k: int|
            0 <= k < outliers(dates, residuals, top_n).len() ==> exists|i: int|
                0 <= i < dates.len() && #[trigger] dates[i] == (#[trigger] outliers(
                    dates,
                    residuals,
                    top_n,
                )[k]).date && residuals[i] == outliers(dates, residuals, top_n)[k].residual
                    && residuals[i].abs_spec() == outliers(dates, residuals, top_n)[k].abs_residual,
        order::takes_highest(
            outliers(dates, residuals, top_n),
            residual_days(dates, residuals),
            |d: OutlierDay| d.residual.abs_spec().rank(),
            top_n,
        ),
        order::ties_stay(
            outliers(dates, residuals, top_n),
            residual_days(dates, residuals),
            |d: OutlierDay| d.residual.abs_spec().rank(),
        ),
        residual_days(dates, residuals).len() == dates.len(),
        forall|i: int|
            0 <= i < dates.len() ==> (#[trigger] residual_days(dates, residuals)[i]).date
                == dates[i] && residual_days(dates, residuals)[i].residual == residuals[i],
{
    let all = residual_days(dates, residuals);
    let rank = |d: OutlierDay| d.residual.abs_spec().rank();
    let before = further();
    assert forall|a: OutlierDay, b: OutlierDay| all.contains(a) && all.contains(b) implies (
    #[trigger] before(a, b) <==> rank(a) > rank(b)) by {
        let i = choose|i: int| 0 <= i < all.len() && all[i] == a;
        let j = choose|j: int| 0 <= j < all.len() && all[j] == b;
        assert(!residuals[i].is_nan() && !residuals[j].is_nan());
    }
    order::lemma_sorted_permutation(all, before);
    order::lemma_sorted_contains(all, before);
    order::lemma_takes_highest(all, before, rank, top_n);
    order::lemma_ties_stay(all, before, rank, report::least(all.len() as int, top_n));
    let kept = outliers(dates, residuals, top_n);
    let s = order::sorted(all, before);
    assert forall|k: int| 0 <= k < kept.len() implies exists|i: int|
        0 <= i < dates.len() && #[trigger] dates[i] == (#[trigger] kept[k]).date && residuals[i]
            == kept[k].residual && residuals[i].abs_spec() == kept[k].abs_residual by {
        assert(kept[k] == s[k]);
        assert(s.contains(s[k]));
        let i = choose|i: int| 0 <= i < all.len() && all[i] == kept[k];
        assert(dates[i] == kept[k].date);
    }
}

/// A value with the place from which it comes.
#[derive(Clone, Copy, Debug)]
pub struct PlacedValue {
    pub place: usize,
    pub value: Num,
}

pub open spec fn is_larger(a: PlacedValue, b: PlacedValue) -> bool {
    b.value.lt(a.value)
}

/// Larger values come first.
pub open spec fn larger_value() -> spec_fn(PlacedValue, PlacedValue) -> bool {
    |a: PlacedValue, b: PlacedValue| is_larger(a, b)
}

/// Values with their places.
pub open spec fn with_places(values: Seq<Num>) -> Seq<PlacedValue> {
    Seq::new(values.len(), |i: int| PlacedValue { place: i as usize, value: values[i] })
}

/// The values from the largest down, each with its place; equal values keep
/// their order.
pub fn rank_values(values: &Vec<Num>) -> (r: Vec<PlacedValue>)
    ensures
        r@ == order::sorted(with_places(values@), larger_value()),
{
    let mut all: Vec<PlacedValue> = Vec::new();
    let mut i: usize = 0;
    while i < values.len()
        invariant
            i <= values.len(),
            all.len() == i,
            forall|k: int| 0 <= k < i ==> #[trigger] all@[k] == with_places(values@)[k],
        decreases values.len() - i,
    {
        all.push(PlacedValue { place: i, value: values[i] });
        i += 1;
    }
    assert(all@ =~= with_places(values@));
    let precedes = |a: &PlacedValue, b: &PlacedValue| -> (x: bool)
        ensures
            x == is_larger(*a, *b),
        { b.value.less(a.value) };
    sort_by(all, precedes, Ghost(larger_value()))
}

/// A value is there with its place.
pub open spec fn places_value(ranked: Seq<PlacedValue>, place: int, value: Num) -> bool {
    exists|k: int|
        0 <= k < ranked.len() && (#[trigger] ranked[k]).place == place && ranked[k].value == value
}

/// Ranked values are the given ones, each with its own place, the largest first.
/// Every value is taken to be a number.
pub proof fn law_ranked_values_fall(values: Seq<Num>)
    requires
        values.len() <= usize::MAX,
        forall|i: int| 0 <= i < values.len() ==> !(#[trigger] values[i]).is_nan(),
    ensures
        ({
            let r = order::sorted(with_places(values), larger_value());
            &&& r.len() == values.len()
            &&& forall|k: int|
                0 <= k < r.len() ==> (#[trigger] r[k]).place < values.len() && r[k].value
                    == values[r[k].place as int]
            &&& forall|i: int| 0 <= i < values.len() ==> places_value(r, i, #[trigger] values[i])
            &&& forall|i: int, j: int|
                0 <= i < j < r.len() ==> !(#[trigger] r[i]).value.lt((#[trigger] r[j]).value)
        }),
{
    let all = with_places(values);
    let rank = |v: PlacedValue| v.value.rank();
    let before = larger_value();
    assert forall|a: PlacedValue, b: PlacedValue| all.contains(a) && all.contains(b) implies (
    #[trigger] before(a, b) <==> rank(a) > rank(b)) by {
        let i = choose|i: int| 0 <= i < all.len() && all[i] == a;
        let j = choose|j: int| 0 <= j < all.len() && all[j] == b;
        assert(!values[i].is_nan() && !values[j].is_nan());
    }
    let r = order::sorted(all, before);
    order::lemma_sorted_permutation(all, before);
    order::lemma_sorted_contains(all, before);
    order::lemma_sorted_falls(all, before, rank);
    assert forall|k: int| 0 <= k < r.len() implies (#[trigger] r[k]).place < values.len()
        && r[k].value == values[r[k].place as int] by {
        assert(r.contains(r[k]));
        let i = choose|i: int| 0 <= i < all.len() && all[i] == r[k];
        assert(all[i].place == i);
    }
    assert forall|i: int| 0 <= i < values.len() implies places_value(r, i, #[trigger] values[i]) by {
        assert(all.contains(all[i]));
        assert(r.contains(all[i]));
        let k = choose|k: int| 0 <= k < r.len() && r[k] == all[i];
        assert(r[k].place == i);
    }
    assert forall|i: int, j: int| 0 <= i < j < r.len() implies !(#[trigger] r[i]).value.lt(
        (#[trigger] r[j]).value,
    ) by {
        assert(rank(r[i]) >= rank(r[j]));
    }
}

// ---------------------------------------------------------------------------
// Known factors
// ---------------------------------------------------------------------------

/// The first column from place `i` on that is named as a day, in any case.
pub open spec fn day_column(headers: Seq<Seq<char>>, i: int) -> int
    decreases headers.len() - i,
{
    if i >= headers.len() {
        0
    } else if text::same_ignoring_case(headers[i], "date"@) {
        i
    } else {
        day_column(headers, i + 1)
    }
}

/// All columns but one, among the first `n`.
pub open spec fn other_columns(day: int, n: int) -> Seq<usize>
    decreases n,
{
    if n <= 0 {
        Seq::empty()
    } else if n - 1 == day {
        other_columns(day, n - 1)
    } else {
        other_columns(day, n - 1).push((n - 1) as usize)
    }
}

/// The columns of a factor file.
#[derive(Clone, Debug)]
pub struct FactorColumns {
    pub date: usize,
    pub factors: Vec<usize>,
}

/// Finds the columns of a factor file: the day, which is the first column
/// where none is named so, and the factors, which are all others.
#[verifier::loop_isolation(false)]
pub fn find_factor_columns(headers: &Vec<String>) -> (r: Result<FactorColumns, String>)
    ensures
        match r {
            Ok(c) => headers@.len() >= 2 && c.date == day_column(text::views(headers@), 0)
                && c.factors@ == other_columns(c.date as int, headers@.len() as int),
            Err(e) => headers@.len() < 2 && e@
                == "factors CSV must contain date plus at least one factor column"@,
        },
{
    if headers.len() < 2 {
        return Err(
            "factors CSV must contain date plus at least one factor column".to_owned(),
        );
    }
    let ghost hs = text::views(headers@);
    let mut date: usize = 0;
    let mut found = false;
    let mut i: usize = 0;
    while i < headers.len() && !found
        invariant
            i <= headers.len(),
            found ==> date == day_column(hs, 0),
            !found ==> date == 0 && day_column(hs, 0) == day_column(hs, i as int),
        decreases headers.len() - i,
    {
        if eq_ignore_case(headers[i].as_str(), "date") {
            date = i;
            found = true;
        }
        i += 1;
    }
    let mut factors: Vec<usize> = Vec::new();
    let mut k: usize = 0;
    while k < headers.len()
        invariant
            k <= headers.len(),
            factors@ == other_columns(date as int, k as int),
        decreases headers.len() - k,
    {
        if k != date {
            factors.push(k);
        }
        k += 1;
    }
    Ok(FactorColumns { date, factors })
}

/// The day of a row, by what the cell is read as.
pub fn accept_factor_day(parsed: Option<Date>, raw: &str) -> (r: Result<Date, String>)
    ensures
        match parsed {
            Some(d) => r == Ok::<Date, String>(d),
            None => r is Err && r->Err_0@ == "invalid factor date '"@ + raw@ + "'"@,
        },
{
    match parsed {
        Some(d) => Ok(d),
        None => Err(cat3("invalid factor date '", raw, "'")),
    }
}

/// The day of a row of a factor file, or why it has none.
pub open spec fn factor_day(row: Seq<String>, date: int) -> Result<Date, Seq<char>> {
    if date >= row.len() {
        Err("missing factor date"@)
    } else {
        let raw = text::trim(row[date]@);
        match periods::date_under(raw, "%Y-%m-%d"@) {
            Some(d) => Ok(d),
            None => Err("invalid factor date '"@ + raw + "'"@),
        }
    }
}

/// The days of the first `n` rows, or the first error among them.
pub open spec fn factor_days(rows: Seq<Vec<String>>, date: int, n: int) -> Result<
    Seq<Date>,
    Seq<char>,
>
    decreases n,
{
    if n <= 0 {
        Ok(Seq::empty())
    } else {
        match factor_days(rows, date, n - 1) {
            Err(e) => Err(e),
            Ok(days) => match factor_day(rows[n - 1]@, date) {
                Err(e) => Err(e),
                Ok(d) => Ok(days.push(d)),
            },
        }
    }
}

/// The days of a factor file, or why it is refused.
pub open spec fn factor_file_days(rows: Seq<Vec<String>>, date: int) -> Result<
    Seq<Date>,
    Seq<char>,
> {
    match factor_days(rows, date, rows.len() as int) {
        Err(e) => Err(e),
        Ok(days) => if days.len() == 0 {
            Err("factors CSV has no rows"@)
        } else {
            Ok(days)
        },
    }
}

proof fn lemma_factor_days_refused(rows: Seq<Vec<String>>, date: int, n: int, m: int)
    requires
        n <= m,
        factor_days(rows, date, n) is Err,
    ensures
        factor_days(rows, date, m) == factor_days(rows, date, n),
    decreases m - n,
{
    if n < m {
        lemma_factor_days_refused(rows, date, n, m - 1);
    }
}

/// Reads the days of a factor file.
#[verifier::loop_isolation(false)]
pub fn read_factor_days(rows: &Vec<Vec<String>>, date: usize) -> (r: Result<Vec<Date>, String>)
    ensures
        match r {
            Ok(days) => factor_file_days(rows@, date as int) == Ok::<Seq<Date>, Seq<char>>(days@),
            Err(e) => factor_file_days(rows@, date as int) == Err::<Seq<Date>, Seq<char>>(e@),
        },
{
    let mut out: Vec<Date> = Vec::new();
    let mut i: usize = 0;
    while i < rows.len()
        invariant
            i <= rows.len(),
            factor_days(rows@, date as int, i as int) == Ok::<Seq<Date>, Seq<char>>(out@),
        decreases rows.len() - i,
    {
        if date >= rows[i].len() {
            proof {
                lemma_factor_days_refused(rows@, date as int, i + 1, rows@.len() as int);
            }
            return Err("missing factor date".to_owned());
        }
        let raw = trimmed(rows[i][date].as_str());
        let parsed = parse_date(raw.as_str(), "%Y-%m-%d");
        match accept_factor_day(parsed, raw.as_str()) {
            Ok(d) => {
                out.push(d);
            },
            Err(e) => {
                proof {
                    lemma_factor_days_refused(rows@, date as int, i + 1, rows@.len() as int);
                }
                return Err(e);
            },
        }
        i += 1;
    }
    if out.len() == 0 {
        return Err("factors CSV has no rows".to_owned());
    }
    Ok(out)
}

/// A step with the weight of its ticker.
#[derive(Clone, Copy, Debug)]
pub struct WeightedStep {
    pub weight: Num,
    pub step: PriceStep,
}

/// A day of a regression: the row of the factor file that counts for it, and
/// the steps of the portfolio on it.
#[derive(Clone, Debug)]
pub struct AlignedDay {
    pub date: Date,
    pub factor_row: usize,
    pub steps: Vec<WeightedStep>,
}

/// An aligned day in views.
pub struct AlignedDayView {
    pub date: Date,
    pub factor_row: int,
    pub steps: Seq<WeightedStep>,
}

impl View for AlignedDay {
    type V = AlignedDayView;

    open spec fn view(&self) -> AlignedDayView {
        AlignedDayView {
            date: self.date,
            factor_row: self.factor_row as int,
            steps: self.steps@,
        }
    }
}

pub open spec fn aligned_views(s: Seq<AlignedDay>) -> Seq<AlignedDayView> {
    Seq::new(s.len(), |i: int| s[i]@)
}

/// The steps of the first `n` portfolio tickers on a day.
pub open spec fn portfolio_steps(
    prices: Seq<PricePoint>,
    weights: Seq<PortfolioWeight>,
    day: Date,
    n: int,
) -> Seq<WeightedStep>
    decreases n,
{
    if n <= 0 {
        Seq::empty()
    } else {
        let rest = portfolio_steps(prices, weights, day, n - 1);
        let ticker = portfolio_tickers(weights)[n - 1];
        match step_on(steps_of(prices, ticker, true), day, 0) {
            Some(step) => rest.push(
                WeightedStep { weight: weight_or_zero(weights, ticker), step },
            ),
            None => rest,
        }
    }
}

/// The last row among the first `n` with a day.
pub open spec fn last_row(days: Seq<Date>, day: Date, n: int) -> int
    decreases n,
{
    if n <= 0 {
        0
    } else if days[n - 1] == day {
        n - 1
    } else {
        last_row(days, day, n - 1)
    }
}

/// The aligned days among the first `n` rows of a factor file: those on which
/// the portfolio has a step.
pub open spec fn aligned_days(
    prices: Seq<PricePoint>,
    weights: Seq<PortfolioWeight>,
    days: Seq<Date>,
    n: int,
) -> Seq<AlignedDayView>
    decreases n,
{
    if n <= 0 {
        Seq::empty()
    } else {
        let rest = aligned_days(prices, weights, days, n - 1);
        let day = days[n - 1];
        let steps = portfolio_steps(
            prices,
            weights,
            day,
            portfolio_tickers(weights).len() as int,
        );
        if steps.len() == 0 {
            rest
        } else {
            rest.push(
                AlignedDayView {
                    date: day,
                    factor_row: last_row(days, day, days.len() as int),
                    steps,
                },
            )
        }
    }
}

#[verifier::loop_isolation(false)]
fn collect_steps(
    names: &Vec<String>,
    all: &Vec<Vec<PriceStep>>,
    held: &Vec<Num>,
    day: Date,
    Ghost(prices): Ghost<Seq<PricePoint>>,
    Ghost(weights): Ghost<Seq<PortfolioWeight>>,
) -> (r: Vec<WeightedStep>)
    requires
        text::views(names@) == portfolio_tickers(weights),
        all.len() == names.len(),
        held.len() == names.len(),
        forall|j: int|
            0 <= j < all@.len() ==> (#[trigger] all@[j])@ == steps_of(prices, names@[j]@, true),
        forall|j: int|
            0 <= j < held@.len() ==> #[trigger] held@[j] == weight_or_zero(weights, names@[j]@),
    ensures
        r@ == portfolio_steps(prices, weights, day, portfolio_tickers(weights).len() as int),
{
    let mut out: Vec<WeightedStep> = Vec::new();
    let mut j: usize = 0;
    while j < names.len()
        invariant
            j <= names.len(),
            out@ == portfolio_steps(prices, weights, day, j as int),
        decreases names.len() - j,
    {
        assert(text::views(names@)[j as int] == names@[j as int]@);
        match find_step(&all[j], day) {
            Some(step) => {
                out.push(WeightedStep { weight: held[j], step });
            },
            None => {},
        }
        j += 1;
    }
    assert(names@.len() == portfolio_tickers(weights).len());
    out
}

fn find_last_row(days: &Vec<Date>, day: Date) -> (r: usize)
    ensures
        r == last_row(days@, day, days@.len() as int),
{
    let mut i: usize = days.len();
    while i > 0
        invariant
            i <= days.len(),
            last_row(days@, day, i as int) == last_row(days@, day, days@.len() as int),
        decreases i,
    {
        if days[i - 1] == day {
            return i - 1;
        }
        i -= 1;
    }
    0
}

/// Too few days for a regression on a number of factors.
pub open spec fn too_few_days(days: int, factors: int) -> bool {
    days < factors + 5
}

/// Lines up a portfolio with the rows of a factor file.
#[verifier::loop_isolation(false)]
pub fn align_portfolio_and_factors(
    prices: &Vec<PricePoint>,
    weights: &Vec<PortfolioWeight>,
    days: &Vec<Date>,
    factor_count: usize,
) -> (r: Result<Vec<AlignedDay>, String>)
    ensures
        ({
            let all = aligned_days(prices@, weights@, days@, days@.len() as int);
            match r {
                Ok(out) => !too_few_days(all.len() as int, factor_count as int) && aligned_views(
                    out@,
                ) == all,
                Err(e) => too_few_days(all.len() as int, factor_count as int) && e@
                    == "not enough aligned observations for regression (have "@ + digits::decimal(
                    all.len(),
                ) + ", need more than factors+4)"@,
            }
        }),
{
    let names = list_portfolio(weights);
    let held = weights_for(&names, weights);
    let mut steps: Vec<Vec<PriceStep>> = Vec::new();
    let mut t: usize = 0;
    while t < names.len()
        invariant
            t <= names.len(),
            steps.len() == t,
            forall|j: int|
                0 <= j < t ==> (#[trigger] steps@[j])@ == steps_of(prices@, names@[j]@, true),
        decreases names.len() - t,
    {
        steps.push(find_steps(prices, names[t].as_str(), true));
        t += 1;
    }
    let mut out: Vec<AlignedDay> = Vec::new();
    let mut i: usize = 0;
    assert(aligned_views(out@) =~= Seq::empty());
    while i < days.len()
        invariant
            i <= days.len(),
            aligned_views(out@) == aligned_days(prices@, weights@, days@, i as int),
        decreases days.len() - i,
    {
        let day = days[i];
        let found = collect_steps(&names, &steps, &held, day, Ghost(prices@), Ghost(weights@));
        if found.len() > 0 {
            let ghost before = aligned_views(out@);
            let item = AlignedDay { date: day, factor_row: find_last_row(days, day), steps: found };
            let ghost view = item@;
            out.push(item);
            assert(aligned_views(out@) =~= before.push(view));
        }
        i += 1;
    }
    assert(out@.len() == aligned_views(out@).len());
    if out.len() < 5 || out.len() - 5 < factor_count {
        return Err(
            cat3(
                "not enough aligned observations for regression (have ",
                count_text(out.len()).as_str(),
                ", need more than factors+4)",
            ),
        );
    }
    Ok(out)
}

/// A weighted step of a portfolio on a day: it is a step of the ticker itself on
/// that day, with the weight that is given for the ticker last.
pub open spec fn is_step_of_ticker(
    x: WeightedStep,
    ticker: Seq<char>,
    prices: Seq<PricePoint>,
    weights: Seq<PortfolioWeight>,
    day: Date,
) -> bool {
    &&& is_last_weight(x.weight, weights, ticker)
    &&& x.step.date == day
    &&& steps_of(prices, ticker, true).contains(x.step)
    &&& joins_neighbouring_days(x.step, prices, ticker, true)
}

/// The steps of a day belong to `names`, one each: to every ticker of the
/// portfolio that has a step on the day, and to no other.
pub open spec fn holds_portfolio_on(
    steps: Seq<WeightedStep>,
    names: Seq<Seq<char>>,
    prices: Seq<PricePoint>,
    weights: Seq<PortfolioWeight>,
    day: Date,
) -> bool {
    &&& steps.len() == names.len()
    &&& names.no_duplicates()
    &&& forall|k: int|
        0 <= k < names.len() ==> is_step_of_ticker(
            steps[k],
            #[trigger] names[k],
            prices,
            weights,
            day,
        )
    &&& forall|i: int|
        0 <= i < weights.len() && has_step_on(prices, (#[trigger] weights[i]).ticker@, true, day)
            ==> names.contains(weights[i].ticker@)
}

proof fn lemma_portfolio_steps(
    prices: Seq<PricePoint>,
    weights: Seq<PortfolioWeight>,
    day: Date,
    n: int,
) -> (names: Seq<Seq<char>>)
    requires
        0 <= n <= portfolio_tickers(weights).len(),
    ensures
        ({
            let steps = portfolio_steps(prices, weights, day, n);
            let all = portfolio_tickers(weights);
            &&& steps.len() == names.len()
            &&& names.no_duplicates()
            &&& forall|k: int|
                0 <= k < names.len() ==> is_step_of_ticker(
                    steps[k],
                    #[trigger] names[k],
                    prices,
                    weights,
                    day,
                ) && all.take(n).contains(names[k])
            &&& forall|i: int|
                0 <= i < n && has_step_on(prices, #[trigger] all[i], true, day) ==> names.contains(
                    all[i],
                )
        }),
    decreases n,
{
    let all = portfolio_tickers(weights);
    lemma_portfolio(weights);
    if n <= 0 {
        Seq::empty()
    } else {
        let front = lemma_portfolio_steps(prices, weights, day, n - 1);
        let before = portfolio_steps(prices, weights, day, n - 1);
        let steps = portfolio_steps(prices, weights, day, n);
        let ticker = all[n - 1];
        let own = steps_of(prices, ticker, true);
        let found = step_on(own, day, 0);
        lemma_step_on(own, day, 0);
        law_steps_join_neighbouring_days(prices, ticker, true);
        let names = if found is Some {
            front.push(ticker)
        } else {
            front
        };
        lemma_taken_one_more(all, n);
        assert forall|k: int| 0 <= k < names.len() implies is_step_of_ticker(
            steps[k],
            #[trigger] names[k],
            prices,
            weights,
            day,
        ) && all.take(n).contains(names[k]) by {
            if k < front.len() {
                assert(names[k] == front[k] && steps[k] == before[k]);
                assert(all.take(n - 1).contains(front[k]));
            } else {
                assert(all.take(n)[n - 1] == ticker);
                let e = choose|e: int| 0 <= e < own.len() && own[e] == steps[k].step;
                assert(joins_neighbouring_days(own[e], prices, ticker, true));
            }
        }
        assert forall|i: int| 0 <= i < n && has_step_on(prices, #[trigger] all[i], true, day) implies names.contains(
        all[i]) by {
            if i < n - 1 {
                let k = choose|k: int| 0 <= k < front.len() && front[k] == all[i];
                assert(names[k] == all[i]);
            } else {
                assert(names[names.len() - 1] == all[i]);
            }
        }
        assert(names.no_duplicates()) by {
            if front.contains(ticker) {
                let k = choose|k: int| 0 <= k < front.len() && front[k] == ticker;
                assert(all.take(n - 1).contains(front[k]));
            }
        }
        names
    }
}

proof fn lemma_last_row(days: Seq<Date>, day: Date, n: int)
    requires
        0 <= n <= days.len(),
        exists|i: int| 0 <= i < n && #[trigger] days[i] == day,
    ensures
        0 <= last_row(days, day, n) < n,
        days[last_row(days, day, n)] == day,
        forall|k: int| last_row(days, day, n) < k < n ==> #[trigger] days[k] != day,
    decreases n,
{
    if n > 0 && days[n - 1] != day {
        lemma_last_row(days, day, n - 1);
    }
}

/// Some ticker of the portfolio has a step on a day.
pub open spec fn portfolio_moves_on(
    prices: Seq<PricePoint>,
    weights: Seq<PortfolioWeight>,
) -> spec_fn(Date) -> bool {
    |day: Date|
        exists|i: int|
            0 <= i < weights.len() && has_step_on(
                prices,
                (#[trigger] weights[i]).ticker@,
                true,
                day,
            )
}

/// An aligned day is one of the factor file's days. It takes the last row that
/// the file has for it, and holds the steps of the portfolio's tickers on it,
/// each once and with the ticker's own weight.
pub open spec fn is_aligned(
    v: AlignedDayView,
    prices: Seq<PricePoint>,
    weights: Seq<PortfolioWeight>,
    days: Seq<Date>,
) -> bool {
    &&& 0 <= v.factor_row < days.len()
    &&& days[v.factor_row] == v.date
    &&& forall|k: int| v.factor_row < k < days.len() ==> #[trigger] days[k] != v.date
    &&& v.steps.len() > 0
    &&& exists|names: Seq<Seq<char>>| #[trigger]
        holds_portfolio_on(v.steps, names, prices, weights, v.date)
}

proof fn lemma_aligned_days(
    prices: Seq<PricePoint>,
    weights: Seq<PortfolioWeight>,
    days: Seq<Date>,
    n: int,
)
    requires
        0 <= n <= days.len(),
    ensures
        ({
            let all = aligned_days(prices, weights, days, n);
            &&& forall|k: int|
                0 <= k < all.len() ==> is_aligned(#[trigger] all[k], prices, weights, days)
            &&& all.map_values(|v: AlignedDayView| v.date) == list::keep(
                days.take(n),
                portfolio_moves_on(prices, weights),
            )
        }),
    decreases n,
{
    let date = |v: AlignedDayView| v.date;
    let moves = portfolio_moves_on(prices, weights);
    let all = aligned_days(prices, weights, days, n);
    if n <= 0 {
        assert(all.map_values(date) =~= list::keep(days.take(n), moves));
    } else {
        lemma_aligned_days(prices, weights, days, n - 1);
        let front = aligned_days(prices, weights, days, n - 1);
        let day = days[n - 1];
        let tickers = portfolio_tickers(weights);
        let steps = portfolio_steps(prices, weights, day, tickers.len() as int);
        let names = lemma_portfolio_steps(prices, weights, day, tickers.len() as int);
        lemma_portfolio(weights);
        assert(days.take(n).drop_last() =~= days.take(n - 1));
        assert(days.take(n).last() == day);
        assert forall|i: int|
            0 <= i < weights.len() && has_step_on(
                prices,
                (#[trigger] weights[i]).ticker@,
                true,
                day,
            ) implies names.contains(weights[i].ticker@) by {
            assert(tickers.contains(weights[i].ticker@));
            let k = choose|k: int| 0 <= k < tickers.len() && tickers[k] == weights[i].ticker@;
            assert(has_step_on(prices, tickers[k], true, day));
        }
        assert(holds_portfolio_on(steps, names, prices, weights, day));
        assert(moves(day) == (steps.len() > 0)) by {
            if steps.len() > 0 {
                assert(is_step_of_ticker(steps[0], names[0], prices, weights, day));
                let own = steps_of(prices, names[0], true);
                let e = choose|e: int| 0 <= e < own.len() && own[e] == steps[0].step;
                assert(own[e].date == day);
                let i = choose|i: int|
                    0 <= i < weights.len() && (#[trigger] weights[i]).ticker@ == names[0];
                assert(has_step_on(prices, weights[i].ticker@, true, day));
            }
        }
        if steps.len() > 0 {
            assert(days[n - 1] == day);
            lemma_last_row(days, day, days.len() as int);
            assert(is_aligned(all.last(), prices, weights, days));
            assert(all.map_values(date) =~= front.map_values(date).push(day));
        }
        assert forall|k: int| 0 <= k < all.len() implies is_aligned(
            #[trigger] all[k],
            prices,
            weights,
            days,
        ) by {
            if k < front.len() {
                assert(all[k] == front[k]);
            }
        }
    }
}

/// A regression lines up the factor file's days on which the portfolio moves, in
/// the file's order. On each of them every ticker of the portfolio that has a
/// step there counts once, with its own step and the weight that is given for
/// it last.
pub proof fn law_aligned_days_pair_steps_with_their_weights(
    prices: Seq<PricePoint>,
    weights: Seq<PortfolioWeight>,
    days: Seq<Date>,
)
    ensures
        ({
            let all = aligned_days(prices, weights, days, days.len() as int);
            &&& forall|k: int|
                0 <= k < all.len() ==> is_aligned(#[trigger] all[k], prices, weights, days)
            &&& all.map_values(|v: AlignedDayView| v.date) == list::keep(
                days,
                portfolio_moves_on(prices, weights),
            )
        }),
{
    lemma_aligned_days(prices, weights, days, days.len() as int);
    assert(days.take(days.len() as int) =~= days);
}

/// Every row of a factor file gives the day that stands in its date column; a row
/// without one is refused.
pub proof fn law_factor_rows_give_their_day(rows: Seq<Vec<String>>, date: int, n: int)
    requires
        0 <= n <= rows.len(),
        0 <= date,
    ensures
        match factor_days(rows, date, n) {
            Ok(days) => days.len() == n && forall|i: int|
                0 <= i < n ==> date < (#[trigger] rows[i])@.len() && periods::date_under(
                    text::trim(rows[i]@[date]@),
                    "%Y-%m-%d"@,
                ) == Some(days[i]),
            Err(_) => exists|i: int|
                0 <= i < n && (date >= (#[trigger] rows[i])@.len() || periods::date_under(
                    text::trim(rows[i]@[date]@),
                    "%Y-%m-%d"@,
                ) is None),
        },
    decreases n,
{
    if n > 0 {
        law_factor_rows_give_their_day(rows, date, n - 1);
        match factor_days(rows, date, n - 1) {
            Ok(front) => {
                if let Ok(days) = factor_days(rows, date, n) {
                    assert forall|i: int| 0 <= i < n implies date < (#[trigger] rows[i])@.len()
                        && periods::date_under(text::trim(rows[i]@[date]@), "%Y-%m-%d"@) == Some(
                        days[i],
                    ) by {
                        if i < n - 1 {
                            assert(days[i] == front[i]);
                        }
                    }
                }
            },
            Err(_) => {},
        }
    }
}

/// The factors of a file are its columns other than the date, in their order.
pub proof fn law_factors_are_the_other_columns(day: int, n: int)
    requires
        0 <= n <= usize::MAX,
    ensures
        forall|c: usize| #[trigger] other_columns(day, n).contains(c) <==> c < n && c != day,
        forall|i: int, j: int|
            0 <= i < j < other_columns(day, n).len() ==> #[trigger] other_columns(day, n)[i]
                < #[trigger] other_columns(day, n)[j],
        forall|i: int|
            0 <= i < other_columns(day, n).len() ==> #[trigger] other_columns(day, n)[i] < n,
    decreases n,
{
    if n > 0 {
        law_factors_are_the_other_columns(day, n - 1);
        let front = other_columns(day, n - 1);
        let all = other_columns(day, n);
        assert forall|k: int| 0 <= k < front.len() implies #[trigger] all[k] == front[k] by {}
        assert forall|c: usize| #[trigger] all.contains(c) <==> c < n && c != day by {
            if all.contains(c) {
                let k = choose|k: int| 0 <= k < all.len() && all[k] == c;
                if k < front.len() {
                    assert(front[k] == c);
                    assert(front.contains(c));
                }
            }
            if c < n && c != day {
                if c < n - 1 {
                    assert(front.contains(c));
                    let k = choose|k: int| 0 <= k < front.len() && front[k] == c;
                    assert(all[k] == c);
                } else {
                    assert(all[all.len() - 1] == c);
                }
            }
        }
    }
}

/// The date column of a factor file is the first that is named so, and the very
/// first column where none is.
pub proof fn law_the_day_column_is_named_so(headers: Seq<Seq<char>>, i: int)
    requires
        0 <= i <= headers.len(),
        forall|j: int| 0 <= j < i ==> !text::same_ignoring_case(#[trigger] headers[j], "date"@),
    ensures
        i < headers.len() && text::same_ignoring_case(headers[i], "date"@) ==> day_column(headers, 0)
            == i,
        i == headers.len() ==> day_column(headers, 0) == 0,
{
    lemma_day_column(headers, 0, i);
}

proof fn lemma_day_column(headers: Seq<Seq<char>>, from: int, i: int)
    requires
        0 <= from <= i <= headers.len(),
        forall|j: int| from <= j < i ==> !text::same_ignoring_case(#[trigger] headers[j], "date"@),
    ensures
        day_column(headers, from) == day_column(headers, i),
    decreases i - from,
{
    if from < i {
        assert(!text::same_ignoring_case(headers[from], "date"@));
        lemma_day_column(headers, from + 1, i);
    }
}

/// By itself a model has fewer factors than assets, at least one and at most ten.
pub proof fn law_usual_models_have_fewer_factors_than_assets(assets: int)
    requires
        2 <= assets,
    ensures
        1 <= usual_factor_count(assets) <= 10,
        usual_factor_count(assets) < assets,
        assets <= 11 ==> usual_factor_count(assets) == assets - 1,
        !too_few_days(assets, usual_factor_count(assets)) ==> assets >= usual_factor_count(assets)
            + 5,
{
}

} // verus!
