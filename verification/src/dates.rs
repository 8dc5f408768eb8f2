//! Calendar dates, dates in cells, and the periods that are compared.

use vstd::prelude::*;

use crate::args::{PeriodPreset, TimeGrain};
use crate::digits;
use crate::digits::padded_text;
use crate::text::{cat2, cat5};

use chrono::Datelike;

verus! {

// ---------------------------------------------------------------------------
// The calendar
// ---------------------------------------------------------------------------

/// The first year of the calendar.
pub const MIN_YEAR: i32 = -262_143;

/// The last year of the calendar.
pub const MAX_YEAR: i32 = 262_142;

/// A date of the proleptic Gregorian calendar.
#[derive(Clone, Copy, Debug, PartialEq, Eq, Structural)]
pub struct Date {
    pub year: i32,
    pub month: u32,
    pub day: u32,
}

pub open spec fn is_leap(year: int) -> bool {
    year % 4 == 0 && (year % 100 != 0 || year % 400 == 0)
}

pub open spec fn days_in_month(year: int, month: int) -> int {
    if month == 2 {
        if is_leap(year) {
            29
        } else {
            28
        }
    } else if month == 4 || month == 6 || month == 9 || month == 11 {
        30
    } else {
        31
    }
}

/// The days of a year before a month.
pub open spec fn days_before_month(year: int, month: int) -> int
    decreases month,
{
    if month <= 1 {
        0
    } else {
        days_before_month(year, month - 1) + days_in_month(year, month - 1)
    }
}

/// The days before a year, counted from the first day of year 1.
pub open spec fn days_before_year(year: int) -> int {
    365 * (year - 1) + (year - 1) / 4 - (year - 1) / 100 + (year - 1) / 400
}

impl Date {
    /// The day exists in the calendar.
    pub open spec fn is_valid(self) -> bool {
        &&& MIN_YEAR <= self.year <= MAX_YEAR
        &&& 1 <= self.month <= 12
        &&& 1 <= self.day <= days_in_month(self.year as int, self.month as int)
    }

    /// The number of the day; the first day of year 1 has number 1.
    pub open spec fn number(self) -> int {
        days_before_year(self.year as int) + days_before_month(
            self.year as int,
            self.month as int,
        ) + self.day
    }

    /// Earlier or the same day.
    pub open spec fn le(self, other: Date) -> bool {
        self.year < other.year || (self.year == other.year && (self.month < other.month || (
        self.month == other.month && self.day <= other.day)))
    }

    /// Whether the day is earlier than the other or the same.
    pub fn at_most(self, other: Date) -> (r: bool)
        ensures
            r == self.le(other),
    {
        self.year < other.year || (self.year == other.year && (self.month < other.month || (
        self.month == other.month && self.day <= other.day)))
    }
}

/// The numbers of the calendar's first and last day.
pub open spec fn min_number() -> int {
    (Date { year: MIN_YEAR, month: 1, day: 1 }).number()
}

pub open spec fn max_number() -> int {
    (Date { year: MAX_YEAR, month: 12, day: 31 }).number()
}

proof fn lemma_year_length(year: int)
    ensures
        days_before_year(year + 1) == days_before_year(year) + 365 + (if is_leap(year) {
            1int
        } else {
            0int
        }),
{
    assert(year / 4 == (year - 1) / 4 + (if year % 4 == 0 {
        1int
    } else {
        0int
    }));
    assert(year / 100 == (year - 1) / 100 + (if year % 100 == 0 {
        1int
    } else {
        0int
    }));
    assert(year / 400 == (year - 1) / 400 + (if year % 400 == 0 {
        1int
    } else {
        0int
    }));
}

proof fn lemma_months(year: int)
    ensures
        days_before_month(year, 1) == 0,
        forall|m: int|
            1 <= m <= 12 ==> #[trigger] days_before_month(year, m + 1) == days_before_month(
                year,
                m,
            ) + days_in_month(year, m),
        days_before_month(year, 13) == 365 + (if is_leap(year) {
            1int
        } else {
            0int
        }),
{
    reveal_with_fuel(days_before_month, 14);
}

proof fn lemma_month_order(year: int, a: int, b: int)
    requires
        1 <= a < b <= 13,
    ensures
        days_before_month(year, a) + days_in_month(year, a) <= days_before_month(year, b),
    decreases b - a,
{
    lemma_months(year);
    if a + 1 < b {
        lemma_month_order(year, a, b - 1);
        assert(days_before_month(year, b - 1 + 1) == days_before_month(year, b - 1)
            + days_in_month(year, b - 1));
    } else {
        assert(days_before_month(year, a + 1) == days_before_month(year, a) + days_in_month(
            year,
            a,
        ));
    }
}

proof fn lemma_year_order(a: int, b: int)
    requires
        a < b,
    ensures
        days_before_year(a) + 365 + (if is_leap(a) {
            1int
        } else {
            0int
        }) <= days_before_year(b),
    decreases b - a,
{
    lemma_year_length(a);
    if a + 1 < b {
        lemma_year_order(a + 1, b);
    }
}

/// Day numbers order days as the calendar does, and no two days share one.
pub proof fn law_day_numbers_order_days(a: Date, b: Date)
    requires
        a.is_valid(),
        b.is_valid(),
    ensures
        a.le(b) <==> a.number() <= b.number(),
        a.number() == b.number() ==> a == b,
{
    lemma_months(a.year as int);
    lemma_months(b.year as int);
    lemma_in_year(a);
    lemma_in_year(b);
    if a.year < b.year {
        lemma_year_order(a.year as int, b.year as int);
    } else if b.year < a.year {
        lemma_year_order(b.year as int, a.year as int);
    } else if a.month < b.month {
        lemma_month_order(a.year as int, a.month as int, b.month as int);
    } else if b.month < a.month {
        lemma_month_order(a.year as int, b.month as int, a.month as int);
    }
}

proof fn lemma_in_year(d: Date)
    requires
        d.is_valid(),
    ensures
        1 <= d.number() - days_before_year(d.year as int) <= 365 + (if is_leap(d.year as int) {
            1int
        } else {
            0int
        }),
{
    lemma_months(d.year as int);
    lemma_month_order(d.year as int, d.month as int, 13);
    if d.month > 1 {
        lemma_month_order(d.year as int, 1, d.month as int);
    }
}

/// The valid day with a number.
pub open spec fn day_at(n: int) -> Date {
    choose|d: Date| d.is_valid() && d.number() == n
}

proof fn lemma_day_at(d: Date)
    requires
        d.is_valid(),
    ensures
        day_at(d.number()) == d,
{
    let e = day_at(d.number());
    law_day_numbers_order_days(d, e);
}

proof fn lemma_day_exists(n: int)
    requires
        min_number() <= n <= max_number(),
    ensures
        day_at(n).is_valid() && day_at(n).number() == n,
    decreases n - min_number(),
{
    if n == min_number() {
        lemma_day_at(Date { year: MIN_YEAR, month: 1, day: 1 });
    } else {
        lemma_day_exists(n - 1);
        let d = day_at(n - 1);
        lemma_last_of_month(d.year, d.month);
        let next = if d.day < days_in_month(d.year as int, d.month as int) {
            Date { year: d.year, month: d.month, day: (d.day + 1) as u32 }
        } else if d.month < 12 {
            Date { year: d.year, month: (d.month + 1) as u32, day: 1 }
        } else {
            Date { year: (d.year + 1) as i32, month: 1, day: 1 }
        };
        assert(next.number() == n);
        assert(next.is_valid());
        lemma_day_at(next);
    }
}

/// The last day of a month is the day before the first day of the next one.
proof fn lemma_last_of_month(year: i32, month: u32)
    requires
        MIN_YEAR <= year <= MAX_YEAR,
        1 <= month <= 12,
    ensures
        ({
            let next = if month == 12 {
                Date { year: (year + 1) as i32, month: 1, day: 1 }
            } else {
                Date { year, month: (month + 1) as u32, day: 1 }
            };
            (Date {
                year,
                month,
                day: days_in_month(year as int, month as int) as u32,
            }).number() + 1 == next.number()
        }),
{
    lemma_months(year as int);
    lemma_months(year + 1);
    lemma_year_length(year as int);
    assert(days_before_month(year as int, month + 1) == days_before_month(
        year as int,
        month as int,
    ) + days_in_month(year as int, month as int));
}

// ---------------------------------------------------------------------------
// Calendar arithmetic
// ---------------------------------------------------------------------------

/// `chrono::NaiveDate + chrono::TimeDelta` of whole days, which the operator
/// refuses where the result would leave the calendar: the valid day whose
/// number is larger by `days`.
#[verifier::external_body]
fn shifted(d: Date, days: i64) -> (r: Date)
    requires
        d.is_valid(),
        min_number() <= d.number() + days <= max_number(),
    ensures
        r.is_valid(),
        r.number() == d.number() + days,
{
    let n = chrono::NaiveDate::from_ymd_opt(d.year, d.month, d.day).unwrap();
    let m = n + chrono::Duration::days(days);
    Date { year: m.year(), month: m.month(), day: m.day() }
}

/// `chrono::NaiveDate::weekday` and `chrono::Weekday::num_days_from_monday`:
/// the days since the last Monday. The first day of year 1 is a Monday.
#[verifier::external_body]
pub(crate) fn days_since_monday(d: Date) -> (r: u32)
    requires
        d.is_valid(),
    ensures
        r == (d.number() - 1) % 7,
{
    let n = chrono::NaiveDate::from_ymd_opt(d.year, d.month, d.day).unwrap();
    n.weekday().num_days_from_monday()
}

/// `chrono::NaiveDate::from_ymd_opt`: the day, where the calendar has it.
#[verifier::external_body]
fn from_ymd(year: i32, month: u32, day: u32) -> (r: Option<Date>)
    ensures
        r == (if (Date { year, month, day }).is_valid() {
            Some(Date { year, month, day })
        } else {
            None
        }),
{
    let made = chrono::NaiveDate::from_ymd_opt(year, month, day);
    made.map(|m| Date { year: m.year(), month: m.month(), day: m.day() })
}

// ---------------------------------------------------------------------------
// Periods
// ---------------------------------------------------------------------------

/// The Monday on or before a day, by number.
pub open spec fn week_start(d: Date) -> int {
    d.number() - (d.number() - 1) % 7
}

/// The period that contains a day can be computed: its week lies in the calendar.
pub open spec fn containing_fits(d: Date, grain: TimeGrain) -> bool {
    grain == TimeGrain::Week ==> min_number() <= week_start(d) && week_start(d) + 6 <= max_number()
}

/// The day before the first day after a period: the period's last day. In the
/// calendar's last month or year, which nothing follows, it is the day before
/// the period.
pub open spec fn last_before(start: Date, next: Date) -> Date {
    day_at(
        (if next.is_valid() {
            next.number()
        } else {
            start.number()
        }) - 1,
    )
}

/// The first day of the month after a day's own.
pub open spec fn next_month(d: Date) -> Date {
    if d.month == 12 {
        Date { year: (d.year + 1) as i32, month: 1, day: 1 }
    } else {
        Date { year: d.year, month: (d.month + 1) as u32, day: 1 }
    }
}

/// The first and the last day of the period that contains a day.
pub open spec fn containing(d: Date, grain: TimeGrain) -> (Date, Date) {
    match grain {
        TimeGrain::Day => (d, d),
        TimeGrain::Week => (day_at(week_start(d)), day_at(week_start(d) + 6)),
        TimeGrain::Month => {
            let start = Date { year: d.year, month: d.month, day: 1 };
            (start, last_before(start, next_month(d)))
        },
        TimeGrain::Year => {
            let start = Date { year: d.year, month: 1, day: 1 };
            let next = Date { year: (d.year + 1) as i32, month: 1, day: 1 };
            (start, last_before(start, next))
        },
    }
}

/// The first and the last day of the period that contains a day.
pub fn period_containing(d: Date, grain: TimeGrain) -> (r: (Date, Date))
    requires
        d.is_valid(),
        containing_fits(d, grain),
    ensures
        r == containing(d, grain),
        r.0.is_valid(),
        r.1.is_valid(),
{
    match grain {
        TimeGrain::Day => (d, d),
        TimeGrain::Week => {
            let back: u32 = days_since_monday(d);
            let start = shifted(d, -(back as i64));
            let end = shifted(start, 6);
            proof {
                lemma_day_at(start);
                lemma_day_at(end);
            }
            (start, end)
        },
        TimeGrain::Month => {
            let start = match from_ymd(d.year, d.month, 1) {
                Some(s) => s,
                None => d,
            };
            let next = if d.month == 12 {
                from_ymd(d.year + 1, 1, 1)
            } else {
                from_ymd(d.year, d.month + 1, 1)
            };
            finish(start, next, Ghost(next_month(d)))
        },
        TimeGrain::Year => {
            let start = match from_ymd(d.year, 1, 1) {
                Some(s) => s,
                None => d,
            };
            let next = from_ymd(d.year + 1, 1, 1);
            finish(
                start,
                next,
                Ghost(Date { year: (d.year + 1) as i32, month: 1, day: 1 }),
            )
        },
    }
}

fn finish(start: Date, next: Option<Date>, Ghost(after): Ghost<Date>) -> (r: (Date, Date))
    requires
        start.is_valid(),
        start.day == 1,
        after.day == 1,
        1 <= after.month <= 12,
        start.year <= after.year <= start.year + 1,
        start.year == after.year ==> start.month < after.month,
        next == (if after.is_valid() {
            Some(after)
        } else {
            None
        }),
    ensures
        r == (start, last_before(start, after)),
        r.1.is_valid(),
{
    proof {
        lemma_range(start);
        if after.is_valid() {
            lemma_range(after);
            law_day_numbers_order_days(after, start);
        } else {
            // Only the calendar's last year has no next year.
            assert(start.year == MAX_YEAR);
            lemma_year_order(MIN_YEAR as int, MAX_YEAR as int);
            lemma_in_year(start);
            lemma_months(MIN_YEAR as int);
        }
    }
    let first = match next {
        Some(n) => n,
        None => start,
    };
    let end = shifted(first, -1);
    proof {
        lemma_day_at(end);
    }
    (start, end)
}

proof fn lemma_range(d: Date)
    requires
        d.is_valid(),
    ensures
        min_number() <= d.number() <= max_number(),
{
    let lo = Date { year: MIN_YEAR, month: 1, day: 1 };
    let hi = Date { year: MAX_YEAR, month: 12, day: 31 };
    law_day_numbers_order_days(lo, d);
    law_day_numbers_order_days(d, hi);
}

/// The period before a day can be computed: it lies in the calendar.
pub open spec fn before_fits(start: Date, grain: TimeGrain) -> bool {
    min_number() <= start.number() - (if grain == TimeGrain::Week {
        7int
    } else {
        1int
    })
}

/// The first and the last day of the period that ends on the day before `start`.
pub open spec fn before(start: Date, grain: TimeGrain) -> (Date, Date) {
    let end = day_at(start.number() - 1);
    match grain {
        TimeGrain::Day => (end, end),
        TimeGrain::Week => (day_at(start.number() - 7), end),
        TimeGrain::Month => (Date { year: end.year, month: end.month, day: 1 }, end),
        TimeGrain::Year => (Date { year: end.year, month: 1, day: 1 }, end),
    }
}

/// The first and the last day of the period that ends on the day before a day.
pub fn period_before(current_start: Date, grain: TimeGrain) -> (r: (Date, Date))
    requires
        current_start.is_valid(),
        before_fits(current_start, grain),
    ensures
        r == before(current_start, grain),
        r.0.is_valid(),
        r.1.is_valid(),
{
    proof {
        lemma_range(current_start);
    }
    let end = shifted(current_start, -1);
    proof {
        lemma_day_at(end);
    }
    match grain {
        TimeGrain::Day => (end, end),
        TimeGrain::Week => {
            let start = shifted(end, -6);
            proof {
                lemma_day_at(start);
            }
            (start, end)
        },
        TimeGrain::Month => {
            let start = match from_ymd(end.year, end.month, 1) {
                Some(s) => s,
                None => end,
            };
            (start, end)
        },
        TimeGrain::Year => {
            let start = match from_ymd(end.year, 1, 1) {
                Some(s) => s,
                None => end,
            };
            (start, end)
        },
    }
}

proof fn lemma_edges(d: Date)
    requires
        d.is_valid(),
    ensures
        d.year == MIN_YEAR && d.month == 1 ==> d.number() == min_number() + d.day - 1,
        !(d.year == MIN_YEAR && d.month == 1) ==> d.number() > min_number() + 30,
        d.year == MAX_YEAR && d.month == 12 ==> d.number() == max_number() + d.day - 31,
        !(d.year == MAX_YEAR && d.month == 12) ==> d.number() + 30 < max_number(),
{
    let low = Date { year: MIN_YEAR, month: 1, day: 31 };
    let high = Date { year: MAX_YEAR, month: 12, day: 1 };
    lemma_months(MIN_YEAR as int);
    law_day_numbers_order_days(d, low);
    law_day_numbers_order_days(high, d);
}

/// Whether the period that contains a day can be computed.
pub fn containing_in_calendar(d: Date, grain: TimeGrain) -> (r: bool)
    requires
        d.is_valid(),
    ensures
        r == containing_fits(d, grain),
{
    if grain != TimeGrain::Week {
        return true;
    }
    proof {
        lemma_edges(d);
    }
    let back: u32 = days_since_monday(d);
    if d.year == MIN_YEAR && d.month == 1 && d.day <= back {
        return false;
    }
    if d.year == MAX_YEAR && d.month == 12 && d.day + 6 - back > 31 {
        return false;
    }
    true
}

/// Whether the period before a day can be computed.
pub fn before_in_calendar(start: Date, grain: TimeGrain) -> (r: bool)
    requires
        start.is_valid(),
    ensures
        r == before_fits(start, grain),
{
    proof {
        lemma_edges(start);
    }
    let days: u32 = if grain == TimeGrain::Week {
        7
    } else {
        1
    };
    !(start.year == MIN_YEAR && start.month == 1 && start.day <= days)
}

/// The current and the previous window around an anchor: the anchor's own
/// period or the one before it, and the period before that.
pub open spec fn windows(anchor: Date, grain: TimeGrain, period: PeriodPreset) -> (
    (Date, Date),
    (Date, Date),
) {
    let base = containing(anchor, grain);
    let current = if period == PeriodPreset::Current {
        base
    } else {
        before(base.0, grain)
    };
    (current, before(current.0, grain))
}

/// The windows lie in the calendar.
pub open spec fn windows_lie_in_calendar(
    anchor: Date,
    grain: TimeGrain,
    period: PeriodPreset,
) -> bool {
    &&& anchor.is_valid()
    &&& containing_fits(anchor, grain)
    &&& period != PeriodPreset::Current ==> before_fits(containing(anchor, grain).0, grain)
    &&& before_fits(windows(anchor, grain, period).0.0, grain)
}

/// The current and the previous window around an anchor.
pub fn derive_period_windows(anchor: Date, grain: TimeGrain, period: PeriodPreset) -> (r: (
    (Date, Date),
    (Date, Date),
))
    requires
        windows_lie_in_calendar(anchor, grain, period),
    ensures
        r == windows(anchor, grain, period),
        r.0.0.is_valid() && r.0.1.is_valid() && r.1.0.is_valid() && r.1.1.is_valid(),
{
    let base = period_containing(anchor, grain);
    let current = match period {
        PeriodPreset::Current => base,
        PeriodPreset::Previous | PeriodPreset::Last => period_before(base.0, grain),
    };
    let previous = period_before(current.0, grain);
    (current, previous)
}

pub proof fn lemma_containing_valid(d: Date, grain: TimeGrain)
    requires
        d.is_valid(),
        containing_fits(d, grain),
    ensures
        containing(d, grain).0.is_valid(),
        containing(d, grain).1.is_valid(),
        grain == TimeGrain::Week ==> containing(d, grain).0.number() == week_start(d) && containing(
            d,
            grain,
        ).1.number() == week_start(d) + 6,
{
    let r = containing(d, grain);
    match grain {
        TimeGrain::Day => {},
        TimeGrain::Week => {
            lemma_day_exists(week_start(d));
            lemma_day_exists(week_start(d) + 6);
        },
        TimeGrain::Month => {
            lemma_end_exists(r.0, next_month(d));
        },
        TimeGrain::Year => {
            lemma_end_exists(r.0, Date { year: (d.year + 1) as i32, month: 1, day: 1 });
        },
    }
}

proof fn lemma_end_exists(start: Date, after: Date)
    requires
        start.is_valid(),
        start.day == 1,
        after.day == 1,
        1 <= after.month <= 12,
        start.year <= after.year <= start.year + 1,
        start.year == after.year ==> start.month < after.month,
    ensures
        last_before(start, after).is_valid(),
{
    lemma_range(start);
    if after.is_valid() {
        lemma_range(after);
        law_day_numbers_order_days(after, start);
        lemma_day_exists(after.number() - 1);
    } else {
        assert(start.year == MAX_YEAR);
        lemma_year_order(MIN_YEAR as int, MAX_YEAR as int);
        lemma_in_year(start);
        lemma_months(MIN_YEAR as int);
        lemma_day_exists(start.number() - 1);
    }
}

proof fn lemma_before_valid(start: Date, grain: TimeGrain)
    requires
        start.is_valid(),
        before_fits(start, grain),
    ensures
        before(start, grain).0.is_valid(),
        before(start, grain).1.is_valid(),
        before(start, grain).1.number() == start.number() - 1,
        before(start, grain).0.le(before(start, grain).1),
{
    lemma_range(start);
    lemma_day_exists(start.number() - 1);
    if grain == TimeGrain::Week {
        lemma_day_exists(start.number() - 7);
        law_day_numbers_order_days(before(start, grain).0, before(start, grain).1);
    }
}

/// The month or the year that contains a day is the calendar's last one.
pub open spec fn closes_calendar(d: Date, grain: TimeGrain) -> bool {
    d.year == MAX_YEAR && (grain == TimeGrain::Year || (grain == TimeGrain::Month && d.month
        == 12))
}

/// The compared windows lie in the calendar and touch: neither ends before it
/// begins, and the previous one ends on the day before the current one begins.
/// The calendar's last month and last year, taken as the current window, are
/// the exception: nothing follows them, and they end where the previous window
/// does.
pub proof fn law_windows_touch(anchor: Date, grain: TimeGrain, period: PeriodPreset)
    requires
        windows_lie_in_calendar(anchor, grain, period),
    ensures
        ({
            let (current, previous) = windows(anchor, grain, period);
            &&& current.0.is_valid() && current.1.is_valid()
            &&& previous.0.is_valid() && previous.1.is_valid()
            &&& previous.0.le(previous.1)
            &&& if period == PeriodPreset::Current && closes_calendar(anchor, grain) {
                current.1 == previous.1
            } else {
                current.0.le(current.1)
            }
            &&& previous.1.number() + 1 == current.0.number()
        }),
{
    lemma_containing_valid(anchor, grain);
    let base = containing(anchor, grain);
    let current = windows(anchor, grain, period).0;
    if period != PeriodPreset::Current {
        lemma_before_valid(base.0, grain);
    } else if !closes_calendar(anchor, grain) {
        law_period_contains_day(anchor, grain);
    }
    lemma_before_valid(current.0, grain);
}

/// The current period contains its anchor, a week begins on a Monday and has
/// seven days, and a month or a year begins on its first day and ends on its
/// last. The calendar's last month and last year are left out: nothing follows
/// them, and they end before they begin.
pub proof fn law_period_contains_day(d: Date, grain: TimeGrain)
    requires
        d.is_valid(),
        !closes_calendar(d, grain),
        containing_fits(d, grain),
    ensures
        containing(d, grain).0.le(d) && d.le(containing(d, grain).1),
        containing(d, grain).0.le(containing(d, grain).1),
        grain == TimeGrain::Week ==> (containing(d, grain).0.number() - 1) % 7 == 0 && containing(
            d,
            grain,
        ).1.number() - containing(d, grain).0.number() == 6,
        grain == TimeGrain::Month ==> containing(d, grain) == (
            Date { year: d.year, month: d.month, day: 1 },
            Date {
                year: d.year,
                month: d.month,
                day: days_in_month(d.year as int, d.month as int) as u32,
            },
        ),
        grain == TimeGrain::Year ==> containing(d, grain) == (
            Date { year: d.year, month: 1, day: 1 },
            Date { year: d.year, month: 12, day: 31 },
        ),
{
    let r = containing(d, grain);
    lemma_containing_valid(d, grain);
    match grain {
        TimeGrain::Day => {},
        TimeGrain::Week => {
            law_day_numbers_order_days(r.0, d);
            law_day_numbers_order_days(d, r.1);
        },
        TimeGrain::Month => {
            lemma_last_of_month(d.year, d.month);
            lemma_day_at(
                Date {
                    year: d.year,
                    month: d.month,
                    day: days_in_month(d.year as int, d.month as int) as u32,
                },
            );
        },
        TimeGrain::Year => {
            lemma_last_of_month(d.year, 12);
            lemma_day_at(Date { year: d.year, month: 12, day: 31 });
        },
    }
}

/// A day begins a period of a grain.
pub open spec fn begins_period(d: Date, grain: TimeGrain) -> bool {
    match grain {
        TimeGrain::Day => true,
        TimeGrain::Week => (d.number() - 1) % 7 == 0,
        TimeGrain::Month => d.day == 1,
        TimeGrain::Year => d.month == 1 && d.day == 1,
    }
}

proof fn lemma_last_day_of_period(start: Date, grain: TimeGrain)
    requires
        start.is_valid(),
        before_fits(start, grain),
        begins_period(start, grain),
    ensures
        ({
            let end = day_at(start.number() - 1);
            &&& end.is_valid() && end.number() == start.number() - 1
            &&& !closes_calendar(end, grain) && containing_fits(end, grain)
            &&& grain == TimeGrain::Month || grain == TimeGrain::Year ==> end.day == days_in_month(
                end.year as int,
                end.month as int,
            )
            &&& grain == TimeGrain::Year ==> end.month == 12
        }),
{
    let end = day_at(start.number() - 1);
    lemma_range(start);
    lemma_day_exists(start.number() - 1);
    if start.day == 1 {
        // The last day of the month before is the day before the first.
        let (year, month) = if start.month == 1 {
            ((start.year - 1) as i32, 12u32)
        } else {
            (start.year, (start.month - 1) as u32)
        };
        let last = Date { year, month, day: days_in_month(year as int, month as int) as u32 };
        if year < MIN_YEAR {
            assert(start == Date { year: MIN_YEAR, month: 1, day: 1 });
            assert(false);
        }
        lemma_last_of_month(year, month);
        assert(last.is_valid());
        lemma_day_at(last);
        assert(end == last);
    }
}

/// The window before a period is the whole period that ends on the day before
/// it: the same day, week, month or year that contains that day. So a day is
/// compared with one day, a week with the seven days from a Monday on, and a
/// month or a year with all of the one before.
pub proof fn law_previous_period_is_whole(start: Date, grain: TimeGrain)
    requires
        start.is_valid(),
        before_fits(start, grain),
        begins_period(start, grain),
    ensures
        before(start, grain) == containing(day_at(start.number() - 1), grain),
        before(start, grain).0.is_valid() && before(start, grain).1.is_valid(),
        before(start, grain).1.number() == start.number() - 1,
        begins_period(before(start, grain).0, grain),
        grain == TimeGrain::Day ==> before(start, grain).0 == before(start, grain).1,
        grain == TimeGrain::Week ==> before(start, grain).0.number() == start.number() - 7,
        grain == TimeGrain::Month ==> before(start, grain).0.year == before(start, grain).1.year
            && before(start, grain).0.month == before(start, grain).1.month,
        grain == TimeGrain::Month ==> (if start.month == 1 {
            before(start, grain).0 == (Date { year: (start.year - 1) as i32, month: 12, day: 1 })
        } else {
            before(start, grain).0 == (Date {
                year: start.year,
                month: (start.month - 1) as u32,
                day: 1,
            })
        }),
        grain == TimeGrain::Year ==> before(start, grain) == (
            Date { year: (start.year - 1) as i32, month: 1, day: 1 },
            Date { year: (start.year - 1) as i32, month: 12, day: 31 },
        ),
{
    let end = day_at(start.number() - 1);
    lemma_last_day_of_period(start, grain);
    lemma_before_valid(start, grain);
    lemma_day_at(end);
    law_period_contains_day(end, grain);
    lemma_containing_valid(end, grain);
    match grain {
        TimeGrain::Day => {},
        TimeGrain::Week => {
            lemma_day_exists(start.number() - 7);
        },
        TimeGrain::Month | TimeGrain::Year => {
            let (year, month) = if start.month == 1 {
                ((start.year - 1) as i32, 12u32)
            } else {
                (start.year, (start.month - 1) as u32)
            };
            let last = Date { year, month, day: days_in_month(year as int, month as int) as u32 };
            if year < MIN_YEAR {
                lemma_edges(start);
                assert(false);
            }
            lemma_last_of_month(year, month);
            lemma_day_at(last);
        },
    }
}

/// The windows of a comparison are two neighbouring whole periods. The current
/// one contains the anchor where the current period is asked for, and else is
/// the last period that ended before the anchor's own; the previous one is the
/// period before it. (Taken as the current window, the calendar's last month and
/// year end before they begin.)
pub proof fn law_windows_are_neighbouring_periods(
    anchor: Date,
    grain: TimeGrain,
    period: PeriodPreset,
)
    requires
        windows_lie_in_calendar(anchor, grain, period),
    ensures
        ({
            let (current, previous) = windows(anchor, grain, period);
            &&& begins_period(current.0, grain) && begins_period(previous.0, grain)
            &&& previous == containing(previous.0, grain)
            &&& previous.1.number() + 1 == current.0.number()
            &&& current == containing(current.0, grain)
            &&& period == PeriodPreset::Current && !closes_calendar(anchor, grain)
                ==> current.0.le(anchor) && anchor.le(current.1)
            &&& period != PeriodPreset::Current ==> current.1.number() + 1 == containing(
                anchor,
                grain,
            ).0.number() && containing(anchor, grain).0.le(anchor)
        }),
{
    let base = containing(anchor, grain);
    let (current, previous) = windows(anchor, grain, period);
    lemma_containing_valid(anchor, grain);
    lemma_begins(anchor, grain);
    if period == PeriodPreset::Current {
        lemma_period_of_its_first_day(anchor, grain);
        if !closes_calendar(anchor, grain) {
            law_period_contains_day(anchor, grain);
        }
    } else {
        law_previous_period_is_whole(base.0, grain);
        let end = day_at(base.0.number() - 1);
        lemma_last_day_of_period(base.0, grain);
        lemma_period_of_its_first_day(end, grain);
        lemma_before_valid(base.0, grain);
    }
    law_previous_period_is_whole(current.0, grain);
    let end = day_at(current.0.number() - 1);
    lemma_last_day_of_period(current.0, grain);
    lemma_period_of_its_first_day(end, grain);
}

proof fn lemma_begins(d: Date, grain: TimeGrain)
    requires
        d.is_valid(),
        containing_fits(d, grain),
    ensures
        begins_period(containing(d, grain).0, grain),
        containing(d, grain).0.le(d),
{
    lemma_containing_valid(d, grain);
    if grain == TimeGrain::Week {
        law_day_numbers_order_days(containing(d, grain).0, d);
    }
}

proof fn lemma_period_of_its_first_day(d: Date, grain: TimeGrain)
    requires
        d.is_valid(),
        containing_fits(d, grain),
    ensures
        containing(containing(d, grain).0, grain) == containing(d, grain),
{
    lemma_containing_valid(d, grain);
    lemma_begins(d, grain);
}

// ---------------------------------------------------------------------------
// Texts
// ---------------------------------------------------------------------------

/// A year: four digits, and beyond those also a sign.
pub open spec fn year_text(year: int) -> Seq<char> {
    if 0 <= year <= 9999 {
        digits::padded(year as nat, 4)
    } else if year < 0 {
        "-"@ + digits::padded((-year) as nat, 4)
    } else {
        "+"@ + digits::padded(year as nat, 4)
    }
}

/// A day as year, month and day with hyphens between them.
pub open spec fn date_text(d: Date) -> Seq<char> {
    year_text(d.year as int) + "-"@ + digits::padded(d.month as nat, 2) + "-"@ + digits::padded(
        d.day as nat,
        2,
    )
}

/// A day as year, month and day with hyphens between them.
pub fn write_date(d: Date) -> (r: String)
    ensures
        r@ == date_text(d),
{
    let year = if d.year < 0 {
        let n: u64 = (-(d.year as i64)) as u64;
        cat2("-", padded_text(n, 4).as_str())
    } else if d.year <= 9999 {
        padded_text(d.year as u64, 4)
    } else {
        cat2("+", padded_text(d.year as u64, 4).as_str())
    };
    cat5(
        year.as_str(),
        "-",
        padded_text(d.month as u64, 2).as_str(),
        "-",
        padded_text(d.day as u64, 2).as_str(),
    )
}

} // verus!
