//! Dates in cells, and the windows that the options of a comparison describe.

use vstd::prelude::*;

use crate::args::{
    AnalyzeArgs, AnalyzeDriversArgs, InvestigateArgs, InvestigateWorkflowArgs, PeriodPreset,
    TimeGrain,
};
use crate::dates;
use crate::dates::{derive_period_windows, period_before, period_containing, Date};
use crate::text;
use crate::text::{cat2, cat3, trimmed};

use chrono::Datelike;

verus! {

// ---------------------------------------------------------------------------
// Dates in cells
// ---------------------------------------------------------------------------

/// What `chrono::NaiveDate::parse_from_str` makes of a text under a format.
pub uninterp spec fn date_under(s: Seq<char>, format: Seq<char>) -> Option<Date>;

/// `chrono::NaiveDate::parse_from_str`: a day of the calendar or none, a
/// function of the text and the format alone.
#[verifier::external_body]
pub(crate) fn parse_date(s: &str, format: &str) -> (r: Option<Date>)
    ensures
        r == date_under(s@, format@),
        match r {
            Some(d) => d.is_valid(),
            None => true,
        },
{
    let parsed = chrono::NaiveDate::parse_from_str(s, format).ok();
    parsed.map(|m| Date { year: m.year(), month: m.month(), day: m.day() })
}

/// The day of what `chrono::NaiveDateTime::parse_from_str` makes of a text
/// under a format.
pub uninterp spec fn moment_under(s: Seq<char>, format: Seq<char>) -> Option<Date>;

/// `chrono::NaiveDateTime::parse_from_str`, reduced to its day: a day of the
/// calendar or none, a function of the text and the format alone.
#[verifier::external_body]
fn parse_moment(s: &str, format: &str) -> (r: Option<Date>)
    ensures
        r == moment_under(s@, format@),
        match r {
            Some(d) => d.is_valid(),
            None => true,
        },
{
    let parsed = chrono::NaiveDateTime::parse_from_str(s, format).ok();
    parsed.map(|m| Date { year: m.date().year(), month: m.date().month(), day: m.date().day() })
}

/// The local day of what `chrono::DateTime::parse_from_str` makes of a text
/// under a format.
pub uninterp spec fn zoned_under(s: Seq<char>, format: Seq<char>) -> Option<Date>;

/// `chrono::DateTime::parse_from_str`, reduced to its local day: a day of the
/// calendar or none, a function of the text and the format alone.
#[verifier::external_body]
fn parse_zoned(s: &str, format: &str) -> (r: Option<Date>)
    ensures
        r == zoned_under(s@, format@),
        match r {
            Some(d) => d.is_valid(),
            None => true,
        },
{
    let parsed = chrono::DateTime::parse_from_str(s, format).ok().map(|t| t.date_naive());
    parsed.map(|m| Date { year: m.year(), month: m.month(), day: m.day() })
}

/// The local day of what `chrono::DateTime::parse_from_rfc3339` makes of a text.
pub uninterp spec fn rfc3339_day(s: Seq<char>) -> Option<Date>;

/// `chrono::DateTime::parse_from_rfc3339`, reduced to its local day: a day of
/// the calendar or none, a function of the text alone.
#[verifier::external_body]
fn parse_rfc3339(s: &str) -> (r: Option<Date>)
    ensures
        r == rfc3339_day(s@),
        match r {
            Some(d) => d.is_valid(),
            None => true,
        },
{
    let parsed = chrono::DateTime::parse_from_rfc3339(s).ok().map(|t| t.date_naive());
    parsed.map(|m| Date { year: m.year(), month: m.month(), day: m.day() })
}

/// The bytes of a text in UTF-8.
pub open spec fn utf8(s: Seq<char>) -> Seq<u8> {
    vstd::utf8::encode_utf8(s)
}

/// A text of at least ten bytes with dashes where a date has them.
pub open spec fn is_dashed(s: Seq<char>) -> bool {
    utf8(s).len() >= 10 && utf8(s)[4] == 45 && utf8(s)[7] == 45
}

/// A text whose first ten bytes can be cut off without splitting a character,
/// where it has dashes like a date.
pub open spec fn is_sliceable(s: Seq<char>) -> bool {
    is_dashed(s) ==> vstd::utf8::is_char_boundary(utf8(s), 10)
}

/// The first ten bytes of a text.
pub open spec fn first_ten(s: Seq<char>) -> Seq<char> {
    vstd::utf8::decode_utf8(utf8(s).take(10))
}

pub open spec fn day_format() -> Seq<char> {
    "%Y-%m-%d"@
}

/// The day that begins a text which has dashes like a date.
pub open spec fn leading_day(s: Seq<char>) -> Option<Date> {
    if is_dashed(s) {
        date_under(first_ten(s), day_format())
    } else {
        None
    }
}

/// The first of two values that there is.
pub open spec fn first_some(a: Option<Date>, b: Option<Date>) -> Option<Date> {
    if a is Some {
        a
    } else {
        b
    }
}

/// The day that a cell denotes: alone or with a time behind it, with or
/// without a fraction of a second and an offset.
pub open spec fn cell_day(cell: Seq<char>) -> Option<Date> {
    let s = text::trim(cell);
    if s.len() == 0 {
        None
    } else {
        first_some(
            leading_day(s),
            first_some(
                date_under(s, day_format()),
                first_some(
                    moment_under(s, "%Y-%m-%d %H:%M:%S"@),
                    first_some(
                        moment_under(s, "%Y-%m-%d %H:%M:%S%.f"@),
                        first_some(
                            zoned_under(s, "%Y-%m-%d %H:%M:%S%:z"@),
                            first_some(
                                zoned_under(s, "%Y-%m-%d %H:%M:%S%.f%:z"@),
                                first_some(
                                    zoned_under(s, "%Y-%m-%d %H:%M:%S%z"@),
                                    first_some(
                                        zoned_under(s, "%Y-%m-%d %H:%M:%S%.f%z"@),
                                        rfc3339_day(s),
                                    ),
                                ),
                            ),
                        ),
                    ),
                ),
            ),
        )
    }
}

/// Whether `parse_date_like` can look at a cell without splitting a character.
pub fn can_parse_date(v: &str) -> (r: bool)
    ensures
        r == is_sliceable(text::trim(v@)),
{
    let s = trimmed(v);
    let b = s.as_str().as_bytes();
    if b.len() >= 10 && b[4] == 45 && b[7] == 45 {
        s.as_str().is_char_boundary(10)
    } else {
        true
    }
}

/// The day that a cell denotes.
pub fn parse_date_like(v: &str) -> (r: Option<Date>)
    requires
        is_sliceable(text::trim(v@)),
    ensures
        r == cell_day(v@),
        match r {
            Some(d) => d.is_valid(),
            None => true,
        },
{
    let t = trimmed(v);
    let s = t.as_str();
    if s.is_empty() {
        return None;
    }
    let b = s.as_bytes();
    if b.len() >= 10 && b[4] == 45 && b[7] == 45 {
        let parts = s.split_at(10);
        proof {
            assert(utf8(parts.0@) =~= utf8(s@).take(10));
            vstd::utf8::encode_utf8_decode_utf8(parts.0@);
        }
        let d = parse_date(parts.0, "%Y-%m-%d");
        if d.is_some() {
            return d;
        }
    }
    let d = parse_date(s, "%Y-%m-%d");
    if d.is_some() {
        return d;
    }
    let d = parse_moment(s, "%Y-%m-%d %H:%M:%S");
    if d.is_some() {
        return d;
    }
    let d = parse_moment(s, "%Y-%m-%d %H:%M:%S%.f");
    if d.is_some() {
        return d;
    }
    let d = parse_zoned(s, "%Y-%m-%d %H:%M:%S%:z");
    if d.is_some() {
        return d;
    }
    let d = parse_zoned(s, "%Y-%m-%d %H:%M:%S%.f%:z");
    if d.is_some() {
        return d;
    }
    let d = parse_zoned(s, "%Y-%m-%d %H:%M:%S%z");
    if d.is_some() {
        return d;
    }
    let d = parse_zoned(s, "%Y-%m-%d %H:%M:%S%.f%z");
    if d.is_some() {
        return d;
    }
    parse_rfc3339(s)
}

// ---------------------------------------------------------------------------
// Windows
// ---------------------------------------------------------------------------

/// The options that describe the compared windows.
#[derive(Clone, Debug)]
pub struct PeriodFlags {
    pub time_grain: Option<TimeGrain>,
    pub period: Option<PeriodPreset>,
    pub anchor_date: Option<String>,
    pub current_start: Option<String>,
    pub current_end: Option<String>,
    pub previous_start: Option<String>,
    pub previous_end: Option<String>,
}

/// The compared windows, and the period that they were derived from, if they were.
#[derive(Clone, Copy, Debug, PartialEq, Eq, Structural)]
pub struct WindowSet {
    pub time_grain: Option<TimeGrain>,
    pub period: Option<PeriodPreset>,
    pub current_start: Date,
    pub current_end: Date,
    pub previous_start: Date,
    pub previous_end: Date,
}

/// A comparison of two windows of a date column.
#[derive(Clone, Debug)]
pub struct PeriodCompareConfig {
    pub date_column: String,
    pub windows: WindowSet,
}

pub open spec fn invalid_date_message(raw: Seq<char>) -> Seq<char> {
    "invalid date '"@ + raw + "'; expected YYYY-MM-DD"@
}

/// The day of an option that has to be given.
pub open spec fn required_day(v: Option<Seq<char>>, missing: Seq<char>) -> Result<Date, Seq<char>> {
    match v {
        None => Err(missing),
        Some(raw) => match date_under(raw, day_format()) {
            Some(d) => Ok(d),
            None => Err(invalid_date_message(raw)),
        },
    }
}

/// A day or a message, as a result's view.
pub open spec fn day_result(r: Result<Date, String>) -> Result<Date, Seq<char>> {
    match r {
        Ok(d) => Ok(d),
        Err(e) => Err(e@),
    }
}

/// An optional text's view.
pub open spec fn opt(v: Option<String>) -> Option<Seq<char>> {
    match v {
        Some(s) => Some(s@),
        None => None,
    }
}

/// The day of an option that has to be given.
pub fn parse_date_arg(v: &Option<String>, missing_msg: &str) -> (r: Result<Date, String>)
    ensures
        day_result(r) == required_day(opt(*v), missing_msg@),
        match r {
            Ok(d) => d.is_valid(),
            Err(_) => true,
        },
{
    match v {
        None => Err(missing_msg.to_owned()),
        Some(raw) => match parse_date(raw.as_str(), "%Y-%m-%d") {
            Some(d) => Ok(d),
            None => Err(cat3("invalid date '", raw.as_str(), "'; expected YYYY-MM-DD")),
        },
    }
}

impl PeriodFlags {
    /// A window is given by its days.
    pub open spec fn explicit(self) -> bool {
        self.current_start is Some || self.current_end is Some || self.previous_start is Some
            || self.previous_end is Some
    }

    /// A window is given by a period.
    pub open spec fn derived(self) -> bool {
        self.time_grain is Some || self.period is Some || self.anchor_date is Some
    }
}

/// The windows that are given by their days.
#[verifier::opaque]
pub open spec fn explicit_windows(flags: PeriodFlags, suffix: Seq<char>) -> Result<
    WindowSet,
    Seq<char>,
> {
    match required_day(opt(flags.current_start), "--current-start is required"@ + suffix) {
        Err(e) => Err(e),
        Ok(cs) => match required_day(opt(flags.current_end), "--current-end is required"@ + suffix) {
            Err(e) => Err(e),
            Ok(ce) => match required_day(
                opt(flags.previous_start),
                "--previous-start is required"@ + suffix,
            ) {
                Err(e) => Err(e),
                Ok(ps) => match required_day(
                    opt(flags.previous_end),
                    "--previous-end is required"@ + suffix,
                ) {
                    Err(e) => Err(e),
                    Ok(pe) => Ok(
                        WindowSet {
                            time_grain: None,
                            period: None,
                            current_start: cs,
                            current_end: ce,
                            previous_start: ps,
                            previous_end: pe,
                        },
                    ),
                },
            },
        },
    }
}

/// The windows around an anchor; `None` where they leave the calendar.
#[verifier::opaque]
pub open spec fn derived_windows(anchor: Date, grain: TimeGrain, period: PeriodPreset) -> Option<
    WindowSet,
> {
    if dates::windows_lie_in_calendar(anchor, grain, period) {
        let (current, previous) = dates::windows(anchor, grain, period);
        Some(
            WindowSet {
                time_grain: Some(grain),
                period: Some(period),
                current_start: current.0,
                current_end: current.1,
                previous_start: previous.0,
                previous_end: previous.1,
            },
        )
    } else {
        None
    }
}

/// The anchor of derived windows: the given day, else today.
pub open spec fn anchor_day(flags: PeriodFlags, today: Date) -> Result<Date, Seq<char>> {
    match flags.anchor_date {
        Some(raw) => match date_under(raw@, day_format()) {
            Some(d) => Ok(d),
            None => Err(invalid_date_message(raw@)),
        },
        None => Ok(today),
    }
}

/// The windows that the options describe, or why they describe none; `None`
/// where the windows leave the calendar.
pub open spec fn described_windows(
    flags: PeriodFlags,
    suffix: Seq<char>,
    default_grain: Option<TimeGrain>,
    default_period: PeriodPreset,
    today: Date,
) -> Option<Result<WindowSet, Seq<char>>> {
    let grain = if flags.time_grain is Some {
        flags.time_grain
    } else {
        default_grain
    };
    let period = match flags.period {
        Some(p) => p,
        None => default_period,
    };
    if flags.explicit() && flags.derived() {
        Some(
            Err(
                "use either explicit windows (--current-start/--current-end/--previous-start/--previous-end) OR derived windows (--time-grain/--period/--anchor-date), not both"@,
            ),
        )
    } else if flags.explicit() {
        Some(explicit_windows(flags, suffix))
    } else if grain is None {
        Some(Err("--time-grain is required when using derived period comparison"@))
    } else {
        match anchor_day(flags, today) {
            Err(e) => Some(Err(e)),
            Ok(anchor) => match derived_windows(anchor, grain->0, period) {
                Some(w) => Some(Ok(w)),
                None => None,
            },
        }
    }
}

pub open spec fn windows_result(r: Option<Result<WindowSet, String>>) -> Option<
    Result<WindowSet, Seq<char>>,
> {
    match r {
        None => None,
        Some(Ok(w)) => Some(Ok(w)),
        Some(Err(e)) => Some(Err(e@)),
    }
}

/// Whether the windows around an anchor lie in the calendar.
pub fn windows_fit(anchor: Date, grain: TimeGrain, period: PeriodPreset) -> (r: bool)
    requires
        anchor.is_valid(),
    ensures
        r == dates::windows_lie_in_calendar(anchor, grain, period),
{
    if !dates::containing_in_calendar(anchor, grain) {
        return false;
    }
    let base = period_containing(anchor, grain);
    let current = match period {
        PeriodPreset::Current => base,
        PeriodPreset::Previous | PeriodPreset::Last => {
            if !dates::before_in_calendar(base.0, grain) {
                return false;
            }
            period_before(base.0, grain)
        },
    };
    dates::before_in_calendar(current.0, grain)
}

fn derive_set(anchor: Date, grain: TimeGrain, period: PeriodPreset) -> (r: Option<WindowSet>)
    requires
        anchor.is_valid(),
    ensures
        r == derived_windows(anchor, grain, period),
{
    proof {
        reveal(derived_windows);
    }
    if !windows_fit(anchor, grain, period) {
        return None;
    }
    let (current, previous) = derive_period_windows(anchor, grain, period);
    Some(
        WindowSet {
            time_grain: Some(grain),
            period: Some(period),
            current_start: current.0,
            current_end: current.1,
            previous_start: previous.0,
            previous_end: previous.1,
        },
    )
}

fn read_explicit(flags: &PeriodFlags, suffix: &str) -> (r: Result<WindowSet, String>)
    ensures
        match r {
            Ok(w) => explicit_windows(*flags, suffix@) == Ok::<_, Seq<char>>(w),
            Err(e) => explicit_windows(*flags, suffix@) == Err::<WindowSet, _>(e@),
        },
{
    proof {
        reveal(explicit_windows);
    }
    let m1 = cat2("--current-start is required", suffix);
    let cs = match parse_date_arg(&flags.current_start, m1.as_str()) {
        Ok(d) => d,
        Err(e) => {
            return Err(e);
        },
    };
    let m2 = cat2("--current-end is required", suffix);
    let ce = match parse_date_arg(&flags.current_end, m2.as_str()) {
        Ok(d) => d,
        Err(e) => {
            return Err(e);
        },
    };
    let m3 = cat2("--previous-start is required", suffix);
    let ps = match parse_date_arg(&flags.previous_start, m3.as_str()) {
        Ok(d) => d,
        Err(e) => {
            return Err(e);
        },
    };
    let m4 = cat2("--previous-end is required", suffix);
    let pe = match parse_date_arg(&flags.previous_end, m4.as_str()) {
        Ok(d) => d,
        Err(e) => {
            return Err(e);
        },
    };
    Ok(
        WindowSet {
            time_grain: None,
            period: None,
            current_start: cs,
            current_end: ce,
            previous_start: ps,
            previous_end: pe,
        },
    )
}

/// The windows that the options describe; `None` where they leave the calendar.
pub fn read_windows(
    flags: &PeriodFlags,
    suffix: &str,
    default_grain: Option<TimeGrain>,
    default_period: PeriodPreset,
    today: Date,
) -> (r: Option<Result<WindowSet, String>>)
    requires
        today.is_valid(),
    ensures
        windows_result(r) == described_windows(
            *flags,
            suffix@,
            default_grain,
            default_period,
            today,
        ),
{
    let explicit: bool = flags.current_start.is_some() || flags.current_end.is_some()
        || flags.previous_start.is_some() || flags.previous_end.is_some();
    let derived: bool = flags.time_grain.is_some() || flags.period.is_some()
        || flags.anchor_date.is_some();
    if explicit && derived {
        return Some(
            Err(
                "use either explicit windows (--current-start/--current-end/--previous-start/--previous-end) OR derived windows (--time-grain/--period/--anchor-date), not both".to_owned(),
            ),
        );
    }
    if explicit {
        return Some(read_explicit(flags, suffix));
    }
    let grain = match flags.time_grain {
        Some(g) => g,
        None => match default_grain {
            Some(g) => g,
            None => {
                return Some(
                    Err(
                        "--time-grain is required when using derived period comparison".to_owned(),
                    ),
                );
            },
        },
    };
    let period = match flags.period {
        Some(p) => p,
        None => default_period,
    };
    let anchor = match &flags.anchor_date {
        Some(raw) => match parse_date(raw.as_str(), "%Y-%m-%d") {
            Some(d) => d,
            None => {
                return Some(
                    Err(cat3("invalid date '", raw.as_str(), "'; expected YYYY-MM-DD")),
                );
            },
        },
        None => today,
    };
    match derive_set(anchor, grain, period) {
        Some(w) => Some(Ok(w)),
        None => None,
    }
}

// ---------------------------------------------------------------------------
// Windows of each command
// ---------------------------------------------------------------------------

fn copy_text(v: &Option<String>) -> (r: Option<String>)
    ensures
        r == *v,
{
    match v {
        Some(s) => Some(s.clone()),
        None => None,
    }
}

pub open spec fn investigate_flags(args: InvestigateArgs) -> PeriodFlags {
    PeriodFlags {
        time_grain: args.time_grain,
        period: args.period,
        anchor_date: args.anchor_date,
        current_start: args.current_start,
        current_end: args.current_end,
        previous_start: args.previous_start,
        previous_end: args.previous_end,
    }
}

pub open spec fn workflow_flags(args: InvestigateWorkflowArgs) -> PeriodFlags {
    PeriodFlags {
        time_grain: args.time_grain,
        period: args.period,
        anchor_date: args.anchor_date,
        current_start: args.current_start,
        current_end: args.current_end,
        previous_start: args.previous_start,
        previous_end: args.previous_end,
    }
}

pub open spec fn driver_flags(args: AnalyzeDriversArgs) -> PeriodFlags {
    PeriodFlags {
        time_grain: args.time_grain,
        period: args.period,
        anchor_date: args.anchor_date,
        current_start: args.current_start,
        current_end: args.current_end,
        previous_start: args.previous_start,
        previous_end: args.previous_end,
    }
}

pub open spec fn analyze_flags(args: AnalyzeArgs) -> PeriodFlags {
    PeriodFlags {
        time_grain: args.time_grain,
        period: args.period,
        anchor_date: args.anchor_date,
        current_start: args.current_start,
        current_end: args.current_end,
        previous_start: args.previous_start,
        previous_end: args.previous_end,
    }
}

/// The windows that a driver investigation compares: by default the last
/// month and the one before it.
pub fn parse_period_cfg_from_investigate(args: &InvestigateArgs, today: Date) -> (r: Option<
    Result<WindowSet, String>,
>)
    requires
        today.is_valid(),
    ensures
        windows_result(r) == described_windows(
            investigate_flags(*args),
            ""@,
            Some(TimeGrain::Month),
            PeriodPreset::Last,
            today,
        ),
{
    let flags = PeriodFlags {
        time_grain: args.time_grain,
        period: args.period,
        anchor_date: copy_text(&args.anchor_date),
        current_start: copy_text(&args.current_start),
        current_end: copy_text(&args.current_end),
        previous_start: copy_text(&args.previous_start),
        previous_end: copy_text(&args.previous_end),
    };
    read_windows(&flags, "", Some(TimeGrain::Month), PeriodPreset::Last, today)
}

/// The windows that an investigation of a query compares.
pub fn parse_period_cfg_from_investigate_workflow(args: &InvestigateWorkflowArgs, today: Date) -> (r:
    Option<Result<WindowSet, String>>)
    requires
        today.is_valid(),
    ensures
        windows_result(r) == described_windows(
            workflow_flags(*args),
            ""@,
            Some(TimeGrain::Month),
            PeriodPreset::Last,
            today,
        ),
{
    let flags = PeriodFlags {
        time_grain: args.time_grain,
        period: args.period,
        anchor_date: copy_text(&args.anchor_date),
        current_start: copy_text(&args.current_start),
        current_end: copy_text(&args.current_end),
        previous_start: copy_text(&args.previous_start),
        previous_end: copy_text(&args.previous_end),
    };
    read_windows(&flags, "", Some(TimeGrain::Month), PeriodPreset::Last, today)
}

/// The windows that a driver decomposition compares.
pub fn parse_period_cfg_from_driver_args(args: &AnalyzeDriversArgs, today: Date) -> (r: Option<
    Result<WindowSet, String>,
>)
    requires
        today.is_valid(),
    ensures
        windows_result(r) == described_windows(
            driver_flags(*args),
            ""@,
            Some(TimeGrain::Month),
            PeriodPreset::Last,
            today,
        ),
{
    let flags = PeriodFlags {
        time_grain: args.time_grain,
        period: args.period,
        anchor_date: copy_text(&args.anchor_date),
        current_start: copy_text(&args.current_start),
        current_end: copy_text(&args.current_end),
        previous_start: copy_text(&args.previous_start),
        previous_end: copy_text(&args.previous_end),
    };
    read_windows(&flags, "", Some(TimeGrain::Month), PeriodPreset::Last, today)
}

/// The options ask for a comparison of periods.
pub open spec fn asks_for_periods(args: AnalyzeArgs) -> bool {
    args.date_column is Some || analyze_flags(args).derived() || analyze_flags(args).explicit()
}

/// The comparison of periods that an analysis makes, if it makes one.
pub open spec fn analyze_period(args: AnalyzeArgs, today: Date) -> Option<
    Result<Option<(Seq<char>, WindowSet)>, Seq<char>>,
> {
    if !asks_for_periods(args) {
        Some(Ok(None))
    } else if args.date_column is None {
        Some(Err("--date-column is required when using period comparison flags"@))
    } else {
        match described_windows(
            analyze_flags(args),
            " for period comparison"@,
            None,
            PeriodPreset::Current,
            today,
        ) {
            None => None,
            Some(Err(e)) => Some(Err(e)),
            Some(Ok(w)) => if !w.current_start.le(w.current_end) {
                Some(Err("current period start must be <= end"@))
            } else if !w.previous_start.le(w.previous_end) {
                Some(Err("previous period start must be <= end"@))
            } else {
                Some(Ok(Some((args.date_column->0@, w))))
            },
        }
    }
}

/// The comparison of periods that an analysis makes, if it makes one; `None`
/// where its windows leave the calendar.
pub fn parse_period_compare_config(args: &AnalyzeArgs, today: Date) -> (r: Option<
    Result<Option<PeriodCompareConfig>, String>,
>)
    requires
        today.is_valid(),
    ensures
        match r {
            None => analyze_period(*args, today) is None,
            Some(Err(e)) => analyze_period(*args, today) == Some(
                Err::<Option<(Seq<char>, WindowSet)>, Seq<char>>(e@),
            ),
            Some(Ok(None)) => analyze_period(*args, today) == Some(
                Ok::<Option<(Seq<char>, WindowSet)>, Seq<char>>(None),
            ),
            Some(Ok(Some(c))) => analyze_period(*args, today) == Some(
                Ok::<Option<(Seq<char>, WindowSet)>, Seq<char>>(Some((c.date_column@, c.windows))),
            ),
        },
{
    let flags = PeriodFlags {
        time_grain: args.time_grain,
        period: args.period,
        anchor_date: copy_text(&args.anchor_date),
        current_start: copy_text(&args.current_start),
        current_end: copy_text(&args.current_end),
        previous_start: copy_text(&args.previous_start),
        previous_end: copy_text(&args.previous_end),
    };
    let any: bool = args.date_column.is_some() || flags.time_grain.is_some()
        || flags.period.is_some() || flags.anchor_date.is_some() || flags.current_start.is_some()
        || flags.current_end.is_some() || flags.previous_start.is_some()
        || flags.previous_end.is_some();
    if !any {
        return Some(Ok(None));
    }
    let date_column = match &args.date_column {
        Some(c) => c.clone(),
        None => {
            return Some(
                Err("--date-column is required when using period comparison flags".to_owned()),
            );
        },
    };
    match read_windows(&flags, " for period comparison", None, PeriodPreset::Current, today) {
        None => None,
        Some(Err(e)) => Some(Err(e)),
        Some(Ok(w)) => {
            if !w.current_start.at_most(w.current_end) {
                return Some(Err("current period start must be <= end".to_owned()));
            }
            if !w.previous_start.at_most(w.previous_end) {
                return Some(Err("previous period start must be <= end".to_owned()));
            }
            Some(Ok(Some(PeriodCompareConfig { date_column, windows: w })))
        },
    }
}

// ---------------------------------------------------------------------------
// Days in windows
// ---------------------------------------------------------------------------

/// On which side of a comparison a day counts.
#[derive(Clone, Copy, Debug, PartialEq, Eq, Structural)]
pub enum Side {
    Previous,
    Current,
    Neither,
}

impl WindowSet {
    pub open spec fn is_current(self, d: Date) -> bool {
        self.current_start.le(d) && d.le(self.current_end)
    }

    pub open spec fn is_previous(self, d: Date) -> bool {
        self.previous_start.le(d) && d.le(self.previous_end)
    }

    /// The side on which a day counts; a day in both windows counts as previous.
    pub open spec fn side_spec(self, d: Date) -> Side {
        if self.is_previous(d) {
            Side::Previous
        } else if self.is_current(d) {
            Side::Current
        } else {
            Side::Neither
        }
    }

    /// Whether a day lies in the current window.
    pub fn in_current(self, d: Date) -> (r: bool)
        ensures
            r == self.is_current(d),
    {
        self.current_start.at_most(d) && d.at_most(self.current_end)
    }

    /// Whether a day lies in the previous window.
    pub fn in_previous(self, d: Date) -> (r: bool)
        ensures
            r == self.is_previous(d),
    {
        self.previous_start.at_most(d) && d.at_most(self.previous_end)
    }

    /// The side on which a day counts.
    pub fn side(self, d: Date) -> (r: Side)
        ensures
            r == self.side_spec(d),
    {
        if self.in_previous(d) {
            Side::Previous
        } else if self.in_current(d) {
            Side::Current
        } else {
            Side::Neither
        }
    }
}

/// Derived windows share no day: what counts as current is not in the previous window.
pub proof fn law_derived_windows_are_disjoint(
    anchor: Date,
    grain: TimeGrain,
    period: PeriodPreset,
    w: WindowSet,
    d: Date,
)
    requires
        derived_windows(anchor, grain, period) == Some(w),
        d.is_valid(),
    ensures
        !(w.is_current(d) && w.is_previous(d)),
{
    reveal(derived_windows);
    dates::law_windows_touch(anchor, grain, period);
    dates::law_day_numbers_order_days(w.current_start, d);
    dates::law_day_numbers_order_days(d, w.previous_end);
}

/// A day counts for the window that it lies in, its first and last day
/// included. Where it lies in both, it counts for the previous one.
pub proof fn law_days_count_for_their_window(w: WindowSet, d: Date)
    requires
        d.is_valid(),
        w.current_start.is_valid() && w.current_end.is_valid(),
        w.previous_start.is_valid() && w.previous_end.is_valid(),
    ensures
        w.is_current(d) <==> w.current_start.number() <= d.number() <= w.current_end.number(),
        w.is_previous(d) <==> w.previous_start.number() <= d.number() <= w.previous_end.number(),
        w.side_spec(d) == Side::Previous <==> w.previous_start.number() <= d.number()
            <= w.previous_end.number(),
        w.side_spec(d) == Side::Current ==> w.current_start.number() <= d.number()
            <= w.current_end.number(),
        w.side_spec(d) == Side::Neither <==> !(w.current_start.number() <= d.number()
            <= w.current_end.number()) && !(w.previous_start.number() <= d.number()
            <= w.previous_end.number()),
{
    dates::law_day_numbers_order_days(w.current_start, d);
    dates::law_day_numbers_order_days(d, w.current_end);
    dates::law_day_numbers_order_days(w.previous_start, d);
    dates::law_day_numbers_order_days(d, w.previous_end);
}

/// Windows that are given in full are taken as they are given.
pub proof fn law_given_windows_are_taken(
    flags: PeriodFlags,
    suffix: Seq<char>,
    grain: Option<TimeGrain>,
    period: PeriodPreset,
    today: Date,
    days: (Date, Date, Date, Date),
)
    requires
        flags.time_grain is None && flags.period is None && flags.anchor_date is None,
        flags.current_start is Some && date_under(flags.current_start->0@, "%Y-%m-%d"@) == Some(
            days.0,
        ),
        flags.current_end is Some && date_under(flags.current_end->0@, "%Y-%m-%d"@) == Some(
            days.1,
        ),
        flags.previous_start is Some && date_under(flags.previous_start->0@, "%Y-%m-%d"@) == Some(
            days.2,
        ),
        flags.previous_end is Some && date_under(flags.previous_end->0@, "%Y-%m-%d"@) == Some(
            days.3,
        ),
    ensures
        described_windows(flags, suffix, grain, period, today) matches Some(Ok(w))
            && w.current_start == days.0 && w.current_end == days.1 && w.previous_start == days.2
            && w.previous_end == days.3,
{
    reveal(explicit_windows);
}

/// Windows that are not given are those of the grain and the preset around the
/// anchor: today where none is given, and the usual grain and preset where these
/// are not. Given and derived windows are never mixed.
pub proof fn law_windows_are_derived_around_the_anchor(
    flags: PeriodFlags,
    suffix: Seq<char>,
    usual_grain: TimeGrain,
    usual_period: PeriodPreset,
    today: Date,
)
    ensures
        (flags.current_start is Some || flags.current_end is Some || flags.previous_start is Some
            || flags.previous_end is Some) && (flags.time_grain is Some || flags.period is Some
            || flags.anchor_date is Some) ==> described_windows(
            flags,
            suffix,
            Some(usual_grain),
            usual_period,
            today,
        ) matches Some(Err(_)),
        flags.current_start is None && flags.current_end is None && flags.previous_start is None
            && flags.previous_end is None ==> ({
            let grain = if flags.time_grain is Some {
                flags.time_grain->0
            } else {
                usual_grain
            };
            let period = if flags.period is Some {
                flags.period->0
            } else {
                usual_period
            };
            let anchor = if flags.anchor_date is Some {
                date_under(flags.anchor_date->0@, "%Y-%m-%d"@)
            } else {
                Some(today)
            };
            match described_windows(flags, suffix, Some(usual_grain), usual_period, today) {
                Some(Ok(w)) => anchor is Some && ((w.current_start, w.current_end), (
                    w.previous_start,
                    w.previous_end,
                )) == dates::windows(anchor->0, grain, period),
                Some(Err(_)) => anchor is None,
                None => anchor is Some && !dates::windows_lie_in_calendar(
                    anchor->0,
                    grain,
                    period,
                ),
            }
        }),
{
    reveal(derived_windows);
}

/// The windows of each command are described by its own options: each day by the
/// option of that name, and so are the grain, the period and the anchor.
pub proof fn law_options_describe_their_windows(
    a: AnalyzeArgs,
    b: InvestigateArgs,
    c: AnalyzeDriversArgs,
    d: InvestigateWorkflowArgs,
)
    ensures
        analyze_flags(a).current_start == a.current_start && analyze_flags(a).current_end
            == a.current_end && analyze_flags(a).previous_start == a.previous_start
            && analyze_flags(a).previous_end == a.previous_end && analyze_flags(a).time_grain
            == a.time_grain && analyze_flags(a).period == a.period && analyze_flags(a).anchor_date
            == a.anchor_date,
        investigate_flags(b).current_start == b.current_start && investigate_flags(b).current_end
            == b.current_end && investigate_flags(b).previous_start == b.previous_start
            && investigate_flags(b).previous_end == b.previous_end && investigate_flags(b).time_grain
            == b.time_grain && investigate_flags(b).period == b.period && investigate_flags(
            b,
        ).anchor_date == b.anchor_date,
        driver_flags(c).current_start == c.current_start && driver_flags(c).current_end
            == c.current_end && driver_flags(c).previous_start == c.previous_start && driver_flags(
            c,
        ).previous_end == c.previous_end && driver_flags(c).time_grain == c.time_grain
            && driver_flags(c).period == c.period && driver_flags(c).anchor_date == c.anchor_date,
        workflow_flags(d).current_start == d.current_start && workflow_flags(d).current_end
            == d.current_end && workflow_flags(d).previous_start == d.previous_start
            && workflow_flags(d).previous_end == d.previous_end && workflow_flags(d).time_grain
            == d.time_grain && workflow_flags(d).period == d.period && workflow_flags(
            d,
        ).anchor_date == d.anchor_date,
{
}

/// Periods are compared exactly where an option for them is given, and then only
/// along a date column that is named. The windows that come out of it each end no
/// earlier than they begin.
pub proof fn law_periods_are_compared_where_asked_for(args: AnalyzeArgs, today: Date)
    ensures
        args.date_column is None && args.time_grain is None && args.period is None
            && args.anchor_date is None && args.current_start is None && args.current_end is None
            && args.previous_start is None && args.previous_end is None <==> analyze_period(
            args,
            today,
        ) == Some(Ok::<Option<(Seq<char>, WindowSet)>, Seq<char>>(None)),
        match analyze_period(args, today) {
            Some(Ok(Some(p))) => args.date_column is Some && p.0 == args.date_column->0@
                && p.1.current_start.le(p.1.current_end) && p.1.previous_start.le(p.1.previous_end),
            _ => true,
        },
{
}

} // verus!
