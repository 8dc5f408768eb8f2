//! How the segments of an analysis turn out in two windows.

use vstd::prelude::*;

use crate::analysis;
use crate::analysis::{order_by_value, order_by_value_ascending};
use crate::brief;
use crate::brief::{PeriodBrief, PeriodLine};
use crate::list;
use crate::num::Num;
use crate::periods::{PeriodCompareConfig, Side};
use crate::plan::AnalysisPlan;
use crate::report;
use crate::report::lesser;
use crate::segments;
use crate::segments::{count_sides, gather, DatedRow, Segment};
use crate::text;

verus! {

/// The rows of a segment in the current and in the previous window.
#[derive(Debug)]
pub struct Turn {
    pub key: String,
    pub current: Vec<usize>,
    pub previous: Vec<usize>,
}

/// A turn in views.
#[verifier::ext_equal]
pub struct TurnView {
    pub key: Seq<char>,
    pub current: Seq<usize>,
    pub previous: Seq<usize>,
}

impl View for Turn {
    type V = TurnView;

    open spec fn view(&self) -> TurnView {
        TurnView { key: self.key@, current: self.current@, previous: self.previous@ }
    }
}

pub open spec fn turn_views(s: Seq<Turn>) -> Seq<TurnView> {
    s.map_values(|t: Turn| t@)
}

/// The keys of dated rows.
pub open spec fn dated_keys(rows: Seq<DatedRow>) -> Seq<Seq<char>> {
    rows.map_values(|d: DatedRow| d.key@)
}

/// The rows of a side among the first `n` places.
pub open spec fn rows_on_side(
    dated: Seq<DatedRow>,
    places: Seq<usize>,
    side: Side,
    n: int,
) -> Seq<usize>
    decreases n,
{
    if n <= 0 {
        Seq::empty()
    } else {
        let front = rows_on_side(dated, places, side, n - 1);
        let d = dated[places[n - 1] as int];
        if d.side == side {
            front.push(d.row)
        } else {
            front
        }
    }
}

/// A segment of dated rows by the sides of its rows.
pub open spec fn turn_of(dated: Seq<DatedRow>, seg: Segment) -> TurnView {
    TurnView {
        key: seg.key@,
        current: rows_on_side(dated, seg.rows@, Side::Current, seg.rows@.len() as int),
        previous: rows_on_side(dated, seg.rows@, Side::Previous, seg.rows@.len() as int),
    }
}

/// Segments of dated rows by the sides of their rows.
pub open spec fn turns_of(dated: Seq<DatedRow>, segs: Seq<Segment>) -> Seq<TurnView> {
    segs.map_values(|s: Segment| turn_of(dated, s))
}

fn turn_segment(dated: &Vec<DatedRow>, seg: &Segment) -> (r: Turn)
    requires
        forall|i: int| 0 <= i < seg.rows@.len() ==> #[trigger] seg.rows@[i] < dated@.len(),
    ensures
        r@ == turn_of(dated@, *seg),
{
    let mut current: Vec<usize> = Vec::new();
    let mut previous: Vec<usize> = Vec::new();
    let mut i: usize = 0;
    while i < seg.rows.len()
        invariant
            i <= seg.rows.len(),
            forall|i: int| 0 <= i < seg.rows@.len() ==> #[trigger] seg.rows@[i] < dated@.len(),
            current@ == rows_on_side(dated@, seg.rows@, Side::Current, i as int),
            previous@ == rows_on_side(dated@, seg.rows@, Side::Previous, i as int),
        decreases seg.rows.len() - i,
    {
        let place: usize = seg.rows[i];
        let d = &dated[place];
        match d.side {
            Side::Current => {
                current.push(d.row);
            },
            Side::Previous => {
                previous.push(d.row);
            },
            Side::Neither => {},
        }
        i += 1;
    }
    Turn { key: seg.key.clone(), current, previous }
}

/// The segments of the dated rows, each with its rows in both windows.
pub fn take_turns(dated: &Vec<DatedRow>) -> (r: Vec<Turn>)
    ensures
        exists|segs: Seq<Segment>| #[trigger]
            segments::gathers(segs, dated_keys(dated@), dated@.len() as int) && turn_views(r@)
                == turns_of(dated@, segs),
{
    let mut keys: Vec<String> = Vec::new();
    let mut i: usize = 0;
    while i < dated.len()
        invariant
            i <= dated.len(),
            keys.len() == i,
            forall|k: int| 0 <= k < i ==> (#[trigger] keys@[k])@ == dated@[k].key@,
        decreases dated.len() - i,
    {
        keys.push(dated[i].key.clone());
        i += 1;
    }
    assert(text::views(keys@) =~= dated_keys(dated@));
    let segs = gather(&keys);
    let mut out: Vec<Turn> = Vec::new();
    let mut k: usize = 0;
    while k < segs.len()
        invariant
            k <= segs.len(),
            out.len() == k,
            segments::gathers(segs@, dated_keys(dated@), dated@.len() as int),
            forall|j: int| 0 <= j < k ==> (#[trigger] out@[j])@ == turn_of(dated@, segs@[j]),
        decreases segs.len() - k,
    {
        proof {
            segments::lemma_places_in_range(
                dated_keys(dated@),
                segs@[k as int].key@,
                dated.len() as int,
            );
        }
        out.push(turn_segment(dated, &segs[k]));
        k += 1;
    }
    assert(turn_views(out@) =~= turns_of(dated@, segs@));
    out
}

proof fn lemma_place_is_found(keys: Seq<Seq<char>>, d: int, n: int)
    requires
        0 <= d < n <= keys.len(),
        n <= usize::MAX,
    ensures
        exists|j: int|
            0 <= j < segments::places(keys, keys[d], n).len() && #[trigger] segments::places(
                keys,
                keys[d],
                n,
            )[j] == d,
    decreases n,
{
    let all = segments::places(keys, keys[d], n);
    let front = segments::places(keys, keys[d], n - 1);
    if d == n - 1 {
        assert(all[all.len() - 1] == d);
    } else {
        lemma_place_is_found(keys, d, n - 1);
        let j = choose|j: int| 0 <= j < front.len() && #[trigger] front[j] == d;
        assert(all[j] == d);
    }
}

proof fn lemma_row_is_on_its_side(dated: Seq<DatedRow>, places: Seq<usize>, j: int, n: int)
    requires
        0 <= j < n <= places.len(),
    ensures
        rows_on_side(dated, places, dated[places[j] as int].side, n).contains(
            dated[places[j] as int].row,
        ),
    decreases n,
{
    let d = dated[places[j] as int];
    let all = rows_on_side(dated, places, d.side, n);
    let front = rows_on_side(dated, places, d.side, n - 1);
    if j == n - 1 {
        assert(all[all.len() - 1] == d.row);
    } else {
        lemma_row_is_on_its_side(dated, places, j, n - 1);
        let k = choose|k: int| 0 <= k < front.len() && front[k] == d.row;
        assert(all[k] == d.row);
    }
}

/// Every dated row is found in the turn of its key, in the window it falls into.
pub proof fn law_rows_take_their_turn(dated: Seq<DatedRow>, segs: Seq<Segment>, d: int)
    requires
        segments::gathers(segs, dated_keys(dated), dated.len() as int),
        0 <= d < dated.len() <= usize::MAX,
    ensures
        exists|i: int|
            0 <= i < segs.len() && (#[trigger] segs[i]).key@ == dated[d].key@ && match dated[d].side {
                Side::Current => turn_of(dated, segs[i]).current.contains(dated[d].row),
                Side::Previous => turn_of(dated, segs[i]).previous.contains(dated[d].row),
                Side::Neither => true,
            },
{
    let keys = dated_keys(dated);
    assert(segments::has_key(segs, keys[d]));
    let i = choose|i: int| 0 <= i < segs.len() && (#[trigger] segs[i]).key@ == keys[d];
    let n = dated.len() as int;
    lemma_place_is_found(keys, d, n);
    let places = segments::places(keys, keys[d], n);
    let j = choose|j: int| 0 <= j < places.len() && #[trigger] places[j] == d;
    assert(segs[i].rows@ == places);
    lemma_row_is_on_its_side(dated, places, j, places.len() as int);
}

proof fn lemma_rows_come_from_their_side(
    dated: Seq<DatedRow>,
    places: Seq<usize>,
    side: Side,
    n: int,
)
    requires
        0 <= n <= places.len(),
    ensures
        rows_on_side(dated, places, side, n) == list::keep(
            places.take(n),
            |p: usize| dated[p as int].side == side,
        ).map_values(|p: usize| dated[p as int].row),
    decreases n,
{
    let on = |p: usize| dated[p as int].side == side;
    let row = |p: usize| dated[p as int].row;
    if n > 0 {
        lemma_rows_come_from_their_side(dated, places, side, n - 1);
        assert(places.take(n).drop_last() =~= places.take(n - 1));
        if on(places[n - 1]) {
            assert(list::keep(places.take(n), on).map_values(row) =~= list::keep(
                places.take(n - 1),
                on,
            ).map_values(row).push(row(places[n - 1])));
        }
    } else {
        assert(list::keep(places.take(n), on).map_values(row) =~= Seq::<usize>::empty());
    }
}

/// A turn holds the dated rows of its own key and no others: in the current
/// window those that fall into it, and in the previous one likewise, each in
/// order.
pub proof fn law_turns_hold_the_rows_of_their_key(
    dated: Seq<DatedRow>,
    segs: Seq<Segment>,
    i: int,
)
    requires
        segments::gathers(segs, dated_keys(dated), dated.len() as int),
        dated.len() <= usize::MAX,
        0 <= i < segs.len(),
    ensures
        ({
            let t = turn_of(dated, segs[i]);
            let places = segs[i].rows@;
            &&& t.key == segs[i].key@
            &&& t.current == list::keep(
                places,
                |p: usize| dated[p as int].side == Side::Current,
            ).map_values(|p: usize| dated[p as int].row)
            &&& t.previous == list::keep(
                places,
                |p: usize| dated[p as int].side == Side::Previous,
            ).map_values(|p: usize| dated[p as int].row)
            &&& forall|d: int|
                0 <= d < dated.len() ==> (places.contains(d as usize) <==> (
                #[trigger] dated[d]).key@ == t.key)
        }),
{
    let places = segs[i].rows@;
    assert(places.take(places.len() as int) =~= places);
    lemma_rows_come_from_their_side(dated, places, Side::Current, places.len() as int);
    lemma_rows_come_from_their_side(dated, places, Side::Previous, places.len() as int);
    let keys = dated_keys(dated);
    assert forall|d: int| 0 <= d < dated.len() implies (places.contains(d as usize) <==> (
    #[trigger] dated[d]).key@ == segs[i].key@) by {
        assert(keys[d] == dated[d].key@);
        segments::law_segments_hold_the_rows_of_their_key(segs, keys, i, d);
    }
}

/// The number of turns with rows on a side.
pub open spec fn with_rows(turns: Seq<TurnView>, current: bool) -> nat {
    list::keep(
        turns,
        |t: TurnView|
            if current {
                t.current.len() > 0
            } else {
                t.previous.len() > 0
            },
    ).len()
}

/// How many turns have rows in the current window and how many in the
/// previous one.
pub fn count_turns(turns: &Vec<Turn>) -> (r: (usize, usize))
    ensures
        r.0 == with_rows(turn_views(turns@), true),
        r.1 == with_rows(turn_views(turns@), false),
{
    let ghost all = turn_views(turns@);
    let mut current: usize = 0;
    let mut previous: usize = 0;
    let mut i: usize = 0;
    while i < turns.len()
        invariant
            i <= turns.len(),
            all == turn_views(turns@),
            current <= i,
            previous <= i,
            current == with_rows(all.take(i as int), true),
            previous == with_rows(all.take(i as int), false),
        decreases turns.len() - i,
    {
        assert(all.take(i + 1).drop_last() =~= all.take(i as int));
        assert(all.take(i + 1).last() == turns@[i as int]@);
        if turns[i].current.len() > 0 {
            current += 1;
        }
        if turns[i].previous.len() > 0 {
            previous += 1;
        }
        i += 1;
    }
    assert(all.take(all.len() as int) =~= all);
    (current, previous)
}

/// The rows in both windows of the first `n` turns of an order.
pub open spec fn rows_of_first(turns: Seq<TurnView>, order: Seq<usize>, n: int) -> (int, int)
    decreases n,
{
    if n <= 0 {
        (0, 0)
    } else {
        let front = rows_of_first(turns, order, n - 1);
        let t = turns[order[n - 1] as int];
        (front.0 + t.current.len(), front.1 + t.previous.len())
    }
}

/// The rows of the first five turns of an order: those in the current window,
/// and those in the previous one.
pub fn rows_of_first_five(turns: &Vec<Turn>, order: &Vec<usize>) -> (r: (u128, u128))
    requires
        brief::are_places(order@, turns@.len() as int),
    ensures
        rows_of_first(turn_views(turns@), order@, report::least(order@.len() as int, 5)) == (
            r.0 as int,
            r.1 as int,
        ),
{
    let n: usize = lesser(order.len(), 5);
    let mut current: u128 = 0;
    let mut previous: u128 = 0;
    let mut i: usize = 0;
    while i < n
        invariant
            i <= n <= order.len(),
            n <= 5,
            brief::are_places(order@, turns@.len() as int),
            rows_of_first(turn_views(turns@), order@, i as int) == (current as int, previous as int),
            current <= i * 0xffff_ffff_ffff_ffff,
            previous <= i * 0xffff_ffff_ffff_ffff,
        decreases n - i,
    {
        let place: usize = order[i];
        let t = &turns[place];
        assert(turn_views(turns@)[place as int] == t@);
        assert(t.current@.len() == t.current.len() && t.previous@.len() == t.previous.len());
        current = current + t.current.len() as u128;
        previous = previous + t.previous.len() as u128;
        i += 1;
    }
    (current, previous)
}

/// What the comparison of two windows has measured, written out: for each turn
/// a line, its change of value, and how much its share of the records changes.
#[derive(Debug)]
pub struct MeasuredTurns {
    pub lines: Vec<PeriodLine>,
    pub share_changes: Vec<Num>,
    pub deltas: Vec<Num>,
    pub previous_top5_share: String,
    pub current_top5_share: String,
    pub top5_share_change: String,
    pub total_falls: bool,
    pub total_percent: String,
    pub previous_total: String,
    pub current_total: String,
    pub total_delta: String,
}

/// Lines in an order.
pub open spec fn in_turn(lines: Seq<PeriodLine>, order: Seq<usize>) -> Seq<PeriodLine> {
    order.map_values(|i: usize| lines[i as int])
}

fn copy_lines(lines: &Vec<PeriodLine>, order: &Vec<usize>) -> (r: Vec<PeriodLine>)
    requires
        brief::are_places(order@, lines@.len() as int),
    ensures
        r@ == in_turn(lines@, order@),
{
    let mut out: Vec<PeriodLine> = Vec::new();
    let mut i: usize = 0;
    while i < order.len()
        invariant
            i <= order.len(),
            brief::are_places(order@, lines@.len() as int),
            out.len() == i,
            forall|k: int| 0 <= k < i ==> #[trigger] out@[k] == in_turn(lines@, order@)[k],
        decreases order.len() - i,
    {
        let place: usize = order[i];
        let x = &lines[place];
        out.push(
            PeriodLine {
                group: x.group.clone(),
                previous_count: x.previous_count,
                current_count: x.current_count,
                share_change: x.share_change.clone(),
                previous_value: x.previous_value.clone(),
                current_value: x.current_value.clone(),
                delta: x.delta.clone(),
                percent: x.percent.clone(),
            },
        );
        i += 1;
    }
    assert(out@ =~= in_turn(lines@, order@));
    out
}

/// There is a line for each turn, with its key and its numbers of rows.
pub open spec fn lines_tell(lines: Seq<PeriodLine>, turns: Seq<TurnView>) -> bool {
    &&& lines.len() == turns.len()
    &&& forall|i: int|
        0 <= i < lines.len() ==> (#[trigger] lines[i]).group@ == turns[i].key
            && lines[i].current_count == turns[i].current.len() && lines[i].previous_count
            == turns[i].previous.len()
}

/// The turns in an order.
pub open spec fn turns_in_order(turns: Seq<TurnView>, order: Seq<usize>) -> Seq<TurnView> {
    order.map_values(|i: usize| turns[i as int])
}

/// The brief of two windows: the segments whose shares change most first, and
/// those whose values fall most first.
pub fn compose_period(
    cfg: &PeriodCompareConfig,
    plan: &AnalysisPlan,
    dated: &Vec<DatedRow>,
    turns: &Vec<Turn>,
    m: MeasuredTurns,
) -> (b: PeriodBrief)
    requires
        lines_tell(m.lines@, turn_views(turns@)),
        m.share_changes.len() == turns.len(),
        m.deltas.len() == turns.len(),
    ensures
        b.date_column == cfg.date_column,
        b.windows == cfg.windows,
        text::views(b.groups@) == text::views(plan.period_groups@),
        b.current_records == segments::on_side(segments::dated_views(dated@), Side::Current),
        b.previous_records == segments::on_side(segments::dated_views(dated@), Side::Previous),
        b.current_segments == with_rows(turn_views(turns@), true),
        b.previous_segments == with_rows(turn_views(turns@), false),
        b.previous_top5_share == m.previous_top5_share,
        b.current_top5_share == m.current_top5_share,
        b.top5_share_change == m.top5_share_change,
        b.total_falls == m.total_falls,
        b.total_percent == m.total_percent,
        b.previous_total == m.previous_total,
        b.current_total == m.current_total,
        b.total_delta == m.total_delta,
        b.by_share@ == in_turn(m.lines@, analysis::highest_first(m.share_changes@)),
        b.by_delta@ == in_turn(m.lines@, analysis::lowest_first(m.deltas@)),
        lines_tell(
            b.by_share@,
            turns_in_order(turn_views(turns@), analysis::highest_first(m.share_changes@)),
        ),
        lines_tell(
            b.by_delta@,
            turns_in_order(turn_views(turns@), analysis::lowest_first(m.deltas@)),
        ),
{
    let (current_records, previous_records) = count_sides(dated);
    let (current_segments, previous_segments) = count_turns(turns);
    let by_share = order_by_value(&m.share_changes);
    let by_delta = order_by_value_ascending(&m.deltas);
    PeriodBrief {
        date_column: cfg.date_column.clone(),
        windows: cfg.windows,
        groups: text::copy_all(&plan.period_groups),
        current_records,
        previous_records,
        previous_top5_share: m.previous_top5_share,
        current_top5_share: m.current_top5_share,
        top5_share_change: m.top5_share_change,
        previous_segments,
        current_segments,
        total_falls: m.total_falls,
        total_percent: m.total_percent,
        previous_total: m.previous_total,
        current_total: m.current_total,
        total_delta: m.total_delta,
        by_share: copy_lines(&m.lines, &by_share),
        by_delta: copy_lines(&m.lines, &by_delta),
    }
}

} // verus!
