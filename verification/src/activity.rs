//! The activity aggregator: buckets timestamped events into a trailing
//! 30-day window of calendar days (local time), then derives the scale,
//! the polyline vertices, the marker days and the axis label days of the
//! activity chart.

use chrono::Datelike;
use vstd::prelude::*;

verus! {

/// One fetched activity event, as plain values. Only the creation instant
/// matters to the aggregation; the other fields are carried for the event
/// list that the host renders.
#[derive(Debug)]
pub struct Event {
    pub id: String,
    pub event_type: String,
    pub actor_login: String,
    pub actor_avatar_url: String,
    pub repo_name: String,
    pub repo_url: String,
    /// Creation instant: seconds since the Unix epoch, in UTC.
    pub created_at_secs: i64,
}

/// How many entries of `days` fall on the calendar day `d`.
pub open spec fn count_on_day(days: Seq<i64>, d: int) -> nat
    decreases days.len(),
{
    if days.len() == 0 {
        0
    } else {
        count_on_day(days.drop_last(), d) + if days.last() as int == d {
            1nat
        } else {
            0nat
        }
    }
}

/// How many entries of `days` fall within the closed day range `[lo, hi]`.
pub open spec fn count_in_window(days: Seq<i64>, lo: int, hi: int) -> nat
    decreases days.len(),
{
    if days.len() == 0 {
        0
    } else {
        count_in_window(days.drop_last(), lo, hi) + if lo <= days.last() as int <= hi {
            1nat
        } else {
            0nat
        }
    }
}

/// The sum of a sequence of per-day counts.
pub open spec fn sum_of(counts: Seq<usize>) -> int
    decreases counts.len(),
{
    if counts.len() == 0 {
        0
    } else {
        sum_of(counts.drop_last()) + counts.last()
    }
}

/// The chart's vertical scale: the largest daily count, floored at 5 so a
/// sparse month never over-zooms.
pub open spec fn window_max(counts: Seq<usize>) -> int
    decreases counts.len(),
{
    if counts.len() == 0 {
        5
    } else if counts.last() as int > window_max(counts.drop_last()) {
        counts.last() as int
    } else {
        window_max(counts.drop_last())
    }
}

/// The day indices that get a circle marker: exactly those with a positive
/// count, in increasing order.
pub open spec fn marker_days(counts: Seq<usize>) -> Seq<usize>
    decreases counts.len(),
{
    if counts.len() == 0 {
        Seq::empty()
    } else if counts.last() > 0 {
        marker_days(counts.drop_last()).push((counts.len() - 1) as usize)
    } else {
        marker_days(counts.drop_last())
    }
}

/// Whether day index `i` carries an x-axis label: every fifth day, plus the
/// final day so the last label is always "today".
pub open spec fn is_label_day(i: int) -> bool {
    i % 5 == 0 || i == 29
}

/// The labelled day indices among `0 .. n`, in increasing order.
pub open spec fn label_days(n: int) -> Seq<usize>
    decreases n,
{
    if n <= 0 {
        Seq::empty()
    } else if is_label_day(n - 1) {
        label_days(n - 1).push((n - 1) as usize)
    } else {
        label_days(n - 1)
    }
}

/// Updating one entry of a count sequence moves its sum by the difference.
pub proof fn lemma_sum_update(s: Seq<usize>, i: int, v: usize)
    requires
        0 <= i < s.len(),
    ensures
        sum_of(s.update(i, v)) == sum_of(s) - s[i] + v,
    decreases s.len(),
{
    if i == s.len() - 1 {
        assert(s.update(i, v).drop_last() =~= s.drop_last());
    } else {
        assert(s.update(i, v).drop_last() =~= s.drop_last().update(i, v));
        lemma_sum_update(s.drop_last(), i, v);
    }
}

/// No more entries fall inside a window than the sequence has.
pub proof fn lemma_count_in_window_le(days: Seq<i64>, lo: int, hi: int)
    ensures
        count_in_window(days, lo, hi) <= days.len(),
    decreases days.len(),
{
    if days.len() > 0 {
        lemma_count_in_window_le(days.drop_last(), lo, hi);
    }
}

/// A day stamp outside the window changes no daily count and not the
/// windowed total: out-of-window events are discarded, not an error.
pub proof fn lemma_out_of_window_discarded(days: Seq<i64>, d: i64, lo: int, hi: int)
    requires
        !(lo <= d as int <= hi),
    ensures
        count_in_window(days.push(d), lo, hi) == count_in_window(days, lo, hi),
        forall|x: int|
            lo <= x <= hi ==> #[trigger] count_on_day(days.push(d), x) == count_on_day(days, x),
{
    assert(days.push(d).drop_last() =~= days);
}

/// Buckets each day stamp of `days` into the
/// trailing 30-day window ending at `today`. Returns the per-day counts,
/// oldest day first, and the total number of in-window entries; entries
/// outside the window are discarded.
pub fn bucket_days(days: &Vec<i64>, today: i64) -> (r: (Vec<usize>, usize))
    requires
        i64::MIN + 29 <= today,
    ensures
        r.0@.len() == 30,
        forall|k: int| 0 <= k < 30 ==> #[trigger] r.0@[k] == count_on_day(days@, today - 29 + k),
        forall|k: int| 0 <= k < 30 ==> #[trigger] r.0@[k] <= days@.len(),
        r.1 == count_in_window(days@, today - 29, today as int),
        sum_of(r.0@) == r.1,
{
    let start = today - 29;
    let mut counts: Vec<usize> = Vec::new();
    let mut k: usize = 0;
    while k < 30
        invariant
            k <= 30,
            counts@.len() == k,
            forall|x: int| 0 <= x < k ==> #[trigger] counts@[x] == 0,
            sum_of(counts@) == 0,
        decreases 30 - k,
    {
        proof {
            assert(counts@.push(0usize).drop_last() =~= counts@);
        }
        counts.push(0);
        k = k + 1;
    }
    let ghost empty_prefix = days@.take(0);
    proof {
        assert(empty_prefix =~= Seq::<i64>::empty());
    }
    let mut total: usize = 0;
    let mut j: usize = 0;
    while j < days.len()
        invariant
            i64::MIN + 29 <= today,
            start == today - 29,
            j <= days@.len(),
            counts@.len() == 30,
            forall|k: int|
                0 <= k < 30 ==> #[trigger] counts@[k] == count_on_day(
                    days@.take(j as int),
                    today - 29 + k,
                ),
            forall|k: int| 0 <= k < 30 ==> #[trigger] counts@[k] <= j,
            total == count_in_window(days@.take(j as int), today - 29, today as int),
            sum_of(counts@) == total,
            total <= j,
        decreases days@.len() - j,
    {
        let d = days[j];
        let ghost prefix = days@.take(j as int);
        let ghost next_prefix = days@.take(j as int + 1);
        proof {
            assert(next_prefix.drop_last() =~= prefix);
            assert(next_prefix.last() == d);
        }
        if start <= d && d <= today {
            let idx = (d - start) as usize;
            let ghost before = counts@;
            let c = counts[idx];
            counts[idx] = c + 1;
            total = total + 1;
            proof {
                lemma_sum_update(before, idx as int, (c + 1) as usize);
                assert forall|k: int|
                    0 <= k < 30 implies #[trigger] counts@[k] == count_on_day(
                        next_prefix,
                        today - 29 + k,
                    ) by {
                    if k == idx {
                        assert(d as int == today - 29 + k);
                    } else {
                        assert(d as int != today - 29 + k);
                    }
                }
            }
        } else {
            proof {
                assert forall|k: int|
                    0 <= k < 30 implies #[trigger] counts@[k] == count_on_day(
                        next_prefix,
                        today - 29 + k,
                    ) by {
                    assert(d as int != today - 29 + k);
                }
            }
        }
        j = j + 1;
    }
    proof {
        assert(days@.take(days@.len() as int) =~= days@);
    }
    (counts, total)
}

/// The scale is at least its floor of 5, dominates every count, and is
/// either the floor itself or one of the counts.
pub proof fn lemma_window_max_props(counts: Seq<usize>)
    ensures
        window_max(counts) >= 5,
        forall|k: int| 0 <= k < counts.len() ==> #[trigger] counts[k] as int <= window_max(counts),
        window_max(counts) == 5 || exists|k: int|
            0 <= k < counts.len() && #[trigger] counts[k] as int == window_max(counts),
    decreases counts.len(),
{
    if counts.len() > 0 {
        lemma_window_max_props(counts.drop_last());
        let prefix = counts.drop_last();
        assert forall|k: int| 0 <= k < counts.len() implies #[trigger] counts[k] as int
            <= window_max(counts) by {
            if k < counts.len() - 1 {
                assert(prefix[k] == counts[k]);
                assert(prefix[k] as int <= window_max(prefix));
            }
        }
        if counts.last() as int > window_max(prefix) {
            assert(counts[counts.len() - 1] as int == window_max(counts));
        } else if window_max(prefix) != 5 {
            let k = choose|k: int|
                0 <= k < prefix.len() && #[trigger] prefix[k] as int == window_max(prefix);
            assert(counts[k] as int == window_max(counts));
        }
    }
}

/// The vertical scale of the chart: the largest daily count,
/// floored at 5.
pub fn chart_scale(counts: &Vec<usize>) -> (m: usize)
    ensures
        m as int == window_max(counts@),
        m >= 5,
{
    let mut m: usize = 5;
    let mut k: usize = 0;
    while k < counts.len()
        invariant
            k <= counts@.len(),
            m >= 5,
            m as int == window_max(counts@.take(k as int)),
        decreases counts@.len() - k,
    {
        proof {
            assert(counts@.take(k as int + 1).drop_last() =~= counts@.take(k as int));
            assert(counts@.take(k as int + 1).last() == counts@[k as int]);
        }
        if counts[k] > m {
            m = counts[k];
        }
        k = k + 1;
    }
    proof {
        assert(counts@.take(counts@.len() as int) =~= counts@);
    }
    m
}

/// One polyline vertex, as exact rationals in the chart's 600 x 150
/// coordinate space: x = x_num / x_den and y = y_num / y_den.
#[derive(Clone, Copy, Debug, PartialEq, Eq, Structural)]
pub struct ChartPoint {
    pub x_num: usize,
    pub x_den: usize,
    pub y_num: usize,
    pub y_den: usize,
}

/// What every vertex of the polyline is, given the daily counts and the
/// scale `m`: day `i` plots at x = 40 + i * 560 / 29 (30 points spread over
/// 29 intervals of the 560-unit drawable width) and at y = 130 - count *
/// 120 / m (a zero count sits on the 130-unit baseline; a count of `m`
/// reaches the 10-unit top of the drawable area).
pub open spec fn points_match(points: Seq<ChartPoint>, counts: Seq<usize>, m: int) -> bool {
    &&& points.len() == counts.len()
    &&& forall|i: int|
        0 <= i < points.len() ==> #[trigger] points[i] == (ChartPoint {
            x_num: (40 * 29 + i * 560) as usize,
            x_den: 29 as usize,
            y_num: (130 * m - 120 * counts[i]) as usize,
            y_den: m as usize,
        })
}

/// The polyline vertices, the marker days and
/// the axis label days, for the given counts and scale.
pub fn chart_geometry(counts: &Vec<usize>, m: usize) -> (r: (Vec<ChartPoint>, Vec<usize>, Vec<
    usize,
>))
    requires
        counts@.len() == 30,
        m >= 5,
        forall|k: int| 0 <= k < 30 ==> #[trigger] counts@[k] <= m,
        130 * m <= usize::MAX,
    ensures
        points_match(r.0@, counts@, m as int),
        r.1@ == marker_days(counts@),
        r.2@ == label_days(30),
        r.2@ == seq![0usize, 5, 10, 15, 20, 25, 29],
{
    let mut points: Vec<ChartPoint> = Vec::new();
    let mut markers: Vec<usize> = Vec::new();
    let mut labels: Vec<usize> = Vec::new();
    let mut i: usize = 0;
    while i < 30
        invariant
            i <= 30,
            counts@.len() == 30,
            m >= 5,
            forall|k: int| 0 <= k < 30 ==> #[trigger] counts@[k] <= m,
            130 * m <= usize::MAX,
            points_match(points@, counts@.take(i as int), m as int),
            markers@ == marker_days(counts@.take(i as int)),
            labels@ == label_days(i as int),
        decreases 30 - i,
    {
        let ghost prefix = counts@.take(i as int);
        let ghost next_prefix = counts@.take(i as int + 1);
        proof {
            assert(next_prefix.drop_last() =~= prefix);
            assert(next_prefix.last() == counts@[i as int]);
        }
        let c = counts[i];
        let x_num = 40 * 29 + i * 560;
        let y_num = 130 * m - 120 * c;
        points.push(ChartPoint { x_num, x_den: 29, y_num, y_den: m });
        if c > 0 {
            markers.push(i);
        }
        if i % 5 == 0 || i == 29 {
            labels.push(i);
        }
        i = i + 1;
    }
    proof {
        assert(counts@.take(30) =~= counts@);
        assert(label_days(30) =~= seq![0usize, 5, 10, 15, 20, 25, 29]) by {
            reveal_with_fuel(label_days, 31);
        }
    }
    (points, markers, labels)
}

/// Everything the activity panel draws, derived in one pass from the
/// event day stamps.
pub struct ActivityChart {
    /// The first calendar day of the window: today - 29, as a day count.
    pub start_day: i64,
    /// Events per window day, oldest day first; 30 entries.
    pub counts: Vec<usize>,
    /// Events inside the window: the sum of `counts`.
    pub total: usize,
    /// The vertical scale: the largest count, floored at 5.
    pub max_count: usize,
    /// The 30 polyline vertices, one per window day.
    pub points: Vec<ChartPoint>,
    /// Day indices that get a circle marker: those with a positive count.
    pub markers: Vec<usize>,
    /// Day indices that get an x-axis label: 0, 5, 10, 15, 20, 25, 29.
    pub labels: Vec<usize>,
}

/// Runs the whole aggregation over day stamps for the trailing 30-day
/// window `[today - 29, today]`.
pub fn aggregate(days: &Vec<i64>, today: i64) -> (c: ActivityChart)
    requires
        i64::MIN + 29 <= today,
        130 * days@.len() <= usize::MAX,
    ensures
        c.start_day == today - 29,
        c.counts@.len() == 30,
        forall|k: int| 0 <= k < 30 ==> #[trigger] c.counts@[k] == count_on_day(days@, today - 29 + k),
        c.total == count_in_window(days@, today - 29, today as int),
        sum_of(c.counts@) == c.total,
        c.max_count as int == window_max(c.counts@),
        c.max_count >= 5,
        points_match(c.points@, c.counts@, c.max_count as int),
        c.markers@ == marker_days(c.counts@),
        c.labels@ == label_days(30),
        c.labels@ == seq![0usize, 5, 10, 15, 20, 25, 29],
{
    let bucketed = bucket_days(days, today);
    let counts = bucketed.0;
    let total = bucketed.1;
    let m = chart_scale(&counts);
    proof {
        lemma_window_max_props(counts@);
        if window_max(counts@) != 5 {
            let k = choose|k: int|
                0 <= k < counts@.len() && #[trigger] counts@[k] as int == window_max(counts@);
            assert(counts@[k] <= days@.len());
        }
    }
    let geometry = chart_geometry(&counts, m);
    ActivityChart {
        start_day: today - 29,
        counts,
        total,
        max_count: m,
        points: geometry.0,
        markers: geometry.1,
        labels: geometry.2,
    }
}

/// Relies on chrono's `Local::now`, `DateTime::date_naive` and
/// `Datelike::num_days_from_ce`: the machine's current calendar date in its
/// local time zone, as a count of days. The count is an `i32` by chrono's
/// signature, so only its range can be promised.
#[verifier::external_body]
fn today_local_day() -> (d: i64)
    ensures
        -0x8000_0000 <= d <= 0x7fff_ffff,
{
    chrono::Local::now().date_naive().num_days_from_ce() as i64
}

/// Instants at most this many seconds after the Unix epoch (about 253 000
/// years) stay millions of days inside chrono's calendar, so converting one
/// to a local date can neither fail nor step past the calendar's ends.
pub const MAX_CALENDAR_SECS: i64 = 8_000_000_000_000;

/// The same margin on the other side of the epoch.
pub const MIN_CALENDAR_SECS: i64 = -8_000_000_000_000;

/// Whether the calendar conversion accepts the instant `secs`.
pub open spec fn in_calendar_range(secs: i64) -> bool {
    MIN_CALENDAR_SECS <= secs <= MAX_CALENDAR_SECS
}

/// The UTC calendar day of the instant `secs`, counted as chrono counts
/// days: day 719163 holds the Unix epoch.
pub open spec fn utc_day_of(secs: i64) -> int {
    719163 + secs as int / 86400
}

/// Whether `d` can be the local calendar day of the instant `secs`: a time
/// zone offset is strictly smaller than one day, so the local day is within
/// one of the UTC day.
pub open spec fn plausible_local_day(secs: i64, d: i64) -> bool {
    utc_day_of(secs) - 1 <= d <= utc_day_of(secs) + 1
}

/// Relies on chrono's `DateTime::from_timestamp` (defined for every instant
/// the `requires` admits, far inside the calendar), `DateTime::with_timezone`
/// toward `Local` (whose offset is strictly within one day of UTC),
/// `DateTime::date_naive` and `Datelike::num_days_from_ce`: the local
/// calendar day of a UTC instant given as Unix seconds. Which day within
/// one of the UTC day comes back depends on the machine's time zone.
#[verifier::external_body]
fn local_day_of_timestamp(secs: i64) -> (d: i64)
    requires
        in_calendar_range(secs),
    ensures
        plausible_local_day(secs, d),
        -0x8000_0000 <= d <= 0x7fff_ffff,
{
    let t = chrono::DateTime::from_timestamp(secs, 0).expect("instant inside the calendar");
    t.with_timezone(&chrono::Local).date_naive().num_days_from_ce() as i64
}

/// How the day stamps relate to the events they come from: one local day
/// per event whose instant the calendar accepts, in the events' order, each
/// within one day of its event's UTC day; the other events yield no day.
pub open spec fn days_match_events(days: Seq<i64>, events: Seq<Event>) -> bool
    decreases events.len(),
{
    if events.len() == 0 {
        days.len() == 0
    } else if in_calendar_range(events.last().created_at_secs) {
        &&& days.len() > 0
        &&& plausible_local_day(events.last().created_at_secs, days.last())
        &&& days_match_events(days.drop_last(), events.drop_last())
    } else {
        days_match_events(days, events.drop_last())
    }
}

/// The local calendar day of each event, in the events' order. An instant
/// outside the calendar's range yields no day: such an event could never
/// fall inside the 30-day window anyway.
pub fn local_event_days(events: &Vec<Event>) -> (days: Vec<i64>)
    ensures
        days_match_events(days@, events@),
        days@.len() <= events@.len(),
{
    let mut days: Vec<i64> = Vec::new();
    let mut j: usize = 0;
    while j < events.len()
        invariant
            j <= events@.len(),
            days@.len() <= j,
            days_match_events(days@, events@.take(j as int)),
        decreases events@.len() - j,
    {
        let ghost prefix = events@.take(j as int);
        let ghost next_prefix = events@.take(j as int + 1);
        proof {
            assert(next_prefix.drop_last() =~= prefix);
            assert(next_prefix.last() == events@[j as int]);
        }
        let secs = events[j].created_at_secs;
        if MIN_CALENDAR_SECS <= secs && secs <= MAX_CALENDAR_SECS {
            let d = local_day_of_timestamp(secs);
            let ghost before = days@;
            days.push(d);
            proof {
                assert(days@.drop_last() =~= before);
            }
        }
        j = j + 1;
    }
    proof {
        assert(events@.take(events@.len() as int) =~= events@);
    }
    days
}

/// Aggregates the fetched events into the chart for the 30-day window that
/// ends on the machine's current local date. The window's position depends
/// on the clock and the time zone, so the contract states what holds of the
/// chart whatever calendar days came back; `aggregate` pins the chart down
/// for given days.
pub fn aggregate_events(events: &Vec<Event>) -> (c: ActivityChart)
    requires
        130 * events@.len() <= usize::MAX,
    ensures
        c.counts@.len() == 30,
        sum_of(c.counts@) == c.total,
        c.total <= events@.len(),
        c.max_count as int == window_max(c.counts@),
        c.max_count >= 5,
        points_match(c.points@, c.counts@, c.max_count as int),
        c.markers@ == marker_days(c.counts@),
        c.labels@ == label_days(30),
        c.labels@ == seq![0usize, 5, 10, 15, 20, 25, 29],
        -0x8000_0000 - 29 <= c.start_day,
        c.start_day + 29 <= 0x7fff_ffff,
{
    let days = local_event_days(events);
    let today = today_local_day();
    let c = aggregate(&days, today);
    proof {
        lemma_count_in_window_le(days@, today - 29, today as int);
    }
    c
}

} // verus!
