//! Seasonal forecasting: the weekly grid, the periodicity gate, and the profile it lets through.
use vstd::prelude::*;

use crate::clock::Timestamp;
#[allow(unused_imports)]
use crate::clock::truncated_div;
#[allow(unused_imports)]
use crate::domain::valid_points;
pub use crate::cron::{cron_window_active, weekly_window_cron};
use crate::domain::MetricPoint;
use crate::sample::Sample;

verus! {

/// Tuning for the seasonal forecaster (built by the operator from its config flags).
#[derive(Debug, Clone, Copy, PartialEq, Eq)]
pub struct ForecastParams {
    pub min_history_days: i64,
    pub bin_minutes: u32,
    pub quantile: Sample,
    pub periodicity_threshold: Sample,
    pub prescale_lead_minutes: i64,
}

impl Default for ForecastParams {
    /// Two weeks of history, hourly bins, the 0.95 quantile, a periodicity threshold of 0.3, and
    /// ten minutes of lead.
    fn default() -> (p: Self)
        ensures
            p == (ForecastParams {
                min_history_days: 14,
                bin_minutes: 60,
                quantile: Sample { bits: 0x3FEE_6666_6666_6666 },
                periodicity_threshold: Sample { bits: 0x3FD3_3333_3333_3333 },
                prescale_lead_minutes: 10,
            }),
    {
        ForecastParams {
            min_history_days: 14,
            bin_minutes: 60,
            quantile: Sample { bits: 0x3FEE_6666_6666_6666 },
            periodicity_threshold: Sample { bits: 0x3FD3_3333_3333_3333 },
            prescale_lead_minutes: 10,
        }
    }
}

/// A deterministic seasonal profile: per weekly (day-of-week, time-of-day) bin, the quantile
/// replica count needed to hold target, plus a week-over-week trend and the periodicity
/// confidence.
#[derive(Debug)]
pub struct SeasonalForecast {
    pub bins: Vec<Sample>,
    pub bin_minutes: u32,
    /// Week-over-week change in demand; the schedule builder extrapolates growth forward.
    pub trend_per_week: Sample,
    pub confidence: Sample,
}

/// The figures that the profile rests on: the autocorrelation of the detrended load at one and
/// two days and at one and two weeks, the quantile of the needed replicas in each weekly bin, and
/// the week-over-week trend.
#[derive(Debug)]
pub struct ProfileMeasures {
    pub daily: Sample,
    pub daily_twice: Sample,
    pub weekly: Sample,
    pub weekly_twice: Sample,
    pub bins: Vec<Sample>,
    pub trend_per_week: Sample,
}

// ---------------------------------------------------------------------------------------------
// The grid

/// The number of bins that cover a day: `1440 / bin_minutes`, rounded up.
pub open spec fn day_bins(bin_minutes: u32) -> int {
    (1440 + bin_minutes - 1) / (bin_minutes as int)
}

/// Whether the history is long enough for the grid: bins have a length, and first and last point
/// are at least `min_history_days` apart.
pub open spec fn enough_history(points: Seq<MetricPoint>, params: ForecastParams) -> bool {
    &&& points.len() > 0
    &&& params.bin_minutes != 0
    &&& points.last().timestamp.mins_since(points[0].timestamp) >= params.min_history_days * 1440
}

/// Whole minutes from `earlier` to `ts`, rounded toward zero.
pub fn minutes_between(earlier: Timestamp, ts: Timestamp) -> (m: i64)
    requires
        earlier.valid(),
        ts.valid(),
    ensures
        m == ts.mins_since(earlier),
        -1_000_000_000_000 < m < 1_000_000_000_000,
{
    ts.seconds_since(earlier) / 60
}

/// The number of bins per day when the history is long enough for the grid. The last bin of a
/// day may be a partial one.
pub fn profile_grid(points: &Vec<MetricPoint>, params: &ForecastParams) -> (r: Option<usize>)
    requires
        valid_points(points@),
    ensures
        match r {
            Some(bins) => enough_history(points@, *params) && bins == day_bins(params.bin_minutes),
            None => !enough_history(points@, *params),
        },
{
    if points.len() == 0 {
        return None;
    }
    let first = points[0].timestamp;
    let last = points[points.len() - 1].timestamp;
    let span: i64 = minutes_between(first, last);
    if params.bin_minutes == 0 || (span as i128) < params.min_history_days as i128 * 1440 {
        return None;
    }
    Some(bins_per_day(params.bin_minutes))
}

/// The number of bins that cover a day.
pub fn bins_per_day(bin_minutes: u32) -> (n: usize)
    requires
        bin_minutes > 0,
    ensures
        n == day_bins(bin_minutes),
        1 <= n <= 1440,
{
    let n: u64 = (1440 + bin_minutes as u64 - 1) / bin_minutes as u64;
    proof {
        law_grid_covers_the_day(bin_minutes);
    }
    n as usize
}

/// Weekly grid index for an instant: `day_of_week * bins_per_day + bin_of_day` (Sunday = 0). The
/// bins of a day are counted in 32 bits.
pub open spec fn weekly_index(ts: Timestamp, bin_minutes: u32, bins_per_day: int) -> int {
    let bin = ts.minute_of_day() / (bin_minutes as int);
    let last = (bins_per_day as u32) - 1;
    ts.weekday() * bins_per_day + if bin < last {
        bin
    } else {
        last
    }
}

/// Weekly grid index for an instant.
pub fn weekly_bin_index(ts: Timestamp, bin_minutes: u32, bins_per_day: usize) -> (i: usize)
    requires
        ts.valid(),
        bin_minutes > 0,
        bins_per_day as u32 >= 1,
        weekly_index(ts, bin_minutes, bins_per_day as int) <= usize::MAX,
    ensures
        i == weekly_index(ts, bin_minutes, bins_per_day as int),
        i < 7 * bins_per_day,
{
    let dow: usize = ts.days_from_sunday() as usize;
    let bin: u32 = ts.minutes_from_midnight() / bin_minutes;
    let last: u32 = bins_per_day as u32 - 1;
    let bin_of_day: usize = if bin < last {
        bin as usize
    } else {
        last as usize
    };
    assert((bins_per_day as u32) as usize <= bins_per_day) by (bit_vector);
    assert(0 <= dow * bins_per_day <= 6 * bins_per_day) by (nonlinear_arith)
        requires
            dow <= 6,
    ;
    dow * bins_per_day + bin_of_day
}

/// The grid covers the whole day and no bin of it lies past midnight.
pub proof fn law_grid_covers_the_day(bin_minutes: u32)
    requires
        bin_minutes > 0,
    ensures
        1 <= day_bins(bin_minutes) <= 1440,
        day_bins(bin_minutes) * bin_minutes >= 1440,
        (day_bins(bin_minutes) - 1) * bin_minutes < 1440,
{
    let b = bin_minutes as int;
    let n = day_bins(bin_minutes);
    vstd::arithmetic::div_mod::lemma_fundamental_div_mod(1440 + b - 1, b);
    let r = (1440 + b - 1) % b;
    assert(0 <= r < b);
    assert(n * b == 1440 + b - 1 - r) by (nonlinear_arith)
        requires
            1440 + b - 1 == b * n + r,
    ;
    assert((n - 1) * b == n * b - b) by (nonlinear_arith);
    assert(n >= 1) by (nonlinear_arith)
        requires
            n * b >= 1440,
            b > 0,
    ;
    assert(n <= 1440) by (nonlinear_arith)
        requires
            (n - 1) * b < 1440,
            b >= 1,
    ;
}

/// Each minute of the week has a bin of its own length: two instants share a bin exactly when
/// they fall on the same weekday and into the same `bin_minutes` stretch of the day.
pub proof fn law_bins_do_not_alias(a: Timestamp, b: Timestamp, bin_minutes: u32)
    requires
        a.valid(),
        b.valid(),
        bin_minutes > 0,
    ensures
        0 <= weekly_index(a, bin_minutes, day_bins(bin_minutes)) < 7 * day_bins(bin_minutes),
        weekly_index(a, bin_minutes, day_bins(bin_minutes)) == weekly_index(
            b,
            bin_minutes,
            day_bins(bin_minutes),
        ) <==> a.weekday() == b.weekday() && a.minute_of_day() / (bin_minutes as int)
            == b.minute_of_day() / (bin_minutes as int),
{
    law_grid_covers_the_day(bin_minutes);
    let n = day_bins(bin_minutes);
    let w = bin_minutes as int;
    let (p, q) = (a.minute_of_day() / w, b.minute_of_day() / w);
    lemma_bin_below(a.minute_of_day(), w, n);
    lemma_bin_below(b.minute_of_day(), w, n);
    let (x, y) = (a.weekday(), b.weekday());
    assert(0 <= x < 7 && 0 <= y < 7);
    assert(0 <= x * n + p < 7 * n) by (nonlinear_arith)
        requires
            0 <= x <= 6,
            0 <= p < n,
    ;
    if x * n + p == y * n + q {
        assert(x == y) by (nonlinear_arith)
            requires
                x * n + p == y * n + q,
                0 <= p < n,
                0 <= q < n,
        ;
    }
}

proof fn lemma_bin_below(minute: int, width: int, bins: int)
    requires
        0 <= minute < 1440,
        width > 0,
        bins * width >= 1440,
    ensures
        0 <= minute / width < bins,
{
    vstd::arithmetic::div_mod::lemma_fundamental_div_mod(minute, width);
    vstd::arithmetic::div_mod::lemma_div_pos_is_pos(minute, width);
    let q = minute / width;
    assert(q < bins) by (nonlinear_arith)
        requires
            minute == width * q + minute % width,
            0 <= minute % width,
            minute < bins * width,
            width > 0,
    ;
}

// ---------------------------------------------------------------------------------------------
// Grouping the history

/// The positions at which `keys` holds `k`, in order.
pub open spec fn positions(keys: Seq<i64>, k: i64) -> Seq<usize>
    decreases keys.len(),
{
    if keys.len() == 0 {
        Seq::empty()
    } else {
        let before = positions(keys.drop_last(), k);
        if keys.last() == k {
            before.push((keys.len() - 1) as usize)
        } else {
            before
        }
    }
}

/// The positions under each key, with the keys in ascending order.
#[derive(Debug)]
pub struct Group {
    pub key: i64,
    pub members: Vec<usize>,
}

/// Whether a key has its group.
pub open spec fn has_group(groups: Seq<Group>, key: i64) -> bool {
    exists|i: int| 0 <= i < groups.len() && #[trigger] groups[i].key == key
}

/// Whether `groups` lists every key of `keys` once, in ascending order, each with its positions.
pub open spec fn groups_of(groups: Seq<Group>, keys: Seq<i64>) -> bool {
    &&& forall|i: int, j: int| 0 <= i < j < groups.len() ==> groups[i].key < groups[j].key
    &&& forall|i: int|
        0 <= i < groups.len() ==> keys.contains(#[trigger] groups[i].key)
            && groups[i].members@ == positions(keys, groups[i].key)
    &&& forall|k: int| 0 <= k < keys.len() ==> has_group(groups, #[trigger] keys[k])
}

proof fn lemma_positions_push(keys: Seq<i64>, x: i64, k: i64)
    ensures
        positions(keys.push(x), k) == if x == k {
            positions(keys, k).push(keys.len() as usize)
        } else {
            positions(keys, k)
        },
{
    assert(keys.push(x).drop_last() == keys);
}

proof fn lemma_positions_absent(keys: Seq<i64>, k: i64)
    requires
        !keys.contains(k),
    ensures
        positions(keys, k) == Seq::<usize>::empty(),
    decreases keys.len(),
{
    if keys.len() > 0 {
        let rest = keys.drop_last();
        assert(keys[keys.len() - 1] != k);
        assert forall|i: int| 0 <= i < rest.len() implies rest[i] != k by {
            assert(keys[i] != k);
        }
        lemma_positions_absent(rest, k);
    }
}

proof fn lemma_contains_push(keys: Seq<i64>, x: i64, k: i64)
    ensures
        keys.push(x).contains(k) <==> keys.contains(k) || k == x,
{
    let now = keys.push(x);
    if keys.contains(k) {
        let i = choose|i: int| 0 <= i < keys.len() && keys[i] == k;
        assert(now[i] == k);
    }
    if k == x {
        assert(now[keys.len() as int] == k);
    }
    if now.contains(k) && k != x {
        let i = choose|i: int| 0 <= i < now.len() && now[i] == k;
        assert(keys[i] == k);
    }
}

/// A key that has its group joins it.
proof fn lemma_group_extended(before: Seq<Group>, known: Seq<i64>, p: int, group: Group)
    requires
        groups_of(before, known),
        0 <= p < before.len(),
        group.key == before[p].key,
        group.members@ == before[p].members@.push(known.len() as usize),
    ensures
        groups_of(before.update(p, group), known.push(group.key)),
{
    let (key, now, groups) = (group.key, known.push(group.key), before.update(p, group));
    assert forall|i: int| 0 <= i < groups.len() implies now.contains(#[trigger] groups[i].key)
        && groups[i].members@ == positions(now, groups[i].key) by {
        assert(known.contains(before[i].key));
        lemma_contains_push(known, key, before[i].key);
        lemma_positions_push(known, key, before[i].key);
        if i < p {
            assert(before[i].key < before[p].key);
        } else if p < i {
            assert(before[p].key < before[i].key);
        }
    }
    assert forall|k: int| 0 <= k < now.len() implies has_group(groups, #[trigger] now[k]) by {
        if k < known.len() {
            assert(has_group(before, known[k]));
            let i = choose|i: int| 0 <= i < before.len() && #[trigger] before[i].key == known[k];
            assert(groups[i].key == now[k]);
        } else {
            assert(groups[p].key == now[k]);
        }
    }
}

/// A key that has no group yet gets one in its place.
proof fn lemma_group_inserted(before: Seq<Group>, known: Seq<i64>, at: int, group: Group)
    requires
        groups_of(before, known),
        0 <= at <= before.len(),
        at > 0 ==> before[at - 1].key < group.key,
        forall|j: int| at <= j < before.len() ==> (#[trigger] before[j]).key > group.key,
        group.members@ == seq![known.len() as usize],
    ensures
        groups_of(before.insert(at, group), known.push(group.key)),
{
    let (key, now, groups) = (group.key, known.push(group.key), before.insert(at, group));
    assert forall|i: int| 0 <= i < at implies (#[trigger] before[i]).key < key by {
        assert(i == at - 1 || before[i].key < before[at - 1].key);
    }
    assert(!known.contains(key)) by {
        if known.contains(key) {
            let k = choose|k: int| 0 <= k < known.len() && known[k] == key;
            assert(has_group(before, known[k]));
            let i = choose|i: int| 0 <= i < before.len() && #[trigger] before[i].key == known[k];
            assert(before[i].key == key);
        }
    }
    lemma_positions_absent(known, key);
    assert forall|i: int, j: int| 0 <= i < j < groups.len() implies groups[i].key
        < groups[j].key by {
        let a = if i < at {
            i
        } else {
            i - 1
        };
        let b = if j < at {
            j
        } else {
            j - 1
        };
        if i != at && j != at {
            assert(before[a].key < before[b].key);
        }
    }
    assert forall|i: int| 0 <= i < groups.len() implies now.contains(#[trigger] groups[i].key)
        && groups[i].members@ == positions(now, groups[i].key) by {
        lemma_contains_push(known, key, groups[i].key);
        lemma_positions_push(known, key, groups[i].key);
        if i == at {
            assert(positions(now, key) =~= seq![known.len() as usize]);
        } else {
            let a = if i < at {
                i
            } else {
                i - 1
            };
            assert(groups[i] == before[a]);
            assert(known.contains(before[a].key));
        }
    }
    assert forall|k: int| 0 <= k < now.len() implies has_group(groups, #[trigger] now[k]) by {
        if k < known.len() {
            assert(has_group(before, known[k]));
            let i = choose|i: int| 0 <= i < before.len() && #[trigger] before[i].key == known[k];
            let j = if i < at {
                i
            } else {
                i + 1
            };
            assert(groups[j].key == now[k]);
        } else {
            assert(groups[at].key == now[k]);
        }
    }
}

/// The positions under each key, with the keys in ascending order.
pub fn grouped(keys: &Vec<i64>) -> (groups: Vec<Group>)
    ensures
        groups_of(groups@, keys@),
{
    let mut groups: Vec<Group> = Vec::new();
    let mut n: usize = 0;
    while n < keys.len()
        invariant
            n <= keys@.len(),
            groups_of(groups@, keys@.take(n as int)),
        decreases keys@.len() - n,
    {
        let key: i64 = keys[n];
        let mut at: usize = groups.len();
        while at > 0 && groups[at - 1].key > key
            invariant
                at <= groups@.len(),
                forall|j: int| at <= j < groups@.len() ==> (#[trigger] groups@[j]).key > key,
            decreases at,
        {
            at -= 1;
        }
        let ghost before = groups@;
        let ghost known = keys@.take(n as int);
        assert(keys@.take(n + 1) == known.push(key));
        if at > 0 && groups[at - 1].key == key {
            let mut group = groups.remove(at - 1);
            group.members.push(n);
            proof {
                lemma_group_extended(before, known, at - 1, group);
            }
            groups.insert(at - 1, group);
            assert(groups@ == before.update(at - 1, group));
        } else {
            let mut members: Vec<usize> = Vec::new();
            members.push(n);
            let group = Group { key, members };
            proof {
                lemma_group_inserted(before, known, at as int, group);
            }
            groups.insert(at, group);
        }
        n += 1;
    }
    assert(keys@.take(keys@.len() as int) == keys@);
    groups
}

/// For each point, the `bin_minutes` stretch since `t0` that it falls into.
pub open spec fn stretch_keys(points: Seq<MetricPoint>, t0: Timestamp, bin_minutes: u32) -> Seq<
    i64,
> {
    points.map_values(
        |p: MetricPoint| truncated_div(p.timestamp.mins_since(t0), bin_minutes as int) as i64,
    )
}

/// For each point, the week since `t0` that it falls into.
pub open spec fn week_keys(points: Seq<MetricPoint>, t0: Timestamp) -> Seq<i64> {
    points.map_values(|p: MetricPoint| truncated_div(p.timestamp.days_since(t0), 7) as i64)
}

/// For each point, its bin in the weekly grid.
pub open spec fn bin_keys(points: Seq<MetricPoint>, bin_minutes: u32) -> Seq<i64> {
    points.map_values(
        |p: MetricPoint| weekly_index(p.timestamp, bin_minutes, day_bins(bin_minutes)) as i64,
    )
}

/// The points of each regular stretch since the first point: the input to the periodicity gate.
/// Stretches without a point are left out.
pub fn regular_groups(points: &Vec<MetricPoint>, bin_minutes: u32) -> (groups: Vec<Group>)
    requires
        valid_points(points@),
        points@.len() > 0,
        bin_minutes > 0,
    ensures
        groups_of(groups@, stretch_keys(points@, points@[0].timestamp, bin_minutes)),
{
    let t0 = points[0].timestamp;
    let mut keys: Vec<i64> = Vec::new();
    let mut i: usize = 0;
    while i < points.len()
        invariant
            i <= points@.len(),
            valid_points(points@),
            t0 == points@[0].timestamp,
            t0.valid(),
            bin_minutes > 0,
            keys@ == stretch_keys(points@, t0, bin_minutes).take(
                i as int,
            ),
        decreases points@.len() - i,
    {
        let minutes: i64 = minutes_between(t0, points[i].timestamp);
        keys.push(minutes / bin_minutes as i64);
        i += 1;
    }
    assert(keys@ =~= stretch_keys(points@, t0, bin_minutes));
    grouped(&keys)
}

/// The points of each week since the first point: the input to the trend.
pub fn week_groups(points: &Vec<MetricPoint>) -> (groups: Vec<Group>)
    requires
        valid_points(points@),
        points@.len() > 0,
    ensures
        groups_of(groups@, week_keys(points@, points@[0].timestamp)),
{
    let t0 = points[0].timestamp;
    let mut keys: Vec<i64> = Vec::new();
    let mut i: usize = 0;
    while i < points.len()
        invariant
            i <= points@.len(),
            valid_points(points@),
            t0 == points@[0].timestamp,
            t0.valid(),
            keys@ == week_keys(points@, t0).take(i as int),
        decreases points@.len() - i,
    {
        let days: i64 = points[i].timestamp.seconds_since(t0) / 86_400;
        keys.push(days / 7);
        i += 1;
    }
    assert(keys@ =~= week_keys(points@, t0));
    grouped(&keys)
}

/// The points of each bin of the weekly grid. Bins without a point are left out.
pub fn bin_groups(points: &Vec<MetricPoint>, bin_minutes: u32) -> (groups: Vec<Group>)
    requires
        valid_points(points@),
        bin_minutes > 0,
    ensures
        groups_of(groups@, bin_keys(points@, bin_minutes)),
{
    let per_day: usize = bins_per_day(bin_minutes);
    let mut keys: Vec<i64> = Vec::new();
    let mut i: usize = 0;
    while i < points.len()
        invariant
            i <= points@.len(),
            valid_points(points@),
            bin_minutes > 0,
            per_day == day_bins(bin_minutes),
            1 <= per_day <= 1440,
            keys@ == bin_keys(points@, bin_minutes).take(i as int),
        decreases points@.len() - i,
    {
        proof {
            law_bins_do_not_alias(
                points@[i as int].timestamp,
                points@[i as int].timestamp,
                bin_minutes,
            );
        }
        let bin: usize = weekly_bin_index(points[i].timestamp, bin_minutes, per_day);
        keys.push(bin as i64);
        i += 1;
    }
    assert(keys@ =~= bin_keys(points@, bin_minutes));
    grouped(&keys)
}

/// The replicas that a point may not be sized below: its own while a queue backlog is present.
pub fn queue_floor(point: &MetricPoint) -> (n: i32)
    ensures
        n == match point.queue_depth {
            Some(q) => if q.positive() {
                point.replicas
            } else {
                0
            },
            None => 0,
        },
{
    match point.queue_depth {
        Some(q) => if q.above_zero() {
            point.replicas
        } else {
            0
        },
        None => 0,
    }
}

// ---------------------------------------------------------------------------------------------
// Recurrence

/// Whether the load recurs: its autocorrelation reaches the threshold at one and at two days, or
/// at one and at two weeks. Two multiples of the period are asked for, so that a one-off level
/// shift (high at one lag, decayed at the next) does not count.
pub open spec fn recurs(m: ProfileMeasures, threshold: Sample) -> bool {
    ||| threshold.le(m.daily) && threshold.le(m.daily_twice)
    ||| threshold.le(m.weekly) && threshold.le(m.weekly_twice)
}

/// The seasonal profile of the history, or `None` when the workload isn't periodic enough to
/// forecast (the periodicity gate) or there isn't enough history.
pub fn build_profile(
    points: &Vec<MetricPoint>,
    params: &ForecastParams,
    measures: ProfileMeasures,
) -> (r: Option<SeasonalForecast>)
    requires
        valid_points(points@),
        params.bin_minutes > 0 ==> measures.bins@.len() == 7 * day_bins(params.bin_minutes),
    ensures
        r is Some <==> enough_history(points@, *params) && recurs(
            measures,
            params.periodicity_threshold,
        ),
        r matches Some(forecast) ==> forecast == (SeasonalForecast {
            bins: measures.bins,
            bin_minutes: params.bin_minutes,
            trend_per_week: measures.trend_per_week,
            confidence: measures.daily.larger_of(measures.weekly),
        }),
        r matches Some(forecast) ==> forecast.bins@.len() == 7 * day_bins(forecast.bin_minutes),
{
    if profile_grid(points, params).is_none() {
        return None;
    }
    let threshold = params.periodicity_threshold;
    let recurs_daily: bool = threshold.at_most(measures.daily) && threshold.at_most(
        measures.daily_twice,
    );
    let recurs_weekly: bool = threshold.at_most(measures.weekly) && threshold.at_most(
        measures.weekly_twice,
    );
    if !recurs_daily && !recurs_weekly {
        return None;
    }
    Some(
        SeasonalForecast {
            bins: measures.bins,
            bin_minutes: params.bin_minutes,
            trend_per_week: measures.trend_per_week,
            confidence: measures.daily.larger(measures.weekly),
        },
    )
}

/// A load that correlates with itself at one period but not at the next multiple is no cycle: it
/// is never forecast.
pub proof fn law_one_off_shift_is_not_forecast(m: ProfileMeasures, threshold: Sample)
    requires
        !threshold.le(m.daily_twice),
        !threshold.le(m.weekly_twice),
    ensures
        !recurs(m, threshold),
{
}

/// A key's positions are exactly the places where it stands, in ascending order.
pub proof fn law_positions_are_the_places_of_a_key(keys: Seq<i64>, k: i64, i: int)
    requires
        keys.len() <= usize::MAX,
        0 <= i < keys.len(),
    ensures
        positions(keys, k).contains(i as usize) <==> keys[i] == k,
        forall|a: int, b: int|
            0 <= a < b < positions(keys, k).len() ==> positions(keys, k)[a] < positions(keys, k)[b],
        forall|a: int|
            0 <= a < positions(keys, k).len() ==> (#[trigger] positions(keys, k)[a]) < keys.len(),
{
    lemma_positions_places(keys, k);
    let all = positions(keys, k);
    if keys[i] == k {
        assert(keys[i as usize as int] == k);
    }
    if all.contains(i as usize) {
        let a = choose|a: int| 0 <= a < all.len() && all[a] == i as usize;
        assert(keys[all[a] as int] == k);
    }
}

proof fn lemma_positions_places(keys: Seq<i64>, k: i64)
    requires
        keys.len() <= usize::MAX,
    ensures
        forall|a: int, b: int|
            0 <= a < b < positions(keys, k).len() ==> positions(keys, k)[a] < positions(keys, k)[b],
        forall|a: int|
            0 <= a < positions(keys, k).len() ==> (#[trigger] positions(keys, k)[a]) < keys.len()
                && keys[positions(keys, k)[a] as int] == k,
        forall|i: int|
            0 <= i < keys.len() && #[trigger] keys[i] == k ==> positions(keys, k).contains(
                i as usize,
            ),
    decreases keys.len(),
{
    if keys.len() > 0 {
        let rest = keys.drop_last();
        lemma_positions_places(rest, k);
        let (before, all) = (positions(rest, k), positions(keys, k));
        assert forall|a: int| 0 <= a < all.len() implies (#[trigger] all[a]) < keys.len()
            && keys[all[a] as int] == k by {
            if a < before.len() {
                assert(all[a] == before[a]);
                assert(rest[before[a] as int] == k);
            }
        }
        assert forall|i: int| 0 <= i < keys.len() && #[trigger] keys[i] == k implies all.contains(
            i as usize,
        ) by {
            if i < rest.len() {
                assert(rest[i] == k);
                let a = choose|a: int| 0 <= a < before.len() && before[a] == i as usize;
                assert(all[a] == i as usize);
            } else {
                assert(all[before.len() as int] == i as usize);
            }
        }
        assert forall|a: int, b: int| 0 <= a < b < all.len() implies all[a] < all[b] by {
            if b < before.len() {
                assert(before[a] < before[b]);
            } else {
                assert(before[a] < rest.len());
            }
        }
    }
}

/// Every point is in the group of its key, and in no other; the keys ascend.
pub proof fn law_every_point_has_its_group(groups: Seq<Group>, keys: Seq<i64>, p: int) -> (g: int)
    requires
        groups_of(groups, keys),
        keys.len() <= usize::MAX,
        0 <= p < keys.len(),
    ensures
        0 <= g < groups.len(),
        groups[g].key == keys[p],
        groups[g].members@.contains(p as usize),
        forall|h: int|
            0 <= h < groups.len() && h != g ==> !(#[trigger] groups[h]).members@.contains(p as usize),
        forall|h: int| 0 <= h < g ==> (#[trigger] groups[h]).key < groups[g].key,
{
    assert(has_group(groups, keys[p]));
    let g = choose|g: int| 0 <= g < groups.len() && #[trigger] groups[g].key == keys[p];
    law_positions_are_the_places_of_a_key(keys, groups[g].key, p);
    assert(keys.contains(groups[g].key));
    assert forall|h: int| 0 <= h < groups.len() && h != g implies !(
    #[trigger] groups[h]).members@.contains(p as usize) by {
        assert(keys.contains(groups[h].key));
        law_positions_are_the_places_of_a_key(keys, groups[h].key, p);
        assert(groups[h].key != groups[g].key) by {
            if h < g {
                assert(groups[h].key < groups[g].key);
            } else {
                assert(groups[g].key < groups[h].key);
            }
        }
    }
    g
}

/// A point's bin is that of its weekday and of its time of day, counted from Sunday's midnight.
pub proof fn law_bin_is_counted_from_sunday(ts: Timestamp, bin_minutes: u32)
    requires
        ts.valid(),
        bin_minutes > 0,
    ensures
        weekly_index(ts, bin_minutes, day_bins(bin_minutes)) == ts.weekday() * day_bins(bin_minutes)
            + ts.minute_of_day() / (bin_minutes as int),
{
    law_grid_covers_the_day(bin_minutes);
    lemma_bin_below(ts.minute_of_day(), bin_minutes as int, day_bins(bin_minutes));
}

/// A point's stretch and its week are counted in whole ones since the first point.
pub proof fn law_points_are_grouped_by_time(
    points: Seq<MetricPoint>,
    t0: Timestamp,
    bin_minutes: u32,
    i: int,
)
    requires
        0 <= i < points.len(),
        t0.valid(),
        points[i].timestamp.valid(),
        t0.instant() <= points[i].timestamp.instant(),
        bin_minutes > 0,
    ensures
        ({
            let minutes = points[i].timestamp.secs_since(t0) / 60;
            let stretch = stretch_keys(points, t0, bin_minutes)[i];
            let week = week_keys(points, t0)[i];
            &&& stretch == minutes / (bin_minutes as int)
            &&& week == points[i].timestamp.secs_since(t0) / 604_800
        }),
{
    let secs = points[i].timestamp.secs_since(t0);
    assert(0 <= secs <= 20_000_000_000_000);
    let minutes = secs / 60;
    assert(0 <= minutes / (bin_minutes as int) <= minutes) by (nonlinear_arith)
        requires
            minutes >= 0,
            bin_minutes > 0,
    ;
    assert(secs / 86_400 / 7 == secs / 604_800);
}

/// A load recurs where it reaches the threshold at one day and at two, or at one week and at two.
pub proof fn law_recurrence_needs_two_multiples(m: ProfileMeasures, threshold: Sample)
    ensures
        recurs(m, threshold) <==> {
            ||| threshold.le(m.daily) && threshold.le(m.daily_twice)
            ||| threshold.le(m.weekly) && threshold.le(m.weekly_twice)
        },
{
}

/// A history is long enough where its first and last point lie as many days apart as are asked for.
pub proof fn law_history_must_be_long_enough(points: Seq<MetricPoint>, params: ForecastParams)
    ensures
        enough_history(points, params) <==> points.len() > 0 && params.bin_minutes > 0
            && points.last().timestamp.mins_since(points[0].timestamp) >= params.min_history_days
            * 24 * 60,
{
}

/// Each point has the bin of its own time in the weekly grid.
pub proof fn law_points_have_their_weekly_bin(points: Seq<MetricPoint>, bin_minutes: u32, i: int)
    requires
        0 <= i < points.len(),
    ensures
        bin_keys(points, bin_minutes).len() == points.len(),
        bin_keys(points, bin_minutes)[i] == weekly_index(
            points[i].timestamp,
            bin_minutes,
            day_bins(bin_minutes),
        ) as i64,
{
}

} // verus!
