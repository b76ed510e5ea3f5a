//! The rule engine: idle windows, overprovisioning, scale-up lag, thrashing, predictable peaks.
//!
//! Quantiles, ratios and their printed forms are measured outside and handed in; which candidates
//! come out of them, and with what proposal, is decided here.
use vstd::prelude::*;
#[allow(unused_imports)]
use vstd::math::{max, min};
use vstd::string::*;

#[allow(unused_imports)]
use crate::domain::{schedule_opt_view, schedule_view, valid_points, CandidateView, WindowView};
use crate::domain::{
    Candidate, CandidateKind, ConfigDiff, ConfigDiffEntry, Evidence, EvidenceValue, MetricPoint,
    MetricsSnapshot, ScalingSchedule, WorkloadConfig,
};
use crate::field_map::FieldMap;
#[allow(unused_imports)]
use crate::forecast::{day_bins, enough_history, recurs};
use crate::forecast::{build_profile, ForecastParams, ProfileMeasures};
use crate::sample::{sorted, Sample};
use crate::schedule::build_schedule;
#[allow(unused_imports)]
use crate::schedule::{schedule_of, Demand};
#[allow(unused_imports)]
use crate::text::{decimal, signed_decimal};
use crate::text::{push_decimal, push_signed};

verus! {

/// A point below this CPU utilization is idle: the bits of 0.20.
pub const IDLE_CPU_THRESHOLD: u64 = 0x3FC9_9999_9999_999A;

/// An idle run counts from this length on: four hours.
pub const IDLE_MIN_SECONDS: i64 = 14_400;

/// A 95th percentile from this one on is no overprovisioning: the bits of 0.40.
pub const OVERPROVISION_P95_THRESHOLD: u64 = 0x3FD9_9999_9999_999A;

/// A queue that grows this long without scaling is a scale-up lag.
pub const SCALE_LAG_MIN_SECONDS: i64 = 180;

/// More scaling events per hour than these are thrashing: the bits of 10.0.
pub const THRASHING_EVENTS_PER_HOUR: u64 = 0x4024_0000_0000_0000;

// ---------------------------------------------------------------------------------------------
// Figures handed in

/// A load's 95th percentile utilization, its printed form in percent, and the whole replicas that
/// hold it at the CPU target with headroom (`ceil(median_replicas * p95 * 1.5 / target)`).
#[derive(Debug)]
pub struct LoadMeasures {
    pub util_p95: Sample,
    pub util_pct_text: String,
    pub needed: i32,
}

/// The length in hours of the longest idle run, its printed form, and the run's load.
#[derive(Debug)]
pub struct IdleMeasures {
    pub hours: Sample,
    pub hours_text: String,
    pub load: LoadMeasures,
}

/// What the rules need measured: the longest idle run, the whole history, and the rate of scaling
/// events with its printed form.
#[derive(Debug)]
pub struct RuleMeasures {
    pub idle: IdleMeasures,
    pub overall: LoadMeasures,
    pub events_per_hour: Sample,
    pub events_per_hour_text: String,
}

/// What a forecast's candidate needs measured: the off-peak level of the forecast in whole
/// replicas, the whole replicas that each bin needs with the trend extrapolated, and the
/// confidence printed in percent.
#[derive(Debug)]
pub struct PeakMeasures {
    pub off_peak: i32,
    pub projected: Vec<i32>,
    pub confidence_text: String,
}

/// The value of rank `low` in ascending order, and the next one where there is one: what a
/// percentile interpolates between.
pub fn rank_neighbours(values: &Vec<Sample>, low: usize) -> (r: (Sample, Option<Sample>))
    requires
        low < values@.len(),
    ensures
        exists|order: Seq<Sample>|
            crate::sample::ascending(order) && #[trigger] order.to_multiset()
                == values@.to_multiset() && order.len() == values@.len() && r.0 == order[low as int]
                && r.1 == if low + 1 < order.len() {
                Some(order[low + 1])
            } else {
                None::<Sample>
            },
{
    let order = sorted(values);
    assert(order@.to_multiset() == values@.to_multiset());
    if low < order.len() - 1 {
        (order[low], Some(order[low + 1]))
    } else {
        (order[low], None)
    }
}

/// Whether the numbers ascend.
pub open spec fn ascending_counts(s: Seq<i32>) -> bool {
    forall|i: int, j: int| 0 <= i <= j < s.len() ==> s[i] <= s[j]
}

/// Twice the median of an ascending list: twice the middle one, or the sum of the middle two.
pub open spec fn doubled_median(s: Seq<i32>) -> int {
    if s.len() == 0 {
        0
    } else if s.len() % 2 == 1 {
        2 * s[s.len() as int / 2]
    } else {
        s[s.len() as int / 2 - 1] + s[s.len() as int / 2]
    }
}

/// Twice the median of the points' replicas (0 without points).
pub fn median_replicas(points: &[MetricPoint]) -> (m: i64)
    ensures
        exists|order: Seq<i32>|
            ascending_counts(order) && #[trigger] order.to_multiset() == points@.map_values(
                |p: MetricPoint| p.replicas,
            ).to_multiset() && order.len() == points@.len() && m == doubled_median(order),
{
    let ghost all = points@.map_values(|p: MetricPoint| p.replicas);
    let mut order: Vec<i32> = Vec::new();
    let mut i: usize = 0;
    assert(order@ == all.take(0));
    while i < points.len()
        invariant
            i <= points@.len(),
            all == points@.map_values(|p: MetricPoint| p.replicas),
            ascending_counts(order@),
            order@.len() == i,
            order@.to_multiset() == all.take(i as int).to_multiset(),
        decreases points@.len() - i,
    {
        let v: i32 = points[i].replicas;
        let mut at: usize = 0;
        while at < order.len() && order[at] <= v
            invariant
                at <= order@.len(),
                forall|j: int| 0 <= j < at ==> order@[j] <= v,
            decreases order@.len() - at,
        {
            at += 1;
        }
        let ghost before = order@;
        assert(at < before.len() ==> v < before[at as int]);
        order.insert(at, v);
        proof {
            assert(order@ == before.insert(at as int, v));
            vstd::seq_lib::to_multiset_insert(before, at as int, v);
            assert(all.take(i + 1) == all.take(i as int).push(v));
            all.take(i as int).to_multiset_ensures();
            assert forall|a: int, b: int| 0 <= a <= b < order@.len() implies order@[a]
                <= order@[b] by {
                let pa = if a < at {
                    a
                } else {
                    a - 1
                };
                let pb = if b < at {
                    b
                } else {
                    b - 1
                };
                if a != at && b != at {
                    assert(before[pa] <= before[pb]);
                } else if a == at && b > at {
                    assert(before[at as int] <= before[pb]);
                }
            }
        }
        i += 1;
    }
    assert(all.take(all.len() as int) == all);
    let n: usize = order.len();
    if n == 0 {
        0
    } else if n % 2 == 1 {
        2 * order[n / 2] as i64
    } else {
        order[n / 2 - 1] as i64 + order[n / 2] as i64
    }
}

// ---------------------------------------------------------------------------------------------
// Idle windows

/// Whether a point is idle.
pub open spec fn idle(p: MetricPoint) -> bool {
    p.cpu_util.lt(Sample { bits: IDLE_CPU_THRESHOLD })
}

/// Whether all of `points[from..to]` are idle.
pub open spec fn idle_range(points: Seq<MetricPoint>, from: int, to: int) -> bool {
    0 <= from <= to <= points.len() && forall|i: int| from <= i < to ==> idle(#[trigger] points[i])
}

/// Whether `from..to` is the longest idle range, the first one among equals (`0..0` without one).
pub open spec fn longest_idle(points: Seq<MetricPoint>, from: int, to: int) -> bool {
    &&& idle_range(points, from, to)
    &&& from == to ==> from == 0
    &&& forall|a: int, b: int| #[trigger]
        idle_range(points, a, b) ==> b - a < to - from || (b - a == to - from && (a == b || from
            <= a))
}

/// The longest idle range, the first one among equals.
pub open spec fn idle_run(points: Seq<MetricPoint>) -> (int, int) {
    choose|r: (int, int)| #[trigger] longest_idle(points, r.0, r.1)
}

/// There is only one longest idle range.
pub proof fn lemma_idle_run(points: Seq<MetricPoint>, from: int, to: int)
    requires
        longest_idle(points, from, to),
    ensures
        idle_run(points) == (from, to),
{
    let r = idle_run(points);
    assert(longest_idle(points, (from, to).0, (from, to).1));
    assert(longest_idle(points, r.0, r.1));
    assert(idle_range(points, from, to));
    assert(idle_range(points, r.0, r.1));
}

/// The longest idle run, the first one among equals: its first index, and the index past its end.
pub fn longest_idle_run(points: &Vec<MetricPoint>) -> (r: (usize, usize))
    ensures
        longest_idle(points@, r.0 as int, r.1 as int),
        (r.0 as int, r.1 as int) == idle_run(points@),
{
    let mut best: (usize, usize) = (0, 0);
    let mut start: usize = 0;
    let mut i: usize = 0;
    while i < points.len()
        invariant
            start <= i <= points@.len(),
            idle_range(points@, start as int, i as int),
            start == 0 || !idle(points@[start - 1]),
            best.1 <= i,
            idle_range(points@, best.0 as int, best.1 as int),
            best.0 == best.1 ==> best.0 == 0,
            i - start <= best.1 - best.0,
            forall|a: int, b: int| #[trigger]
                idle_range(points@, a, b) && b <= i ==> b - a < best.1 - best.0 || (b - a == best.1
                    - best.0 && (a == b || best.0 <= a)),
        decreases points@.len() - i,
    {
        let ghost old_best = best;
        if points[i].cpu_util.below(Sample { bits: IDLE_CPU_THRESHOLD }) {
            assert(idle(points@[i as int]));
            if i + 1 - start > best.1 - best.0 {
                best = (start, i + 1);
            }
            assert forall|a: int, b: int| #[trigger]
                idle_range(points@, a, b) && b <= i + 1 implies b - a < best.1 - best.0 || (b - a
                == best.1 - best.0 && (a == b || best.0 <= a)) by {
                if b == i + 1 && a < b {
                    if a < start {
                        assert(idle(points@[start - 1]));
                    }
                    if a == i + 1 - (best.1 - best.0) {
                        assert(best.0 <= a);
                    }
                } else if b <= i {
                    assert(idle_range(points@, a, b));
                }
            }
        } else {
            assert(!idle(points@[i as int]));
            assert forall|a: int, b: int| #[trigger]
                idle_range(points@, a, b) && b <= i + 1 implies b - a < best.1 - best.0 || (b - a
                == best.1 - best.0 && (a == b || best.0 <= a)) by {
                if b == i + 1 && a < b {
                    assert(idle(points@[i as int]));
                }
            }
            start = i + 1;
        }
        i += 1;
    }
    proof {
        lemma_idle_run(points@, best.0 as int, best.1 as int);
    }
    best
}

/// Whole seconds from the first to the last point of `points[from..to]`.
pub open spec fn range_seconds(points: Seq<MetricPoint>, from: int, to: int) -> int {
    points[to - 1].timestamp.secs_since(points[from].timestamp)
}

/// The replicas that hold a load with headroom, at least one; `None` without points or target.
pub open spec fn headroom(count: int, target_cpu_pct: i32, needed: i32) -> Option<i32> {
    if count == 0 || target_cpu_pct <= 0 {
        None
    } else if needed < 1 {
        Some(1)
    } else {
        Some(needed)
    }
}

/// The replicas that serve the observed load at the CPU target, derived from utilization HEADROOM
/// rather than the observed replica count, and floored at 1. Sizing from headroom is what lets a
/// service pinned at an over-set `minReplicas` get a real floor cut: the observed replica count
/// equals the floor, so a median-replicas estimate never drops below it.
pub fn headroom_replicas(count: usize, target_cpu_pct: i32, needed: i32) -> (r: Option<i32>)
    ensures
        r == headroom(count as int, target_cpu_pct, needed),
{
    if count == 0 || target_cpu_pct <= 0 {
        None
    } else if needed < 1 {
        Some(1)
    } else {
        Some(needed)
    }
}

/// A `min_replicas` floor cut with the headroom evidence that the model judges on.
pub open spec fn floor_cut(
    kind: CandidateKind,
    description: Seq<char>,
    from_min: i32,
    to_min: i32,
    util_p95: Sample,
) -> CandidateView {
    CandidateView {
        kind,
        description,
        evidence: Map::<Seq<char>, EvidenceValue>::empty().insert(
            "util_p95"@,
            EvidenceValue::Measured(util_p95),
        ).insert("needed_replicas"@, EvidenceValue::Whole(to_min as i64)).insert(
            "replicas_reduced"@,
            EvidenceValue::Whole((from_min - to_min) as i64),
        ),
        proposed_diff: one_change("min_replicas"@, from_min, to_min),
        schedule: None,
    }
}

/// A diff with one changed field.
pub open spec fn one_change(field: Seq<char>, from: i32, to: i32) -> Map<
    Seq<char>,
    ConfigDiffEntry,
> {
    Map::<Seq<char>, ConfigDiffEntry>::empty().insert(field, ConfigDiffEntry { from, to })
}

fn single_change(field: &str, from: i32, to: i32) -> (d: ConfigDiff)
    ensures
        d@ == one_change(field@, from, to),
{
    let mut d: ConfigDiff = FieldMap::new();
    d.insert(field.to_owned(), ConfigDiffEntry::new(from, to));
    d
}

fn floor_cut_candidate(
    kind: CandidateKind,
    description: String,
    from_min: i32,
    to_min: i32,
    util_p95: Sample,
) -> (c: Candidate)
    ensures
        c@ == floor_cut(kind, description@, from_min, to_min, util_p95),
{
    let mut evidence: Evidence = FieldMap::new();
    evidence.insert("util_p95".to_owned(), EvidenceValue::Measured(util_p95));
    evidence.insert("needed_replicas".to_owned(), EvidenceValue::Whole(to_min as i64));
    evidence.insert(
        "replicas_reduced".to_owned(),
        EvidenceValue::Whole(from_min as i64 - to_min as i64),
    );
    Candidate {
        kind,
        description,
        evidence,
        proposed_diff: single_change("min_replicas", from_min, to_min),
        schedule: None,
    }
}

/// The tail of a floor cut's description.
pub open spec fn drop_text(from_min: i32, to_min: i32) -> Seq<char> {
    "; min replicas can drop from "@ + signed_decimal(from_min as int) + " to "@ + signed_decimal(
        to_min as int,
    ) + " (load headroom)."@
}

fn push_drop_text(out: &mut String, from_min: i32, to_min: i32)
    ensures
        final(out)@ == old(out)@ + drop_text(from_min, to_min),
{
    out.append("; min replicas can drop from ");
    push_signed(out, from_min as i64);
    out.append(" to ");
    push_signed(out, to_min as i64);
    out.append(" (load headroom).");
    assert(out@ =~= old(out)@ + drop_text(from_min, to_min));
}

/// The idle-window candidate: the longest idle run lasts four hours or more, and the load in it
/// needs fewer replicas than the floor holds.
pub open spec fn idle_window(
    config: WorkloadConfig,
    points: Seq<MetricPoint>,
    m: IdleMeasures,
) -> Option<CandidateView> {
    let (from, to) = idle_run(points);
    match headroom(to - from, config.target_cpu_pct, m.load.needed) {
        Some(needed) => if to - from >= 2 && range_seconds(points, from, to) >= IDLE_MIN_SECONDS
            && needed < config.min_replicas {
            let cut = floor_cut(
                CandidateKind::IdleWindow,
                "Idle for "@ + m.hours_text@ + "h at p95 "@ + m.load.util_pct_text@ + "% CPU"@
                    + drop_text(config.min_replicas, needed),
                config.min_replicas,
                needed,
                m.load.util_p95,
            );
            Some(
                CandidateView {
                    evidence: cut.evidence.insert(
                        "idle_hours"@,
                        EvidenceValue::Measured(m.hours),
                    ),
                    ..cut
                },
            )
        } else {
            None
        },
        None => None,
    }
}

/// What an optional candidate holds.
pub open spec fn candidate_view(c: Option<Candidate>) -> Option<CandidateView> {
    match c {
        Some(c) => Some(c@),
        None => None,
    }
}

pub fn detect_idle_window(snapshot: &MetricsSnapshot, m: &IdleMeasures) -> (r: Option<Candidate>)
    requires
        valid_points(snapshot.points@),
    ensures
        candidate_view(r) == idle_window(snapshot.config, snapshot.points@, *m),
{
    let config = snapshot.config;
    let (from, to) = longest_idle_run(&snapshot.points);
    if to - from < 2 {
        return None;
    }
    let first = snapshot.points[from].timestamp;
    let last = snapshot.points[to - 1].timestamp;
    if last.seconds_since(first) < IDLE_MIN_SECONDS {
        return None;
    }
    let needed: i32 = match headroom_replicas(to - from, config.target_cpu_pct, m.load.needed) {
        Some(n) => n,
        None => return None,
    };
    if needed >= config.min_replicas {
        return None;
    }
    let mut description = "Idle for ".to_owned();
    description.append(m.hours_text.as_str());
    description.append("h at p95 ");
    description.append(m.load.util_pct_text.as_str());
    description.append("% CPU");
    push_drop_text(&mut description, config.min_replicas, needed);
    let mut candidate = floor_cut_candidate(
        CandidateKind::IdleWindow,
        description,
        config.min_replicas,
        needed,
        m.load.util_p95,
    );
    candidate.evidence.insert("idle_hours".to_owned(), EvidenceValue::Measured(m.hours));
    Some(candidate)
}

// ---------------------------------------------------------------------------------------------
// Overprovisioning

/// The overprovisioning candidate: the 95th percentile stays below the threshold. Prefers the
/// floor cut (real savings) when load headroom shows the floor is too high; falls back to a target
/// bump when the floor is already as low as the load allows. A target that is already at its
/// highest leaves nothing to propose.
pub open spec fn overprovisioned(
    config: WorkloadConfig,
    points: Seq<MetricPoint>,
    m: LoadMeasures,
) -> Option<CandidateView> {
    if points.len() == 0 || (Sample { bits: OVERPROVISION_P95_THRESHOLD }).le(m.util_p95) {
        None
    } else {
        let lead = "p95 CPU is "@ + m.util_pct_text@ + "%"@;
        match headroom(points.len() as int, config.target_cpu_pct, m.needed) {
            Some(needed) => if needed < config.min_replicas {
                Some(
                    floor_cut(
                        CandidateKind::Overprovisioned,
                        lead + drop_text(config.min_replicas, needed),
                        config.min_replicas,
                        needed,
                        m.util_p95,
                    ),
                )
            } else {
                target_bump(config, lead, m.util_p95)
            },
            None => target_bump(config, lead, m.util_p95),
        }
    }
}

/// No CPU target is raised above this one, in percent.
pub const MAX_TARGET_CPU_PCT: i32 = 90;

/// The raised CPU target: fifteen points more, at most 90.
pub open spec fn raised_target(target_cpu_pct: i32) -> int {
    if target_cpu_pct + 15 < MAX_TARGET_CPU_PCT {
        target_cpu_pct + 15
    } else {
        MAX_TARGET_CPU_PCT as int
    }
}

/// The candidate that raises the CPU target, where it can rise.
pub open spec fn target_bump(
    config: WorkloadConfig,
    lead: Seq<char>,
    util_p95: Sample,
) -> Option<CandidateView> {
    if config.target_cpu_pct < MAX_TARGET_CPU_PCT {
        let to = raised_target(config.target_cpu_pct) as i32;
        Some(
            CandidateView {
                kind: CandidateKind::Overprovisioned,
                description: lead + "; target can rise to "@ + signed_decimal(to as int) + "%."@,
                evidence: Map::<Seq<char>, EvidenceValue>::empty().insert(
                    "p95_util"@,
                    EvidenceValue::Measured(util_p95),
                ),
                proposed_diff: one_change("target_cpu_pct"@, config.target_cpu_pct, to),
                schedule: None,
            },
        )
    } else {
        None
    }
}

pub fn detect_overprovisioning(snapshot: &MetricsSnapshot, m: &LoadMeasures) -> (r: Option<
    Candidate,
>)
    ensures
        candidate_view(r) == overprovisioned(snapshot.config, snapshot.points@, *m),
{
    let config = snapshot.config;
    if snapshot.points.len() == 0 {
        return None;
    }
    let threshold = Sample { bits: OVERPROVISION_P95_THRESHOLD };
    if threshold.at_most(m.util_p95) {
        return None;
    }
    let mut description = "p95 CPU is ".to_owned();
    description.append(m.util_pct_text.as_str());
    description.append("%");
    match headroom_replicas(snapshot.points.len(), config.target_cpu_pct, m.needed) {
        Some(needed) => {
            if needed < config.min_replicas {
                push_drop_text(&mut description, config.min_replicas, needed);
                return Some(
                    floor_cut_candidate(
                        CandidateKind::Overprovisioned,
                        description,
                        config.min_replicas,
                        needed,
                        m.util_p95,
                    ),
                );
            }
        },
        None => {},
    }
    if config.target_cpu_pct >= MAX_TARGET_CPU_PCT {
        return None;
    }
    let to: i32 = if config.target_cpu_pct < MAX_TARGET_CPU_PCT - 15 {
        config.target_cpu_pct + 15
    } else {
        MAX_TARGET_CPU_PCT
    };
    description.append("; target can rise to ");
    push_signed(&mut description, to as i64);
    description.append("%.");
    let mut evidence: Evidence = FieldMap::new();
    evidence.insert("p95_util".to_owned(), EvidenceValue::Measured(m.util_p95));
    Some(
        Candidate {
            kind: CandidateKind::Overprovisioned,
            description,
            evidence,
            proposed_diff: single_change("target_cpu_pct", config.target_cpu_pct, to),
            schedule: None,
        },
    )
}

// ---------------------------------------------------------------------------------------------
// Scale-up lag

/// Whether the queue grew from the point before `i` to point `i` while the replicas stayed.
pub open spec fn rising(points: Seq<MetricPoint>, i: int) -> bool {
    &&& 0 < i < points.len()
    &&& points[i].replicas == points[i - 1].replicas
    &&& match (points[i - 1].queue_depth, points[i].queue_depth) {
        (Some(before), Some(now)) => before.lt(now),
        _ => false,
    }
}

/// The point at which the growth that reaches point `i` began (`i` itself without growth).
pub open spec fn rise_start(points: Seq<MetricPoint>, i: int) -> int
    decreases i,
{
    if rising(points, i) {
        rise_start(points, i - 1)
    } else {
        i
    }
}

/// Whole seconds for which the queue has grown without scaling when point `i` is reached.
pub open spec fn lag_at(points: Seq<MetricPoint>, i: int) -> int {
    points[i].timestamp.secs_since(points[rise_start(points, i)].timestamp)
}

/// The first lag of three minutes or more among the first `n` points.
pub open spec fn first_lag(points: Seq<MetricPoint>, n: int) -> Option<int>
    decreases n,
{
    if n <= 0 {
        None
    } else {
        match first_lag(points, n - 1) {
            Some(lag) => Some(lag),
            None => if lag_at(points, n - 1) >= SCALE_LAG_MIN_SECONDS {
                Some(lag_at(points, n - 1))
            } else {
                None
            },
        }
    }
}

/// The lowered CPU target: fifteen points less, at least 20.
pub open spec fn lowered_target(target_cpu_pct: i32) -> int {
    if target_cpu_pct - 15 > 20 {
        target_cpu_pct - 15
    } else {
        20
    }
}

/// The scale-up-lag candidate: the queue grew for three minutes or more without scaling.
pub open spec fn scale_lag(config: WorkloadConfig, points: Seq<MetricPoint>) -> Option<
    CandidateView,
> {
    match first_lag(points, points.len() as int) {
        Some(lag) => {
            let to = lowered_target(config.target_cpu_pct) as i32;
            Some(
                CandidateView {
                    kind: CandidateKind::ScaleLag,
                    description: "Queue grew for "@ + signed_decimal(lag)
                        + "s without scaling; lower target to "@ + signed_decimal(to as int)
                        + "%."@,
                    evidence: Map::<Seq<char>, EvidenceValue>::empty().insert(
                        "lag_seconds"@,
                        EvidenceValue::Whole(lag as i64),
                    ),
                    proposed_diff: one_change("target_cpu_pct"@, config.target_cpu_pct, to),
                    schedule: None,
                },
            )
        },
        None => None,
    }
}

proof fn lemma_first_lag_stays(points: Seq<MetricPoint>, i: int, n: int)
    requires
        i <= n,
        first_lag(points, i) is Some,
    ensures
        first_lag(points, n) == first_lag(points, i),
    decreases n - i,
{
    if i < n {
        lemma_first_lag_stays(points, i, n - 1);
    }
}

pub fn detect_scale_up_lag(snapshot: &MetricsSnapshot) -> (r: Option<Candidate>)
    requires
        valid_points(snapshot.points@),
    ensures
        candidate_view(r) == scale_lag(snapshot.config, snapshot.points@),
{
    let config = snapshot.config;
    let mut start: usize = 0;
    let mut i: usize = 0;
    while i < snapshot.points.len()
        invariant
            i <= snapshot.points@.len(),
            valid_points(snapshot.points@),
            config == snapshot.config,
            i > 0 ==> start == rise_start(snapshot.points@, i - 1),
            start <= i,
            first_lag(snapshot.points@, i as int) is None,
        decreases snapshot.points@.len() - i,
    {
        let point = snapshot.points[i];
        let mut grew: bool = false;
        if i > 0 {
            let before = snapshot.points[i - 1];
            match (before.queue_depth, point.queue_depth) {
                (Some(was), Some(queue)) => {
                    grew = was.below(queue) && point.replicas == before.replicas;
                },
                _ => {},
            }
        }
        assert(grew == rising(snapshot.points@, i as int));
        if !grew {
            start = i;
        }
        assert(start == rise_start(snapshot.points@, i as int));
        if grew {
            let lag: i64 = point.timestamp.seconds_since(snapshot.points[start].timestamp);
            if lag >= SCALE_LAG_MIN_SECONDS {
                proof {
                    lemma_first_lag_stays(
                        snapshot.points@,
                        i + 1,
                        snapshot.points@.len() as int,
                    );
                }
                let to: i32 = if config.target_cpu_pct > 35 {
                    config.target_cpu_pct - 15
                } else {
                    20
                };
                let mut description = "Queue grew for ".to_owned();
                push_signed(&mut description, lag);
                description.append("s without scaling; lower target to ");
                push_signed(&mut description, to as i64);
                description.append("%.");
                let mut evidence: Evidence = FieldMap::new();
                evidence.insert("lag_seconds".to_owned(), EvidenceValue::Whole(lag));
                return Some(
                    Candidate {
                        kind: CandidateKind::ScaleLag,
                        description,
                        evidence,
                        proposed_diff: single_change("target_cpu_pct", config.target_cpu_pct, to),
                        schedule: None,
                    },
                );
            }
        }
        i += 1;
    }
    None
}

// ---------------------------------------------------------------------------------------------
// Thrashing

/// Seconds over which scaling events are counted: from the first to the last point, or a day
/// where that is no positive time.
pub open spec fn event_window(points: Seq<MetricPoint>) -> int {
    let span = points.last().timestamp.secs_since(points[0].timestamp);
    if span <= 0 {
        86_400
    } else {
        span
    }
}

/// Seconds over which scaling events are counted; `None` without points.
pub fn event_window_seconds(points: &Vec<MetricPoint>) -> (r: Option<i64>)
    requires
        valid_points(points@),
    ensures
        match r {
            Some(s) => points@.len() > 0 && s == event_window(points@) && s > 0,
            None => points@.len() == 0,
        },
{
    if points.len() == 0 {
        return None;
    }
    let span: i64 = points[points.len() - 1].timestamp.seconds_since(points[0].timestamp);
    if span <= 0 {
        Some(86_400)
    } else {
        Some(span)
    }
}

/// Whether the rate of scaling events counts as thrashing.
pub open spec fn thrashes(points: Seq<MetricPoint>, events: int, per_hour: Sample) -> bool {
    points.len() > 0 && events > 0 && !per_hour.le(Sample { bits: THRASHING_EVENTS_PER_HOUR })
}

/// The thrashing candidate: double the scale-down cooldown.
pub open spec fn thrashing(
    config: WorkloadConfig,
    points: Seq<MetricPoint>,
    events: int,
    per_hour: Sample,
    per_hour_text: Seq<char>,
) -> Option<CandidateView> {
    if thrashes(points, events, per_hour) {
        let to = (config.scale_down_cooldown_s * 2) as i32;
        Some(
            CandidateView {
                kind: CandidateKind::Thrashing,
                description: per_hour_text + " scaling events/hour; double scale-down cooldown to "@
                    + signed_decimal(to as int) + "s."@,
                evidence: Map::<Seq<char>, EvidenceValue>::empty().insert(
                    "events_per_hour"@,
                    EvidenceValue::Measured(per_hour),
                ),
                proposed_diff: one_change(
                    "scale_down_cooldown_s"@,
                    config.scale_down_cooldown_s,
                    to,
                ),
                schedule: None,
            },
        )
    } else {
        None
    }
}

pub fn detect_thrashing(snapshot: &MetricsSnapshot, per_hour: Sample, per_hour_text: &str) -> (r:
    Option<Candidate>)
    requires
        thrashes(snapshot.points@, snapshot.scaling_events@.len() as int, per_hour) ==> i32::MIN
            <= snapshot.config.scale_down_cooldown_s * 2 <= i32::MAX,
    ensures
        candidate_view(r) == thrashing(
            snapshot.config,
            snapshot.points@,
            snapshot.scaling_events@.len() as int,
            per_hour,
            per_hour_text@,
        ),
{
    let config = snapshot.config;
    if snapshot.points.len() == 0 || snapshot.scaling_events.len() == 0 {
        return None;
    }
    let threshold = Sample { bits: THRASHING_EVENTS_PER_HOUR };
    if per_hour.at_most(threshold) {
        return None;
    }
    let to: i32 = config.scale_down_cooldown_s * 2;
    let mut description = per_hour_text.to_owned();
    description.append(" scaling events/hour; double scale-down cooldown to ");
    push_signed(&mut description, to as i64);
    description.append("s.");
    let mut evidence: Evidence = FieldMap::new();
    evidence.insert("events_per_hour".to_owned(), EvidenceValue::Measured(per_hour));
    Some(
        Candidate {
            kind: CandidateKind::Thrashing,
            description,
            evidence,
            proposed_diff: single_change(
                "scale_down_cooldown_s",
                config.scale_down_cooldown_s,
                to,
            ),
            schedule: None,
        },
    )
}

// ---------------------------------------------------------------------------------------------
// All rules

/// What a list of candidates holds.
pub open spec fn candidate_views(cs: Seq<Candidate>) -> Seq<CandidateView> {
    cs.map_values(|c: Candidate| c@)
}

/// An optional candidate as a list.
pub open spec fn listed(c: Option<CandidateView>) -> Seq<CandidateView> {
    match c {
        Some(c) => seq![c],
        None => Seq::empty(),
    }
}

/// The candidates that the rules find in a snapshot: idle window, overprovisioning, scale-up lag
/// and thrashing, in this order.
pub open spec fn rule_candidates(snapshot: MetricsSnapshot, m: RuleMeasures) -> Seq<
    CandidateView,
> {
    listed(idle_window(snapshot.config, snapshot.points@, m.idle)) + listed(
        overprovisioned(snapshot.config, snapshot.points@, m.overall),
    ) + listed(scale_lag(snapshot.config, snapshot.points@)) + listed(
        thrashing(
            snapshot.config,
            snapshot.points@,
            snapshot.scaling_events@.len() as int,
            m.events_per_hour,
            m.events_per_hour_text@,
        ),
    )
}

fn push_found(out: &mut Vec<Candidate>, found: Option<Candidate>)
    ensures
        candidate_views(final(out)@) == candidate_views(old(out)@) + listed(candidate_view(found)),
{
    match found {
        Some(c) => {
            out.push(c);
            assert(candidate_views(out@) =~= candidate_views(old(out)@).push(c@));
        },
        None => {},
    }
    assert(candidate_views(out@) =~= candidate_views(old(out)@) + listed(candidate_view(found)));
}

pub fn run_rules(snapshot: &MetricsSnapshot, m: &RuleMeasures) -> (r: Vec<Candidate>)
    requires
        valid_points(snapshot.points@),
        thrashes(snapshot.points@, snapshot.scaling_events@.len() as int, m.events_per_hour)
            ==> i32::MIN <= snapshot.config.scale_down_cooldown_s * 2 <= i32::MAX,
    ensures
        candidate_views(r@) == rule_candidates(*snapshot, *m),
{
    let mut out: Vec<Candidate> = Vec::new();
    push_found(&mut out, detect_idle_window(snapshot, &m.idle));
    push_found(&mut out, detect_overprovisioning(snapshot, &m.overall));
    push_found(&mut out, detect_scale_up_lag(snapshot));
    push_found(
        &mut out,
        detect_thrashing(snapshot, m.events_per_hour, m.events_per_hour_text.as_str()),
    );
    assert(candidate_views(out@) =~= rule_candidates(*snapshot, *m));
    out
}

// ---------------------------------------------------------------------------------------------
// Predictable peaks

/// The off-peak floor: at least one, never above the current static floor (forecasting only lowers
/// the floor; the HPA still handles reactive scale-up).
pub open spec fn peak_baseline(off_peak: i32, min_replicas: i32) -> i32 {
    let at_least_one = if off_peak < 1 {
        1i32
    } else {
        off_peak
    };
    if at_least_one < min_replicas {
        at_least_one
    } else {
        min_replicas
    }
}

/// What the schedule of a forecast is built from.
pub open spec fn peak_demand(
    config: WorkloadConfig,
    params: ForecastParams,
    m: PeakMeasures,
) -> Demand {
    Demand {
        bins: m.projected@,
        bins_per_day: m.projected@.len() as int / 7,
        bin_minutes: params.bin_minutes,
        baseline: peak_baseline(m.off_peak, config.min_replicas),
        max_replicas: config.max_replicas,
        lead_minutes: params.prescale_lead_minutes,
    }
}

/// Whether a bin of the profile has any demand.
pub open spec fn any_demand(bins: Seq<Sample>) -> bool {
    exists|i: int| 0 <= i < bins.len() && (#[trigger] bins[i]).positive()
}

/// The bins of a profile that have any demand, in order.
pub open spec fn demanding(bins: Seq<Sample>) -> Seq<Sample>
    decreases bins.len(),
{
    if bins.len() == 0 {
        Seq::empty()
    } else {
        let before = demanding(bins.drop_last());
        if bins.last().positive() {
            before.push(bins.last())
        } else {
            before
        }
    }
}

/// The bins of a profile that have any demand, in order: what the off-peak level is taken from.
pub fn busy_bins(bins: &Vec<Sample>) -> (busy: Vec<Sample>)
    ensures
        busy@ == demanding(bins@),
        busy@.len() > 0 <==> any_demand(bins@),
{
    let mut busy: Vec<Sample> = Vec::new();
    let mut i: usize = 0;
    while i < bins.len()
        invariant
            i <= bins@.len(),
            busy@ == demanding(bins@.take(i as int)),
            busy@.len() > 0 <==> exists|j: int| 0 <= j < i && (#[trigger] bins@[j]).positive(),
        decreases bins@.len() - i,
    {
        assert(bins@.take(i + 1).drop_last() == bins@.take(i as int));
        if bins[i].above_zero() {
            busy.push(bins[i]);
            assert(bins@[i as int].positive());
        }
        i += 1;
    }
    assert(bins@.take(bins@.len() as int) == bins@);
    busy
}

/// The highest floor of a schedule's first `n` windows.
pub open spec fn highest_floor(schedule: Seq<WindowView>, n: int) -> i32
    decreases n,
{
    if n <= 1 {
        schedule[0].min_replicas
    } else {
        let before = highest_floor(schedule, n - 1);
        if schedule[n - 1].min_replicas > before {
            schedule[n - 1].min_replicas
        } else {
            before
        }
    }
}

/// The candidate of a forecast with its schedule.
pub open spec fn peak_candidate(
    config: WorkloadConfig,
    confidence: Sample,
    confidence_text: Seq<char>,
    baseline: i32,
    schedule: Seq<WindowView>,
) -> CandidateView {
    CandidateView {
        kind: CandidateKind::PredictablePeak,
        description: "Recurring peak forecast (confidence "@ + confidence_text
            + "%): hold baseline "@ + signed_decimal(baseline as int) + ", pre-scale to "@
            + signed_decimal(highest_floor(schedule, schedule.len() as int) as int) + " across "@
            + decimal(schedule.len()) + " window(s)."@,
        evidence: Map::<Seq<char>, EvidenceValue>::empty().insert(
            "confidence"@,
            EvidenceValue::Measured(confidence),
        ).insert("windows"@, EvidenceValue::Whole(schedule.len() as i64)).insert(
            "baseline"@,
            EvidenceValue::Whole(baseline as i64),
        ),
        proposed_diff: one_change("min_replicas"@, config.min_replicas, baseline),
        schedule: Some(schedule),
    }
}

/// Whether a forecast calls for a schedule: the history is long enough and periodic, some bin has
/// demand, and some bin exceeds the baseline.
pub open spec fn peak_forecast(
    snapshot: MetricsSnapshot,
    params: ForecastParams,
    profile: ProfileMeasures,
    m: PeakMeasures,
) -> bool {
    &&& enough_history(snapshot.points@, params)
    &&& recurs(profile, params.periodicity_threshold)
    &&& any_demand(profile.bins@)
    &&& peak_demand(snapshot.config, params, m).peaks(7).len() > 0
}

fn highest_window(schedule: &ScalingSchedule) -> (peak: i32)
    requires
        schedule@.len() > 0,
    ensures
        peak == highest_floor(schedule_view(schedule@), schedule@.len() as int),
{
    let mut peak: i32 = schedule[0].min_replicas;
    let mut i: usize = 1;
    while i < schedule.len()
        invariant
            1 <= i <= schedule@.len(),
            peak == highest_floor(schedule_view(schedule@), i as int),
        decreases schedule@.len() - i,
    {
        assert(schedule_view(schedule@)[i as int].min_replicas == schedule@[i as int].min_replicas);
        if schedule[i].min_replicas > peak {
            peak = schedule[i].min_replicas;
        }
        i += 1;
    }
    peak
}

/// Forecast-driven detector (run separately from [`run_rules`]). When the workload is periodic,
/// propose lowering the static floor to the off-peak baseline and a schedule that raises it during
/// each recurring peak window. `None` when the periodicity gate in
/// [`crate::forecast::build_profile`] rejects the workload, or when nothing exceeds the baseline.
pub fn detect_predictable_peak(
    snapshot: &MetricsSnapshot,
    params: &ForecastParams,
    profile: ProfileMeasures,
    m: &PeakMeasures,
) -> (r: Option<Candidate>)
    requires
        valid_points(snapshot.points@),
        params.bin_minutes > 0 ==> profile.bins@.len() == 7 * day_bins(params.bin_minutes),
        m.projected@.len() == profile.bins@.len(),
    ensures
        r is Some <==> peak_forecast(*snapshot, *params, profile, *m),
        r matches Some(c) ==> c.schedule is Some && schedule_of(
            peak_demand(snapshot.config, *params, *m).peaks(7),
            schedule_view(c.schedule->0@),
        ) && c@ == peak_candidate(
            snapshot.config,
            profile.daily.larger_of(profile.weekly),
            m.confidence_text@,
            peak_baseline(m.off_peak, snapshot.config.min_replicas),
            schedule_view(c.schedule->0@),
        ),
{
    let config = snapshot.config;
    let forecast = match build_profile(&snapshot.points, params, profile) {
        Some(f) => f,
        None => return None,
    };
    proof {
        crate::forecast::law_grid_covers_the_day(params.bin_minutes);
        let (n, w) = (day_bins(params.bin_minutes), params.bin_minutes as int);
        if n > 1 {
            assert(w < 1440) by (nonlinear_arith)
                requires
                    n > 1,
                    (n - 1) * w < 1440,
                    w > 0,
            ;
            assert(n * w == (n - 1) * w + w) by (nonlinear_arith);
        }
    }
    let per_day: usize = forecast.bins.len() / 7;
    if busy_bins(&forecast.bins).len() == 0 {
        return None;
    }
    let at_least_one: i32 = if m.off_peak < 1 {
        1
    } else {
        m.off_peak
    };
    let baseline: i32 = if at_least_one < config.min_replicas {
        at_least_one
    } else {
        config.min_replicas
    };
    let schedule = build_schedule(
        &m.projected,
        per_day,
        forecast.bin_minutes,
        baseline,
        config.max_replicas,
        params.prescale_lead_minutes,
    );
    let ghost demand = peak_demand(config, *params, *m);
    proof {
        lemma_schedule_len(demand.peaks(7), schedule_view(schedule@));
    }
    if schedule.len() == 0 {
        return None;
    }
    let peak: i32 = highest_window(&schedule);
    let count: usize = schedule.len();
    let mut description = "Recurring peak forecast (confidence ".to_owned();
    description.append(m.confidence_text.as_str());
    description.append("%): hold baseline ");
    push_signed(&mut description, baseline as i64);
    description.append(", pre-scale to ");
    push_signed(&mut description, peak as i64);
    description.append(" across ");
    push_decimal(&mut description, count as u64);
    description.append(" window(s).");
    let mut evidence: Evidence = FieldMap::new();
    evidence.insert("confidence".to_owned(), EvidenceValue::Measured(forecast.confidence));
    evidence.insert("windows".to_owned(), EvidenceValue::Whole(count as i64));
    evidence.insert("baseline".to_owned(), EvidenceValue::Whole(baseline as i64));
    Some(
        Candidate {
            kind: CandidateKind::PredictablePeak,
            description,
            evidence,
            proposed_diff: single_change("min_replicas", config.min_replicas, baseline),
            schedule: Some(schedule),
        },
    )
}

proof fn lemma_schedule_len(peaks: Seq<crate::schedule::Peak>, schedule: Seq<WindowView>)
    requires
        schedule_of(peaks, schedule),
    ensures
        schedule.len() == 0 <==> peaks.len() == 0,
{
    let order = choose|order: Seq<crate::schedule::Peak>| #[trigger]
        crate::schedule::lists_windows(order, peaks) && schedule == order.map_values(
            |p: crate::schedule::Peak| crate::schedule::entry(peaks, p),
        );
    if peaks.len() > 0 {
        assert(crate::schedule::same_window(peaks[0], peaks[0]));
        assert(crate::schedule::has_window(peaks, peaks[0]));
        assert(crate::schedule::has_window(order, peaks[0]));
    }
    if order.len() > 0 {
        assert(crate::schedule::same_window(order[0], order[0]));
        assert(crate::schedule::has_window(order, order[0]));
        assert(crate::schedule::has_window(peaks, order[0]));
    }
}

// ---------------------------------------------------------------------------------------------
// Laws

/// A floor cut always lowers the floor, and never below one replica.
pub proof fn law_floor_cut_lowers(snapshot: MetricsSnapshot, m: RuleMeasures, i: int)
    requires
        0 <= i < rule_candidates(snapshot, m).len(),
        rule_candidates(snapshot, m)[i].proposed_diff.dom().contains("min_replicas"@),
    ensures
        ({
            let change = rule_candidates(snapshot, m)[i].proposed_diff["min_replicas"@];
            change.from == snapshot.config.min_replicas && 1 <= change.to < change.from
        }),
{
    lemma_field_names();
}

/// Overprovisioning is answered by raising the CPU target, from whatever target: one that it
/// changes goes up, to at most 90 percent.
pub proof fn law_overprovisioning_raises_the_target(
    snapshot: MetricsSnapshot,
    m: RuleMeasures,
    i: int,
)
    requires
        0 <= i < rule_candidates(snapshot, m).len(),
        rule_candidates(snapshot, m)[i].kind == CandidateKind::Overprovisioned,
        rule_candidates(snapshot, m)[i].proposed_diff.dom().contains("target_cpu_pct"@),
    ensures
        ({
            let change = rule_candidates(snapshot, m)[i].proposed_diff["target_cpu_pct"@];
            change.from == snapshot.config.target_cpu_pct && change.from < change.to <= 90
        }),
{
    lemma_field_names();
}

/// A scale-up lag is answered by a CPU target of at least 20 percent, which is lower than the
/// present one wherever that lies above 20.
pub proof fn law_lag_lowers_the_target(snapshot: MetricsSnapshot, m: RuleMeasures, i: int)
    requires
        0 <= i < rule_candidates(snapshot, m).len(),
        rule_candidates(snapshot, m)[i].kind == CandidateKind::ScaleLag,
    ensures
        ({
            let diff = rule_candidates(snapshot, m)[i].proposed_diff;
            let change = diff["target_cpu_pct"@];
            &&& diff.dom().contains("target_cpu_pct"@)
            &&& change.from == snapshot.config.target_cpu_pct
            &&& change.to >= 20
            &&& change.from > 20 ==> change.to < change.from
        }),
{
}

proof fn lemma_field_names()
    ensures
        "target_cpu_pct"@ != "min_replicas"@,
        "scale_down_cooldown_s"@ != "min_replicas"@,
        "scale_down_cooldown_s"@ != "target_cpu_pct"@,
{
    reveal_strlit("min_replicas");
    reveal_strlit("target_cpu_pct");
    reveal_strlit("scale_down_cooldown_s");
    assert("target_cpu_pct"@.len() != "min_replicas"@.len());
    assert("scale_down_cooldown_s"@.len() != "min_replicas"@.len());
    assert("scale_down_cooldown_s"@.len() != "target_cpu_pct"@.len());
}

/// Every candidate of the rules changes exactly one field, and none of them carries a schedule.
pub proof fn law_rules_change_one_field(snapshot: MetricsSnapshot, m: RuleMeasures, i: int)
    requires
        0 <= i < rule_candidates(snapshot, m).len(),
    ensures
        rule_candidates(snapshot, m)[i].schedule is None,
        exists|field: Seq<char>, from: i32, to: i32|
            rule_candidates(snapshot, m)[i].proposed_diff == #[trigger] one_change(field, from, to),
{
}

/// No kind of candidate comes twice from one run of the rules.
pub proof fn law_kinds_are_distinct(snapshot: MetricsSnapshot, m: RuleMeasures, i: int, j: int)
    requires
        0 <= i < j < rule_candidates(snapshot, m).len(),
    ensures
        rule_candidates(snapshot, m)[i].kind != rule_candidates(snapshot, m)[j].kind,
{
}

/// A forecast never raises the static floor, and none of its windows asks for more than the
/// ceiling.
pub proof fn law_forecast_floors_are_bounded(
    config: WorkloadConfig,
    params: ForecastParams,
    m: PeakMeasures,
    schedule: Seq<WindowView>,
)
    requires
        schedule_of(peak_demand(config, params, m).peaks(7), schedule),
    ensures
        peak_baseline(m.off_peak, config.min_replicas) <= config.min_replicas,
        forall|i: int|
            0 <= i < schedule.len() ==> (#[trigger] schedule[i]).min_replicas
                <= config.max_replicas,
{
    crate::schedule::law_window_floor_is_bounded(peak_demand(config, params, m), schedule);
}

/// Forecasting holds the off-peak level wherever that is at least one replica and at most the
/// static floor; below one it holds one, and above the static floor it holds that.
pub proof fn law_baseline_is_the_off_peak_level(off_peak: i32, min_replicas: i32)
    ensures
        1 <= off_peak <= min_replicas ==> peak_baseline(off_peak, min_replicas) == off_peak,
        off_peak < 1 <= min_replicas ==> peak_baseline(off_peak, min_replicas) == 1,
        off_peak > min_replicas || min_replicas < 1 ==> peak_baseline(off_peak, min_replicas)
            == min_replicas,
{
}

/// A forecast's candidate lowers the floor to the baseline and carries the schedule, and nothing
/// else changes.
pub proof fn law_forecast_proposes_the_baseline(
    config: WorkloadConfig,
    confidence: Sample,
    confidence_text: Seq<char>,
    baseline: i32,
    schedule: Seq<WindowView>,
)
    ensures
        ({
            let c = peak_candidate(config, confidence, confidence_text, baseline, schedule);
            &&& c.kind == CandidateKind::PredictablePeak
            &&& c.schedule == Some(schedule)
            &&& c.proposed_diff.dom() == set!["min_replicas"@]
            &&& c.proposed_diff["min_replicas"@].from == config.min_replicas
            &&& c.proposed_diff["min_replicas"@].to == baseline
            &&& c.evidence["confidence"@] == EvidenceValue::Measured(confidence)
            &&& c.evidence["baseline"@] == EvidenceValue::Whole(baseline as i64)
            &&& c.evidence["windows"@] == EvidenceValue::Whole(schedule.len() as i64)
        }),
{
    reveal_strlit("confidence");
    reveal_strlit("baseline");
    reveal_strlit("windows");
    assert("confidence"@.len() == 10 && "baseline"@.len() == 8 && "windows"@.len() == 7);
    assert(peak_candidate(
        config,
        confidence,
        confidence_text,
        baseline,
        schedule,
    ).proposed_diff.dom() =~= set!["min_replicas"@]);
}

/// The floor that a forecast's description pre-scales to is the highest one of its windows.
pub proof fn law_highest_floor_is_the_highest(schedule: Seq<WindowView>, i: int) -> (top: int)
    requires
        0 <= i < schedule.len(),
    ensures
        0 <= top < schedule.len(),
        highest_floor(schedule, schedule.len() as int) == schedule[top].min_replicas,
        schedule[i].min_replicas <= schedule[top].min_replicas,
{
    lemma_highest_floor(schedule, schedule.len() as int, i)
}

proof fn lemma_highest_floor(schedule: Seq<WindowView>, n: int, i: int) -> (top: int)
    requires
        0 <= i < n <= schedule.len(),
    ensures
        0 <= top < n,
        highest_floor(schedule, n) == schedule[top].min_replicas,
        schedule[i].min_replicas <= schedule[top].min_replicas,
    decreases n,
{
    if n == 1 {
        0
    } else {
        let j = if i < n - 1 {
            i
        } else {
            0
        };
        let top = lemma_highest_floor(schedule, n - 1, j);
        if schedule[n - 1].min_replicas > schedule[top].min_replicas {
            n - 1
        } else {
            top
        }
    }
}

/// A forecast calls for a schedule exactly where its history does (long enough, recurring, with
/// some demand) and some bin of the week needs more than the baseline.
pub proof fn law_forecast_needs_an_exceeding_bin(
    snapshot: MetricsSnapshot,
    params: ForecastParams,
    profile: ProfileMeasures,
    m: PeakMeasures,
)
    requires
        m.projected@.len() % 7 == 0,
    ensures
        peak_forecast(snapshot, params, profile, m) <==> {
            &&& snapshot.points@.len() > 0
            &&& params.bin_minutes != 0
            &&& snapshot.points@.last().timestamp.mins_since(snapshot.points@[0].timestamp)
                >= params.min_history_days * 1440
            &&& {
                ||| params.periodicity_threshold.le(profile.daily)
                    && params.periodicity_threshold.le(profile.daily_twice)
                ||| params.periodicity_threshold.le(profile.weekly)
                    && params.periodicity_threshold.le(profile.weekly_twice)
            }
            &&& exists|i: int| 0 <= i < profile.bins@.len() && (#[trigger] profile.bins@[i]).positive()
            &&& exists|b: int|
                0 <= b < m.projected@.len() && #[trigger] m.projected@[b] > min(
                    snapshot.config.min_replicas as int,
                    max(1, m.off_peak as int),
                )
        },
{
    let d = peak_demand(snapshot.config, params, m);
    let n = d.bins_per_day;
    crate::schedule::law_peaks_are_the_maximal_runs(d, 7);
    if exists|b: int| 0 <= b < m.projected@.len() && #[trigger] m.projected@[b] > d.baseline {
        let b = choose|b: int| 0 <= b < m.projected@.len() && #[trigger] m.projected@[b] > d.baseline;
        vstd::arithmetic::div_mod::lemma_fundamental_div_mod(b, n);
        let (day, bin) = (b / n, b % n);
        assert(0 <= day < 7 && 0 <= bin < n && b == day * n + bin) by (nonlinear_arith)
            requires
                day == b / n,
                bin == b % n,
                0 <= b < 7 * n,
                n > 0,
        ;
        crate::schedule::lemma_bin_has_a_peak(d, day, bin);
    }
    if d.peaks(7).len() > 0 {
        let (day, bin) = crate::schedule::lemma_peak_has_a_bin(d);
        assert(0 <= day * n + bin < 7 * n) by (nonlinear_arith)
            requires
                0 <= day < 7,
                0 <= bin < n,
        ;
        assert(m.projected@[day * n + bin] > d.baseline);
    }
}

/// What a forecast is built from: the needs of the bins, seven equal days, the baseline, the
/// ceiling and the lead, each as it is given.
pub proof fn law_forecast_is_built_from_its_figures(
    config: WorkloadConfig,
    params: ForecastParams,
    m: PeakMeasures,
)
    requires
        m.projected@.len() % 7 == 0,
    ensures
        ({
            let d = peak_demand(config, params, m);
            &&& d.bins == m.projected@
            &&& 7 * d.bins_per_day == m.projected@.len()
            &&& d.bin_minutes == params.bin_minutes
            &&& d.baseline == min(config.min_replicas as int, max(1, m.off_peak as int))
            &&& d.max_replicas == config.max_replicas
            &&& d.lead_minutes == params.prescale_lead_minutes
        }),
{
}

/// The off-peak level is taken from the bins with demand, and from no others, in their order.
pub proof fn law_busy_bins_are_those_with_demand(bins: Seq<Sample>)
    ensures
        demanding(bins) == bins.filter(|b: Sample| !b.is_nan() && b.key() > 0),
    decreases bins.len(),
{
    reveal(Seq::filter);
    if bins.len() > 0 {
        law_busy_bins_are_those_with_demand(bins.drop_last());
    }
}

/// The median lies between the two middle values: half the sum of the one at rank `(n - 1) / 2` and
/// the one at rank `n / 2`, and nothing without values.
pub proof fn law_median_is_in_the_middle(s: Seq<i32>)
    ensures
        s.len() == 0 ==> doubled_median(s) == 0,
        s.len() > 0 ==> doubled_median(s) == s[(s.len() as int - 1) / 2] + s[s.len() as int / 2],
{
}

/// Scaling events are counted from the first point to the last, or over a day where these are not
/// at least a second apart in order.
pub proof fn law_events_are_counted_over_the_history(points: Seq<MetricPoint>)
    requires
        points.len() > 0,
    ensures
        ({
            let nanos = points.last().timestamp.instant() - points[0].timestamp.instant();
            &&& nanos >= 1_000_000_000 ==> event_window(points) == nanos / 1_000_000_000
            &&& nanos < 1_000_000_000 ==> event_window(points) == 24 * 60 * 60
        }),
{
}

// ---------------------------------------------------------------------------------------------
// Laws of the single rules

/// A long idle run counts: no stretch of points below 20% CPU is longer than the one that is looked
/// at, an equally long one does not come before it, and that one lies below 20% throughout.
pub proof fn law_longest_idle_stretch_is_taken(points: Seq<MetricPoint>, c: int, d: int)
    requires
        0 <= c <= d <= points.len(),
        forall|i: int|
            c <= i < d ==> (#[trigger] points[i]).cpu_util.lt(
                Sample { bits: 0x3FC9_9999_9999_999A },
            ),
    ensures
        ({
            let (a, b) = idle_run(points);
            &&& 0 <= a <= b <= points.len()
            &&& forall|i: int|
                a <= i < b ==> (#[trigger] points[i]).cpu_util.lt(
                    Sample { bits: 0x3FC9_9999_9999_999A },
                )
            &&& d - c <= b - a
            &&& d - c == b - a && c < d ==> a <= c
        }),
{
    lemma_longest_exists(points);
    let (a, b) = idle_run(points);
    assert(idle_range(points, c, d));
    assert(idle_range(points, a, b));
}

/// There is a longest idle range.
proof fn lemma_longest_exists(points: Seq<MetricPoint>)
    ensures
        longest_idle(points, idle_run(points).0, idle_run(points).1),
{
    let n = lemma_longest_at_most(points, points.len() as int);
    assert(longest_idle(points, n.0, n.1));
    assert(longest_idle(points, (n.0, n.1).0, (n.0, n.1).1));
}

proof fn lemma_longest_at_most(points: Seq<MetricPoint>, size: int) -> (r: (int, int))
    requires
        0 <= size <= points.len(),
        forall|a: int, b: int| #[trigger] idle_range(points, a, b) ==> b - a <= size,
    ensures
        longest_idle(points, r.0, r.1),
    decreases size,
{
    if size == 0 {
        assert(idle_range(points, 0, 0));
        (0, 0)
    } else if exists|a: int| #[trigger] idle_range(points, a, a + size) {
        let a = choose|a: int| #[trigger] idle_range(points, a, a + size);
        let first = lemma_first_of_size(points, a, size);
        (first, first + size)
    } else {
        assert forall|a: int, b: int| #[trigger] idle_range(points, a, b) implies b - a <= size
            - 1 by {
            if b - a == size {
                assert(idle_range(points, a, a + size));
            }
        }
        lemma_longest_at_most(points, size - 1)
    }
}

proof fn lemma_first_of_size(points: Seq<MetricPoint>, a: int, size: int) -> (first: int)
    requires
        size > 0,
        idle_range(points, a, a + size),
        forall|c: int, d: int| #[trigger] idle_range(points, c, d) ==> d - c <= size,
    ensures
        longest_idle(points, first, first + size),
    decreases a,
{
    if exists|c: int| c < a && #[trigger] idle_range(points, c, c + size) {
        let c = choose|c: int| c < a && #[trigger] idle_range(points, c, c + size);
        lemma_first_of_size(points, c, size)
    } else {
        assert forall|c: int, d: int| #[trigger] idle_range(points, c, d) implies d - c < size || (d
            - c == size && (c == d || a <= c)) by {
            if d - c == size {
                assert(idle_range(points, c, c + size));
            }
        }
        a
    }
}

/// An idle window is proposed exactly where the longest idle stretch lasts four hours or more and
/// its load needs fewer replicas than the floor holds; it cuts the floor to that need, and to one
/// at the lowest, and changes nothing else.
pub proof fn law_idle_window_cuts_the_floor(
    config: WorkloadConfig,
    points: Seq<MetricPoint>,
    m: IdleMeasures,
)
    ensures
        ({
            let (from, to) = idle_run(points);
            let needed = max(1, m.load.needed as int);
            let found = idle_window(config, points, m);
            &&& found is Some <==> to - from >= 2 && points[to - 1].timestamp.secs_since(
                points[from].timestamp,
            ) >= 4 * 60 * 60 && config.target_cpu_pct > 0 && needed < config.min_replicas
            &&& found matches Some(c) ==> {
                &&& c.kind == CandidateKind::IdleWindow
                &&& c.schedule is None
                &&& c.proposed_diff.dom() == set!["min_replicas"@]
                &&& c.proposed_diff["min_replicas"@].from == config.min_replicas
                &&& c.proposed_diff["min_replicas"@].to == needed
                &&& c.evidence["idle_hours"@] == EvidenceValue::Measured(m.hours)
                &&& c.evidence["util_p95"@] == EvidenceValue::Measured(m.load.util_p95)
                &&& c.evidence["needed_replicas"@] == EvidenceValue::Whole(needed as i64)
                &&& c.evidence["replicas_reduced"@] == EvidenceValue::Whole(
                    (config.min_replicas - needed) as i64,
                )
            }
        }),
{
    lemma_longest_exists(points);
    lemma_evidence_names();
    if let Some(c) = idle_window(config, points, m) {
        assert(c.proposed_diff.dom() =~= set!["min_replicas"@]);
    }
}

proof fn lemma_evidence_names()
    ensures
        "idle_hours"@.len() == 10,
        "util_p95"@.len() == 8,
        "needed_replicas"@.len() == 15,
        "replicas_reduced"@.len() == 16,
{
    reveal_strlit("idle_hours");
    reveal_strlit("util_p95");
    reveal_strlit("needed_replicas");
    reveal_strlit("replicas_reduced");
}

/// Overprovisioning is proposed exactly where the 95th percentile is not 40% or more and there is
/// something to change. It cuts the floor to the load's need where that is lower; else it raises
/// the target by fifteen points, to 90 at most. It changes nothing else.
pub proof fn law_overprovisioning_prefers_the_floor_cut(
    config: WorkloadConfig,
    points: Seq<MetricPoint>,
    m: LoadMeasures,
)
    ensures
        ({
            let needed = max(1, m.needed as int);
            let light = points.len() > 0 && !(Sample { bits: 0x3FD9_9999_9999_999A }).le(m.util_p95);
            let cuts = config.target_cpu_pct > 0 && needed < config.min_replicas;
            let found = overprovisioned(config, points, m);
            &&& found is Some <==> light && (cuts || config.target_cpu_pct < 90)
            &&& found matches Some(c) ==> {
                &&& c.kind == CandidateKind::Overprovisioned
                &&& c.schedule is None
                &&& cuts ==> {
                    &&& c.proposed_diff.dom() == set!["min_replicas"@]
                    &&& c.proposed_diff["min_replicas"@].from == config.min_replicas
                    &&& c.proposed_diff["min_replicas"@].to == needed
                    &&& c.evidence["util_p95"@] == EvidenceValue::Measured(m.util_p95)
                    &&& c.evidence["needed_replicas"@] == EvidenceValue::Whole(needed as i64)
                    &&& c.evidence["replicas_reduced"@] == EvidenceValue::Whole(
                        (config.min_replicas - needed) as i64,
                    )
                }
                &&& !cuts ==> {
                    &&& c.proposed_diff.dom() == set!["target_cpu_pct"@]
                    &&& c.proposed_diff["target_cpu_pct"@].from == config.target_cpu_pct
                    &&& c.proposed_diff["target_cpu_pct"@].to == min(
                        config.target_cpu_pct + 15,
                        90,
                    )
                    &&& c.evidence["p95_util"@] == EvidenceValue::Measured(m.util_p95)
                }
            }
        }),
{
    lemma_evidence_names();
    if let Some(c) = overprovisioned(config, points, m) {
        if config.target_cpu_pct > 0 && max(1, m.needed as int) < config.min_replicas {
            assert(c.proposed_diff.dom() =~= set!["min_replicas"@]);
        } else {
            assert(c.proposed_diff.dom() =~= set!["target_cpu_pct"@]);
        }
    }
}

/// A queue that grows from point `a` to point `b`, at every step and with the replicas unchanged,
/// for three minutes or more is a scale-up lag, wherever the growth began.
pub proof fn law_long_growth_is_a_lag(
    config: WorkloadConfig,
    points: Seq<MetricPoint>,
    a: int,
    b: int,
)
    requires
        0 <= a < b < points.len(),
        forall|i: int, j: int|
            0 <= i <= j < points.len() ==> (#[trigger] points[i]).timestamp.instant() <= (
            #[trigger] points[j]).timestamp.instant(),
        forall|i: int|
            a <= i < b ==> (#[trigger] points[i]).queue_depth is Some && points[i
                + 1].queue_depth is Some && points[i].queue_depth->0.lt(points[i + 1].queue_depth->0)
                && points[i].replicas == points[i + 1].replicas,
        points[b].timestamp.instant() - points[a].timestamp.instant() >= 180 * 1_000_000_000,
    ensures
        scale_lag(config, points) is Some,
{
    lemma_chain_start(points, a, b);
    let start = rise_start(points, b);
    assert(points[start].timestamp.instant() <= points[a].timestamp.instant());
    lemma_lag_found(points, b, points.len() as int);
}

/// The same without an order of the points: the growth is measured from where it began.
pub proof fn law_growth_counts_from_its_beginning(
    config: WorkloadConfig,
    points: Seq<MetricPoint>,
    a: int,
    b: int,
)
    requires
        0 <= a < b < points.len(),
        forall|i: int|
            a <= i < b ==> (#[trigger] points[i]).queue_depth is Some && points[i
                + 1].queue_depth is Some && points[i].queue_depth->0.lt(points[i + 1].queue_depth->0)
                && points[i].replicas == points[i + 1].replicas,
        a == 0 || points[a - 1].replicas != points[a].replicas || points[a - 1].queue_depth is None
            || !points[a - 1].queue_depth->0.lt(points[a].queue_depth->0),
        points[b].timestamp.instant() - points[a].timestamp.instant() >= 180 * 1_000_000_000,
    ensures
        scale_lag(config, points) is Some,
{
    lemma_chain_start(points, a, b);
    lemma_rise_bounds(points, a);
    assert(!rising(points, a));
    lemma_lag_found(points, b, points.len() as int);
}

proof fn lemma_rise_bounds(points: Seq<MetricPoint>, i: int)
    requires
        0 <= i < points.len(),
    ensures
        0 <= rise_start(points, i) <= i,
        forall|k: int| rise_start(points, i) < k <= i ==> #[trigger] rising(points, k),
        !rising(points, rise_start(points, i)),
    decreases i,
{
    if rising(points, i) {
        lemma_rise_bounds(points, i - 1);
    }
}

proof fn lemma_chain_start(points: Seq<MetricPoint>, a: int, b: int)
    requires
        0 <= a <= b < points.len(),
        forall|i: int|
            a <= i < b ==> (#[trigger] points[i]).queue_depth is Some && points[i
                + 1].queue_depth is Some && points[i].queue_depth->0.lt(points[i + 1].queue_depth->0)
                && points[i].replicas == points[i + 1].replicas,
    ensures
        rise_start(points, b) == rise_start(points, a),
        0 <= rise_start(points, a) <= a,
    decreases b - a,
{
    lemma_rise_bounds(points, a);
    if a < b {
        lemma_chain_start(points, a, b - 1);
        assert(points[b - 1].queue_depth is Some);
        assert(rising(points, b));
    }
}

proof fn lemma_lag_found(points: Seq<MetricPoint>, b: int, n: int)
    requires
        0 <= b < n <= points.len(),
        lag_at(points, b) >= 180,
    ensures
        first_lag(points, n) is Some,
    decreases n,
{
    if b < n - 1 {
        lemma_lag_found(points, b, n - 1);
    }
}

/// A scale-up lag is a queue that did grow, at every step and with the replicas unchanged, for
/// three minutes or more: from point `a`, where the growth began, to point `b`. It lowers the
/// target by fifteen points, to 20 at the lowest, and changes nothing else. The result is `(a, b)`;
/// the points before `b` show no lag yet.
pub proof fn law_lag_is_a_long_growth(config: WorkloadConfig, points: Seq<MetricPoint>) -> (w: (
    int,
    int,
))
    requires
        scale_lag(config, points) is Some,
    ensures
        ({
            let (a, b) = w;
            let c = scale_lag(config, points)->0;
            let lag = points[b].timestamp.secs_since(points[a].timestamp);
            &&& 0 <= a < b < points.len()
            &&& forall|i: int|
                a <= i < b ==> (#[trigger] points[i]).queue_depth is Some && points[i
                    + 1].queue_depth is Some && points[i].queue_depth->0.lt(
                    points[i + 1].queue_depth->0,
                ) && points[i].replicas == points[i + 1].replicas
            &&& a == 0 || points[a - 1].replicas != points[a].replicas || points[a
                - 1].queue_depth is None || !points[a - 1].queue_depth->0.lt(
                points[a].queue_depth->0,
            )
            &&& lag >= 180
            &&& c.evidence["lag_seconds"@] == EvidenceValue::Whole(lag as i64)
            &&& c.kind == CandidateKind::ScaleLag
            &&& c.schedule is None
            &&& c.proposed_diff.dom() == set!["target_cpu_pct"@]
            &&& c.proposed_diff["target_cpu_pct"@].from == config.target_cpu_pct
            &&& c.proposed_diff["target_cpu_pct"@].to == max(config.target_cpu_pct - 15, 20)
            &&& scale_lag(config, points.take(b)) is None
            &&& scale_lag(config, points.take(b + 1)) == Some(c)
        }),
{
    let b = lemma_lag_origin(points, points.len() as int);
    lemma_rise_bounds(points, b);
    let a = rise_start(points, b);
    assert(a < b);
    assert forall|i: int| a <= i < b implies (#[trigger] points[i]).queue_depth is Some && points[i
        + 1].queue_depth is Some && points[i].queue_depth->0.lt(points[i + 1].queue_depth->0)
        && points[i].replicas == points[i + 1].replicas by {
        assert(rising(points, i + 1));
    }
    assert(scale_lag(config, points)->0.proposed_diff.dom() =~= set!["target_cpu_pct"@]);
    lemma_lag_of_prefix(points, b, b);
    lemma_lag_of_prefix(points, b + 1, b + 1);
    (a, b)
}

proof fn lemma_lag_origin(points: Seq<MetricPoint>, n: int) -> (b: int)
    requires
        0 <= n <= points.len(),
        first_lag(points, n) is Some,
    ensures
        0 <= b < n,
        lag_at(points, b) >= 180,
        first_lag(points, n) == Some(lag_at(points, b)),
        first_lag(points, b) is None,
        first_lag(points, b + 1) == Some(lag_at(points, b)),
    decreases n,
{
    if first_lag(points, n - 1) is Some {
        lemma_lag_origin(points, n - 1)
    } else {
        n - 1
    }
}

proof fn lemma_lag_of_prefix(points: Seq<MetricPoint>, k: int, n: int)
    requires
        0 <= n <= k <= points.len(),
    ensures
        first_lag(points.take(k), n) == first_lag(points, n),
    decreases n,
{
    if n > 0 {
        lemma_lag_of_prefix(points, k, n - 1);
        lemma_rise_of_prefix(points, k, n - 1);
        lemma_rise_bounds(points, n - 1);
    }
}

proof fn lemma_rise_of_prefix(points: Seq<MetricPoint>, k: int, i: int)
    requires
        0 <= i < k <= points.len(),
    ensures
        rise_start(points.take(k), i) == rise_start(points, i),
    decreases i,
{
    assert(rising(points.take(k), i) == rising(points, i));
    if rising(points, i) {
        lemma_rise_of_prefix(points, k, i - 1);
    }
}

/// Thrashing is more than ten scaling events per hour; it doubles the scale-down cooldown and
/// changes nothing else.
pub proof fn law_thrashing_doubles_the_cooldown(
    config: WorkloadConfig,
    points: Seq<MetricPoint>,
    events: int,
    per_hour: Sample,
    text: Seq<char>,
)
    requires
        i32::MIN <= config.scale_down_cooldown_s * 2 <= i32::MAX,
    ensures
        ({
            let found = thrashing(config, points, events, per_hour, text);
            &&& found is Some <==> points.len() > 0 && events > 0 && !per_hour.le(
                Sample { bits: 0x4024_0000_0000_0000 },
            )
            &&& found matches Some(c) ==> {
                &&& c.kind == CandidateKind::Thrashing
                &&& c.schedule is None
                &&& c.proposed_diff.dom() == set!["scale_down_cooldown_s"@]
                &&& c.proposed_diff["scale_down_cooldown_s"@].from == config.scale_down_cooldown_s
                &&& c.proposed_diff["scale_down_cooldown_s"@].to == config.scale_down_cooldown_s
                    + config.scale_down_cooldown_s
                &&& c.evidence["events_per_hour"@] == EvidenceValue::Measured(per_hour)
            }
        }),
{
    if let Some(c) = thrashing(config, points, events, per_hour, text) {
        assert(c.proposed_diff.dom() =~= set!["scale_down_cooldown_s"@]);
    }
}

/// The rules give what each of them finds and nothing else, in the order idle window,
/// overprovisioning, scale-up lag, thrashing.
pub proof fn law_every_finding_is_reported(snapshot: MetricsSnapshot, m: RuleMeasures)
    ensures
        ({
            let all = rule_candidates(snapshot, m);
            let idle = idle_window(snapshot.config, snapshot.points@, m.idle);
            let over = overprovisioned(snapshot.config, snapshot.points@, m.overall);
            let lag = scale_lag(snapshot.config, snapshot.points@);
            let thrash = thrashing(
                snapshot.config,
                snapshot.points@,
                snapshot.scaling_events@.len() as int,
                m.events_per_hour,
                m.events_per_hour_text@,
            );
            &&& idle is Some ==> all.contains(idle->0)
            &&& over is Some ==> all.contains(over->0)
            &&& lag is Some ==> all.contains(lag->0)
            &&& thrash is Some ==> all.contains(thrash->0)
            &&& forall|i: int|
                0 <= i < all.len() ==> Some(#[trigger] all[i]) == idle || Some(all[i]) == over
                    || Some(all[i]) == lag || Some(all[i]) == thrash
            &&& forall|i: int, j: int|
                0 <= i < j < all.len() ==> {
                    &&& Some(#[trigger] all[j]) == idle ==> Some(#[trigger] all[i]) == idle
                    &&& Some(all[i]) == thrash ==> Some(all[j]) == thrash
                    &&& Some(all[i]) == lag ==> Some(all[j]) == lag || Some(all[j]) == thrash
                }
        }),
{
    let all = rule_candidates(snapshot, m);
    let a = listed(idle_window(snapshot.config, snapshot.points@, m.idle));
    let b = listed(overprovisioned(snapshot.config, snapshot.points@, m.overall));
    let c = listed(scale_lag(snapshot.config, snapshot.points@));
    if a.len() > 0 {
        assert(all[0] == a[0]);
    }
    if b.len() > 0 {
        assert(all[a.len() as int] == b[0]);
    }
    if c.len() > 0 {
        assert(all[(a.len() + b.len()) as int] == c[0]);
    }
    if all.len() > a.len() + b.len() + c.len() {
        assert(all.contains(all[(a.len() + b.len() + c.len()) as int]));
    }
}

/// What a finding says: the figures that it rests on, and the change that it proposes.
pub proof fn law_findings_say_what_they_propose(
    config: WorkloadConfig,
    points: Seq<MetricPoint>,
    idle: IdleMeasures,
    load: LoadMeasures,
)
    ensures
        idle_window(config, points, idle) matches Some(c) ==> c.description == "Idle for "@
            + idle.hours_text@ + "h at p95 "@ + idle.load.util_pct_text@ + "% CPU"@
            + ("; min replicas can drop from "@ + signed_decimal(
            c.proposed_diff["min_replicas"@].from as int,
        ) + " to "@ + signed_decimal(c.proposed_diff["min_replicas"@].to as int)
            + " (load headroom)."@),
        overprovisioned(config, points, load) matches Some(c) ==> {
            &&& c.proposed_diff.dom().contains("min_replicas"@) ==> c.description == "p95 CPU is "@
                + load.util_pct_text@ + "%"@ + ("; min replicas can drop from "@ + signed_decimal(
                c.proposed_diff["min_replicas"@].from as int,
            ) + " to "@ + signed_decimal(c.proposed_diff["min_replicas"@].to as int)
                + " (load headroom)."@)
            &&& c.proposed_diff.dom().contains("target_cpu_pct"@) ==> c.description
                == "p95 CPU is "@ + load.util_pct_text@ + "%"@ + "; target can rise to "@
                + signed_decimal(c.proposed_diff["target_cpu_pct"@].to as int) + "%."@
        },
{
    lemma_field_names();
}

/// A lag says how many seconds it lasted, in its evidence and in words, and what it proposes. The
/// result is that number.
pub proof fn law_lag_says_how_long_it_lasted(config: WorkloadConfig, points: Seq<MetricPoint>) -> (
    lag: int)
    requires
        scale_lag(config, points) is Some,
    ensures
        lag >= 180,
        scale_lag(config, points)->0.evidence["lag_seconds"@] == EvidenceValue::Whole(lag as i64),
        scale_lag(config, points)->0.description == "Queue grew for "@ + signed_decimal(lag)
            + "s without scaling; lower target to "@ + signed_decimal(
            scale_lag(config, points)->0.proposed_diff["target_cpu_pct"@].to as int,
        ) + "%."@,
{
    let b = lemma_lag_origin(points, points.len() as int);
    lag_at(points, b)
}

/// Thrashing says how often the workload scaled, and what it proposes.
pub proof fn law_thrashing_says_how_often(
    config: WorkloadConfig,
    points: Seq<MetricPoint>,
    events: int,
    per_hour: Sample,
    text: Seq<char>,
)
    ensures
        thrashing(config, points, events, per_hour, text) matches Some(c) ==> c.description == text
            + " scaling events/hour; double scale-down cooldown to "@ + signed_decimal(
            c.proposed_diff["scale_down_cooldown_s"@].to as int,
        ) + "s."@,
{
}

/// A forecast says how sure it is, the baseline that it holds, the highest floor of its windows and
/// their number.
pub proof fn law_forecast_says_what_it_proposes(
    config: WorkloadConfig,
    confidence: Sample,
    confidence_text: Seq<char>,
    baseline: i32,
    schedule: Seq<WindowView>,
) -> (top: int)
    requires
        schedule.len() > 0,
    ensures
        0 <= top < schedule.len(),
        forall|i: int|
            0 <= i < schedule.len() ==> (#[trigger] schedule[i]).min_replicas
                <= schedule[top].min_replicas,
        peak_candidate(config, confidence, confidence_text, baseline, schedule).description
            == "Recurring peak forecast (confidence "@ + confidence_text + "%): hold baseline "@
            + signed_decimal(baseline as int) + ", pre-scale to "@ + signed_decimal(
            schedule[top].min_replicas as int,
        ) + " across "@ + decimal(schedule.len()) + " window(s)."@,
{
    let top = law_highest_floor_is_the_highest(schedule, 0);
    assert forall|i: int| 0 <= i < schedule.len() implies (#[trigger] schedule[i]).min_replicas
        <= schedule[top].min_replicas by {
        let other = law_highest_floor_is_the_highest(schedule, i);
    }
    top
}

/// The replicas that hold a load are what it needs, and one at the least; without points or without
/// a target they are not known.
pub proof fn law_headroom_is_the_need(count: int, target_cpu_pct: i32, needed: i32)
    requires
        count >= 0,
    ensures
        headroom(count, target_cpu_pct, needed) is Some <==> count > 0 && target_cpu_pct > 0,
        count > 0 && target_cpu_pct > 0 && needed >= 1 ==> headroom(count, target_cpu_pct, needed)
            == Some(needed),
        count > 0 && target_cpu_pct > 0 && needed < 1 ==> headroom(count, target_cpu_pct, needed)
            == Some(1i32),
{
}

/// In an ascending list no number stands before a smaller one.
pub proof fn law_counts_ascend(s: Seq<i32>, i: int, j: int)
    requires
        0 <= i <= j < s.len(),
        s[i] > s[j],
    ensures
        !ascending_counts(s),
{
}

/// A list in which no number stands before a smaller one ascends, equal numbers included.
pub proof fn law_equal_counts_ascend(s: Seq<i32>)
    requires
        forall|i: int, j: int| 0 <= i <= j < s.len() ==> !(s[i] > s[j]),
    ensures
        ascending_counts(s),
{
}

} // verus!
