//! The post-apply health check.
use vstd::prelude::*;
use vstd::string::*;

use crate::domain::{MetricPoint, WorkloadConfig};
use crate::sample::Sample;
use crate::text::push_signed;
#[allow(unused_imports)]
use crate::text::signed_decimal;

verus! {

/// Minimum post-apply samples before a verdict can be `Degraded` - never roll back on thin data.
pub const MIN_AFTER_POINTS: usize = 3;

#[derive(Debug, PartialEq, Eq)]
pub enum HealthVerdict {
    Healthy,
    Degraded(String),
    /// Not enough post-apply data to judge yet - caller should keep the change on probation rather
    /// than mark it verified (so a degraded-monitoring gap can't silently rubber-stamp a change).
    Inconclusive,
}

/// What a verdict says.
pub ghost enum VerdictView {
    Healthy,
    Degraded(Seq<char>),
    Inconclusive,
}

impl View for HealthVerdict {
    type V = VerdictView;

    open spec fn view(&self) -> VerdictView {
        match *self {
            HealthVerdict::Healthy => VerdictView::Healthy,
            HealthVerdict::Degraded(reason) => VerdictView::Degraded(reason@),
            HealthVerdict::Inconclusive => VerdictView::Inconclusive,
        }
    }
}

/// The figures that the verdict rests on: the mean CPU utilization after the apply and the ceiling
/// it may reach, both also printed in percent; the share of the points pinned at the maximum,
/// printed in percent; the mean queue depth of the first and of the last third, with the bound
/// that the last third may reach; and the replica changes per interval after the apply, with the
/// rate they may reach.
#[derive(Debug)]
pub struct HealthMeasures {
    pub cpu: Sample,
    pub ceiling: Sample,
    pub cpu_text: String,
    pub ceiling_text: String,
    pub pinned_text: String,
    pub queue_head: Sample,
    pub queue_bound: Sample,
    pub queue_tail: Sample,
    pub oscillation: Sample,
    pub oscillation_bound: Sample,
}

/// The number of points at or above `max_replicas`.
pub open spec fn pinned(points: Seq<MetricPoint>, max_replicas: i32) -> nat
    decreases points.len(),
{
    if points.len() == 0 {
        0
    } else {
        pinned(points.drop_last(), max_replicas) + if points.last().replicas >= max_replicas {
            1nat
        } else {
            0
        }
    }
}

/// The reported queue depths, in order.
pub open spec fn queue_depths(points: Seq<MetricPoint>) -> Seq<Sample>
    decreases points.len(),
{
    if points.len() == 0 {
        Seq::empty()
    } else {
        let before = queue_depths(points.drop_last());
        match points.last().queue_depth {
            Some(q) => before.push(q),
            None => before,
        }
    }
}

/// The number of neighbouring points with different replicas.
pub open spec fn replica_changes(points: Seq<MetricPoint>) -> nat
    decreases points.len(),
{
    if points.len() < 2 {
        0
    } else {
        replica_changes(points.drop_last()) + if points[points.len() - 2].replicas
            != points.last().replicas {
            1nat
        } else {
            0
        }
    }
}

/// The number of points at or above `max_replicas`.
pub fn pinned_count(points: &Vec<MetricPoint>, max_replicas: i32) -> (n: usize)
    ensures
        n == pinned(points@, max_replicas),
        n <= points@.len(),
{
    let mut n: usize = 0;
    let mut i: usize = 0;
    while i < points.len()
        invariant
            n <= i <= points@.len(),
            n == pinned(points@.take(i as int), max_replicas),
        decreases points@.len() - i,
    {
        assert(points@.take(i + 1).drop_last() == points@.take(i as int));
        if points[i].replicas >= max_replicas {
            n += 1;
        }
        i += 1;
    }
    assert(points@.take(points@.len() as int) == points@);
    n
}

/// The number of neighbouring points with different replicas.
pub fn count_replica_changes(points: &Vec<MetricPoint>) -> (n: usize)
    ensures
        n == replica_changes(points@),
{
    let mut n: usize = 0;
    let mut i: usize = 1;
    if points.len() < 2 {
        return 0;
    }
    assert(replica_changes(points@.take(1)) == 0);
    while i < points.len()
        invariant
            1 <= i <= points@.len(),
            n < i,
            n == replica_changes(points@.take(i as int)),
        decreases points@.len() - i,
    {
        assert(points@.take(i + 1).drop_last() == points@.take(i as int));
        if points[i - 1].replicas != points[i].replicas {
            n += 1;
        }
        i += 1;
    }
    assert(points@.take(points@.len() as int) == points@);
    n
}

/// The reported queue depths, in order.
fn reported_queue(points: &Vec<MetricPoint>) -> (q: Vec<Sample>)
    ensures
        q@ == queue_depths(points@),
{
    let mut q: Vec<Sample> = Vec::new();
    let mut i: usize = 0;
    while i < points.len()
        invariant
            i <= points@.len(),
            q@ == queue_depths(points@.take(i as int)),
        decreases points@.len() - i,
    {
        assert(points@.take(i + 1).drop_last() == points@.take(i as int));
        if let Some(depth) = points[i].queue_depth {
            q.push(depth);
        }
        i += 1;
    }
    assert(points@.take(points@.len() as int) == points@);
    q
}

fn slice_of(values: &Vec<Sample>, from: usize, to: usize) -> (out: Vec<Sample>)
    requires
        from <= to <= values@.len(),
    ensures
        out@ == values@.subrange(from as int, to as int),
{
    let mut out: Vec<Sample> = Vec::new();
    let mut i: usize = from;
    while i < to
        invariant
            from <= i <= to <= values@.len(),
            out@ == values@.subrange(from as int, i as int),
        decreases to - i,
    {
        out.push(values[i]);
        i += 1;
    }
    out
}

/// The first and the last third of the reported queue depths, each rounded down to whole samples;
/// `None` where too few are reported for a trend.
pub fn queue_thirds(points: &Vec<MetricPoint>) -> (r: Option<(Vec<Sample>, Vec<Sample>)>)
    ensures
        ({
            let queue = queue_depths(points@);
            let third = queue.len() as int / 3;
            match r {
                Some((head, tail)) => queue.len() >= MIN_AFTER_POINTS && head@ == queue.take(third)
                    && tail@ == queue.skip(queue.len() - third),
                None => queue.len() < MIN_AFTER_POINTS,
            }
        }),
{
    let queue = reported_queue(points);
    let n: usize = queue.len();
    if n < MIN_AFTER_POINTS {
        return None;
    }
    let third: usize = n / 3;
    let head = slice_of(&queue, 0, third);
    let tail = slice_of(&queue, n - third, n);
    assert(head@ =~= queue@.take(third as int));
    assert(tail@ =~= queue@.skip(n - third));
    Some((head, tail))
}

/// Whether the workload reports a queue whose last third is materially larger than its first.
pub open spec fn queue_grows(after: Seq<MetricPoint>, m: HealthMeasures) -> bool {
    queue_depths(after).len() >= MIN_AFTER_POINTS && m.queue_head.positive() && m.queue_bound.lt(
        m.queue_tail,
    )
}

/// The verdict on a change: CPU above the ceiling, pinned at the maximum for more than four fifths
/// of the window, a growing queue, or new oscillation against a real baseline, in this order.
pub open spec fn verdict(
    before: Seq<MetricPoint>,
    after: Seq<MetricPoint>,
    max_replicas: i32,
    m: HealthMeasures,
) -> VerdictView {
    if after.len() < MIN_AFTER_POINTS {
        VerdictView::Inconclusive
    } else if m.ceiling.lt(m.cpu) {
        VerdictView::Degraded(
            "cpu "@ + m.cpu_text@ + "% sustained above target+margin "@ + m.ceiling_text@ + "%"@,
        )
    } else if 5 * pinned(after, max_replicas) > 4 * after.len() {
        VerdictView::Degraded(
            "pinned at max_replicas "@ + signed_decimal(max_replicas as int) + " for "@
                + m.pinned_text@ + "% of the window"@,
        )
    } else if queue_grows(after, m) {
        VerdictView::Degraded("queue depth trending up after apply"@)
    } else if before.len() >= MIN_AFTER_POINTS && m.oscillation_bound.lt(m.oscillation) {
        VerdictView::Degraded("scaling oscillation increased after apply"@)
    } else {
        VerdictView::Healthy
    }
}

/// Deterministic post-apply health check: compare the `after` window (and, for thrashing, the
/// pre-apply `before` window) against the now-live `config`. Returns `Inconclusive` on insufficient
/// after-data (never `Degraded`, so the safety net never reverts a change it cannot yet judge).
/// Thrashing is only judged against a real pre-apply baseline; an empty/short `before` (HPA-status
/// mode, or history lost on restart) would make any post-apply activity look like new oscillation.
pub fn evaluate_health(
    before: &Vec<MetricPoint>,
    after: &Vec<MetricPoint>,
    config: &WorkloadConfig,
    m: &HealthMeasures,
) -> (v: HealthVerdict)
    ensures
        v@ == verdict(before@, after@, config.max_replicas, *m),
{
    if after.len() < MIN_AFTER_POINTS {
        return HealthVerdict::Inconclusive;
    }
    if m.ceiling.below(m.cpu) {
        let mut reason = "cpu ".to_owned();
        reason.append(m.cpu_text.as_str());
        reason.append("% sustained above target+margin ");
        reason.append(m.ceiling_text.as_str());
        reason.append("%");
        return HealthVerdict::Degraded(reason);
    }
    let pinned_points: usize = pinned_count(after, config.max_replicas);
    if 5 * pinned_points as u128 > 4 * after.len() as u128 {
        let mut reason = "pinned at max_replicas ".to_owned();
        push_signed(&mut reason, config.max_replicas as i64);
        reason.append(" for ");
        reason.append(m.pinned_text.as_str());
        reason.append("% of the window");
        return HealthVerdict::Degraded(reason);
    }
    let queue = reported_queue(after);
    if queue.len() >= MIN_AFTER_POINTS && m.queue_head.above_zero() && m.queue_bound.below(
        m.queue_tail,
    ) {
        return HealthVerdict::Degraded("queue depth trending up after apply".to_owned());
    }
    if before.len() >= MIN_AFTER_POINTS && m.oscillation_bound.below(m.oscillation) {
        return HealthVerdict::Degraded("scaling oscillation increased after apply".to_owned());
    }
    HealthVerdict::Healthy
}

/// A change is never judged, for better or worse, on fewer than three points.
pub proof fn law_thin_data_is_inconclusive(
    before: Seq<MetricPoint>,
    after: Seq<MetricPoint>,
    max_replicas: i32,
    m: HealthMeasures,
)
    ensures
        after.len() < 3 <==> verdict(before, after, max_replicas, m) is Inconclusive,
{
}

/// Without a real baseline the oscillation after the apply does not matter.
pub proof fn law_short_baseline_ignores_oscillation(
    before: Seq<MetricPoint>,
    after: Seq<MetricPoint>,
    max_replicas: i32,
    m: HealthMeasures,
    oscillation: Sample,
    oscillation_bound: Sample,
)
    requires
        before.len() < 3,
    ensures
        verdict(before, after, max_replicas, m) == verdict(
            before,
            after,
            max_replicas,
            (HealthMeasures { oscillation, oscillation_bound, ..m }),
        ),
{
}

/// With three points or more, a mean CPU above its ceiling is a degradation, whatever the window
/// before the apply holds, and the reason gives both.
pub proof fn law_hot_cpu_is_degraded(
    before: Seq<MetricPoint>,
    after: Seq<MetricPoint>,
    max_replicas: i32,
    m: HealthMeasures,
)
    requires
        after.len() >= 3,
        m.ceiling.lt(m.cpu),
    ensures
        verdict(before, after, max_replicas, m) == VerdictView::Degraded(
            "cpu "@ + m.cpu_text@ + "% sustained above target+margin "@ + m.ceiling_text@ + "%"@,
        ),
{
}

/// With three points or more, replicas at the maximum in more than four fifths of the points are a
/// degradation, whatever the window before the apply holds.
pub proof fn law_pinned_replicas_are_degraded(
    before: Seq<MetricPoint>,
    after: Seq<MetricPoint>,
    max_replicas: i32,
    m: HealthMeasures,
)
    requires
        after.len() >= 3,
        5 * after.filter(|p: MetricPoint| p.replicas >= max_replicas).len() > 4 * after.len(),
    ensures
        verdict(before, after, max_replicas, m) is Degraded,
        !m.ceiling.lt(m.cpu) ==> verdict(before, after, max_replicas, m) == VerdictView::Degraded(
            "pinned at max_replicas "@ + signed_decimal(max_replicas as int) + " for "@
                + m.pinned_text@ + "% of the window"@,
        ),
{
    law_pinned_points_are_counted(after, max_replicas);
}

/// With three queue depths or more, a last third above its bound after a first third above zero is
/// a degradation, whatever the window before the apply holds.
pub proof fn law_growing_queue_is_degraded(
    before: Seq<MetricPoint>,
    after: Seq<MetricPoint>,
    max_replicas: i32,
    m: HealthMeasures,
)
    requires
        after.filter(|p: MetricPoint| p.queue_depth is Some).len() >= 3,
        m.queue_head.positive(),
        m.queue_bound.lt(m.queue_tail),
    ensures
        verdict(before, after, max_replicas, m) is Degraded,
{
    law_reported_depths_are_kept(after);
    lemma_filter_at_most(after);
}

/// With three points or more on both sides of the apply, more replica changes than the bound allows
/// are a degradation.
pub proof fn law_new_oscillation_is_degraded(
    before: Seq<MetricPoint>,
    after: Seq<MetricPoint>,
    max_replicas: i32,
    m: HealthMeasures,
)
    requires
        before.len() >= 3,
        after.len() >= 3,
        m.oscillation_bound.lt(m.oscillation),
    ensures
        verdict(before, after, max_replicas, m) is Degraded,
{
}

/// A change is sent back only for a reason: where the CPU keeps to its ceiling, the replicas stay
/// off the maximum in a fifth of the points, the queue does not grow and the replicas do not swing
/// more than before (or nothing is known of before), it is healthy.
pub proof fn law_quiet_workload_is_healthy(
    before: Seq<MetricPoint>,
    after: Seq<MetricPoint>,
    max_replicas: i32,
    m: HealthMeasures,
)
    requires
        after.len() >= 3,
        !m.ceiling.lt(m.cpu),
        5 * after.filter(|p: MetricPoint| p.replicas >= max_replicas).len() <= 4 * after.len(),
        after.filter(|p: MetricPoint| p.queue_depth is Some).len() < 3 || !m.queue_head.positive()
            || !m.queue_bound.lt(m.queue_tail),
        before.len() < 3 || !m.oscillation_bound.lt(m.oscillation),
    ensures
        verdict(before, after, max_replicas, m) is Healthy,
{
    law_pinned_points_are_counted(after, max_replicas);
    law_reported_depths_are_kept(after);
}

/// Beyond its being there at all, the window before the apply is not looked at: two baselines of
/// three points or more give the same verdict on the same figures.
pub proof fn law_baselines_agree(
    one: Seq<MetricPoint>,
    other: Seq<MetricPoint>,
    after: Seq<MetricPoint>,
    max_replicas: i32,
    m: HealthMeasures,
)
    requires
        one.len() >= 3 <==> other.len() >= 3,
    ensures
        verdict(one, after, max_replicas, m) == verdict(other, after, max_replicas, m),
{
}

/// The pinned points are those at or above the maximum.
pub proof fn law_pinned_points_are_counted(points: Seq<MetricPoint>, max_replicas: i32)
    ensures
        pinned(points, max_replicas) == points.filter(
            |p: MetricPoint| p.replicas >= max_replicas,
        ).len(),
    decreases points.len(),
{
    reveal(Seq::filter);
    if points.len() > 0 {
        law_pinned_points_are_counted(points.drop_last(), max_replicas);
    }
}

/// Every reported queue depth is kept, in order, and nothing else.
pub proof fn law_reported_depths_are_kept(points: Seq<MetricPoint>)
    ensures
        queue_depths(points) == points.filter(
            |p: MetricPoint| p.queue_depth is Some,
        ).map_values(|p: MetricPoint| p.queue_depth->0),
    decreases points.len(),
{
    reveal(Seq::filter);
    if points.len() > 0 {
        law_reported_depths_are_kept(points.drop_last());
        let rest = points.drop_last().filter(|p: MetricPoint| p.queue_depth is Some);
        assert(rest.push(points.last()).map_values(|p: MetricPoint| p.queue_depth->0)
            =~= rest.map_values(|p: MetricPoint| p.queue_depth->0).push(
            points.last().queue_depth->0,
        ));
    }
}

proof fn lemma_filter_at_most(points: Seq<MetricPoint>)
    ensures
        points.filter(|p: MetricPoint| p.queue_depth is Some).len() <= points.len(),
    decreases points.len(),
{
    reveal(Seq::filter);
    if points.len() > 0 {
        lemma_filter_at_most(points.drop_last());
    }
}

/// The replica changes of a history are those up to any of its points and those from it on: one
/// for each pair of neighbours that differ.
pub proof fn law_replica_changes_add_up(points: Seq<MetricPoint>, k: int)
    requires
        0 <= k < points.len(),
    ensures
        replica_changes(points) == replica_changes(points.take(k + 1)) + replica_changes(
            points.skip(k),
        ),
        points.len() == 2 ==> replica_changes(points) == if points[0].replicas
            == points[1].replicas {
            0nat
        } else {
            1
        },
        points.len() == 1 ==> replica_changes(points) == 0,
    decreases points.len(),
{
    reveal_with_fuel(replica_changes, 3);
    if k < points.len() - 1 {
        let rest = points.drop_last();
        law_replica_changes_add_up(rest, k);
        assert(rest.take(k + 1) =~= points.take(k + 1));
        assert(rest.skip(k) =~= points.skip(k).drop_last());
    } else {
        assert(points.take(k + 1) =~= points);
        assert(points.skip(k).len() == 1);
    }
}

/// A verdict is told apart by its kind, and a degraded one by its reason.
pub proof fn law_verdicts_are_told_apart(v: HealthVerdict)
    ensures
        v@ is Healthy <==> v is Healthy,
        v@ is Inconclusive <==> v is Inconclusive,
        v matches HealthVerdict::Degraded(reason) ==> v@ == VerdictView::Degraded(reason@),
{
}

} // verus!
