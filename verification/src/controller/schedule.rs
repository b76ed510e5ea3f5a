//! The schedule pass: driving proactive floors.
use vstd::prelude::*;
#[allow(unused_imports)]
use vstd::math::{max, min};

#[allow(unused_imports)]
use crate::applier::{installed, object1, schedule_triggers, triggers_of};
use crate::applier::{keda_schedule_in_sync, schedule_patch_for_keda};
#[allow(unused_imports)]
use crate::clock::weekday_of_day;
use crate::clock::Timestamp;
use crate::controller::history::History;
#[allow(unused_imports)]
use crate::controller::history::points_of;
use crate::controller::{evict_absent, is_watched, workload_key};
#[allow(unused_imports)]
use crate::controller::{key_text, watched};
#[allow(unused_imports)]
use crate::crd::window_views;
use crate::crd::{Phase, ScheduleWindowSpec, TargetKind};
#[allow(unused_imports)]
use crate::cron::cron_active;
use crate::cron::cron_window_active;
#[allow(unused_imports)]
use crate::domain::WindowView;
use crate::domain::{MetricPoint, WorkloadConfig};
use crate::field_map::FieldMap;
#[allow(unused_imports)]
use crate::forecast::{day_bins, weekly_index, ForecastParams};
#[allow(unused_imports)]
use crate::json::{items_view, member_of, opt_view, JsonView};
use crate::json::{member_in, put_member, Json};
#[allow(unused_imports)]
use crate::rules::{peak_demand, PeakMeasures};
use crate::sample::Sample;
#[allow(unused_imports)]
use crate::schedule::{
    law_exceeding_bin_has_a_window, law_open_window_surrounds_a_stretch, schedule_of, Demand,
};
#[allow(unused_imports)]
use crate::status::{in_phase, text_view, PatchView, ProbationView, StatusView};
use crate::status::{phase_is, ProbationPatch, Recommendation, StatusPatch};
#[allow(unused_imports)]
use crate::text::views;

verus! {

/// Consecutive idle observations inside windows before a schedule is retracted (peak not real).
pub const RETRACT_AFTER_IDLE_SAMPLES: u32 = 6;

// ---------------------------------------------------------------------------------------------
// Decisions

/// The highest floor that any window active at `now` demands.
pub open spec fn active_floor(windows: Seq<WindowView>, now: Timestamp) -> Option<i32>
    decreases windows.len(),
{
    if windows.len() == 0 {
        None
    } else {
        let before = active_floor(windows.drop_last(), now);
        let last = windows.last();
        if cron_active(last.start_cron, last.duration_minutes, now) {
            match before {
                Some(floor) => if floor < last.min_replicas {
                    Some(last.min_replicas)
                } else {
                    Some(floor)
                },
                None => Some(last.min_replicas),
            }
        } else {
            before
        }
    }
}

/// The highest floor any window active at `now` demands, or `None` when outside every window.
pub fn active_window_min(windows: &Vec<ScheduleWindowSpec>, now: Timestamp) -> (r: Option<i32>)
    requires
        now.valid(),
    ensures
        r == active_floor(window_views(windows@), now),
{
    let ghost all = window_views(windows@);
    let mut floor: Option<i32> = None;
    let mut i: usize = 0;
    while i < windows.len()
        invariant
            i <= windows@.len(),
            now.valid(),
            all == window_views(windows@),
            floor == active_floor(all.take(i as int), now),
        decreases windows@.len() - i,
    {
        assert(all.take(i + 1).drop_last() == all.take(i as int));
        assert(all.take(i + 1).last() == windows@[i as int]@);
        let window = &windows[i];
        if cron_window_active(window.start_cron.as_str(), window.duration_minutes, now) {
            floor = match floor {
                Some(f) => if f < window.min_replicas {
                    Some(window.min_replicas)
                } else {
                    Some(f)
                },
                None => Some(window.min_replicas),
            };
        }
        i += 1;
    }
    assert(all.take(all.len() as int) == all);
    floor
}

/// Whether the latest sample shows a pre-scaled floor running idle: below the ceiling. `None`
/// where there is no sample of at most `max_age_s` seconds of age.
pub open spec fn idle_at(
    points: Seq<MetricPoint>,
    ceiling: Sample,
    now: Timestamp,
    max_age_s: int,
) -> Option<bool> {
    if points.len() == 0 || now.instant() - points.last().timestamp.instant() > max_age_s
        * 1_000_000_000 {
        None
    } else {
        Some(points.last().cpu_util.lt(ceiling))
    }
}

/// Whether the latest sample shows a pre-scaled floor running idle. `None` when there is no
/// sufficiently fresh sample, so a metrics gap is treated as "unknown" rather than idle. `ceiling`
/// is half the CPU target.
pub fn window_idle(
    history: Option<&Vec<MetricPoint>>,
    ceiling: Sample,
    now: Timestamp,
    max_age_s: i64,
) -> (r: Option<bool>)
    ensures
        r == match history {
            Some(points) => idle_at(points@, ceiling, now, max_age_s as int),
            None => None,
        },
{
    let points = match history {
        Some(points) => points,
        None => return None,
    };
    if points.len() == 0 {
        return None;
    }
    let point = points[points.len() - 1];
    let age: i128 = (now.secs as i128 - point.timestamp.secs as i128) * 1_000_000_000
        + now.nanos as i128 - point.timestamp.nanos as i128;
    if age > max_age_s as i128 * 1_000_000_000 {
        return None;
    }
    Some(point.cpu_util.below(ceiling))
}

/// Seconds for which a sample counts as fresh: three times the longer of the sampling step and
/// the interval, or a quarter of an hour where that is longer than a time span can hold.
pub fn freshness(metrics_step_s: u64, interval_s: u64) -> (s: i64)
    requires
        metrics_step_s * 3 <= u64::MAX,
        interval_s * 3 <= u64::MAX,
    ensures
        s == ({
            let longer = if metrics_step_s < interval_s {
                interval_s
            } else {
                metrics_step_s
            };
            if longer * 3 > crate::controller::MAX_BUDGET_SECONDS {
                900
            } else {
                longer * 3
            }
        }),
{
    let longer: u64 = if metrics_step_s < interval_s {
        interval_s
    } else {
        metrics_step_s
    };
    if longer * 3 > crate::controller::MAX_BUDGET_SECONDS {
        900
    } else {
        (longer * 3) as i64
    }
}

/// What to do with an HPA's `minReplicas` for a scheduled rec this tick.
#[derive(Debug, Clone, Copy, PartialEq, Eq, Structural)]
pub enum FloorAction {
    SetTo(i32),
    /// Restore the baseline and retire the schedule (stop managing it).
    Retire(i32),
    Keep,
}

/// The floor decision.
pub open spec fn floor_decision(
    rolled_back: bool,
    active: Option<i32>,
    baseline: i32,
    current_min: i32,
) -> FloorAction {
    match active {
        Some(window) => if current_min == window {
            FloorAction::Keep
        } else {
            FloorAction::SetTo(window)
        },
        None => if rolled_back {
            FloorAction::Retire(baseline)
        } else if current_min == baseline {
            FloorAction::Keep
        } else {
            FloorAction::SetTo(baseline)
        },
    }
}

/// Pure floor decision. A live rec (`rolled_back=false`) raises to the active window floor and
/// restores baseline outside any window. A `rolled_back` rec holds its raised floor through an
/// active window (never stomped mid-peak) and, once the window ends, retires to baseline so
/// `minReplicas` is never pinned high forever.
pub fn floor_action(
    rolled_back: bool,
    active: Option<i32>,
    baseline: i32,
    current_min: i32,
) -> (a: FloorAction)
    ensures
        a == floor_decision(rolled_back, active, baseline, current_min),
{
    match active {
        Some(window) => if current_min == window {
            FloorAction::Keep
        } else {
            FloorAction::SetTo(window)
        },
        None => if rolled_back {
            FloorAction::Retire(baseline)
        } else if current_min == baseline {
            FloorAction::Keep
        } else {
            FloorAction::SetTo(baseline)
        },
    }
}

/// The consecutive-idle count after an observation; `None` resets the streak.
pub open spec fn miss_count(current: int, idle: Option<bool>) -> Option<int> {
    if idle == Some(true) {
        Some(current + 1)
    } else {
        None
    }
}

/// Next consecutive-idle miss count, or `None` to reset the streak. Only a fresh idle sample
/// (`Some(true)`) extends it; a busy reading or a stale/missing sample (`Some(false)` / `None`)
/// resets it, so flaky metrics during a real peak can't accumulate into a retraction.
pub fn next_miss_count(current: u32, idle: Option<bool>) -> (r: Option<u32>)
    requires
        idle == Some(true) ==> current < u32::MAX,
    ensures
        match r {
            Some(n) => miss_count(current as int, idle) == Some(n as int),
            None => miss_count(current as int, idle) is None,
        },
{
    match idle {
        Some(true) => Some(current + 1),
        _ => None,
    }
}

// ---------------------------------------------------------------------------------------------
// Which schedules are driven

/// Whether a status is in a phase in which its schedule is driven. A degraded change is still
/// applied (held for re-judgement); a rolled-back one needs its floor restored to the baseline at
/// the window's end.
pub open spec fn driven_phase(status: StatusView) -> bool {
    in_phase(status, Phase::Applied) || in_phase(status, Phase::Verified) || in_phase(
        status,
        Phase::Degraded,
    ) || in_phase(status, Phase::RolledBack)
}

/// Whether a recommendation's schedule is driven: it has one, it is approved and applied, the
/// schedule was not retracted, and the operator acts in its namespace.
pub open spec fn driven(rec: Recommendation, list: Seq<Seq<char>>) -> bool {
    &&& rec.spec.schedule is Some
    &&& rec.spec.approved
    &&& driven_phase(rec.status_view())
    &&& rec.status_view().schedule_active != Some(false)
    &&& rec.namespace is Some && watched(list, rec.namespace->0@)
}

/// A schedule to be driven: the recommendation's place in the list, its key, and its target.
#[derive(Debug)]
pub struct ScheduleTarget {
    pub index: usize,
    pub namespace: String,
    pub name: String,
    pub key: String,
    pub target: String,
}

/// Whether a target is that of a recommendation.
pub open spec fn targets(t: ScheduleTarget, rec: Recommendation) -> bool {
    &&& rec.namespace is Some && t.namespace@ == rec.namespace->0@
    &&& t.name@ == rec.name@
    &&& t.key@ == key_text(rec.namespace->0@, rec.name@)
    &&& t.target@ == rec.spec.target_ref.name@
}

/// What the schedule pass does next.
#[derive(Debug)]
pub enum ScheduleStep {
    /// Nothing to do for this recommendation.
    Skip,
    /// Bring the ScaledObject's cron triggers in line ([`keda_schedule_patch`]), then mark the
    /// schedule active ([`keda_schedule_status`]). KEDA's cron scaler self-manages the time-based
    /// scaling.
    Keda(ScheduleTarget),
    /// Read the HPA, then carry out the effects ([`schedule_effects`]).
    Hpa(ScheduleTarget),
    /// The deadline is reached: the remaining schedules are driven next tick.
    Deadline { skipped: usize, total: usize },
    /// All recommendations are done.
    Done,
}

/// The schedule pass over the listed recommendations, in the namespaces in which the operator acts
/// (any, where none is listed): the keys of the schedules it drives, and whether it reached the end
/// of the list.
#[derive(Debug)]
pub struct SchedulePass {
    pub items: Vec<Recommendation>,
    pub index: usize,
    pub deadline: Timestamp,
    pub namespaces: Vec<String>,
    pub seen: Vec<String>,
    pub completed: bool,
}

fn schedule_flag(rec: &Recommendation) -> (r: Option<bool>)
    ensures
        r == rec.status_view().schedule_active,
{
    match &rec.status {
        Some(status) => status.schedule_active,
        None => None,
    }
}

fn is_driven(rec: &Recommendation, namespaces: &Vec<String>) -> (b: bool)
    ensures
        b == driven(*rec, views(namespaces@)),
{
    if rec.spec.schedule.is_none() || !rec.spec.approved {
        return false;
    }
    match &rec.namespace {
        Some(namespace) => {
            if !is_watched(namespaces, namespace.as_str()) {
                return false;
            }
        },
        None => return false,
    }
    if !phase_is(rec, Phase::Applied) && !phase_is(rec, Phase::Verified) && !phase_is(
        rec,
        Phase::Degraded,
    ) && !phase_is(rec, Phase::RolledBack) {
        return false;
    }
    match schedule_flag(rec) {
        Some(active) => active,
        None => true,
    }
}

impl SchedulePass {
    pub fn new(items: Vec<Recommendation>, deadline: Timestamp, namespaces: Vec<String>) -> (p:
        Self)
        ensures
            p.items == items,
            p.index == 0,
            p.deadline == deadline,
            p.namespaces == namespaces,
            p.seen@.len() == 0,
            p.completed,
    {
        SchedulePass { items, index: 0, deadline, namespaces, seen: Vec::new(), completed: true }
    }

    /// The next step, by the clock. Each call takes one recommendation; the deadline ends the
    /// pass.
    pub fn next(&mut self, clock: Timestamp) -> (step: ScheduleStep)
        requires
            old(self).index <= old(self).items@.len(),
        ensures
            final(self).items == old(self).items,
            final(self).deadline == old(self).deadline,
            final(self).namespaces == old(self).namespaces,
            final(self).index <= final(self).items@.len(),
            if old(self).index == old(self).items@.len() {
                step is Done && *final(self) == *old(self)
            } else if !clock.precedes(old(self).deadline) {
                &&& step == (ScheduleStep::Deadline {
                    skipped: (old(self).items@.len() - old(self).index) as usize,
                    total: old(self).items@.len() as usize,
                })
                &&& final(self).index == old(self).items@.len()
                &&& !final(self).completed
                &&& final(self).seen == old(self).seen
            } else {
                let rec = old(self).items@[old(self).index as int];
                &&& final(self).index == old(self).index + 1
                &&& final(self).completed == old(self).completed
                &&& if driven(rec, views(old(self).namespaces@)) {
                    &&& views(final(self).seen@) == views(old(self).seen@).push(
                        key_text(rec.namespace->0@, rec.name@),
                    )
                    &&& match rec.spec.target_ref.kind {
                        TargetKind::ScaledObject => step matches ScheduleStep::Keda(t) && targets(
                            t,
                            rec,
                        ) && t.index == old(self).index,
                        TargetKind::HorizontalPodAutoscaler => step matches ScheduleStep::Hpa(t)
                            && targets(t, rec) && t.index == old(self).index,
                    }
                } else {
                    step is Skip && final(self).seen == old(self).seen
                }
            },
    {
        let total: usize = self.items.len();
        if self.index >= total {
            return ScheduleStep::Done;
        }
        if !clock.earlier_than(self.deadline) {
            let skipped: usize = total - self.index;
            self.index = total;
            self.completed = false;
            return ScheduleStep::Deadline { skipped, total };
        }
        let at: usize = self.index;
        self.index = at + 1;
        let rec = &self.items[at];
        if !is_driven(rec, &self.namespaces) {
            return ScheduleStep::Skip;
        }
        let namespace = match &rec.namespace {
            Some(namespace) => namespace.clone(),
            None => return ScheduleStep::Skip,
        };
        let name = rec.name.clone();
        let key = workload_key(namespace.as_str(), name.as_str());
        let target = rec.spec.target_ref.name.clone();
        let kind = rec.spec.target_ref.kind;
        let ghost before = self.seen@;
        self.seen.push(key.clone());
        assert(views(self.seen@) =~= views(before).push(key@));
        let t = ScheduleTarget { index: at, namespace, name, key, target };
        match kind {
            TargetKind::ScaledObject => ScheduleStep::Keda(t),
            TargetKind::HorizontalPodAutoscaler => ScheduleStep::Hpa(t),
        }
    }

    /// Drop the miss counters of recommendations that no longer exist or are no longer driven -
    /// only after a complete pass, so a deadline-truncated pass doesn't reset the streaks of those
    /// it never reached.
    pub fn finish(&self, misses: &mut FieldMap<u32>)
        ensures
            final(misses)@ == if self.completed {
                old(misses)@.restrict(
                    Set::new(|k: Seq<char>| views(self.seen@).contains(k)),
                )
            } else {
                old(misses)@
            },
    {
        if self.completed {
            evict_absent(misses, &self.seen);
        }
    }
}

// ---------------------------------------------------------------------------------------------
// Driving an HPA's floor

/// One effect of driving a schedule, in the order in which they are carried out; the first that
/// fails ends the pass.
#[derive(Debug)]
pub enum ScheduleEffect {
    /// Set the HPA's `minReplicas` ([`floor_patch`]).
    SetFloor(i32),
    /// Change the recommendation's status.
    Status(StatusPatch),
    /// Remember the idle streak.
    Remember(u32),
    /// Forget the idle streak.
    Forget,
}

/// What an effect is.
pub ghost enum EffectView {
    SetFloor(i32),
    Status(PatchView),
    Remember(int),
    Forget,
}

impl View for ScheduleEffect {
    type V = EffectView;

    open spec fn view(&self) -> EffectView {
        match *self {
            ScheduleEffect::SetFloor(n) => EffectView::SetFloor(n),
            ScheduleEffect::Status(p) => EffectView::Status(p@),
            ScheduleEffect::Remember(n) => EffectView::Remember(n as int),
            ScheduleEffect::Forget => EffectView::Forget,
        }
    }
}

/// What a list of effects is.
pub open spec fn effect_views(effects: Seq<ScheduleEffect>) -> Seq<EffectView> {
    effects.map_values(|e: ScheduleEffect| e@)
}

/// The change that switches a schedule on, or off with a reason.
pub open spec fn schedule_flag_record(active: bool, detail: Option<Seq<char>>) -> PatchView {
    PatchView {
        phase: None,
        applied_at: None,
        probation_until: ProbationView::Keep,
        schedule_active: Some(active),
        detail,
    }
}

fn flag_patch(active: bool, detail: Option<String>) -> (p: StatusPatch)
    ensures
        p@ == schedule_flag_record(active, text_view(detail)),
{
    StatusPatch {
        phase: None,
        applied_at: None,
        probation_until: ProbationPatch::Keep,
        schedule_active: Some(active),
        detail,
    }
}

/// The effects for a rolled-back change: a scalar rollback must not orphan the schedule's floor.
/// The raised floor is held through an active window (never stomped mid-peak); then the baseline
/// is restored and the schedule retired, so `minReplicas` returns to the baseline, not pinned
/// high.
pub open spec fn rolled_back_effects(
    active: Option<i32>,
    baseline: i32,
    current_min: i32,
) -> Seq<EffectView> {
    match floor_decision(true, active, baseline, current_min) {
        FloorAction::SetTo(min) => seq![EffectView::SetFloor(min)],
        FloorAction::Retire(min) => {
            let retired = EffectView::Status(
                schedule_flag_record(
                    false,
                    Some("schedule retired: baseline restored after rollback"@),
                ),
            );
            if current_min != min {
                seq![EffectView::SetFloor(min), retired]
            } else {
                seq![retired]
            }
        },
        FloorAction::Keep => Seq::empty(),
    }
}

/// The effects for a live change: retract the schedule after enough consecutive fresh idle
/// observations inside its windows, else keep count and hold the floor where the time of day
/// wants it. The off-peak floor comes from the recommendation, never from the live `minReplicas`
/// (which is the raised floor while inside a window) - otherwise the floor would ratchet upward.
pub open spec fn live_effects(
    active: Option<i32>,
    baseline: i32,
    current_min: i32,
    misses: int,
    idle: Option<bool>,
    flag: Option<bool>,
) -> Seq<EffectView> {
    let count = if active is Some {
        miss_count(misses, idle)
    } else {
        None
    };
    if count is Some && count->0 >= RETRACT_AFTER_IDLE_SAMPLES {
        seq![
            EffectView::SetFloor(baseline),
            EffectView::Status(
                schedule_flag_record(
                    false,
                    Some("schedule retracted: forecasted peak not materializing"@),
                ),
            ),
            EffectView::Forget,
        ]
    } else {
        let streak = match count {
            Some(n) => EffectView::Remember(n),
            None => EffectView::Forget,
        };
        let floor = match floor_decision(false, active, baseline, current_min) {
            FloorAction::SetTo(min) => seq![EffectView::SetFloor(min)],
            _ => Seq::empty(),
        };
        let mark = if flag is None {
            seq![EffectView::Status(schedule_flag_record(true, None))]
        } else {
            Seq::empty()
        };
        seq![streak] + floor + mark
    }
}

/// The effects of driving a recommendation's schedule on an HPA.
pub open spec fn effects_of(
    rec: Recommendation,
    config: WorkloadConfig,
    misses: int,
    idle: Option<bool>,
    now: Timestamp,
) -> Seq<EffectView> {
    let diff = rec.spec.config_diff@;
    if rec.spec.schedule is None || !diff.dom().contains("min_replicas"@) {
        Seq::empty()
    } else {
        let baseline = diff["min_replicas"@].to;
        let active = active_floor(window_views(rec.spec.schedule->0@), now);
        if in_phase(rec.status_view(), Phase::RolledBack) {
            rolled_back_effects(active, baseline, config.min_replicas)
        } else {
            live_effects(
                active,
                baseline,
                config.min_replicas,
                misses,
                idle,
                rec.status_view().schedule_active,
            )
        }
    }
}

/// The idle streak kept under a key.
pub open spec fn streak_of(misses: Map<Seq<char>, u32>, key: Seq<char>) -> u32 {
    if misses.dom().contains(key) {
        misses[key]
    } else {
        0
    }
}

/// Whether an observation extends the idle streak: a live change with a baseline is inside one of
/// its windows, and the sample is fresh and idle.
pub open spec fn extends_streak(rec: Recommendation, idle: Option<bool>, now: Timestamp) -> bool {
    &&& rec.spec.schedule is Some
    &&& rec.spec.config_diff@.dom().contains("min_replicas"@)
    &&& !in_phase(rec.status_view(), Phase::RolledBack)
    &&& active_floor(window_views(rec.spec.schedule->0@), now) is Some
    &&& idle == Some(true)
}

/// The effects of driving a recommendation's schedule on an HPA with the live `config`. Without a
/// `min_replicas` baseline in the recommendation there are none. `ceiling` is half the CPU target.
pub fn schedule_effects(
    rec: &Recommendation,
    key: &str,
    config: &WorkloadConfig,
    history: &History,
    misses: &FieldMap<u32>,
    ceiling: Sample,
    now: Timestamp,
    max_age_s: i64,
) -> (effects: Vec<ScheduleEffect>)
    requires
        now.valid(),
        extends_streak(
            *rec,
            idle_at(points_of(history@, key@), ceiling, now, max_age_s as int),
            now,
        ) ==> streak_of(misses@, key@) < u32::MAX,
    ensures
        effect_views(effects@) == effects_of(
            *rec,
            *config,
            streak_of(misses@, key@) as int,
            idle_at(points_of(history@, key@), ceiling, now, max_age_s as int),
            now,
        ),
{
    let mut effects: Vec<ScheduleEffect> = Vec::new();
    let windows = match &rec.spec.schedule {
        Some(windows) => windows,
        None => {
            assert(effect_views(effects@) =~= Seq::<EffectView>::empty());
            return effects;
        },
    };
    let baseline: i32 = match rec.spec.config_diff.get("min_replicas") {
        Some(d) => d.to,
        None => {
            assert(effect_views(effects@) =~= Seq::<EffectView>::empty());
            return effects;
        },
    };
    let active = active_window_min(windows, now);
    let current: i32 = config.min_replicas;
    let ghost count = streak_of(misses@, key@) as int;
    let ghost observed = idle_at(points_of(history@, key@), ceiling, now, max_age_s as int);
    if phase_is(rec, Phase::RolledBack) {
        match floor_action(true, active, baseline, current) {
            FloorAction::SetTo(min) => {
                effects.push(ScheduleEffect::SetFloor(min));
            },
            FloorAction::Retire(min) => {
                if current != min {
                    effects.push(ScheduleEffect::SetFloor(min));
                }
                let reason = "schedule retired: baseline restored after rollback".to_owned();
                effects.push(ScheduleEffect::Status(flag_patch(false, Some(reason))));
            },
            FloorAction::Keep => {},
        }
        assert(effect_views(effects@) =~= rolled_back_effects(active, baseline, current));
        return effects;
    }
    if active.is_some() {
        let idle = window_idle(history.get(key), ceiling, now, max_age_s);
        assert(idle == observed);
        let before: u32 = match misses.get(key) {
            Some(n) => *n,
            None => 0,
        };
        match next_miss_count(before, idle) {
            Some(n) => {
                if n >= RETRACT_AFTER_IDLE_SAMPLES {
                    effects.push(ScheduleEffect::SetFloor(baseline));
                    let reason =
                        "schedule retracted: forecasted peak not materializing".to_owned();
                    effects.push(ScheduleEffect::Status(flag_patch(false, Some(reason))));
                    effects.push(ScheduleEffect::Forget);
                    assert(effect_views(effects@) =~= live_effects(
                        active,
                        baseline,
                        current,
                        count,
                        observed,
                        rec.status_view().schedule_active,
                    ));
                    return effects;
                }
                effects.push(ScheduleEffect::Remember(n));
            },
            None => {
                effects.push(ScheduleEffect::Forget);
            },
        }
    } else {
        effects.push(ScheduleEffect::Forget);
    }
    match floor_action(false, active, baseline, current) {
        FloorAction::SetTo(min) => {
            effects.push(ScheduleEffect::SetFloor(min));
        },
        _ => {},
    }
    if schedule_flag(rec).is_none() {
        effects.push(ScheduleEffect::Status(flag_patch(true, None)));
    }
    assert(effect_views(effects@) =~= live_effects(
        active,
        baseline,
        current,
        count,
        observed,
        rec.status_view().schedule_active,
    ));
    effects
}

/// The merge-patch that sets an HPA's `minReplicas`.
pub fn floor_patch(min_replicas: i32) -> (j: Json)
    ensures
        j@ == object1(
            "spec"@,
            object1("minReplicas"@, JsonView::Whole(min_replicas as int)),
        ),
{
    let mut spec: Vec<(String, Json)> = Vec::new();
    put_member(&mut spec, "minReplicas", Json::whole(min_replicas as i64));
    let mut patch: Vec<(String, Json)> = Vec::new();
    put_member(&mut patch, "spec", Json::Object(spec));
    Json::Object(patch)
}

// ---------------------------------------------------------------------------------------------
// KEDA

/// The triggers of a ScaledObject, none where it has no such array.
pub open spec fn existing_triggers(scaled_object: JsonView) -> Seq<JsonView> {
    match member_of(member_of(Some(scaled_object), "spec"@), "triggers"@) {
        Some(JsonView::Array(triggers)) => triggers,
        _ => Seq::empty(),
    }
}

/// The patch that brings a ScaledObject's managed cron triggers in line with a schedule; `None`
/// where they already are.
pub fn keda_schedule_patch(scaled_object: &Json, windows: &Vec<ScheduleWindowSpec>) -> (r: Option<
    Json,
>)
    ensures
        ({
            let existing = existing_triggers(scaled_object@);
            let wanted = window_views(windows@);
            if triggers_of(existing, true) == schedule_triggers(wanted) {
                r is None
            } else {
                r is Some && r->0@ == object1(
                    "spec"@,
                    object1("triggers"@, JsonView::Array(installed(existing, wanted))),
                )
            }
        }),
{
    let none: Vec<Json> = Vec::new();
    let existing: &Vec<Json> = match member_in(scaled_object.get("spec"), "triggers") {
        Some(j) => match j.as_array() {
            Some(items) => items,
            None => &none,
        },
        None => &none,
    };
    assert(items_view(existing@) == existing_triggers(scaled_object@));
    if keda_schedule_in_sync(existing, windows) {
        None
    } else {
        Some(schedule_patch_for_keda(existing, windows))
    }
}

/// The status change that marks a ScaledObject's schedule active once its triggers are in line;
/// `None` where the status already carries the flag.
pub fn keda_schedule_status(rec: &Recommendation) -> (r: Option<StatusPatch>)
    ensures
        match r {
            Some(p) => rec.status_view().schedule_active is None && p@ == schedule_flag_record(
                true,
                None,
            ),
            None => rec.status_view().schedule_active is Some,
        },
{
    if schedule_flag(rec).is_none() {
        Some(flag_patch(true, None))
    } else {
        None
    }
}

// ---------------------------------------------------------------------------------------------
// Laws

/// The highest active floor is that of an active window.
#[verifier::spinoff_prover]
pub proof fn lemma_active_floor(windows: Seq<WindowView>, now: Timestamp)
    ensures
        match active_floor(windows, now) {
            Some(floor) => (exists|i: int|
                0 <= i < windows.len() && (#[trigger] windows[i]).min_replicas == floor
                    && cron_active(windows[i].start_cron, windows[i].duration_minutes, now))
                && forall|i: int|
                0 <= i < windows.len() && cron_active(
                    (#[trigger] windows[i]).start_cron,
                    windows[i].duration_minutes,
                    now,
                ) ==> windows[i].min_replicas <= floor,
            None => forall|i: int|
                0 <= i < windows.len() ==> !cron_active(
                    (#[trigger] windows[i]).start_cron,
                    windows[i].duration_minutes,
                    now,
                ),
        },
    decreases windows.len(),
{
    if windows.len() > 0 {
        let rest = windows.drop_last();
        lemma_active_floor(rest, now);
        let n = rest.len() as int;
        let last = windows[n];
        let on = cron_active(last.start_cron, last.duration_minutes, now);
        assert(forall|i: int| 0 <= i < n ==> #[trigger] windows[i] == rest[i]);
        match (active_floor(rest, now), on) {
            (Some(floor), false) => {
                let i = choose|i: int|
                    0 <= i < rest.len() && (#[trigger] rest[i]).min_replicas == floor
                        && cron_active(rest[i].start_cron, rest[i].duration_minutes, now);
                assert(windows[i].min_replicas == floor);
            },
            (Some(floor), true) => {
                if floor < last.min_replicas {
                    assert(windows[n].min_replicas == last.min_replicas);
                } else {
                    let i = choose|i: int|
                        0 <= i < rest.len() && (#[trigger] rest[i]).min_replicas == floor
                            && cron_active(rest[i].start_cron, rest[i].duration_minutes, now);
                    assert(windows[i].min_replicas == floor);
                }
            },
            (None, true) => {
                assert(windows[n].min_replicas == last.min_replicas);
            },
            (None, false) => {},
        }
    }
}

/// The floor never ratchets: driving a schedule only ever sets the recommended baseline or the
/// floor of a window that is active now.
pub proof fn law_floor_never_ratchets(
    rec: Recommendation,
    config: WorkloadConfig,
    misses: int,
    idle: Option<bool>,
    now: Timestamp,
    i: int,
    floor: i32,
)
    requires
        0 <= i < effects_of(rec, config, misses, idle, now).len(),
        effects_of(rec, config, misses, idle, now)[i] == EffectView::SetFloor(floor),
    ensures
        floor == rec.spec.config_diff@["min_replicas"@].to || active_floor(
            window_views(rec.spec.schedule->0@),
            now,
        ) == Some(floor),
{
}

/// The floor reaches its place: outside every window, after a pass of a schedule that is driven,
/// it is the baseline, whether it was set or stood there already.
pub proof fn law_baseline_is_restored(
    rec: Recommendation,
    config: WorkloadConfig,
    misses: int,
    idle: Option<bool>,
    now: Timestamp,
)
    requires
        rec.spec.schedule is Some,
        rec.spec.config_diff@.dom().contains("min_replicas"@),
        active_floor(window_views(rec.spec.schedule->0@), now) is None,
    ensures
        ({
            let baseline = rec.spec.config_diff@["min_replicas"@].to;
            config.min_replicas == baseline || effects_of(
                rec,
                config,
                misses,
                idle,
                now,
            ).contains(EffectView::SetFloor(baseline))
        }),
{
    let baseline = rec.spec.config_diff@["min_replicas"@].to;
    let effects = effects_of(rec, config, misses, idle, now);
    if config.min_replicas != baseline {
        if in_phase(rec.status_view(), Phase::RolledBack) {
            assert(effects[0] == EffectView::SetFloor(baseline));
        } else {
            assert(effects[1] == EffectView::SetFloor(baseline));
        }
    }
}

/// The idle streak after a series of observations inside windows.
pub open spec fn streak(observations: Seq<Option<bool>>) -> int
    decreases observations.len(),
{
    if observations.len() == 0 {
        0
    } else {
        match miss_count(streak(observations.drop_last()), observations.last()) {
            Some(n) => n,
            None => 0,
        }
    }
}

/// A schedule is retracted only when its last six observations were all fresh and idle: one busy,
/// stale or missing sample starts the count anew.
pub proof fn law_retraction_needs_six_idle_samples(observations: Seq<Option<bool>>)
    requires
        streak(observations) >= RETRACT_AFTER_IDLE_SAMPLES,
    ensures
        observations.len() >= 6,
        forall|i: int|
            observations.len() - 6 <= i < observations.len() ==> #[trigger] observations[i] == Some(
                true,
            ),
{
    lemma_streak(observations);
}

proof fn lemma_streak(observations: Seq<Option<bool>>)
    ensures
        0 <= streak(observations) <= observations.len(),
        forall|i: int|
            observations.len() - streak(observations) <= i < observations.len()
                ==> #[trigger] observations[i] == Some(true),
    decreases observations.len(),
{
    if observations.len() > 0 {
        let rest = observations.drop_last();
        lemma_streak(rest);
        assert forall|i: int|
            observations.len() - streak(observations) <= i
                < observations.len() implies #[trigger] observations[i] == Some(true) by {
            if i < rest.len() {
                assert(rest[i] == observations[i]);
            }
        }
    }
}

/// Six fresh idle observations in a row do retract a schedule that is driven inside a window.
pub proof fn law_idle_peak_is_retracted(
    rec: Recommendation,
    config: WorkloadConfig,
    now: Timestamp,
)
    requires
        rec.spec.schedule is Some,
        rec.spec.config_diff@.dom().contains("min_replicas"@),
        !in_phase(rec.status_view(), Phase::RolledBack),
        active_floor(window_views(rec.spec.schedule->0@), now) is Some,
    ensures
        effects_of(rec, config, 5, Some(true), now).contains(
            EffectView::Status(
                schedule_flag_record(
                    false,
                    Some("schedule retracted: forecasted peak not materializing"@),
                ),
            ),
        ),
{
    let effects = effects_of(rec, config, 5, Some(true), now);
    assert(effects[1] == EffectView::Status(
        schedule_flag_record(
            false,
            Some("schedule retracted: forecasted peak not materializing"@),
        ),
    ));
}

/// The forecast's peaks are covered: at every instant of a bin that needs more than the baseline,
/// the schedule that was built from it asks for as much, up to the ceiling. A bin's length must
/// fit in an `i32`, as the window's does.
pub proof fn law_forecast_peaks_are_covered(d: Demand, schedule: Seq<WindowView>, now: Timestamp)
    requires
        0 < d.bin_minutes <= i32::MAX,
        d.bins_per_day == day_bins(d.bin_minutes),
        schedule_of(d.peaks(7), schedule),
        now.valid(),
        d.bins[weekly_index(now, d.bin_minutes, d.bins_per_day)] > d.baseline,
    ensures
        ({
            let need = d.bins[weekly_index(now, d.bin_minutes, d.bins_per_day)];
            active_floor(schedule, now) matches Some(floor) && (floor >= need || floor
                >= d.max_replicas)
        }),
{
    law_exceeding_bin_has_a_window(d, schedule, now);
    lemma_active_floor(schedule, now);
}

/// A schedule that is marked active stays driven: the mark alone changes.
pub proof fn law_marked_schedule_stays_driven(
    rec: Recommendation,
    next: Recommendation,
    list: Seq<Seq<char>>,
)
    requires
        driven(rec, list),
        next.spec == rec.spec,
        next.namespace == rec.namespace,
        next.status_view() == crate::status::changed(
            rec.status_view(),
            schedule_flag_record(true, None),
        ),
    ensures
        next.status_view().schedule_active == Some(true),
        driven(next, list),
{
}

/// A retracted schedule is not driven any more.
pub proof fn law_retracted_schedule_rests(
    rec: Recommendation,
    before: StatusView,
    detail: Option<Seq<char>>,
    list: Seq<Seq<char>>,
)
    requires
        rec.status_view() == crate::status::changed(before, schedule_flag_record(false, detail)),
    ensures
        !driven(rec, list),
{
}

/// Inside a window the floor is brought to the window's, from whatever it is, and outside to the
/// baseline; it is left alone where it stands there. A rolled-back change is retired outside.
pub proof fn law_floor_is_brought_to_its_place(
    rolled_back: bool,
    active: Option<i32>,
    baseline: i32,
    current_min: i32,
)
    ensures
        ({
            let action = floor_decision(rolled_back, active, baseline, current_min);
            &&& active is Some && current_min != active->0 ==> action == FloorAction::SetTo(active->0)
            &&& active is Some && current_min == active->0 ==> action == FloorAction::Keep
            &&& active is None && rolled_back ==> action == FloorAction::Retire(baseline)
            &&& active is None && !rolled_back && current_min != baseline ==> action
                == FloorAction::SetTo(baseline)
            &&& active is None && !rolled_back && current_min == baseline ==> action
                == FloorAction::Keep
        }),
{
}

/// After a pass over a schedule that is not retracted in it, the floor is the highest one that an
/// active window asks for, and the baseline outside every window: it stood there already, or it is
/// set, from whatever it was, and then to nothing else.
pub proof fn law_floor_follows_the_schedule(
    rec: Recommendation,
    config: WorkloadConfig,
    misses: int,
    idle: Option<bool>,
    now: Timestamp,
    floor: i32,
)
    requires
        rec.spec.schedule is Some,
        rec.spec.config_diff@.dom().contains("min_replicas"@),
        misses < 5 || idle != Some(true) || rec.status_view().phase == Some("rolledBack"@)
            || active_floor(window_views(rec.spec.schedule->0@), now) is None,
    ensures
        ({
            let effects = effects_of(rec, config, misses, idle, now);
            let active = active_floor(window_views(rec.spec.schedule->0@), now);
            let wanted = match active {
                Some(highest) => highest,
                None => rec.spec.config_diff@["min_replicas"@].to,
            };
            effects.contains(EffectView::SetFloor(floor)) <==> floor == wanted
                && config.min_replicas != wanted
        }),
{
    let effects = effects_of(rec, config, misses, idle, now);
    let baseline = rec.spec.config_diff@["min_replicas"@].to;
    let active = active_floor(window_views(rec.spec.schedule->0@), now);
    if in_phase(rec.status_view(), Phase::RolledBack) {
        if active is Some && config.min_replicas != active->0 {
            assert(effects[0] == EffectView::SetFloor(active->0));
        }
        if active is None && config.min_replicas != baseline {
            assert(effects[0] == EffectView::SetFloor(baseline));
        }
    } else {
        if active is Some && config.min_replicas != active->0 {
            assert(effects[1] == EffectView::SetFloor(active->0));
        }
        if active is None && config.min_replicas != baseline {
            assert(effects[1] == EffectView::SetFloor(baseline));
        }
    }
}

/// A live schedule is retracted exactly on the sixth fresh idle sample in a row inside its windows:
/// the floor goes to the baseline, the schedule is switched off with its reason, and the streak is
/// forgotten, in this order. It is not retracted otherwise.
pub proof fn law_schedule_is_retracted_on_the_sixth_idle_sample(
    rec: Recommendation,
    config: WorkloadConfig,
    misses: int,
    idle: Option<bool>,
    now: Timestamp,
)
    requires
        rec.spec.schedule is Some,
        rec.spec.config_diff@.dom().contains("min_replicas"@),
        rec.status_view().phase != Some("rolledBack"@),
    ensures
        ({
            let effects = effects_of(rec, config, misses, idle, now);
            let active = active_floor(window_views(rec.spec.schedule->0@), now);
            let off = EffectView::Status(
                PatchView {
                    phase: None,
                    applied_at: None,
                    probation_until: ProbationView::Keep,
                    schedule_active: Some(false),
                    detail: Some("schedule retracted: forecasted peak not materializing"@),
                },
            );
            &&& active is Some && idle == Some(true) && misses + 1 >= 6 ==> effects == seq![
                EffectView::SetFloor(rec.spec.config_diff@["min_replicas"@].to),
                off,
                EffectView::Forget,
            ]
            &&& active is None || idle != Some(true) || misses + 1 < 6 ==> forall|i: int|
                0 <= i < effects.len() ==> (#[trigger] effects[i] matches EffectView::Status(p)
                    ==> p.schedule_active == Some(true))
        }),
{
    let effects = effects_of(rec, config, misses, idle, now);
    let active = active_floor(window_views(rec.spec.schedule->0@), now);
    if active is Some && idle == Some(true) && misses + 1 >= 6 {
        assert(effects =~= seq![
            EffectView::SetFloor(rec.spec.config_diff@["min_replicas"@].to),
            EffectView::Status(
                PatchView {
                    phase: None,
                    applied_at: None,
                    probation_until: ProbationView::Keep,
                    schedule_active: Some(false),
                    detail: Some("schedule retracted: forecasted peak not materializing"@),
                },
            ),
            EffectView::Forget,
        ]);
    }
}

/// Of a live schedule that is not retracted, a fresh idle sample inside a window counts one more
/// idle sample, and anything else starts the count anew. The first pass marks the schedule active,
/// after its floor was set; a later one changes no status.
pub proof fn law_live_schedule_keeps_count(
    rec: Recommendation,
    config: WorkloadConfig,
    misses: int,
    idle: Option<bool>,
    now: Timestamp,
    count: int,
)
    requires
        rec.spec.schedule is Some,
        rec.spec.config_diff@.dom().contains("min_replicas"@),
        rec.status_view().phase != Some("rolledBack"@),
        misses < 5 || idle != Some(true) || active_floor(
            window_views(rec.spec.schedule->0@),
            now,
        ) is None,
    ensures
        ({
            let effects = effects_of(rec, config, misses, idle, now);
            let counts = active_floor(window_views(rec.spec.schedule->0@), now) is Some && idle
                == Some(true);
            let on = PatchView {
                phase: None,
                applied_at: None,
                probation_until: ProbationView::Keep,
                schedule_active: Some(true),
                detail: None,
            };
            &&& effects.contains(EffectView::Remember(count)) <==> counts && count == misses + 1
            &&& effects.contains(EffectView::Forget) <==> !counts
            &&& rec.status_view().schedule_active is None ==> effects.last() == EffectView::Status(on)
            &&& rec.status_view().schedule_active is Some ==> forall|i: int|
                0 <= i < effects.len() ==> !(#[trigger] effects[i] is Status)
        }),
{
    let effects = effects_of(rec, config, misses, idle, now);
    let counts = active_floor(window_views(rec.spec.schedule->0@), now) is Some && idle == Some(
        true,
    );
    if counts {
        assert(effects[0] == EffectView::Remember(misses + 1));
    } else {
        assert(effects[0] == EffectView::Forget);
    }
}

/// A rolled-back change's schedule is retired outside its windows, after its floor was restored,
/// and kept inside them; its idle samples are not counted.
pub proof fn law_rolled_back_schedule_is_retired(
    rec: Recommendation,
    config: WorkloadConfig,
    misses: int,
    idle: Option<bool>,
    now: Timestamp,
)
    requires
        rec.spec.schedule is Some,
        rec.spec.config_diff@.dom().contains("min_replicas"@),
        rec.status_view().phase == Some("rolledBack"@),
    ensures
        ({
            let effects = effects_of(rec, config, misses, idle, now);
            let off = EffectView::Status(
                PatchView {
                    phase: None,
                    applied_at: None,
                    probation_until: ProbationView::Keep,
                    schedule_active: Some(false),
                    detail: Some("schedule retired: baseline restored after rollback"@),
                },
            );
            &&& active_floor(window_views(rec.spec.schedule->0@), now) is None ==> effects.len() > 0
                && effects.last() == off
            &&& forall|i: int|
                0 <= i < effects.len() ==> {
                    ||| #[trigger] effects[i] is SetFloor
                    ||| effects[i] == off && active_floor(
                        window_views(rec.spec.schedule->0@),
                        now,
                    ) is None
                }
        }),
{
}

/// Without a schedule, or without a baseline to return to, nothing is driven.
pub proof fn law_nothing_to_drive_has_no_effects(
    rec: Recommendation,
    config: WorkloadConfig,
    misses: int,
    idle: Option<bool>,
    now: Timestamp,
)
    requires
        rec.spec.schedule is None || !rec.spec.config_diff@.dom().contains("min_replicas"@),
    ensures
        effects_of(rec, config, misses, idle, now).len() == 0,
{
}

/// Only a fresh sample says whether a floor runs idle: the last one, at most `max_age_s` old, is
/// idle exactly where its CPU lies below the ceiling.
pub proof fn law_only_a_fresh_sample_is_idle(
    points: Seq<MetricPoint>,
    ceiling: Sample,
    now: Timestamp,
    max_age_s: int,
)
    ensures
        points.len() == 0 ==> idle_at(points, ceiling, now, max_age_s) is None,
        points.len() > 0 ==> {
            let last = points[points.len() - 1];
            let fresh = now.instant() <= last.timestamp.instant() + max_age_s * 1_000_000_000;
            &&& fresh ==> idle_at(points, ceiling, now, max_age_s) == Some(
                last.cpu_util.lt(ceiling),
            )
            &&& !fresh ==> idle_at(points, ceiling, now, max_age_s) is None
        },
{
}

/// A fresh idle sample counts one more; a busy, stale or missing one starts anew.
pub proof fn law_only_idle_samples_count(current: int)
    ensures
        miss_count(current, Some(true)) == Some(current + 1),
        miss_count(current, Some(false)) is None,
        miss_count(current, None) is None,
{
}

/// A schedule is driven exactly while its change is approved and applied (verified, held degraded
/// and rolled-back ones among them), it was not switched off, and the operator acts in its
/// namespace.
pub proof fn law_driven_schedules(rec: Recommendation, list: Seq<Seq<char>>)
    ensures
        driven(rec, list) <==> {
            let status = rec.status_view();
            &&& rec.spec.schedule is Some
            &&& rec.spec.approved
            &&& {
                ||| status.phase == Some("applied"@)
                ||| status.phase == Some("verified"@)
                ||| status.phase == Some("degraded"@)
                ||| status.phase == Some("rolledBack"@)
            }
            &&& status.schedule_active is None || status.schedule_active == Some(true)
            &&& rec.namespace is Some
            &&& list.len() == 0 || list.contains(rec.namespace->0@)
        },
{
    if let Some(active) = rec.status_view().schedule_active {
        assert(active == true || active == false);
    }
}

/// A forecast raises the floor only around a recurring peak: at any instant at which it does, a
/// stretch of bins that each need more than the off-peak level (kept within one replica and the
/// static floor) lies around it or begins within the lead, and the floor is the highest need of
/// that stretch, up to the ceiling. So a bin that needs no more is in no window on its own account.
/// The result is the day on which the window opened, the stretch, and its bin with the highest
/// need.
pub proof fn law_floor_is_raised_only_around_peaks(
    config: WorkloadConfig,
    params: ForecastParams,
    m: PeakMeasures,
    schedule: Seq<WindowView>,
    now: Timestamp,
) -> (w: (int, int, int, int))
    requires
        0 < params.bin_minutes <= i32::MAX,
        m.projected@.len() == 7 * day_bins(params.bin_minutes),
        schedule_of(peak_demand(config, params, m).peaks(7), schedule),
        active_floor(schedule, now) is Some,
    ensures
        ({
            let (day, from, to, top) = w;
            let per_day = m.projected@.len() as int / 7;
            let row = weekday_of_day(day) * per_day;
            let off_peak = min(config.min_replicas as int, max(1, m.off_peak as int));
            let lead = max(0, min(params.prescale_lead_minutes as int, i32::MAX as int));
            &&& 0 <= from <= top < to <= per_day
            &&& forall|k: int|
                from <= k < to ==> off_peak < #[trigger] m.projected@[row + k] <= m.projected@[row
                    + top]
            &&& from == 0 || m.projected@[row + from - 1] <= off_peak
            &&& to == per_day || m.projected@[row + to] <= off_peak
            &&& (day * 1440 + max(0, from * params.bin_minutes - lead)) * 60_000_000_000
                <= now.instant() < (day * 1440 + to * params.bin_minutes) * 60_000_000_000
            &&& active_floor(schedule, now)->0 == min(
                m.projected@[row + top] as int,
                config.max_replicas as int,
            )
        }),
{
    let d = peak_demand(config, params, m);
    crate::rules::law_forecast_is_built_from_its_figures(config, params, m);
    lemma_active_floor(schedule, now);
    let floor = active_floor(schedule, now)->0;
    let i = choose|i: int|
        0 <= i < schedule.len() && (#[trigger] schedule[i]).min_replicas == floor && cron_active(
            schedule[i].start_cron,
            schedule[i].duration_minutes,
            now,
        );
    law_open_window_surrounds_a_stretch(d, schedule, i, now)
}

/// A target to be driven is the recommendation's own: its namespace, its name, its key and the
/// object it is for.
pub proof fn law_target_is_the_recommendations_own(t: ScheduleTarget, rec: Recommendation)
    requires
        targets(t, rec),
    ensures
        rec.namespace is Some,
        t.namespace@ == rec.namespace->0@,
        t.name@ == rec.name@,
        t.key@ == rec.namespace->0@ + "/"@ + rec.name@,
        t.target@ == rec.spec.target_ref.name@,
{
}

/// The triggers of a ScaledObject are the array under its spec, and none where there is no such
/// array.
pub proof fn law_existing_triggers_are_those_of_the_spec(
    object: Map<Seq<char>, JsonView>,
    spec: Map<Seq<char>, JsonView>,
    triggers: Seq<JsonView>,
)
    requires
        object.dom().contains("spec"@),
        object["spec"@] == JsonView::Object(spec),
    ensures
        spec.dom().contains("triggers"@) && spec["triggers"@] == JsonView::Array(triggers)
            ==> existing_triggers(JsonView::Object(object)) == triggers,
        !spec.dom().contains("triggers"@) ==> existing_triggers(JsonView::Object(object)).len() == 0,
{
}

/// The highest floor is asked for by an active window, and no active window asks for more; without
/// an active window nothing is asked for.
pub proof fn law_highest_active_floor(windows: Seq<WindowView>, now: Timestamp, i: int) -> (top: int)
    requires
        0 <= i < windows.len(),
        cron_active(windows[i].start_cron, windows[i].duration_minutes, now),
    ensures
        0 <= top < windows.len(),
        cron_active(windows[top].start_cron, windows[top].duration_minutes, now),
        active_floor(windows, now) == Some(windows[top].min_replicas),
        windows[i].min_replicas <= windows[top].min_replicas,
{
    lemma_active_floor(windows, now);
    let floor = active_floor(windows, now)->0;
    choose|top: int|
        0 <= top < windows.len() && (#[trigger] windows[top]).min_replicas == floor && cron_active(
            windows[top].start_cron,
            windows[top].duration_minutes,
            now,
        )
}

/// Outside every window no floor is asked for.
pub proof fn law_no_floor_outside_windows(windows: Seq<WindowView>, now: Timestamp)
    requires
        forall|i: int|
            0 <= i < windows.len() ==> !cron_active(
                (#[trigger] windows[i]).start_cron,
                windows[i].duration_minutes,
                now,
            ),
    ensures
        active_floor(windows, now) is None,
{
    lemma_active_floor(windows, now);
}

/// The idle streak under a key is the one remembered last, no other key's, and none once it is
/// forgotten.
pub proof fn law_streaks_are_kept_by_key(
    misses: Map<Seq<char>, u32>,
    key: Seq<char>,
    other: Seq<char>,
    n: u32,
)
    ensures
        streak_of(misses.insert(key, n), key) == n,
        streak_of(misses.remove(key), key) == 0,
        other != key ==> streak_of(misses.insert(key, n), other) == streak_of(misses, other),
        other != key ==> streak_of(misses.remove(key), other) == streak_of(misses, other),
{
}

/// Effects are told apart by what they carry out, one for one and in their order.
pub proof fn law_effects_are_told_apart(a: Seq<ScheduleEffect>, b: Seq<ScheduleEffect>)
    ensures
        effect_views(a).len() == a.len(),
        effect_views(a + b) == effect_views(a) + effect_views(b),
        forall|i: int| #![trigger a[i]]
            0 <= i < a.len() ==> match a[i] {
                ScheduleEffect::SetFloor(n) => effect_views(a)[i] == EffectView::SetFloor(n),
                ScheduleEffect::Status(p) => effect_views(a)[i] == EffectView::Status(p@),
                ScheduleEffect::Remember(n) => effect_views(a)[i] == EffectView::Remember(n as int),
                ScheduleEffect::Forget => effect_views(a)[i] == EffectView::Forget,
            },
{
    assert(effect_views(a + b) =~= effect_views(a) + effect_views(b));
}

} // verus!
