//! The verify pass: judging applied changes after their probation.
use vstd::prelude::*;

#[allow(unused_imports)]
use crate::applier::patch_view;
use crate::applier::revert_patch_for;
use crate::clock::{parse_rfc3339, write_rfc3339, Timestamp, MAX_SECS, MIN_SECS};
#[allow(unused_imports)]
use crate::clock::{rfc3339_time, rfc3339_written};
use crate::controller::{is_watched, workload_key};
#[allow(unused_imports)]
use crate::controller::{key_text, watched};
use crate::crd::{DiffEntry, DiffMap, Phase, TargetKind};
use crate::domain::MetricPoint;
use crate::json::Json;
#[allow(unused_imports)]
use crate::safety::VerdictView;
use crate::safety::HealthVerdict;
#[allow(unused_imports)]
use crate::status::{changed, in_phase, text_view, PatchView, ProbationView, StatusView};
use crate::status::{phase_is, ProbationPatch, Recommendation, StatusPatch};
#[allow(unused_imports)]
use crate::text::views;

verus! {

// ---------------------------------------------------------------------------------------------
// Which recommendations are judged

/// The end of the probation that a status records.
pub open spec fn probation_end(status: StatusView) -> Option<Timestamp> {
    match status.probation_until {
        Some(s) => rfc3339_time(s),
        None => None,
    }
}

/// The instant of the apply that a status records.
pub open spec fn apply_instant(status: StatusView) -> Option<Timestamp> {
    match status.applied_at {
        Some(s) => rfc3339_time(s),
        None => None,
    }
}

/// Whether a recommendation is due to be judged: an HPA change, freshly applied or held degraded
/// (so a recovered workload reaches `verified` and a still-degraded one can be reverted later),
/// whose recorded probation has passed, in a namespace in which the operator acts.
pub open spec fn judgement_due(
    rec: Recommendation,
    now: Timestamp,
    list: Seq<Seq<char>>,
) -> bool {
    let status = rec.status_view();
    &&& in_phase(status, Phase::Applied) || in_phase(status, Phase::Degraded)
    &&& rec.spec.target_ref.kind == TargetKind::HorizontalPodAutoscaler
    &&& probation_end(status) is Some && !now.precedes(probation_end(status)->0)
    &&& apply_instant(status) is Some
    &&& rec.namespace is Some && watched(list, rec.namespace->0@)
}

/// A change to be judged: its target, the key of its history, and the instant of its apply.
#[derive(Debug)]
pub struct Judgement {
    pub namespace: String,
    pub name: String,
    pub target: String,
    pub key: String,
    pub applied_at: Timestamp,
}

/// Whether a judgement is that of a recommendation.
pub open spec fn judges(j: Judgement, rec: Recommendation) -> bool {
    &&& rec.namespace is Some && j.namespace@ == rec.namespace->0@
    &&& j.name@ == rec.name@
    &&& j.target@ == rec.spec.target_ref.name@
    &&& j.key@ == key_text(rec.namespace->0@, rec.name@)
    &&& apply_instant(rec.status_view()) == Some(j.applied_at)
}

/// The change to be judged of a recommendation, where one is due in the listed namespaces (any,
/// where none is listed).
pub fn verify_step(rec: &Recommendation, now: Timestamp, namespaces: &Vec<String>) -> (r: Option<
    Judgement,
>)
    ensures
        match r {
            Some(j) => judgement_due(*rec, now, views(namespaces@)) && judges(j, *rec),
            None => !judgement_due(*rec, now, views(namespaces@)),
        },
{
    if !phase_is(rec, Phase::Applied) && !phase_is(rec, Phase::Degraded) {
        return None;
    }
    let status = match &rec.status {
        Some(status) => status,
        None => return None,
    };
    match rec.spec.target_ref.kind {
        TargetKind::HorizontalPodAutoscaler => {},
        TargetKind::ScaledObject => return None,
    }
    let until = match &status.probation_until {
        Some(s) => match parse_rfc3339(s.as_str()) {
            Some(t) => t,
            None => return None,
        },
        None => return None,
    };
    let applied_at = match &status.applied_at {
        Some(s) => match parse_rfc3339(s.as_str()) {
            Some(t) => t,
            None => return None,
        },
        None => return None,
    };
    if now.earlier_than(until) {
        return None;
    }
    match &rec.namespace {
        Some(namespace) => {
            if !is_watched(namespaces, namespace.as_str()) {
                return None;
            }
            Some(
                Judgement {
                    namespace: namespace.clone(),
                    name: rec.name.clone(),
                    target: rec.spec.target_ref.name.clone(),
                    key: workload_key(namespace.as_str(), rec.name.as_str()),
                    applied_at,
                },
            )
        },
        None => None,
    }
}

// ---------------------------------------------------------------------------------------------
// The windows before and after the apply

/// The points up to and including an instant (or, with `after`, those past it), in order.
pub open spec fn side(points: Seq<MetricPoint>, at: Timestamp, after: bool) -> Seq<MetricPoint>
    decreases points.len(),
{
    if points.len() == 0 {
        Seq::empty()
    } else {
        let before = side(points.drop_last(), at, after);
        if at.precedes(points.last().timestamp) == after {
            before.push(points.last())
        } else {
            before
        }
    }
}

/// Split cached history into pre-apply (`<= applied_at`) and post-apply (`> applied_at`) windows.
/// The apply-instant sample reflects the old state, so it belongs in `before`.
pub fn split_before_after(points: Vec<MetricPoint>, applied_at: Timestamp) -> (r: (
    Vec<MetricPoint>,
    Vec<MetricPoint>,
))
    ensures
        r.0@ == side(points@, applied_at, false),
        r.1@ == side(points@, applied_at, true),
{
    let mut before: Vec<MetricPoint> = Vec::new();
    let mut after: Vec<MetricPoint> = Vec::new();
    let mut i: usize = 0;
    while i < points.len()
        invariant
            i <= points@.len(),
            before@ == side(points@.take(i as int), applied_at, false),
            after@ == side(points@.take(i as int), applied_at, true),
        decreases points@.len() - i,
    {
        assert(points@.take(i + 1).drop_last() == points@.take(i as int));
        if applied_at.earlier_than(points[i].timestamp) {
            after.push(points[i]);
        } else {
            before.push(points[i]);
        }
        i += 1;
    }
    assert(points@.take(points@.len() as int) == points@);
    (before, after)
}

// ---------------------------------------------------------------------------------------------
// What follows a verdict

/// What the verify pass should do with a probationary recommendation - an explicit transition so
/// the phase machine can't drift into contradictory states.
#[derive(Debug, PartialEq, Eq)]
pub enum VerifyAction {
    Verify,
    Extend,
    HoldDegraded(String),
    Revert { reason: String },
}

/// Pure verify-pass decision: maps a health verdict + rollback policy to the next action.
pub fn decide_verify(verdict: HealthVerdict, rollback_enabled: bool) -> (a: VerifyAction)
    ensures
        match verdict {
            HealthVerdict::Healthy => a is Verify,
            HealthVerdict::Inconclusive => a is Extend,
            HealthVerdict::Degraded(reason) => if rollback_enabled {
                a == (VerifyAction::Revert { reason })
            } else {
                a == VerifyAction::HoldDegraded(reason)
            },
        },
{
    match verdict {
        HealthVerdict::Healthy => VerifyAction::Verify,
        HealthVerdict::Inconclusive => VerifyAction::Extend,
        HealthVerdict::Degraded(reason) => if rollback_enabled {
            VerifyAction::Revert { reason }
        } else {
            VerifyAction::HoldDegraded(reason)
        },
    }
}

/// The changes to revert: all, but for the floor where a schedule owns it.
pub open spec fn reverted(diff: Map<Seq<char>, DiffEntry>, has_schedule: bool) -> Map<
    Seq<char>,
    DiffEntry,
> {
    if has_schedule {
        diff.remove("min_replicas"@)
    } else {
        diff
    }
}

/// The config diff to revert, excluding `min_replicas` when the rec carries a schedule (the
/// schedule owns the floor during its window).
pub fn revert_diff(config_diff: &DiffMap, has_schedule: bool) -> (d: DiffMap)
    ensures
        d@ == reverted(config_diff@, has_schedule),
{
    let mut d = config_diff.copied();
    if has_schedule {
        d.remove("min_replicas");
    }
    d
}

/// What follows from a judgement: patch the target back, where there is anything to
/// revert, and then change the status.
#[derive(Debug)]
pub struct VerifyEffect {
    pub revert: Option<Json>,
    pub status: StatusPatch,
}

/// The status change that follows a verdict.
pub open spec fn verify_record(
    verdict: VerdictView,
    rollback_enabled: bool,
    now: Timestamp,
    probation_s: int,
) -> PatchView {
    let again = ProbationView::Until(
        rfc3339_written((now.secs + probation_s) as i64, now.nanos),
    );
    let (phase, probation_until, detail) = match verdict {
        VerdictView::Healthy => (
            Phase::Verified,
            ProbationView::Clear,
            "healthy after probation"@,
        ),
        VerdictView::Inconclusive => (Phase::Applied, again, "awaiting post-apply data"@),
        VerdictView::Degraded(reason) => if rollback_enabled {
            (Phase::RolledBack, ProbationView::Clear, reason)
        } else {
            (Phase::Degraded, again, reason)
        },
    };
    PatchView {
        phase: Some(phase),
        applied_at: None,
        probation_until,
        schedule_active: None,
        detail: Some(detail),
    }
}

/// Whether a verdict sends the change back.
pub open spec fn sends_back(verdict: VerdictView, rollback_enabled: bool) -> bool {
    verdict is Degraded && rollback_enabled
}

/// Whether a verdict leaves the change on probation, with a new end.
pub open spec fn extends_probation(verdict: VerdictView, rollback_enabled: bool) -> bool {
    verdict is Inconclusive || verdict is Degraded && !rollback_enabled
}

/// What the verify pass does after a verdict. Too few post-apply samples extend the probation
/// rather than rubber-stamp the change; a degraded change is reverted, or, with rollback disabled,
/// held for re-judgement with its probation kept set. Reverting leaves the floor alone where a
/// schedule owns it, so a rollback can't stomp the active proactive floor mid-peak. It is not
/// gated on the operating mode: it only ever restores what the operator itself applied.
pub fn verify_effect(
    rec: &Recommendation,
    verdict: HealthVerdict,
    rollback_enabled: bool,
    now: Timestamp,
    probation_s: i64,
) -> (e: VerifyEffect)
    requires
        extends_probation(verdict@, rollback_enabled) ==> now.valid() && MIN_SECS <= now.secs
            + probation_s <= MAX_SECS,
    ensures
        e.status@ == verify_record(verdict@, rollback_enabled, now, probation_s as int),
        ({
            let diff = reverted(rec.spec.config_diff@, rec.spec.schedule is Some);
            if sends_back(verdict@, rollback_enabled) && diff != Map::<
                Seq<char>,
                DiffEntry,
            >::empty() {
                e.revert is Some && e.revert->0@ == patch_view(
                    rec.spec.target_ref.kind,
                    diff,
                    true,
                )
            } else {
                e.revert is None
            }
        }),
        crate::clock::YEAR_ZERO <= now.secs + probation_s <= crate::clock::YEAR_9999 && (
        e.status@.probation_until is Until) ==> rfc3339_time(e.status@.probation_until->Until_0)
            == Some(now.later_by(probation_s as int)),
{
    match decide_verify(verdict, rollback_enabled) {
        VerifyAction::Verify => VerifyEffect {
            revert: None,
            status: StatusPatch {
                phase: Some(Phase::Verified),
                applied_at: None,
                probation_until: ProbationPatch::Clear,
                schedule_active: None,
                detail: Some("healthy after probation".to_owned()),
            },
        },
        VerifyAction::Extend => VerifyEffect {
            revert: None,
            status: StatusPatch {
                phase: Some(Phase::Applied),
                applied_at: None,
                probation_until: ProbationPatch::Until(
                    write_rfc3339(now.plus_seconds(probation_s)),
                ),
                schedule_active: None,
                detail: Some("awaiting post-apply data".to_owned()),
            },
        },
        VerifyAction::HoldDegraded(reason) => VerifyEffect {
            revert: None,
            status: StatusPatch {
                phase: Some(Phase::Degraded),
                applied_at: None,
                probation_until: ProbationPatch::Until(
                    write_rfc3339(now.plus_seconds(probation_s)),
                ),
                schedule_active: None,
                detail: Some(reason),
            },
        },
        VerifyAction::Revert { reason } => {
            let diff = revert_diff(&rec.spec.config_diff, rec.spec.schedule.is_some());
            let revert = if diff.is_empty() {
                None
            } else {
                Some(revert_patch_for(rec.spec.target_ref.kind, &diff))
            };
            VerifyEffect {
                revert,
                status: StatusPatch {
                    phase: Some(Phase::RolledBack),
                    applied_at: None,
                    probation_until: ProbationPatch::Clear,
                    schedule_active: None,
                    detail: Some(reason),
                },
            }
        },
    }
}

// ---------------------------------------------------------------------------------------------
// Laws

/// Every point is on one side of the apply, and the sample of the apply's own instant counts as
/// before.
pub proof fn law_sides_partition(points: Seq<MetricPoint>, at: Timestamp)
    ensures
        side(points, at, false).len() + side(points, at, true).len() == points.len(),
        forall|i: int|
            0 <= i < side(points, at, true).len() ==> at.precedes(
                (#[trigger] side(points, at, true)[i]).timestamp,
            ),
        forall|i: int|
            0 <= i < side(points, at, false).len() ==> !at.precedes(
                (#[trigger] side(points, at, false)[i]).timestamp,
            ),
    decreases points.len(),
{
    if points.len() > 0 {
        law_sides_partition(points.drop_last(), at);
        let (a, b) = (side(points.drop_last(), at, false), side(points.drop_last(), at, true));
        assert forall|i: int| 0 <= i < side(points, at, true).len() implies at.precedes(
            (#[trigger] side(points, at, true)[i]).timestamp,
        ) by {
            if i < b.len() {
                assert(side(points, at, true)[i] == b[i]);
            }
        }
        assert forall|i: int| 0 <= i < side(points, at, false).len() implies !at.precedes(
            (#[trigger] side(points, at, false)[i]).timestamp,
        ) by {
            if i < a.len() {
                assert(side(points, at, false)[i] == a[i]);
            }
        }
    }
}

/// A change is not judged while its probation lasts, and is once it has passed: from the status
/// that the apply pass records, the verify pass takes exactly the probation window.
pub proof fn law_probation_is_respected(
    rec: Recommendation,
    record: PatchView,
    before: StatusView,
    applied: Timestamp,
    probation_s: int,
    now: Timestamp,
    list: Seq<Seq<char>>,
)
    requires
        record == crate::controller::apply::apply_record(
            TargetKind::HorizontalPodAutoscaler,
            applied,
            probation_s,
            None,
        ),
        rfc3339_time(record.applied_at->0) == Some(applied),
        rfc3339_time(record.probation_until->Until_0) == Some(applied.later_by(probation_s)),
        rec.status_view() == changed(before, record),
        rec.spec.target_ref.kind == TargetKind::HorizontalPodAutoscaler,
        rec.namespace is Some && watched(list, rec.namespace->0@),
    ensures
        judgement_due(rec, now, list) <==> !now.precedes(applied.later_by(probation_s)),
{
}

/// A judged change leaves the probation, unless the verdict keeps it there: a verified or reverted
/// change is never judged again.
pub proof fn law_settled_changes_stay_settled(
    rec: Recommendation,
    verdict: VerdictView,
    rollback_enabled: bool,
    before: StatusView,
    judged: Timestamp,
    probation_s: int,
    now: Timestamp,
    list: Seq<Seq<char>>,
)
    requires
        rec.status_view() == changed(
            before,
            verify_record(verdict, rollback_enabled, judged, probation_s),
        ),
        verdict is Healthy || sends_back(verdict, rollback_enabled),
    ensures
        !judgement_due(rec, now, list),
{
}

/// Reverting never touches the floor of a change that carries a schedule, and reverts every other
/// change.
pub proof fn law_revert_leaves_the_scheduled_floor(diff: Map<Seq<char>, DiffEntry>)
    ensures
        !crate::applier::hpa_spec(reverted(diff, true), true).dom().contains("minReplicas"@),
        forall|field: Seq<char>|
            field != "min_replicas"@ ==> (#[trigger] reverted(diff, true).dom().contains(field)
                <==> diff.dom().contains(field)),
{
    reveal_strlit("minReplicas");
    reveal_strlit("maxReplicas");
    reveal_strlit("metrics");
    reveal_strlit("behavior");
    assert("minReplicas"@[1] != "maxReplicas"@[1]);
    assert("minReplicas"@.len() != "metrics"@.len());
    assert("minReplicas"@.len() != "behavior"@.len());
}

/// A change is judged exactly while it is an HPA's, freshly applied or held degraded, its recorded
/// probation is over, the instant of its apply is recorded, and the operator acts in its namespace.
pub proof fn law_judged_changes(rec: Recommendation, now: Timestamp, list: Seq<Seq<char>>)
    ensures
        judgement_due(rec, now, list) <==> {
            let status = rec.status_view();
            &&& status.phase == Some("applied"@) || status.phase == Some("degraded"@)
            &&& rec.spec.target_ref.kind == TargetKind::HorizontalPodAutoscaler
            &&& status.applied_at is Some && rfc3339_time(status.applied_at->0) is Some
            &&& status.probation_until is Some && rfc3339_time(status.probation_until->0) is Some
            &&& !now.precedes(rfc3339_time(status.probation_until->0)->0)
            &&& rec.namespace is Some
            &&& list.len() == 0 || list.contains(rec.namespace->0@)
        },
{
}

/// The health of a change decides its phase: a healthy one becomes verified and leaves probation;
/// one that cannot be judged stays applied, and a degraded one without rollback is held degraded,
/// both on a new probation from now on; a degraded one with rollback is rolled back and off
/// probation. The reason is kept, and so are the apply's instant and the schedule's mark.
pub proof fn law_verdict_decides_the_phase(
    before: StatusView,
    verdict: VerdictView,
    rollback_enabled: bool,
    now: Timestamp,
    probation_s: int,
)
    ensures
        ({
            let after = changed(before, verify_record(verdict, rollback_enabled, now, probation_s));
            let again = Some(rfc3339_written((now.secs + probation_s) as i64, now.nanos));
            &&& verdict is Healthy ==> after.phase == Some("verified"@) && after.probation_until is None
                && after.detail == Some("healthy after probation"@)
            &&& verdict is Inconclusive ==> after.phase == Some("applied"@) && after.probation_until
                == again && after.detail == Some("awaiting post-apply data"@)
            &&& verdict is Degraded ==> after.detail == Some(verdict->Degraded_0)
            &&& verdict is Degraded && rollback_enabled ==> after.phase == Some("rolledBack"@)
                && after.probation_until is None
            &&& verdict is Degraded && !rollback_enabled ==> after.phase == Some("degraded"@)
                && after.probation_until == again
            &&& after.applied_at == before.applied_at
            &&& after.schedule_active == before.schedule_active
        }),
{
}

/// A change is patched back exactly where its verdict is degraded and rollback is enabled.
pub proof fn law_only_degraded_changes_go_back(verdict: VerdictView, rollback_enabled: bool)
    ensures
        sends_back(verdict, rollback_enabled) <==> rollback_enabled && !(verdict is Healthy) && !(
        verdict is Inconclusive),
{
}

/// Everything is reverted, with its old value, but for the floor where a schedule owns it.
pub proof fn law_everything_else_is_reverted(
    diff: Map<Seq<char>, DiffEntry>,
    has_schedule: bool,
    field: Seq<char>,
)
    ensures
        reverted(diff, has_schedule).dom().contains(field) <==> diff.dom().contains(field) && !(
        has_schedule && field == "min_replicas"@),
        reverted(diff, has_schedule).dom().contains(field) ==> reverted(diff, has_schedule)[field]
            == diff[field],
{
}

/// The points before and after an apply keep their order: before are those not later than the
/// apply, after are the later ones.
pub proof fn law_sides_keep_their_order(points: Seq<MetricPoint>, at: Timestamp)
    ensures
        side(points, at, false) == points.filter(
            |p: MetricPoint| !(at.secs < p.timestamp.secs || (at.secs == p.timestamp.secs && at.nanos
                < p.timestamp.nanos)),
        ),
        side(points, at, true) == points.filter(
            |p: MetricPoint| at.secs < p.timestamp.secs || (at.secs == p.timestamp.secs && at.nanos
                < p.timestamp.nanos),
        ),
    decreases points.len(),
{
    reveal(Seq::filter);
    if points.len() > 0 {
        law_sides_keep_their_order(points.drop_last(), at);
    }
}

/// A judgement is the recommendation's own: its target, the key of its history, and the recorded
/// instant of its apply.
pub proof fn law_judgement_is_the_recommendations_own(j: Judgement, rec: Recommendation)
    requires
        judges(j, rec),
    ensures
        rec.namespace is Some,
        j.namespace@ == rec.namespace->0@,
        j.name@ == rec.name@,
        j.target@ == rec.spec.target_ref.name@,
        j.key@ == rec.namespace->0@ + "/"@ + rec.name@,
        rec.status_view().applied_at is Some,
        rfc3339_time(rec.status_view().applied_at->0) == Some(j.applied_at),
{
}

} // verus!
