//! The apply pass: patching approved targets.
use vstd::prelude::*;
use vstd::string::*;

#[allow(unused_imports)]
use crate::applier::patch_view;
use crate::applier::patch_for;
use crate::clock::{write_rfc3339, Timestamp, MAX_SECS, MIN_SECS};
#[allow(unused_imports)]
use crate::clock::rfc3339_written;
use crate::controller::{is_watched, mutation_deadline};
#[allow(unused_imports)]
use crate::controller::{budget_seconds, watched};
use crate::crd::{Phase, TargetKind};
use crate::json::Json;
#[allow(unused_imports)]
use crate::status::{changed, in_phase, PatchView, ProbationView, StatusView};
use crate::status::{phase_is, ProbationPatch, Recommendation, StatusPatch};
#[allow(unused_imports)]
use crate::text::views;

verus! {

/// The instant at which the apply (or schedule) pass stops starting new work; `None` in
/// recommend-only mode, where it does not run at all: a workload is never mutated, not even for an
/// approved recommendation.
pub fn mutating_pass(apply_enabled: bool, now: Timestamp, interval_s: u64) -> (r: Option<
    Timestamp,
>)
    requires
        apply_enabled ==> now.valid() && now.secs + budget_seconds(interval_s) <= MAX_SECS,
    ensures
        match r {
            Some(deadline) => apply_enabled && deadline == now.later_by(budget_seconds(interval_s)),
            None => !apply_enabled,
        },
{
    if apply_enabled {
        Some(mutation_deadline(now, interval_s))
    } else {
        None
    }
}

/// Whether a status is in one of the phases that a change has once it was applied.
pub open spec fn already_applied(status: StatusView) -> bool {
    in_phase(status, Phase::Applied) || in_phase(status, Phase::Verified) || in_phase(
        status,
        Phase::RolledBack,
    ) || in_phase(status, Phase::Degraded)
}

/// Whether a recommendation is due to be applied: approved, not applied before, and in a namespace
/// in which the operator acts.
pub open spec fn apply_due(rec: Recommendation, list: Seq<Seq<char>>) -> bool {
    &&& rec.spec.approved
    &&& !already_applied(rec.status_view())
    &&& rec.namespace is Some && watched(list, rec.namespace->0@)
}

/// A target to be patched.
#[derive(Debug)]
pub struct ApplyTarget {
    pub namespace: String,
    pub name: String,
    pub kind: TargetKind,
    pub target: String,
    pub patch: Json,
}

/// Whether a target is the one that a recommendation changes, with the change.
pub open spec fn applies(t: ApplyTarget, rec: Recommendation) -> bool {
    &&& rec.namespace is Some && t.namespace@ == rec.namespace->0@
    &&& t.name@ == rec.name@
    &&& t.kind == rec.spec.target_ref.kind
    &&& t.target@ == rec.spec.target_ref.name@
    &&& t.patch@ == patch_view(rec.spec.target_ref.kind, rec.spec.config_diff@, false)
}

/// What the apply pass does next.
#[derive(Debug)]
pub enum ApplyStep {
    /// Nothing to do for this recommendation.
    Skip,
    /// Patch the target, then record the outcome with [`apply_status`].
    Patch(ApplyTarget),
    /// The deadline is reached: the remaining recommendations are retried next tick.
    Deadline { skipped: usize, total: usize },
    /// All recommendations are done.
    Done,
}

/// The apply pass over the listed recommendations, in the namespaces in which the operator acts
/// (any, where none is listed).
#[derive(Debug)]
pub struct ApplyPass {
    pub items: Vec<Recommendation>,
    pub index: usize,
    pub deadline: Timestamp,
    pub namespaces: Vec<String>,
}

fn was_applied(rec: &Recommendation) -> (b: bool)
    ensures
        b == already_applied(rec.status_view()),
{
    phase_is(rec, Phase::Applied) || phase_is(rec, Phase::Verified) || phase_is(
        rec,
        Phase::RolledBack,
    ) || phase_is(rec, Phase::Degraded)
}

impl ApplyPass {
    pub fn new(items: Vec<Recommendation>, deadline: Timestamp, namespaces: Vec<String>) -> (p:
        Self)
        ensures
            p == (ApplyPass { items, index: 0, deadline, namespaces }),
    {
        ApplyPass { items, index: 0, deadline, namespaces }
    }

    /// The next step, by the clock. Each call takes one recommendation; the deadline ends the
    /// pass.
    pub fn next(&mut self, clock: Timestamp) -> (step: ApplyStep)
        requires
            old(self).index <= old(self).items@.len(),
        ensures
            final(self).items == old(self).items,
            final(self).deadline == old(self).deadline,
            final(self).namespaces == old(self).namespaces,
            final(self).index <= final(self).items@.len(),
            if old(self).index == old(self).items@.len() {
                step is Done && final(self).index == old(self).index
            } else if !clock.precedes(old(self).deadline) {
                step == (ApplyStep::Deadline {
                    skipped: (old(self).items@.len() - old(self).index) as usize,
                    total: old(self).items@.len() as usize,
                }) && final(self).index == old(self).items@.len()
            } else {
                &&& final(self).index == old(self).index + 1
                &&& if apply_due(
                    old(self).items@[old(self).index as int],
                    views(old(self).namespaces@),
                ) {
                    step matches ApplyStep::Patch(t) && applies(
                        t,
                        old(self).items@[old(self).index as int],
                    )
                } else {
                    step is Skip
                }
            },
    {
        let total: usize = self.items.len();
        if self.index >= total {
            return ApplyStep::Done;
        }
        if !clock.earlier_than(self.deadline) {
            let skipped: usize = total - self.index;
            self.index = total;
            return ApplyStep::Deadline { skipped, total };
        }
        let at: usize = self.index;
        self.index = at + 1;
        let rec = &self.items[at];
        if !rec.spec.approved || was_applied(rec) {
            return ApplyStep::Skip;
        }
        match &rec.namespace {
            Some(namespace) => {
                if !is_watched(&self.namespaces, namespace.as_str()) {
                    return ApplyStep::Skip;
                }
                ApplyStep::Patch(
                    ApplyTarget {
                        namespace: namespace.clone(),
                        name: rec.name.clone(),
                        kind: rec.spec.target_ref.kind,
                        target: rec.spec.target_ref.name.clone(),
                        patch: patch_for(rec.spec.target_ref.kind, &rec.spec.config_diff),
                    },
                )
            },
            None => ApplyStep::Skip,
        }
    }
}

/// The status change that records an applied (or failed) patch. HPA applies go on probation for
/// the verify pass. ScaledObject health verification isn't supported (no live-config read), so it
/// is marked verified at once rather than left dangling in `applied` forever.
pub open spec fn apply_record(
    kind: TargetKind,
    now: Timestamp,
    probation_s: int,
    failure: Option<Seq<char>>,
) -> PatchView {
    match failure {
        Some(error) => PatchView {
            phase: Some(Phase::Failed),
            applied_at: None,
            probation_until: ProbationView::Keep,
            schedule_active: None,
            detail: Some("apply failed: "@ + error),
        },
        None => match kind {
            TargetKind::HorizontalPodAutoscaler => PatchView {
                phase: Some(Phase::Applied),
                applied_at: Some(rfc3339_written(now.secs, now.nanos)),
                probation_until: ProbationView::Until(
                    rfc3339_written((now.secs + probation_s) as i64, now.nanos),
                ),
                schedule_active: None,
                detail: Some("patched HPA"@),
            },
            TargetKind::ScaledObject => PatchView {
                phase: Some(Phase::Verified),
                applied_at: Some(rfc3339_written(now.secs, now.nanos)),
                probation_until: ProbationView::Keep,
                schedule_active: None,
                detail: Some("patched ScaledObject (health verification not supported)"@),
            },
        },
    }
}

/// The status change that records an applied (or failed) patch. `now` is the instant at which the
/// pass began.
pub fn apply_status(
    kind: TargetKind,
    now: Timestamp,
    probation_s: i64,
    failure: Option<String>,
) -> (p: StatusPatch)
    requires
        failure is None ==> now.valid(),
        failure is None && kind == TargetKind::HorizontalPodAutoscaler ==> MIN_SECS <= now.secs
            + probation_s <= MAX_SECS,
    ensures
        p@ == apply_record(
            kind,
            now,
            probation_s as int,
            match failure {
                Some(e) => Some(e@),
                None => None,
            },
        ),
        failure is None && crate::clock::YEAR_ZERO <= now.secs <= crate::clock::YEAR_9999
            ==> crate::clock::rfc3339_time(p@.applied_at->0) == Some(now),
        failure is None && kind == TargetKind::HorizontalPodAutoscaler && crate::clock::YEAR_ZERO
            <= now.secs + probation_s <= crate::clock::YEAR_9999 ==> crate::clock::rfc3339_time(
            p@.probation_until->Until_0,
        ) == Some(now.later_by(probation_s as int)),
{
    match failure {
        Some(error) => {
            let mut detail = "apply failed: ".to_owned();
            detail.append(error.as_str());
            StatusPatch {
                phase: Some(Phase::Failed),
                applied_at: None,
                probation_until: ProbationPatch::Keep,
                schedule_active: None,
                detail: Some(detail),
            }
        },
        None => match kind {
            TargetKind::HorizontalPodAutoscaler => StatusPatch {
                phase: Some(Phase::Applied),
                applied_at: Some(write_rfc3339(now)),
                probation_until: ProbationPatch::Until(
                    write_rfc3339(now.plus_seconds(probation_s)),
                ),
                schedule_active: None,
                detail: Some("patched HPA".to_owned()),
            },
            TargetKind::ScaledObject => StatusPatch {
                phase: Some(Phase::Verified),
                applied_at: Some(write_rfc3339(now)),
                probation_until: ProbationPatch::Keep,
                schedule_active: None,
                detail: Some(
                    "patched ScaledObject (health verification not supported)".to_owned(),
                ),
            },
        },
    }
}

// ---------------------------------------------------------------------------------------------
// Laws

/// The names of the phases are pairwise different.
pub proof fn lemma_phase_names(a: Phase, b: Phase)
    ensures
        a.name() == b.name() <==> a == b,
{
    reveal_strlit("pending");
    reveal_strlit("applied");
    reveal_strlit("verified");
    reveal_strlit("rolledBack");
    reveal_strlit("blocked");
    reveal_strlit("degraded");
    reveal_strlit("failed");
    assert("pending"@[0] == 'p' && "applied"@[0] == 'a' && "verified"@[0] == 'v');
    assert("rolledBack"@[0] == 'r' && "blocked"@[0] == 'b' && "degraded"@[0] == 'd');
    assert("failed"@[0] == 'f');
}

/// Nothing is applied without approval, whatever its status.
pub proof fn law_nothing_is_applied_unapproved(rec: Recommendation, list: Seq<Seq<char>>)
    requires
        !rec.spec.approved,
    ensures
        !apply_due(rec, list),
{
}

/// A change is applied once: after its success is recorded it is not due again.
pub proof fn law_applied_once(
    rec: Recommendation,
    next: Recommendation,
    now: Timestamp,
    probation_s: int,
    list: Seq<Seq<char>>,
)
    requires
        next.status_view() == changed(
            rec.status_view(),
            apply_record(rec.spec.target_ref.kind, now, probation_s, None),
        ),
    ensures
        !apply_due(next, list),
{
}

/// A change whose patch failed is retried: after the failure is recorded it is still due.
pub proof fn law_failed_apply_is_retried(
    rec: Recommendation,
    next: Recommendation,
    now: Timestamp,
    probation_s: int,
    error: Seq<char>,
    list: Seq<Seq<char>>,
)
    requires
        apply_due(rec, list),
        next.spec == rec.spec,
        next.namespace == rec.namespace,
        next.status_view() == changed(
            rec.status_view(),
            apply_record(rec.spec.target_ref.kind, now, probation_s, Some(error)),
        ),
    ensures
        apply_due(next, list),
{
    lemma_phase_names(Phase::Failed, Phase::Applied);
    lemma_phase_names(Phase::Failed, Phase::Verified);
    lemma_phase_names(Phase::Failed, Phase::RolledBack);
    lemma_phase_names(Phase::Failed, Phase::Degraded);
}

/// A recommendation is due to be applied exactly while it is approved, has not been applied (or
/// verified, held degraded or rolled back), and the operator acts in its namespace.
pub proof fn law_due_recommendations(rec: Recommendation, list: Seq<Seq<char>>)
    ensures
        apply_due(rec, list) <==> {
            let phase = rec.status_view().phase;
            &&& rec.spec.approved
            &&& phase != Some("applied"@)
            &&& phase != Some("verified"@)
            &&& phase != Some("rolledBack"@)
            &&& phase != Some("degraded"@)
            &&& rec.namespace is Some
            &&& list.len() == 0 || list.contains(rec.namespace->0@)
        },
{
}

/// What is recorded of an apply: an HPA goes on probation from the apply on, for the probation's
/// length; a ScaledObject is verified at once, with no probation; a failure is recorded with its
/// error and leaves the rest of the status alone.
pub proof fn law_apply_is_recorded(
    before: StatusView,
    kind: TargetKind,
    now: Timestamp,
    probation_s: int,
    error: Seq<char>,
)
    ensures
        ({
            let done = changed(before, apply_record(kind, now, probation_s, None));
            let failed = changed(before, apply_record(kind, now, probation_s, Some(error)));
            &&& done.applied_at == Some(rfc3339_written(now.secs, now.nanos))
            &&& kind == TargetKind::HorizontalPodAutoscaler ==> done.phase == Some("applied"@)
                && done.probation_until == Some(
                rfc3339_written((now.secs + probation_s) as i64, now.nanos),
            ) && done.detail == Some("patched HPA"@)
            &&& kind == TargetKind::ScaledObject ==> done.phase == Some("verified"@)
                && done.probation_until == before.probation_until && done.detail == Some(
                "patched ScaledObject (health verification not supported)"@,
            )
            &&& done.schedule_active == before.schedule_active
            &&& failed.phase == Some("failed"@)
            &&& failed.detail == Some("apply failed: "@ + error)
            &&& failed.applied_at == before.applied_at
            &&& failed.probation_until == before.probation_until
            &&& failed.schedule_active == before.schedule_active
        }),
{
}

/// A target to be patched is the recommendation's own, and its patch sets the recommended values.
pub proof fn law_patched_target_is_the_recommendations_own(t: ApplyTarget, rec: Recommendation)
    requires
        applies(t, rec),
    ensures
        rec.namespace is Some,
        t.namespace@ == rec.namespace->0@,
        t.name@ == rec.name@,
        t.target@ == rec.spec.target_ref.name@,
        t.kind == rec.spec.target_ref.kind,
        t.patch@ == patch_view(rec.spec.target_ref.kind, rec.spec.config_diff@, false),
{
}

} // verus!
