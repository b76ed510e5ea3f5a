//! The analysis pass: from the listed autoscalers to new recommendations.
use vstd::prelude::*;
use vstd::string::*;

use crate::clock::Timestamp;
use crate::collector::{is_keda_managed, scale_target_name, scaled_object_target_name, Hpa};
use crate::controller::{into_schedule_specs, is_watched, workload_key};
#[allow(unused_imports)]
use crate::controller::{key_text, watched};
use crate::crd::{DiffEntry, DiffMap, Phase, ScalingRecommendationSpec, TargetKind, TargetRef};
#[allow(unused_imports)]
use crate::crd::window_views;
use crate::domain::{
    Candidate, ConfigDiff, ConfigDiffEntry, LlmAnalysisOutput, MetricsSnapshot,
};
#[allow(unused_imports)]
use crate::domain::{schedule_opt_view, CandidateView, WindowView};
use crate::field_map::FieldMap;
#[allow(unused_imports)]
use crate::json::{member, member_of, text_of};
use crate::json::Json;
#[allow(unused_imports)]
use crate::rules::{candidate_view, candidate_views, listed};
#[allow(unused_imports)]
use crate::status::{changed, in_phase, no_status, PatchView, ProbationView, Recommendation};
use crate::status::{ProbationPatch, StatusPatch};
use crate::synthesis::synthesize;
#[allow(unused_imports)]
use crate::synthesis::{
    approved, bullets, carried_schedule, estimate_label, merged_diff, savings_parts,
};
#[allow(unused_imports)]
use crate::text::views;

verus! {

/// Appended to a recommendation's summary when the operator runs in recommend-only mode: it never
/// mutates a workload, so the recommendation stands as advice for a human to apply.
pub open spec fn advisory_suffix() -> Seq<char> {
    "\n\n_This operator is running in recommend-only mode; apply this change yourself, or run with `--mode=apply` to auto-apply approved recommendations._"@
}

// ---------------------------------------------------------------------------------------------
// Which workloads are analyzed

/// A workload to be analyzed: the key of its history, its place, and the deployment whose metrics
/// are read.
#[derive(Debug)]
pub struct AnalysisTarget {
    pub key: String,
    pub namespace: String,
    pub name: String,
    pub deployment: String,
}

/// Whether a target is the one of an autoscaler that scales `scaled` (its own name where that is
/// not known).
pub open spec fn analyzes(
    t: AnalysisTarget,
    namespace: Seq<char>,
    name: Seq<char>,
    scaled: Option<Seq<char>>,
) -> bool {
    &&& t.key@ == key_text(namespace, name)
    &&& t.namespace@ == namespace
    &&& t.name@ == name
    &&& t.deployment@ == match scaled {
        Some(d) => d,
        None => name,
    }
}

/// Whether an object has a namespace, and the operator acts in it.
pub open spec fn in_scope(namespace: Option<String>, list: Seq<Seq<char>>) -> bool {
    namespace is Some && watched(list, namespace->0@)
}

/// The workload of an HPA. An HPA outside the listed namespaces (any, where none is listed) is
/// skipped, and so is one that KEDA manages: its owning ScaledObject is analyzed instead (one
/// recommendation per workload).
pub fn hpa_target(
    namespace: Option<String>,
    name: String,
    hpa: &Hpa,
    namespaces: &Vec<String>,
) -> (r: Option<AnalysisTarget>)
    ensures
        ({
            let keda = match hpa.owner_kinds {
                Some(kinds) => views(kinds@).contains("ScaledObject"@),
                None => false,
            };
            match r {
                Some(t) => !keda && in_scope(namespace, views(namespaces@)) && analyzes(
                    t,
                    namespace->0@,
                    name@,
                    match hpa.spec {
                        Some(spec) => Some(spec.scale_target_name@),
                        None => None,
                    },
                ),
                None => keda || !in_scope(namespace, views(namespaces@)),
            }
        }),
{
    let namespace = match namespace {
        Some(namespace) => namespace,
        None => return None,
    };
    if is_keda_managed(hpa) || !is_watched(namespaces, namespace.as_str()) {
        return None;
    }
    let key = workload_key(namespace.as_str(), name.as_str());
    let deployment = match scale_target_name(hpa) {
        Some(d) => d,
        None => name.clone(),
    };
    Some(AnalysisTarget { key, namespace, name, deployment })
}

/// The workload of a ScaledObject. One outside the listed namespaces (any, where none is listed) is
/// skipped.
pub fn scaled_object_target(
    namespace: Option<String>,
    name: String,
    scaled_object: &Json,
    namespaces: &Vec<String>,
) -> (r: Option<AnalysisTarget>)
    ensures
        match r {
            Some(t) => in_scope(namespace, views(namespaces@)) && analyzes(
                t,
                namespace->0@,
                name@,
                text_of(
                    member_of(
                        member_of(member(scaled_object@, "spec"@), "scaleTargetRef"@),
                        "name"@,
                    ),
                ),
            ),
            None => !in_scope(namespace, views(namespaces@)),
        },
{
    let namespace = match namespace {
        Some(namespace) => namespace,
        None => return None,
    };
    if !is_watched(namespaces, namespace.as_str()) {
        return None;
    }
    let key = workload_key(namespace.as_str(), name.as_str());
    let deployment = match scaled_object_target_name(scaled_object) {
        Some(d) => d,
        None => name.clone(),
    };
    Some(AnalysisTarget { key, namespace, name, deployment })
}

/// The name of the backing HPA that KEDA materializes for a ScaledObject, whose status carries
/// current replicas and CPU utilization.
pub fn keda_hpa_name(name: &str) -> (s: String)
    ensures
        s@ == "keda-hpa-"@ + name@,
{
    let mut s = "keda-hpa-".to_owned();
    s.append(name);
    s
}

// ---------------------------------------------------------------------------------------------
// Which of them the model judges

/// One workload that cleared rule detection and has no recommendation yet, queued for the model's
/// judgement.
#[derive(Debug)]
pub struct AnalysisItem {
    pub key: String,
    pub namespace: String,
    pub name: String,
    pub snapshot: MetricsSnapshot,
    pub candidates: Vec<Candidate>,
    pub target_kind: TargetKind,
}

/// The candidates to be judged: those of the rules, then the forecast's; `None` where there are
/// none.
pub fn queue_analysis(found: Vec<Candidate>, peak: Option<Candidate>) -> (r: Option<
    Vec<Candidate>,
>)
    ensures
        ({
            let all = candidate_views(found@) + listed(candidate_view(peak));
            match r {
                Some(candidates) => candidate_views(candidates@) == all && all.len() > 0,
                None => all.len() == 0,
            }
        }),
{
    let mut candidates = found;
    assert(candidate_views(candidates@) + Seq::<CandidateView>::empty() =~= candidate_views(
        candidates@,
    ));
    if let Some(p) = peak {
        candidates.push(p);
        assert(candidate_views(candidates@) =~= candidate_views(found@) + seq![p@]);
    }
    if candidates.len() == 0 {
        None
    } else {
        Some(candidates)
    }
}

/// The workload queued for the model's judgement; `None` where it already has a recommendation,
/// which (with any human decision on it) is left alone.
pub fn analysis_item(
    target: AnalysisTarget,
    snapshot: MetricsSnapshot,
    candidates: Vec<Candidate>,
    target_kind: TargetKind,
    already_recommended: bool,
) -> (r: Option<AnalysisItem>)
    ensures
        r == if already_recommended {
            None
        } else {
            Some(
                AnalysisItem {
                    key: target.key,
                    namespace: target.namespace,
                    name: target.name,
                    snapshot,
                    candidates,
                    target_kind,
                },
            )
        },
{
    if already_recommended {
        None
    } else {
        Some(
            AnalysisItem {
                key: target.key,
                namespace: target.namespace,
                name: target.name,
                snapshot,
                candidates,
                target_kind,
            },
        )
    }
}

/// How the analysis of one workload went: deferred because the budget was used up, judged, or
/// failed.
#[derive(Debug)]
pub enum AnalysisOutcome {
    Deferred,
    Judged,
    Failed(String),
}

/// Whether a workload may still be judged: the deadline has not been reached.
pub fn within_budget(clock: Timestamp, deadline: Timestamp) -> (b: bool)
    ensures
        b == clock.precedes(deadline),
{
    clock.earlier_than(deadline)
}

/// The number of deferred workloads.
pub open spec fn deferrals(outcomes: Seq<AnalysisOutcome>) -> nat
    decreases outcomes.len(),
{
    if outcomes.len() == 0 {
        0
    } else {
        deferrals(outcomes.drop_last()) + if outcomes.last() is Deferred {
            1nat
        } else {
            0
        }
    }
}

/// The first failure.
pub open spec fn first_failure(outcomes: Seq<AnalysisOutcome>) -> Option<Seq<char>>
    decreases outcomes.len(),
{
    if outcomes.len() == 0 {
        None
    } else {
        match first_failure(outcomes.drop_last()) {
            Some(e) => Some(e),
            None => match outcomes.last() {
                AnalysisOutcome::Failed(e) => Some(e@),
                _ => None,
            },
        }
    }
}

/// What comes out of the pass: the number of workloads deferred to the next tick, and the first
/// error. It is surfaced only after every workload was attempted (or deferred), so one bad reply
/// can't starve the rest of the fleet of recommendations.
pub fn pass_outcome(outcomes: &Vec<AnalysisOutcome>) -> (r: (usize, Result<(), String>))
    ensures
        r.0 == deferrals(outcomes@),
        match r.1 {
            Ok(_) => first_failure(outcomes@) is None,
            Err(e) => first_failure(outcomes@) == Some(e@),
        },
{
    let mut deferred: usize = 0;
    let mut error: Option<String> = None;
    let mut i: usize = 0;
    while i < outcomes.len()
        invariant
            deferred <= i <= outcomes@.len(),
            deferred == deferrals(outcomes@.take(i as int)),
            crate::status::text_view(error) == first_failure(outcomes@.take(i as int)),
        decreases outcomes@.len() - i,
    {
        assert(outcomes@.take(i + 1).drop_last() == outcomes@.take(i as int));
        match &outcomes[i] {
            AnalysisOutcome::Deferred => {
                deferred += 1;
            },
            AnalysisOutcome::Judged => {},
            AnalysisOutcome::Failed(e) => {
                if error.is_none() {
                    error = Some(e.clone());
                }
            },
        }
        i += 1;
    }
    assert(outcomes@.take(outcomes@.len() as int) == outcomes@);
    match error {
        Some(e) => (deferred, Err(e)),
        None => (deferred, Ok(())),
    }
}

// ---------------------------------------------------------------------------------------------
// The new recommendation

/// The changes as the resource carries them.
pub open spec fn diff_entries(diff: Map<Seq<char>, ConfigDiffEntry>) -> Map<Seq<char>, DiffEntry> {
    diff.map_values(|c: ConfigDiffEntry| DiffEntry { from: c.from, to: c.to })
}

fn into_diff_entries(diff: &ConfigDiff) -> (out: DiffMap)
    ensures
        out@ == diff_entries(diff@),
{
    let mut out: DiffMap = FieldMap::new();
    let n: usize = diff.entry_count();
    let ghost keys = diff.key_order();
    let mut i: usize = 0;
    while i < n
        invariant
            i <= n == keys.len(),
            keys == diff.key_order(),
            forall|k: Seq<char>| #[trigger] keys.contains(k) == diff@.dom().contains(k),
            forall|k: Seq<char>| #[trigger]
                out@.dom().contains(k) == keys.take(i as int).contains(k),
            forall|k: Seq<char>|
                out@.dom().contains(k) ==> #[trigger] out@[k] == (DiffEntry {
                    from: diff@[k].from,
                    to: diff@[k].to,
                }),
        decreases n - i,
    {
        let e = diff.entry(i);
        let ghost before = out@;
        out.insert(e.0.clone(), DiffEntry { from: e.1.from, to: e.1.to });
        proof {
            let (short, long) = (keys.take(i as int), keys.take(i + 1));
            assert(long == short.push(e.0@));
            assert forall|k: Seq<char>| #[trigger] out@.dom().contains(k) == long.contains(k) by {
                assert(before.dom().contains(k) == short.contains(k));
                if short.contains(k) {
                    let j = choose|j: int| 0 <= j < short.len() && short[j] == k;
                    assert(long[j] == k);
                }
                if k == e.0@ {
                    assert(long[i as int] == k);
                }
                if long.contains(k) && k != e.0@ {
                    let j = choose|j: int| 0 <= j < long.len() && long[j] == k;
                    assert(short[j] == k);
                }
            }
        }
        i += 1;
    }
    proof {
        assert(keys.take(n as int) == keys);
        assert forall|k: Seq<char>| #[trigger] out@.dom().contains(k) == diff@.dom().contains(k) by {
            assert(keys.contains(k) == diff@.dom().contains(k));
        }
        assert(out@ =~= diff_entries(diff@));
    }
    out
}

/// What the resource's schedule holds.
pub open spec fn spec_schedule(spec: ScalingRecommendationSpec) -> Option<Seq<WindowView>> {
    match spec.schedule {
        Some(windows) => Some(window_views(windows@)),
        None => None,
    }
}

/// A recommendation to be created, and the change that gives it its first status.
#[derive(Debug)]
pub struct NewRecommendation {
    pub spec: ScalingRecommendationSpec,
    pub status: StatusPatch,
}

/// The first status of a recommendation: it awaits approval.
pub open spec fn pending_record() -> PatchView {
    PatchView {
        phase: Some(Phase::Pending),
        applied_at: None,
        probation_until: ProbationView::Keep,
        schedule_active: None,
        detail: None,
    }
}

fn pending_status() -> (p: StatusPatch)
    ensures
        p@ == pending_record(),
{
    StatusPatch {
        phase: Some(Phase::Pending),
        applied_at: None,
        probation_until: ProbationPatch::Keep,
        schedule_active: None,
        detail: None,
    }
}

/// The recommendation that the model's judgement of one workload leads to: unapproved, pending, and
/// marked as advice in recommend-only mode. `None` where nothing would change. `cost_text` is the
/// printed monthly cost of a replica.
pub fn analyze_and_recommend(
    item: &AnalysisItem,
    output: &LlmAnalysisOutput,
    cost_text: &str,
    apply_available: bool,
) -> (r: Option<NewRecommendation>)
    ensures
        ({
            let applied = approved(item.candidates@, output.recommendations@);
            let parts = savings_parts(applied);
            match r {
                None => merged_diff(applied) == Map::<Seq<char>, ConfigDiffEntry>::empty()
                    && carried_schedule(applied) is None,
                Some(new) => {
                    let spec = new.spec;
                    &&& new.status@ == pending_record()
                    &&& merged_diff(applied) != Map::<Seq<char>, ConfigDiffEntry>::empty()
                        || carried_schedule(applied) is Some
                    &&& spec.target_ref.kind == item.target_kind
                    &&& spec.target_ref.name@ == item.name@
                    &&& !spec.approved
                    &&& spec.risk_level@ == output.overall_risk.name()
                    &&& spec.summary_md@ == output.executive_summary@ + bullets(applied) + (
                    if parts.len() > 0 {
                        estimate_label(cost_text@)
                    } else {
                        Seq::empty()
                    }) + (if apply_available {
                        Seq::empty()
                    } else {
                        advisory_suffix()
                    })
                    &&& match spec.projected_savings_usd_monthly {
                        Some(savings) => savings@ == parts && parts.len() > 0,
                        None => parts.len() == 0,
                    }
                    &&& spec.config_diff@ == diff_entries(merged_diff(applied))
                    &&& spec_schedule(spec) == carried_schedule(applied)
                },
            }
        }),
{
    let recommendation = synthesize(&item.candidates, output, cost_text);
    if recommendation.config_diff.is_empty() && recommendation.schedule.is_none() {
        return None;
    }
    let mut summary_md = recommendation.summary_md;
    let ghost summary = summary_md@;
    if !apply_available {
        summary_md.append(
            "\n\n_This operator is running in recommend-only mode; apply this change yourself, or run with `--mode=apply` to auto-apply approved recommendations._",
        );
    }
    assert(summary_md@ =~= summary + (if apply_available {
        Seq::empty()
    } else {
        advisory_suffix()
    }));
    let config_diff = into_diff_entries(&recommendation.config_diff);
    let schedule = match recommendation.schedule {
        Some(windows) => Some(into_schedule_specs(windows)),
        None => None,
    };
    let spec = ScalingRecommendationSpec {
        target_ref: TargetRef { kind: item.target_kind, name: item.name.clone() },
        approved: false,
        risk_level: recommendation.risk_level.as_str().to_owned(),
        summary_md,
        projected_savings_usd_monthly: recommendation.projected_savings_usd_monthly,
        config_diff,
        schedule,
    };
    Some(NewRecommendation { spec, status: pending_status() })
}

/// How creating a recommendation went.
#[derive(Debug, Clone, Copy, PartialEq, Eq, Structural)]
pub enum CreateOutcome {
    Created,
    /// Another replica created it first this tick; benign under leader-less analysis.
    AlreadyThere,
    Failed,
}

/// How creating a recommendation went, by the API's error code (`None` on success, `Some(None)`
/// where there was an error without one).
pub fn create_outcome(error: Option<Option<u16>>) -> (o: CreateOutcome)
    ensures
        o == match error {
            None => CreateOutcome::Created,
            Some(code) => if code == Some(409u16) {
                CreateOutcome::AlreadyThere
            } else {
                CreateOutcome::Failed
            },
        },
{
    match error {
        None => CreateOutcome::Created,
        Some(Some(409)) => CreateOutcome::AlreadyThere,
        Some(_) => CreateOutcome::Failed,
    }
}

/// Whether listing the ScaledObjects failed because the cluster has no KEDA: there is then nothing
/// to analyze.
pub fn keda_absent(code: Option<u16>) -> (b: bool)
    ensures
        b == (code == Some(404u16)),
{
    match code {
        Some(404) => true,
        _ => false,
    }
}

// ---------------------------------------------------------------------------------------------
// Laws

/// A new recommendation waits for a human: it is never due to be applied as it is created.
pub proof fn law_new_recommendation_waits_for_approval(
    spec: ScalingRecommendationSpec,
    rec: Recommendation,
    list: Seq<Seq<char>>,
)
    requires
        !spec.approved,
        rec.spec == spec,
    ensures
        !crate::controller::apply::apply_due(rec, list),
        !crate::controller::schedule::driven(rec, list),
{
}

/// A pending recommendation is applied once it is approved, and not before: with the status that
/// it is created with, its approval alone makes it due in a namespace in which the operator acts.
/// Until then its schedule is not driven and it is not judged.
pub proof fn law_pending_recommendation_awaits_approval(
    rec: Recommendation,
    list: Seq<Seq<char>>,
    now: Timestamp,
)
    requires
        rec.status_view() == changed(no_status(), pending_record()),
    ensures
        in_phase(rec.status_view(), Phase::Pending),
        rec.status_view().phase == Some("pending"@),
        rec.status_view().applied_at is None,
        rec.status_view().probation_until is None,
        rec.status_view().schedule_active is None,
        crate::controller::apply::apply_due(rec, list) <==> rec.spec.approved && in_scope(
            rec.namespace,
            list,
        ),
        !crate::controller::schedule::driven(rec, list),
        !crate::controller::verify::judgement_due(rec, now, list),
{
    crate::controller::apply::lemma_phase_names(Phase::Pending, Phase::Applied);
    crate::controller::apply::lemma_phase_names(Phase::Pending, Phase::Verified);
    crate::controller::apply::lemma_phase_names(Phase::Pending, Phase::RolledBack);
    crate::controller::apply::lemma_phase_names(Phase::Pending, Phase::Degraded);
}

/// No more workloads are deferred than there were, and a pass that only deferred reports no error.
pub proof fn law_deferred_workloads_are_counted(outcomes: Seq<AnalysisOutcome>)
    ensures
        deferrals(outcomes) <= outcomes.len(),
        deferrals(outcomes) == outcomes.len() ==> first_failure(outcomes) is None,
    decreases outcomes.len(),
{
    if outcomes.len() > 0 {
        law_deferred_workloads_are_counted(outcomes.drop_last());
    }
}

/// The target of an autoscaler is its own workload: keyed by its namespace and name, with the
/// deployment that it scales, or its own name where that is not known.
pub proof fn law_target_is_the_scaled_workload(
    t: AnalysisTarget,
    namespace: Seq<char>,
    name: Seq<char>,
    scaled: Option<Seq<char>>,
)
    requires
        analyzes(t, namespace, name, scaled),
    ensures
        t.namespace@ == namespace,
        t.name@ == name,
        t.key@ == namespace + "/"@ + name,
        scaled is Some ==> t.deployment@ == scaled->0,
        scaled is None ==> t.deployment@ == name,
{
}

/// Deferred workloads are counted one by one, and the first failure is the one that is surfaced.
pub proof fn law_outcomes_are_counted_one_by_one(
    some: Seq<AnalysisOutcome>,
    more: Seq<AnalysisOutcome>,
)
    ensures
        deferrals(some + more) == deferrals(some) + deferrals(more),
        first_failure(some) is Some ==> first_failure(some + more) == first_failure(some),
        first_failure(some) is None ==> first_failure(some + more) == first_failure(more),
        some.len() == 1 ==> (deferrals(some) == 1 <==> some[0] is Deferred),
        some.len() == 1 ==> (first_failure(some) is Some <==> some[0] is Failed),
        some.len() == 1 && some[0] is Failed ==> first_failure(some) == Some(some[0]->Failed_0@),
    decreases more.len(),
{
    if some.len() == 1 {
        reveal_with_fuel(deferrals, 2);
        reveal_with_fuel(first_failure, 2);
    }
    if more.len() == 0 {
        assert(some + more =~= some);
    } else {
        law_outcomes_are_counted_one_by_one(some, more.drop_last());
        assert((some + more).drop_last() =~= some + more.drop_last());
        assert((some + more).last() == more.last());
    }
}

/// The resource carries every change of the recommendation as it is, and no other.
pub proof fn law_changes_are_carried_over(diff: Map<Seq<char>, ConfigDiffEntry>, field: Seq<char>)
    ensures
        diff_entries(diff).dom().contains(field) <==> diff.dom().contains(field),
        diff.dom().contains(field) ==> diff_entries(diff)[field].from == diff[field].from
            && diff_entries(diff)[field].to == diff[field].to,
{
}

/// The resource carries the schedule's windows as they are.
pub proof fn law_windows_are_carried_over(spec: ScalingRecommendationSpec, i: int)
    ensures
        spec.schedule is None ==> spec_schedule(spec) is None,
        spec.schedule is Some ==> spec_schedule(spec) is Some && spec_schedule(spec)->0.len()
            == spec.schedule->0@.len(),
        spec.schedule is Some && 0 <= i < spec.schedule->0@.len() ==> {
            let window = spec.schedule->0@[i];
            spec_schedule(spec)->0[i] == WindowView {
                start_cron: window.start_cron@,
                duration_minutes: window.duration_minutes,
                min_replicas: window.min_replicas,
            }
        },
{
}

/// Advice that the operator will not carry out says so in a paragraph of its own.
pub proof fn law_advice_says_that_it_is_advice()
    ensures
        crate::text::has_prefix(
            advisory_suffix(),
            "\n\n_This operator is running in recommend-only mode; apply this change yourself"@,
        ),
{
    reveal_strlit(
        "\n\n_This operator is running in recommend-only mode; apply this change yourself",
    );
    reveal_strlit(
        "\n\n_This operator is running in recommend-only mode; apply this change yourself, or run with `--mode=apply` to auto-apply approved recommendations._",
    );
    let start =
        "\n\n_This operator is running in recommend-only mode; apply this change yourself"@;
    assert(advisory_suffix().take(start.len() as int) =~= start);
}

} // verus!
