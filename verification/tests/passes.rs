use chrono::{TimeZone, Utc};
use openhpa::clock::{parse_rfc3339, Timestamp, YEAR_9999, YEAR_ZERO};
use openhpa::collector::{Hpa, HpaSpec};
use openhpa::controller::analysis::{
    analysis_item, analyze_and_recommend, create_outcome, hpa_target, keda_absent, keda_hpa_name, pass_outcome,
    queue_analysis, scaled_object_target, within_budget, AnalysisItem, AnalysisOutcome,
    CreateOutcome, NewRecommendation,
};
use openhpa::controller::apply::{apply_status, mutating_pass, ApplyPass, ApplyStep};
use openhpa::controller::history::{
    cached_points, fetch_since, record_fallback, record_fetched, History, HISTORY_CAP,
};
use openhpa::controller::schedule::{
    active_window_min, floor_action, freshness, keda_schedule_status, next_miss_count,
    schedule_effects, window_idle, FloorAction, ScheduleEffect, SchedulePass, ScheduleStep,
};
use openhpa::controller::verify::{
    decide_verify, revert_diff, split_before_after, verify_effect, verify_step, VerifyAction,
};
use openhpa::controller::{
    after_analysis, evict_absent, guarded_mutate, into_schedule_specs, is_leader, is_watched,
    jittered_sleep, mutation_deadline, next_stage, workload_key, Election, PassEnd, Stage,
};
use openhpa::crd::{
    DiffEntry, DiffMap, Phase, ScalingRecommendationSpec, ScalingRecommendationStatus,
    ScheduleWindowSpec, TargetKind, TargetRef,
};
use openhpa::domain::{
    Candidate, CandidateKind, ConfigDiffEntry, MetricPoint, MetricsSnapshot, SavingsPart,
    ScheduleWindow, WorkloadConfig,
};
use openhpa::field_map::FieldMap;
use openhpa::json::Json;
use openhpa::leader::{
    lease_duration_for_interval, lease_is_acquirable, Lease, LeaseSpec,
};
use openhpa::safety::HealthVerdict;
use openhpa::sample::Sample;
use openhpa::status::{phase_is, ProbationPatch, Recommendation, StatusPatch};

fn s(x: f64) -> Sample {
    Sample { bits: x.to_bits() }
}

fn window(cron: &str, duration_minutes: i32, min_replicas: i32) -> ScheduleWindowSpec {
    ScheduleWindowSpec { start_cron: cron.to_owned(), duration_minutes, min_replicas }
}

fn config() -> WorkloadConfig {
    WorkloadConfig {
        min_replicas: 2,
        max_replicas: 20,
        target_cpu_pct: 70,
        scale_down_cooldown_s: 300,
    }
}

/// Half the CPU target.
fn ceiling() -> Sample {
    s(f64::from(config().target_cpu_pct) / 100.0 * 0.5)
}

fn at(hour: u32, minute: u32) -> Timestamp {
    let t = Utc.with_ymd_and_hms(2026, 1, 7, hour, minute, 0).unwrap(); // a Wednesday
    Timestamp { secs: t.timestamp(), nanos: 0 }
}

fn point(timestamp: Timestamp, cpu_util: f64) -> MetricPoint {
    MetricPoint { timestamp, cpu_util: s(cpu_util), replicas: 8, queue_depth: None }
}

#[test]
fn active_window_min_picks_highest_active_floor() {
    let windows = vec![window("0 9 * * *", 120, 5), window("30 9 * * *", 60, 8)];
    assert_eq!(active_window_min(&windows, at(9, 45)), Some(8)); // inside both
    assert_eq!(active_window_min(&windows, at(9, 15)), Some(5)); // inside the first only
    assert_eq!(active_window_min(&windows, at(12, 0)), None); // outside all
}

#[test]
fn window_idle_requires_a_fresh_sample() {
    let now = at(9, 30);
    let max_age = 15 * 60;
    let idle = vec![point(now.plus_seconds(-120), 0.10)];
    let busy = vec![point(now.plus_seconds(-120), 0.60)];
    let stale = vec![point(now.plus_seconds(-7200), 0.10)];
    assert_eq!(window_idle(Some(&idle), ceiling(), now, max_age), Some(true));
    assert_eq!(window_idle(Some(&busy), ceiling(), now, max_age), Some(false));
    assert_eq!(window_idle(Some(&stale), ceiling(), now, max_age), None);
    assert_eq!(window_idle(None, ceiling(), now, max_age), None);
    // A sample of exactly the greatest age still counts; only the last one is looked at.
    let edge = vec![point(now, 0.99), point(now.plus_seconds(-900), 0.10)];
    assert_eq!(window_idle(Some(&edge), ceiling(), now, max_age), Some(true));
}

#[test]
fn freshness_is_three_times_the_longer_step() {
    assert_eq!(freshness(300, 60), 900);
    assert_eq!(freshness(60, 300), 900);
    assert_eq!(freshness(u64::MAX / 3, 1), 900);
}

#[test]
fn into_schedule_specs_maps_fields() {
    let specs = into_schedule_specs(vec![ScheduleWindow {
        start_cron: "0 9 * * *".to_owned(),
        duration_minutes: 480,
        min_replicas: 8,
    }]);
    assert_eq!(specs.len(), 1);
    assert_eq!(specs[0].start_cron, "0 9 * * *");
    assert_eq!(specs[0].min_replicas, 8);
    assert_eq!(specs[0].duration_minutes, 480);
}

fn diff(pairs: &[(&str, i32, i32)]) -> DiffMap {
    let mut diff = FieldMap::new();
    for (k, from, to) in pairs {
        diff.insert((*k).to_owned(), DiffEntry { from: *from, to: *to });
    }
    diff
}

#[test]
fn decide_verify_maps_verdicts_to_actions() {
    assert!(matches!(decide_verify(HealthVerdict::Healthy, true), VerifyAction::Verify));
    assert!(matches!(decide_verify(HealthVerdict::Inconclusive, true), VerifyAction::Extend));
    assert!(matches!(
        decide_verify(HealthVerdict::Degraded("x".to_owned()), true),
        VerifyAction::Revert { .. }
    ));
    // rollback disabled holds for re-judgement instead of freezing.
    assert!(matches!(
        decide_verify(HealthVerdict::Degraded("x".to_owned()), false),
        VerifyAction::HoldDegraded(_)
    ));
}

#[test]
fn revert_diff_keeps_schedule_owned_min_replicas() {
    let config_diff = diff(&[("min_replicas", 10, 3), ("target_cpu_pct", 70, 85)]);
    // with a schedule, the revert must not touch min_replicas (the schedule owns the floor).
    let scheduled = revert_diff(&config_diff, true);
    assert!(!scheduled.contains_key("min_replicas"));
    assert!(scheduled.contains_key("target_cpu_pct"));
    // Without a schedule, every field reverts.
    assert_eq!(revert_diff(&config_diff, false).len(), 2);
}

#[test]
fn split_excludes_apply_instant_from_after() {
    let applied_at = at(10, 0);
    let points = vec![
        point(at(9, 55), 0.5), // before
        point(at(10, 0), 0.5), // apply instant -> before
        point(at(10, 5), 0.5), // after
    ];
    let (before, after) = split_before_after(points, applied_at);
    assert_eq!(before.len(), 2);
    assert_eq!(after.len(), 1);
    assert_eq!(after[0].timestamp, at(10, 5));
}

#[test]
fn floor_action_restores_baseline_after_rolled_back_window() {
    // Rolled-back rec, inside its window: hold the raised floor (raise to it, or keep if already).
    assert_eq!(floor_action(true, Some(8), 3, 3), FloorAction::SetTo(8));
    assert_eq!(floor_action(true, Some(8), 3, 8), FloorAction::Keep);
    // Rolled-back rec, window over: retire to baseline (so the floor isn't pinned high forever).
    assert_eq!(floor_action(true, None, 3, 8), FloorAction::Retire(3));
    // Live rec: raise inside the window, restore baseline outside, no-op when already correct.
    assert_eq!(floor_action(false, Some(8), 3, 3), FloorAction::SetTo(8));
    assert_eq!(floor_action(false, None, 3, 8), FloorAction::SetTo(3));
    assert_eq!(floor_action(false, None, 3, 3), FloorAction::Keep);
}

#[test]
fn miss_count_only_grows_on_consecutive_fresh_idle() {
    assert_eq!(next_miss_count(2, Some(true)), Some(3)); // fresh idle extends the streak
    assert_eq!(next_miss_count(5, Some(false)), None); // busy resets
    assert_eq!(next_miss_count(5, None), None); // stale/missing also resets (no silent accrual)
}

#[test]
fn evict_absent_drops_unseen_keys() {
    let mut map = FieldMap::new();
    map.insert("ns/live".to_owned(), 1u32);
    map.insert("ns/dead".to_owned(), 9);
    let present = vec!["ns/live".to_owned()];
    evict_absent(&mut map, &present);
    assert_eq!(map.len(), 1);
    assert_eq!(map.get("ns/live"), Some(&1));
    assert_eq!(map.get("ns/dead"), None);
}

#[test]
fn jittered_sleep_stays_within_ten_percent() {
    let base = 300_000;
    for nanos in [0u32, 123_456_789, 999_999_999] {
        let now = Timestamp { secs: 1_700_000_000, nanos };
        let slept = jittered_sleep(base, now);
        assert!(slept >= base && slept <= base + 30_000, "{slept:?}");
    }
    assert_eq!(jittered_sleep(0, Timestamp { secs: 0, nanos: 0 }), 0);
    assert_eq!(jittered_sleep(300_000, Timestamp { secs: 0, nanos: 30_002 }), 300_001);
    assert_eq!(jittered_sleep(9, Timestamp { secs: 0, nanos: 7 }), 9);
}

#[test]
fn mutation_deadline_is_start_plus_budget() {
    let started = at(10, 0);
    assert_eq!(mutation_deadline(started, 300), started.plus_seconds(300));
    // A budget that no time span holds counts as five minutes.
    assert_eq!(mutation_deadline(started, u64::MAX), started.plus_seconds(300));
}

#[test]
fn recommend_mode_never_starts_a_mutating_pass() {
    assert_eq!(mutating_pass(false, at(10, 0), 300), None);
    assert_eq!(mutating_pass(true, at(10, 0), 300), Some(at(10, 5)));
}

#[test]
fn a_lost_lease_or_an_overrun_stops_the_tick() {
    assert_eq!(guarded_mutate(false), Some(PassEnd::NotLeader));
    assert_eq!(guarded_mutate(true), None);
    for stage in [Stage::Apply, Stage::Verify, Stage::Schedule] {
        assert_eq!(next_stage(stage, PassEnd::NotLeader), Stage::Sleep);
        assert_eq!(next_stage(stage, PassEnd::TimedOut), Stage::Sleep);
    }
    for end in [PassEnd::Completed, PassEnd::Failed] {
        assert_eq!(next_stage(Stage::Apply, end), Stage::Verify);
        assert_eq!(next_stage(Stage::Verify, end), Stage::Schedule);
        assert_eq!(next_stage(Stage::Schedule, end), Stage::Sleep);
    }
    assert_eq!(after_analysis(false), Stage::Sleep);
    assert_eq!(after_analysis(true), Stage::Apply);
}

#[test]
fn a_failed_election_does_not_lead() {
    assert!(is_leader(Election::Disabled));
    assert!(is_leader(Election::Decided(true)));
    assert!(!is_leader(Election::Decided(false)));
    assert!(!is_leader(Election::Failed));
}

// --- the recommendations that the passes work on ---

fn recommendation(kind: TargetKind, approved: bool, phase: Option<Phase>) -> Recommendation {
    Recommendation {
        namespace: Some("prod".to_owned()),
        name: "web".to_owned(),
        spec: ScalingRecommendationSpec {
            target_ref: TargetRef { kind, name: "web-hpa".to_owned() },
            approved,
            risk_level: "low".to_owned(),
            summary_md: String::new(),
            projected_savings_usd_monthly: None,
            config_diff: diff(&[("min_replicas", 10, 3)]),
            schedule: None,
        },
        status: phase.map(|p| ScalingRecommendationStatus {
            phase: Some(p.as_str().to_owned()),
            ..ScalingRecommendationStatus::default()
        }),
    }
}

const HPA: TargetKind = TargetKind::HorizontalPodAutoscaler;

/// No namespace is listed: the operator acts in all of them.
fn everywhere() -> Vec<String> {
    vec![]
}

fn only(namespace: &str) -> Vec<String> {
    vec!["staging".to_owned(), namespace.to_owned()]
}

/// The recommendation after a status change went through.
fn merged(mut rec: Recommendation, patch: StatusPatch) -> Recommendation {
    let mut status = rec.status.take().unwrap_or_default();
    if let Some(phase) = patch.phase {
        status.phase = Some(phase.as_str().to_owned());
    }
    if patch.applied_at.is_some() {
        status.applied_at = patch.applied_at;
    }
    match patch.probation_until {
        ProbationPatch::Keep => {}
        ProbationPatch::Until(t) => status.probation_until = Some(t),
        ProbationPatch::Clear => status.probation_until = None,
    }
    if patch.schedule_active.is_some() {
        status.schedule_active = patch.schedule_active;
    }
    if patch.detail.is_some() {
        status.detail = patch.detail;
    }
    rec.status = Some(status);
    rec
}

#[test]
fn the_apply_pass_patches_what_is_approved_and_new() {
    let items = vec![
        recommendation(HPA, false, None),
        recommendation(HPA, true, Some(Phase::Applied)),
        recommendation(HPA, true, Some(Phase::Failed)),
        Recommendation { namespace: None, ..recommendation(HPA, true, None) },
    ];
    let mut pass = ApplyPass::new(items, at(10, 5), everywhere());
    assert!(matches!(pass.next(at(10, 0)), ApplyStep::Skip));
    assert!(matches!(pass.next(at(10, 0)), ApplyStep::Skip));
    let ApplyStep::Patch(target) = pass.next(at(10, 0)) else { panic!("expected a patch") };
    assert_eq!(target.namespace, "prod");
    assert_eq!((target.name.as_str(), target.target.as_str()), ("web", "web-hpa"));
    assert_eq!(
        target.patch.get("spec").unwrap().get("minReplicas").unwrap().as_i64(),
        Some(3)
    );
    assert!(matches!(pass.next(at(10, 0)), ApplyStep::Skip));
    assert!(matches!(pass.next(at(10, 0)), ApplyStep::Done));
}

#[test]
fn nothing_outside_the_listed_namespaces_is_touched() {
    let other = |rec: Recommendation| Recommendation { namespace: Some("other".to_owned()), ..rec };
    // An approved change, an applied schedule, and a change whose probation has passed.
    let items = vec![other(recommendation(HPA, true, None)), recommendation(HPA, true, None)];
    let mut pass = ApplyPass::new(items, at(10, 5), only("prod"));
    assert!(matches!(pass.next(at(10, 0)), ApplyStep::Skip));
    let ApplyStep::Patch(target) = pass.next(at(10, 0)) else { panic!("expected a patch") };
    assert_eq!(target.namespace, "prod");

    let items = vec![other(scheduled(Phase::Applied, None)), scheduled(Phase::Applied, None)];
    let mut pass = SchedulePass::new(items, at(10, 5), only("prod"));
    assert!(matches!(pass.next(at(10, 0)), ScheduleStep::Skip));
    assert!(matches!(pass.next(at(10, 0)), ScheduleStep::Hpa(_)));
    assert_eq!(pass.seen, vec!["prod/web"]);

    let due = other(probationary(Phase::Applied));
    assert!(verify_step(&due, at(10, 0), &only("prod")).is_none());
    assert!(verify_step(&due, at(10, 0), &only("other")).is_some());
    assert!(verify_step(&due, at(10, 0), &everywhere()).is_some());

    let found = Some("other".to_owned());
    assert!(hpa_target(found.clone(), "web".to_owned(), &hpa(None), &only("prod")).is_none());
    assert!(hpa_target(found.clone(), "web".to_owned(), &hpa(None), &only("other")).is_some());
    let so = |list: &Vec<String>| {
        scaled_object_target(found.clone(), "so".to_owned(), &Json::Null, list).is_some()
    };
    assert!(!so(&only("prod")) && so(&only("other")) && so(&everywhere()));
    assert!(is_watched(&everywhere(), "other") && !is_watched(&only("prod"), "other"));
    assert!(!is_watched(&only("prod"), "pro"));
}

#[test]
fn the_apply_pass_stops_at_its_deadline() {
    let items = vec![recommendation(HPA, true, None), recommendation(HPA, true, None)];
    let mut pass = ApplyPass::new(items, at(10, 5), everywhere());
    assert!(matches!(pass.next(at(10, 4)), ApplyStep::Patch(_)));
    assert!(matches!(pass.next(at(10, 5)), ApplyStep::Deadline { skipped: 1, total: 2 }));
    assert!(matches!(pass.next(at(10, 0)), ApplyStep::Done));
}

#[test]
fn an_applied_hpa_goes_on_probation() {
    let now = Timestamp { nanos: 250_000_000, ..at(10, 0) };
    let patch = apply_status(HPA, now, 45 * 60, None);
    assert_eq!(patch.phase, Some(Phase::Applied));
    assert_eq!(patch.applied_at.as_deref(), Some("2026-01-07T10:00:00.250+00:00"));
    assert_eq!(patch.detail.as_deref(), Some("patched HPA"));
    let ProbationPatch::Until(until) = &patch.probation_until else { panic!("no probation") };
    assert_eq!(until, "2026-01-07T10:45:00.250+00:00");
    assert_eq!(parse_rfc3339(until), Some(now.plus_seconds(45 * 60)));
    // Once recorded it is not applied again, and not judged before the probation has passed.
    let rec = merged(recommendation(HPA, true, None), patch);
    assert!(verify_step(&rec, now.plus_seconds(45 * 60 - 1), &everywhere()).is_none());
    let judgement = verify_step(&rec, now.plus_seconds(45 * 60), &everywhere()).expect("due");
    assert_eq!(judgement.applied_at, now);
    assert_eq!(judgement.key, "prod/web");
    assert_eq!(judgement.target, "web-hpa");
    let mut pass = ApplyPass::new(vec![rec], at(23, 0), everywhere());
    assert!(matches!(pass.next(at(11, 0)), ApplyStep::Skip));
}

#[test]
fn a_scaled_object_is_verified_at_once_and_a_failure_is_recorded() {
    let patch = apply_status(TargetKind::ScaledObject, at(10, 0), 60, None);
    assert_eq!(patch.phase, Some(Phase::Verified));
    assert!(matches!(patch.probation_until, ProbationPatch::Keep));
    assert_eq!(
        patch.detail.as_deref(),
        Some("patched ScaledObject (health verification not supported)")
    );
    let failed = apply_status(HPA, at(10, 0), 60, Some("boom".to_owned()));
    assert_eq!(failed.phase, Some(Phase::Failed));
    assert_eq!(failed.detail.as_deref(), Some("apply failed: boom"));
    assert!(failed.applied_at.is_none());
    let rec = merged(recommendation(HPA, true, None), failed);
    let mut pass = ApplyPass::new(vec![rec], at(23, 0), everywhere());
    assert!(matches!(pass.next(at(11, 0)), ApplyStep::Patch(_)));
}

fn probationary(phase: Phase) -> Recommendation {
    let mut rec = recommendation(HPA, true, Some(phase));
    let status = rec.status.as_mut().unwrap();
    status.applied_at = Some("2026-01-07T09:00:00Z".to_owned());
    status.probation_until = Some("2026-01-07T10:00:00+00:00".to_owned());
    rec
}

#[test]
fn only_probationary_hpa_changes_are_judged() {
    assert!(verify_step(&probationary(Phase::Applied), at(10, 0), &everywhere()).is_some());
    assert!(verify_step(&probationary(Phase::Degraded), at(10, 0), &everywhere()).is_some());
    for phase in [Phase::Pending, Phase::Verified, Phase::RolledBack, Phase::Blocked, Phase::Failed]
    {
        assert!(verify_step(&probationary(phase), at(10, 0), &everywhere()).is_none());
    }
    let mut keda = probationary(Phase::Applied);
    keda.spec.target_ref.kind = TargetKind::ScaledObject;
    assert!(verify_step(&keda, at(10, 0), &everywhere()).is_none());
    let mut unread = probationary(Phase::Applied);
    unread.status.as_mut().unwrap().applied_at = Some("yesterday".to_owned());
    assert!(verify_step(&unread, at(10, 0), &everywhere()).is_none());
    let mut homeless = probationary(Phase::Applied);
    homeless.namespace = None;
    assert!(verify_step(&homeless, at(10, 0), &everywhere()).is_none());
    // An offset is taken into account.
    let mut offset = probationary(Phase::Applied);
    offset.status.as_mut().unwrap().applied_at = Some("2026-01-07T11:30:00+02:30".to_owned());
    assert_eq!(verify_step(&offset, at(10, 0), &everywhere()).unwrap().applied_at, at(9, 0));
}

#[test]
fn each_verdict_has_its_effect() {
    let rec = probationary(Phase::Applied);
    let effect = verify_effect(&rec, HealthVerdict::Healthy, true, at(10, 0), 60);
    assert!(effect.revert.is_none());
    assert_eq!(effect.status.phase, Some(Phase::Verified));
    assert!(matches!(effect.status.probation_until, ProbationPatch::Clear));

    let effect = verify_effect(&rec, HealthVerdict::Inconclusive, true, at(10, 0), 60);
    assert!(effect.revert.is_none());
    assert_eq!(effect.status.phase, Some(Phase::Applied));
    let ProbationPatch::Until(until) = effect.status.probation_until else { panic!("extended") };
    assert_eq!(parse_rfc3339(&until), Some(at(10, 1)));

    let bad = || HealthVerdict::Degraded("hot".to_owned());
    let effect = verify_effect(&rec, bad(), true, at(10, 0), 60);
    let revert = effect.revert.expect("reverts");
    assert_eq!(revert.get("spec").unwrap().get("minReplicas").unwrap().as_i64(), Some(10));
    assert_eq!(effect.status.phase, Some(Phase::RolledBack));
    assert_eq!(effect.status.detail.as_deref(), Some("hot"));

    let effect = verify_effect(&rec, bad(), false, at(10, 0), 60);
    assert!(effect.revert.is_none());
    assert_eq!(effect.status.phase, Some(Phase::Degraded));

    // A verdict that ends the probation asks nothing of its length.
    let effect = verify_effect(&rec, HealthVerdict::Healthy, true, at(10, 0), i64::MAX);
    assert_eq!(effect.status.phase, Some(Phase::Verified));
    let effect = verify_effect(&rec, bad(), true, at(10, 0), i64::MAX);
    assert_eq!(effect.status.phase, Some(Phase::RolledBack));

    // Where the schedule owns the floor and nothing else changed, nothing is patched.
    let mut scheduled = probationary(Phase::Applied);
    scheduled.spec.schedule = Some(vec![]);
    let effect = verify_effect(&scheduled, bad(), true, at(10, 0), 60);
    assert!(effect.revert.is_none());
    assert_eq!(effect.status.phase, Some(Phase::RolledBack));
}

fn scheduled(phase: Phase, active: Option<bool>) -> Recommendation {
    let mut rec = recommendation(HPA, true, Some(phase));
    rec.spec.schedule = Some(vec![window("0 9 * * *", 120, 8)]);
    rec.status.as_mut().unwrap().schedule_active = active;
    rec
}

#[test]
fn the_schedule_pass_drives_applied_schedules() {
    let mut unapproved = scheduled(Phase::Applied, None);
    unapproved.spec.approved = false;
    let mut keda = scheduled(Phase::Verified, Some(true));
    keda.spec.target_ref.kind = TargetKind::ScaledObject;
    keda.name = "so".to_owned();
    let items = vec![
        scheduled(Phase::Applied, None),
        unapproved,
        scheduled(Phase::Failed, None),
        scheduled(Phase::Verified, Some(false)),
        recommendation(HPA, true, Some(Phase::Applied)),
        keda,
    ];
    let mut pass = SchedulePass::new(items, at(10, 5), everywhere());
    let ScheduleStep::Hpa(target) = pass.next(at(10, 0)) else { panic!("expected the HPA") };
    assert_eq!((target.index, target.key.as_str()), (0, "prod/web"));
    for _ in 0..4 {
        assert!(matches!(pass.next(at(10, 0)), ScheduleStep::Skip));
    }
    let ScheduleStep::Keda(target) = pass.next(at(10, 0)) else { panic!("expected KEDA") };
    assert_eq!((target.index, target.key.as_str()), (5, "prod/so"));
    assert!(matches!(pass.next(at(10, 0)), ScheduleStep::Done));
    let mut misses = FieldMap::new();
    misses.insert("prod/web".to_owned(), 3u32);
    misses.insert("prod/gone".to_owned(), 4);
    pass.finish(&mut misses);
    assert_eq!((misses.get("prod/web"), misses.get("prod/gone")), (Some(&3), None));
}

#[test]
fn an_installed_keda_schedule_is_marked_active_once() {
    let mut keda = scheduled(Phase::Verified, None);
    keda.spec.target_ref.kind = TargetKind::ScaledObject;
    let patch = keda_schedule_status(&keda).expect("unmarked");
    assert_eq!((patch.schedule_active, patch.phase), (Some(true), None));
    assert!(patch.detail.is_none());
    let marked = merged(keda, patch);
    assert!(keda_schedule_status(&marked).is_none());
    // The mark leaves it driven.
    let mut pass = SchedulePass::new(vec![marked], at(10, 5), everywhere());
    assert!(matches!(pass.next(at(10, 0)), ScheduleStep::Keda(_)));
}

#[test]
fn a_pending_recommendation_is_applied_once_approved() {
    let item = item(vec![candidate(CandidateKind::IdleWindow)]);
    let output = openhpa::backend::rules_only_output(&item.candidates, "all");
    let new = analyze_and_recommend(&item, &output, "30", true).expect("a change");
    let created = Recommendation {
        namespace: Some(item.namespace),
        name: item.name,
        spec: new.spec,
        status: None,
    };
    let pending = merged(created, new.status);
    assert!(phase_is(&pending, Phase::Pending));
    assert!(verify_step(&pending, at(10, 0), &everywhere()).is_none());
    let mut pass = ApplyPass::new(vec![pending], at(23, 0), everywhere());
    assert!(matches!(pass.next(at(11, 0)), ApplyStep::Skip));
    let mut approved = pass.items.remove(0);
    approved.spec.approved = true;
    let mut pass = ApplyPass::new(vec![approved], at(23, 0), everywhere());
    assert!(matches!(pass.next(at(11, 0)), ApplyStep::Patch(_)));
}

#[test]
fn a_pass_is_over_before_a_peer_may_take_the_lease() {
    let renewed = at(10, 0);
    let lease = Lease {
        resource_version: None,
        spec: Some(LeaseSpec {
            holder_identity: Some("leader".to_owned()),
            renew_time: Some(renewed),
        }),
    };
    let deadline = mutation_deadline(renewed.plus_seconds(300), 300);
    let peer = |now: Timestamp| {
        lease_is_acquirable(&lease, "peer", now, lease_duration_for_interval(300), 5)
    };
    assert!(!peer(deadline));
    assert!(!peer(deadline.plus_seconds(5)));
    assert!(peer(deadline.plus_seconds(6)));
}

#[test]
fn a_truncated_schedule_pass_keeps_the_streaks() {
    let items = vec![scheduled(Phase::Applied, None), scheduled(Phase::Applied, None)];
    let mut pass = SchedulePass::new(items, at(10, 5), everywhere());
    assert!(matches!(pass.next(at(10, 0)), ScheduleStep::Hpa(_)));
    assert!(matches!(pass.next(at(10, 5)), ScheduleStep::Deadline { skipped: 1, total: 2 }));
    let mut misses = FieldMap::new();
    misses.insert("prod/other".to_owned(), 4u32);
    pass.finish(&mut misses);
    assert_eq!(misses.get("prod/other"), Some(&4));
}

fn shown(effects: Vec<ScheduleEffect>) -> Vec<String> {
    effects
        .into_iter()
        .map(|e| match e {
            ScheduleEffect::SetFloor(n) => format!("floor {n}"),
            ScheduleEffect::Status(p) => {
                format!("active {:?} {:?}", p.schedule_active, p.detail)
            }
            ScheduleEffect::Remember(n) => format!("remember {n}"),
            ScheduleEffect::Forget => "forget".to_owned(),
        })
        .collect()
}

fn drive(
    rec: &Recommendation,
    current_min: i32,
    history: &History,
    streak: Option<u32>,
    now: Timestamp,
) -> Vec<String> {
    let mut misses = FieldMap::new();
    if let Some(n) = streak {
        misses.insert("prod/web".to_owned(), n);
    }
    let config = WorkloadConfig { min_replicas: current_min, ..config() };
    shown(schedule_effects(rec, "prod/web", &config, history, &misses, ceiling(), now, 900))
}

fn history_of(points: Vec<MetricPoint>) -> History {
    let mut history = FieldMap::new();
    history.insert("prod/web".to_owned(), points);
    history
}

#[test]
fn a_floor_is_raised_in_its_window_and_restored_after() {
    let none = FieldMap::new();
    let busy = history_of(vec![point(at(9, 29), 0.9)]);
    let fresh = scheduled(Phase::Applied, None);
    assert_eq!(
        drive(&fresh, 3, &busy, Some(2), at(9, 30)),
        vec!["forget", "floor 8", "active Some(true) None"]
    );
    let known = scheduled(Phase::Verified, Some(true));
    assert_eq!(drive(&known, 8, &none, None, at(9, 30)), vec!["forget"]);
    assert_eq!(drive(&known, 8, &none, Some(5), at(12, 0)), vec!["forget", "floor 3"]);
    assert_eq!(drive(&known, 3, &none, None, at(12, 0)), vec!["forget"]);
}

#[test]
fn an_idle_peak_is_retracted_on_the_sixth_sample() {
    let idle = history_of(vec![point(at(9, 29), 0.1)]);
    let rec = scheduled(Phase::Applied, Some(true));
    assert_eq!(drive(&rec, 8, &idle, None, at(9, 30)), vec!["remember 1"]);
    assert_eq!(drive(&rec, 8, &idle, Some(4), at(9, 30)), vec!["remember 5"]);
    assert_eq!(
        drive(&rec, 8, &idle, Some(5), at(9, 30)),
        vec![
            "floor 3",
            "active Some(false) Some(\"schedule retracted: forecasted peak not materializing\")",
            "forget",
        ]
    );
}

#[test]
fn a_rolled_back_schedule_is_retired_after_its_window() {
    let none = FieldMap::new();
    let rec = scheduled(Phase::RolledBack, Some(true));
    assert!(drive(&rec, 8, &none, None, at(9, 30)).is_empty());
    assert_eq!(
        drive(&rec, 8, &none, None, at(12, 0)),
        vec![
            "floor 3",
            "active Some(false) Some(\"schedule retired: baseline restored after rollback\")",
        ]
    );
    assert_eq!(drive(&rec, 3, &none, None, at(12, 0)).len(), 1);
    // Without a baseline in the change there is nothing to drive.
    let mut bare = scheduled(Phase::Applied, None);
    bare.spec.config_diff = diff(&[("target_cpu_pct", 70, 85)]);
    assert!(drive(&bare, 8, &none, None, at(9, 30)).is_empty());
}

// --- history ---

#[test]
fn history_is_extended_in_order_and_capped() {
    let mut history: History = FieldMap::new();
    assert_eq!(fetch_since(&history, "k", at(10, 0), 600), at(9, 50));
    record_fetched(&mut history, "k", &vec![point(at(9, 50), 0.1), point(at(9, 55), 0.2)]);
    assert_eq!(fetch_since(&history, "k", at(10, 0), 600), at(9, 55));
    record_fetched(
        &mut history,
        "k",
        &vec![point(at(9, 50), 0.1), point(at(9, 55), 0.9), point(at(10, 0), 0.3)],
    );
    let cpu: Vec<Sample> = cached_points(&history, "k").iter().map(|p| p.cpu_util).collect();
    assert_eq!(cpu, vec![s(0.1), s(0.2), s(0.3)]);
    record_fallback(&mut history, "k", None);
    record_fallback(&mut history, "other", Some(point(at(10, 0), 0.5)));
    assert_eq!(cached_points(&history, "k").len(), 3);
    assert_eq!(cached_points(&history, "other").len(), 1);
    assert!(cached_points(&history, "unknown").is_empty());

    let many: Vec<MetricPoint> =
        (0..HISTORY_CAP as i64 + 5).map(|i| point(at(11, 0).plus_seconds(i), 0.4)).collect();
    record_fetched(&mut history, "k", &many);
    let kept = cached_points(&history, "k");
    assert_eq!(kept.len(), HISTORY_CAP);
    assert_eq!(kept[0].timestamp, at(11, 0).plus_seconds(5));
}

// --- analysis ---

fn hpa(owner: Option<&str>) -> Hpa {
    Hpa {
        owner_kinds: owner.map(|o| vec!["Deployment".to_owned(), o.to_owned()]),
        spec: Some(HpaSpec {
            min_replicas: None,
            max_replicas: 5,
            metrics: None,
            behavior: None,
            scale_target_name: "web-deploy".to_owned(),
        }),
        status: None,
    }
}

#[test]
fn one_target_per_workload() {
    let some = || Some("prod".to_owned());
    let target = hpa_target(some(), "web".to_owned(), &hpa(None), &everywhere()).expect("analyzed");
    assert_eq!((target.key.as_str(), target.deployment.as_str()), ("prod/web", "web-deploy"));
    assert!(hpa_target(None, "web".to_owned(), &hpa(None), &everywhere()).is_none());
    assert!(hpa_target(some(), "web".to_owned(), &hpa(Some("ScaledObject")), &everywhere()).is_none());
    let bare = scaled_object_target(some(), "so".to_owned(), &Json::Null, &everywhere()).expect("analyzed");
    assert_eq!(bare.deployment, "so");
    assert_eq!(keda_hpa_name("so"), "keda-hpa-so");
    assert_eq!(workload_key("a", "b"), "a/b");
    assert!(keda_absent(Some(404)));
    assert!(!keda_absent(Some(403)) && !keda_absent(None));
}

fn candidate(kind: CandidateKind) -> Candidate {
    let mut proposed_diff = FieldMap::new();
    proposed_diff.insert("min_replicas".to_owned(), ConfigDiffEntry::new(10, 3));
    Candidate {
        kind,
        description: "d".to_owned(),
        evidence: FieldMap::new(),
        proposed_diff,
        schedule: None,
    }
}

fn item(candidates: Vec<Candidate>) -> AnalysisItem {
    AnalysisItem {
        key: "prod/web".to_owned(),
        namespace: "prod".to_owned(),
        name: "web".to_owned(),
        snapshot: MetricsSnapshot { config: config(), points: vec![], scaling_events: vec![] },
        candidates,
        target_kind: HPA,
    }
}

#[test]
fn candidates_are_queued_with_the_peak_last() {
    assert!(queue_analysis(vec![], None).is_none());
    let kinds = |found, peak| -> Vec<CandidateKind> {
        queue_analysis(found, peak).unwrap().iter().map(|c| c.kind).collect()
    };
    assert_eq!(
        kinds(
            vec![candidate(CandidateKind::IdleWindow)],
            Some(candidate(CandidateKind::PredictablePeak))
        ),
        vec![CandidateKind::IdleWindow, CandidateKind::PredictablePeak]
    );
    assert_eq!(
        kinds(vec![], Some(candidate(CandidateKind::PredictablePeak))),
        vec![CandidateKind::PredictablePeak]
    );
}

#[test]
fn an_existing_recommendation_is_left_alone() {
    let queued = |recommended| {
        let target = hpa_target(Some("prod".to_owned()), "web".to_owned(), &hpa(None), &everywhere()).unwrap();
        let AnalysisItem { snapshot, candidates, target_kind, .. } =
            item(vec![candidate(CandidateKind::IdleWindow)]);
        analysis_item(target, snapshot, candidates, target_kind, recommended)
    };
    assert!(queued(true).is_none());
    let item = queued(false).expect("queued");
    assert_eq!((item.key.as_str(), item.name.as_str()), ("prod/web", "web"));
    assert_eq!(item.candidates.len(), 1);
}

#[test]
fn a_recommendation_waits_for_approval_and_says_when_it_is_advice() {
    let item = item(vec![candidate(CandidateKind::IdleWindow)]);
    let output = openhpa::backend::rules_only_output(&item.candidates, "all");
    let NewRecommendation { spec, status } =
        analyze_and_recommend(&item, &output, "30", true).expect("a change");
    assert_eq!(status.phase, Some(Phase::Pending));
    assert!(matches!(status.probation_until, ProbationPatch::Keep));
    assert_eq!((status.applied_at.as_deref(), status.detail.as_deref()), (None, None));
    assert_eq!(status.schedule_active, None);
    assert!(!spec.approved);
    assert_eq!(spec.target_ref.name, "web");
    assert_eq!(spec.risk_level, "low");
    assert_eq!(spec.config_diff.get("min_replicas"), Some(&DiffEntry { from: 10, to: 3 }));
    assert_eq!(spec.projected_savings_usd_monthly, Some(vec![SavingsPart::FloorCut(7)]));
    assert!(!spec.summary_md.contains("recommend-only"));
    let advice = analyze_and_recommend(&item, &output, "30", false).expect("a change").spec;
    assert!(advice.summary_md.starts_with(&spec.summary_md));
    assert!(advice.summary_md.contains("recommend-only mode"));
    let mut refused = output;
    refused.recommendations[0].apply = false;
    assert!(analyze_and_recommend(&item, &refused, "30", true).is_none());
}

#[test]
fn the_first_failure_is_surfaced_and_deferrals_are_counted() {
    let outcomes = vec![
        AnalysisOutcome::Judged,
        AnalysisOutcome::Deferred,
        AnalysisOutcome::Failed("first".to_owned()),
        AnalysisOutcome::Failed("second".to_owned()),
        AnalysisOutcome::Deferred,
    ];
    assert_eq!(pass_outcome(&outcomes), (2, Err("first".to_owned())));
    assert_eq!(pass_outcome(&vec![AnalysisOutcome::Judged]), (0, Ok(())));
    assert!(within_budget(at(9, 0), at(9, 1)));
    assert!(!within_budget(at(9, 1), at(9, 1)));
}

#[test]
fn a_conflict_on_creation_is_benign() {
    assert_eq!(create_outcome(None), CreateOutcome::Created);
    assert_eq!(create_outcome(Some(Some(409))), CreateOutcome::AlreadyThere);
    assert_eq!(create_outcome(Some(Some(500))), CreateOutcome::Failed);
    assert_eq!(create_outcome(Some(None)), CreateOutcome::Failed);
}

#[test]
fn phases_are_told_apart_by_their_names() {
    let rec = recommendation(HPA, true, Some(Phase::RolledBack));
    assert!(phase_is(&rec, Phase::RolledBack));
    assert!(!phase_is(&rec, Phase::Applied));
    assert!(!phase_is(&recommendation(HPA, true, None), Phase::Pending));
}

#[test]
fn a_recorded_instant_is_read_back() {
    for secs in [YEAR_ZERO, -1, 0, 1_700_000_000, YEAR_9999] {
        for nanos in [0, 1, 1_000, 500_000_000, 999_999_999] {
            let now = Timestamp { secs, nanos };
            let patch = apply_status(TargetKind::ScaledObject, now, 60, None);
            assert_eq!(parse_rfc3339(&patch.applied_at.unwrap()), Some(now));
        }
    }
}

#[test]
fn rfc3339_texts_are_read_as_instants() {
    assert_eq!(
        parse_rfc3339("1970-01-01T00:00:01.000000007Z"),
        Some(Timestamp { secs: 1, nanos: 7 })
    );
    assert_eq!(parse_rfc3339("1969-12-31T23:59:59Z"), Some(Timestamp { secs: -1, nanos: 0 }));
    for bad in ["", "2026-01-07", "2026-01-07T10:00:00", "2026-13-07T10:00:00Z"] {
        assert_eq!(parse_rfc3339(bad), None, "{bad}");
    }
}
