use openhpa::backend::rules_only_output;
use openhpa::domain::{
    Candidate, CandidateKind, ConfigDiffEntry, LlmAnalysisOutput, LlmRecommendationItem,
    RiskLevel, SavingsPart, ScheduleWindow, SynthesizedRecommendation,
};
use openhpa::field_map::FieldMap;
use openhpa::sample::Sample;
use openhpa::synthesis::{floor_savings, synthesize};

fn s(x: f64) -> Sample {
    Sample { bits: x.to_bits() }
}

fn candidate(kind: CandidateKind, field: &str, from: i32, to: i32) -> Candidate {
    let mut proposed_diff = FieldMap::new();
    proposed_diff.insert(field.to_owned(), ConfigDiffEntry::new(from, to));
    Candidate {
        kind,
        description: String::new(),
        evidence: FieldMap::new(),
        proposed_diff,
        schedule: None,
    }
}

fn item(kind: CandidateKind, apply: bool, savings: Option<f64>) -> LlmRecommendationItem {
    LlmRecommendationItem {
        candidate_kind: kind,
        apply,
        reasoning: "because".to_owned(),
        risk: RiskLevel::Low,
        projected_savings_usd_monthly: savings.map(s),
    }
}

fn output(items: Vec<LlmRecommendationItem>, overall_risk: RiskLevel) -> LlmAnalysisOutput {
    LlmAnalysisOutput {
        recommendations: items,
        overall_risk,
        executive_summary: "summary".to_owned(),
    }
}

fn savings(rec: &SynthesizedRecommendation, cost: f64) -> Option<f64> {
    let parts = rec.projected_savings_usd_monthly.as_ref()?;
    Some(
        parts
            .iter()
            .map(|part| match part {
                SavingsPart::Quoted(x) => f64::from_bits(x.bits),
                SavingsPart::FloorCut(n) => *n as f64 * cost,
            })
            .sum(),
    )
}

fn windows() -> Vec<ScheduleWindow> {
    vec![ScheduleWindow {
        start_cron: "0 9 * * *".to_owned(),
        duration_minutes: 480,
        min_replicas: 8,
    }]
}

#[test]
fn keeps_only_approved_and_sums_savings() {
    let candidates = vec![
        candidate(CandidateKind::IdleWindow, "min_replicas", 10, 3),
        candidate(CandidateKind::Overprovisioned, "target_cpu_pct", 70, 85),
    ];
    let output = output(
        vec![
            item(CandidateKind::IdleWindow, true, Some(1000.0)),
            item(CandidateKind::Overprovisioned, false, Some(500.0)),
        ],
        RiskLevel::Low,
    );

    let rec = synthesize(&candidates, &output, "30");
    assert_eq!(rec.config_diff.len(), 1);
    assert_eq!(*rec.config_diff.get("min_replicas").unwrap(), ConfigDiffEntry::new(10, 3));
    assert_eq!(savings(&rec, 30.0), Some(1000.0));
    assert_eq!(rec.risk_level, RiskLevel::Low);
    assert!(rec.summary_md.contains("idle_window"));
}

#[test]
fn floor_cut_gets_deterministic_savings_when_llm_gives_none() {
    // A min_replicas cut the LLM approved but left without a savings figure: synthesis fills a
    // deterministic estimate (3 replicas saved * $30) so the floor cut never shows $0.
    let candidates = vec![candidate(CandidateKind::Overprovisioned, "min_replicas", 4, 1)];
    let output =
        output(vec![item(CandidateKind::Overprovisioned, true, None)], RiskLevel::Medium);
    assert_eq!(savings(&synthesize(&candidates, &output, "30"), 30.0), Some(90.0));
}

#[test]
fn floor_cut_savings_scale_linearly_with_the_replica_cost() {
    // Same 4 -> 1 cut priced at $100/replica/month: 3 x 100. The flag, not a constant,
    // drives the estimate.
    let candidates = vec![candidate(CandidateKind::Overprovisioned, "min_replicas", 4, 1)];
    let output =
        output(vec![item(CandidateKind::Overprovisioned, true, None)], RiskLevel::Medium);
    assert_eq!(savings(&synthesize(&candidates, &output, "100"), 100.0), Some(300.0));
}

#[test]
fn savings_are_labeled_as_an_estimate_in_the_summary() {
    let candidates = vec![candidate(CandidateKind::Overprovisioned, "min_replicas", 4, 1)];
    let output =
        output(vec![item(CandidateKind::Overprovisioned, true, None)], RiskLevel::Medium);
    let with_savings = synthesize(&candidates, &output, "30");
    assert!(
        with_savings.summary_md.contains("estimate priced at $30/replica/month"),
        "summary must label the savings figure: {}",
        with_savings.summary_md
    );
    assert_eq!(
        with_savings.summary_md,
        "summary\n\n- **overprovisioned** (low risk): because\n\n_Projected savings are an \
         estimate priced at $30/replica/month (configurable: \
         `--cost-per-replica-usd-monthly`)._"
    );

    // No savings figure -> no estimate disclaimer.
    let no_savings = synthesize(
        &vec![candidate(CandidateKind::Overprovisioned, "target_cpu_pct", 70, 85)],
        &output,
        "30",
    );
    assert!(
        !no_savings.summary_md.contains("estimate"),
        "no savings, no disclaimer: {}",
        no_savings.summary_md
    );
}

#[test]
fn target_bump_has_no_deterministic_savings() {
    // A non-floor-cut diff with no LLM figure stays None (no fabricated savings).
    let candidates = vec![candidate(CandidateKind::Overprovisioned, "target_cpu_pct", 70, 85)];
    let output = output(vec![item(CandidateKind::Overprovisioned, true, None)], RiskLevel::Low);
    assert_eq!(savings(&synthesize(&candidates, &output, "30"), 30.0), None);
}

#[test]
fn no_approved_items_yields_empty_diff_and_no_savings() {
    let candidates = vec![candidate(CandidateKind::IdleWindow, "min_replicas", 10, 3)];
    let output =
        output(vec![item(CandidateKind::IdleWindow, false, Some(1000.0))], RiskLevel::Medium);

    let rec = synthesize(&candidates, &output, "30");
    assert!(rec.config_diff.is_empty());
    assert_eq!(savings(&rec, 30.0), None);
}

#[test]
fn carries_schedule_from_approved_predictable_peak() {
    let mut peak = candidate(CandidateKind::PredictablePeak, "min_replicas", 10, 2);
    peak.schedule = Some(windows());
    let output = output(vec![item(CandidateKind::PredictablePeak, true, None)], RiskLevel::Low);

    let rec = synthesize(&vec![peak], &output, "30");
    let schedule = rec.schedule.expect("schedule carried through");
    assert_eq!(schedule.len(), 1);
    assert_eq!(schedule[0].min_replicas, 8);
}

#[test]
fn drops_schedule_when_candidate_not_approved() {
    let mut peak = candidate(CandidateKind::PredictablePeak, "min_replicas", 10, 2);
    peak.schedule = Some(windows());
    let output = output(vec![item(CandidateKind::PredictablePeak, false, None)], RiskLevel::Low);
    assert!(synthesize(&vec![peak], &output, "30").schedule.is_none());
}

#[test]
fn the_last_judgement_of_a_kind_counts() {
    let candidates = vec![candidate(CandidateKind::IdleWindow, "min_replicas", 10, 3)];
    let twice = output(
        vec![
            item(CandidateKind::IdleWindow, false, None),
            item(CandidateKind::IdleWindow, true, Some(5.0)),
        ],
        RiskLevel::Low,
    );
    assert_eq!(savings(&synthesize(&candidates, &twice, "30"), 30.0), Some(5.0));
    let withdrawn = output(
        vec![
            item(CandidateKind::IdleWindow, true, Some(5.0)),
            item(CandidateKind::IdleWindow, false, None),
        ],
        RiskLevel::Low,
    );
    assert!(synthesize(&candidates, &withdrawn, "30").config_diff.is_empty());
}

#[test]
fn a_later_candidate_wins_a_shared_field() {
    let candidates = vec![
        candidate(CandidateKind::IdleWindow, "min_replicas", 10, 3),
        candidate(CandidateKind::Overprovisioned, "min_replicas", 10, 5),
    ];
    let rec = synthesize(&candidates, &rules_only_output(&candidates, "all"), "30");
    assert_eq!(rec.config_diff.len(), 1);
    assert_eq!(*rec.config_diff.get("min_replicas").unwrap(), ConfigDiffEntry::new(10, 5));
    assert_eq!(savings(&rec, 30.0), Some(360.0));
}

#[test]
fn floor_savings_count_replicas() {
    let saved = |from, to| floor_savings(&candidate(CandidateKind::IdleWindow, "min_replicas", from, to));
    assert_eq!(saved(4, 1), Some(3));
    assert_eq!(saved(4, 4), None);
    assert_eq!(saved(1, 4), None);
    assert_eq!(saved(i32::MAX, i32::MIN), Some(u32::MAX.into()));
    assert_eq!(floor_savings(&candidate(CandidateKind::ScaleLag, "target_cpu_pct", 70, 55)), None);
}
