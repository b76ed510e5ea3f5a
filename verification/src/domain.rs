//! Metric snapshots, rule candidates, model judgements and recommendations.
use vstd::prelude::*;

use crate::clock::Timestamp;
use crate::field_map::FieldMap;
use crate::sample::Sample;

verus! {

/// Default monthly cost, in dollars, of one always-on replica's node share, used to estimate
/// floor-cut savings when the model has no specific instance pricing: the bits of 30.0. A rough
/// on-demand figure, not a quote, so it is configurable; this is only the default.
pub const ESTIMATED_REPLICA_MONTHLY_USD: u64 = 0x403E_0000_0000_0000;

/// Current autoscaler config for a workload (read from the live HPA / ScaledObject spec).
#[derive(Debug, Clone, Copy, PartialEq, Eq, Structural)]
pub struct WorkloadConfig {
    pub min_replicas: i32,
    pub max_replicas: i32,
    pub target_cpu_pct: i32,
    pub scale_down_cooldown_s: i32,
}

#[derive(Debug, Clone, Copy, PartialEq, Eq)]
pub struct MetricPoint {
    pub timestamp: Timestamp,
    /// CPU utilization as a fraction in [0, 1].
    pub cpu_util: Sample,
    pub replicas: i32,
    pub queue_depth: Option<Sample>,
}

#[derive(Debug, Clone, Copy, PartialEq, Eq)]
pub struct ScalingEvent {
    pub timestamp: Timestamp,
    pub from_replicas: i32,
    pub to_replicas: i32,
}

#[derive(Debug)]
pub struct MetricsSnapshot {
    pub config: WorkloadConfig,
    pub points: Vec<MetricPoint>,
    pub scaling_events: Vec<ScalingEvent>,
}

/// Whether every point carries a valid instant.
pub open spec fn valid_points(points: Seq<MetricPoint>) -> bool {
    forall|i: int| 0 <= i < points.len() ==> (#[trigger] points[i]).timestamp.valid()
}

#[derive(Debug, Clone, Copy, PartialEq, Eq, PartialOrd, Ord, Structural)]
pub enum CandidateKind {
    IdleWindow,
    ScaleLag,
    Overprovisioned,
    Thrashing,
    PredictablePeak,
}

impl CandidateKind {
    /// The kind's name in prompts and summaries.
    pub open spec fn name(self) -> Seq<char> {
        match self {
            CandidateKind::IdleWindow => "idle_window"@,
            CandidateKind::ScaleLag => "scale_lag"@,
            CandidateKind::Overprovisioned => "overprovisioned"@,
            CandidateKind::Thrashing => "thrashing"@,
            CandidateKind::PredictablePeak => "predictable_peak"@,
        }
    }

    /// The kind's name in prompts and summaries.
    pub fn as_str(self) -> (s: &'static str)
        ensures
            s@ == self.name(),
    {
        match self {
            CandidateKind::IdleWindow => "idle_window",
            CandidateKind::ScaleLag => "scale_lag",
            CandidateKind::Overprovisioned => "overprovisioned",
            CandidateKind::Thrashing => "thrashing",
            CandidateKind::PredictablePeak => "predictable_peak",
        }
    }
}

/// One proactive floor-raise window: a KEDA-style `start_cron`, how long it lasts, and the floor
/// to hold during it. The forecaster emits these to pre-scale ahead of a recurring peak.
#[derive(Debug, PartialEq, Eq)]
pub struct ScheduleWindow {
    pub start_cron: String,
    pub duration_minutes: i32,
    pub min_replicas: i32,
}

/// What a window holds.
pub ghost struct WindowView {
    pub start_cron: Seq<char>,
    pub duration_minutes: i32,
    pub min_replicas: i32,
}

impl View for ScheduleWindow {
    type V = WindowView;

    open spec fn view(&self) -> WindowView {
        WindowView {
            start_cron: self.start_cron@,
            duration_minutes: self.duration_minutes,
            min_replicas: self.min_replicas,
        }
    }
}

/// A proactive scaling schedule: raise `min_replicas` only during each forecasted peak window.
pub type ScalingSchedule = Vec<ScheduleWindow>;

/// What the windows of a schedule hold.
pub open spec fn schedule_view(schedule: Seq<ScheduleWindow>) -> Seq<WindowView> {
    schedule.map_values(|w: ScheduleWindow| w@)
}

/// What an optional schedule holds.
pub open spec fn schedule_opt_view(schedule: Option<ScalingSchedule>) -> Option<Seq<WindowView>> {
    match schedule {
        Some(s) => Some(schedule_view(s@)),
        None => None,
    }
}

/// A schedule with the same windows.
pub fn copy_schedule(schedule: &ScalingSchedule) -> (out: ScalingSchedule)
    ensures
        schedule_view(out@) == schedule_view(schedule@),
{
    let mut out: ScalingSchedule = Vec::new();
    let mut i: usize = 0;
    while i < schedule.len()
        invariant
            i <= schedule@.len(),
            schedule_view(out@) == schedule_view(schedule@).take(i as int),
        decreases schedule@.len() - i,
    {
        let w = &schedule[i];
        let ghost before = out@;
        out.push(
            ScheduleWindow {
                start_cron: w.start_cron.clone(),
                duration_minutes: w.duration_minutes,
                min_replicas: w.min_replicas,
            },
        );
        assert(schedule_view(out@) =~= schedule_view(before).push(w@));
        i += 1;
    }
    out
}

#[derive(Debug, Clone, Copy, PartialEq, Eq, Structural)]
pub enum RiskLevel {
    Low,
    Medium,
    High,
}

impl RiskLevel {
    /// The level's name in prompts and summaries.
    pub open spec fn name(self) -> Seq<char> {
        match self {
            RiskLevel::Low => "low"@,
            RiskLevel::Medium => "medium"@,
            RiskLevel::High => "high"@,
        }
    }

    /// The level's name in prompts and summaries.
    pub fn as_str(self) -> (s: &'static str)
        ensures
            s@ == self.name(),
    {
        match self {
            RiskLevel::Low => "low",
            RiskLevel::Medium => "medium",
            RiskLevel::High => "high",
        }
    }
}

/// A single `from -> to` change to one config field.
#[derive(Debug, Clone, Copy, PartialEq, Eq, Structural)]
pub struct ConfigDiffEntry {
    pub from: i32,
    pub to: i32,
}

impl ConfigDiffEntry {
    pub fn new(from: i32, to: i32) -> (e: Self)
        ensures
            e == (ConfigDiffEntry { from, to }),
    {
        ConfigDiffEntry { from, to }
    }
}

pub type ConfigDiff = FieldMap<ConfigDiffEntry>;

/// One piece of evidence: a whole number, or a measured value.
#[derive(Debug, Clone, Copy, PartialEq, Eq)]
pub enum EvidenceValue {
    Whole(i64),
    Measured(Sample),
}

pub type Evidence = FieldMap<EvidenceValue>;

/// A rule-detected optimization opportunity, before the model's judgement.
#[derive(Debug)]
pub struct Candidate {
    pub kind: CandidateKind,
    pub description: String,
    pub evidence: Evidence,
    pub proposed_diff: ConfigDiff,
    /// Proactive schedule (only `PredictablePeak` carries one) raised alongside the scalar diff.
    pub schedule: Option<ScalingSchedule>,
}

/// What a candidate holds.
pub ghost struct CandidateView {
    pub kind: CandidateKind,
    pub description: Seq<char>,
    pub evidence: Map<Seq<char>, EvidenceValue>,
    pub proposed_diff: Map<Seq<char>, ConfigDiffEntry>,
    pub schedule: Option<Seq<WindowView>>,
}

impl View for Candidate {
    type V = CandidateView;

    open spec fn view(&self) -> CandidateView {
        CandidateView {
            kind: self.kind,
            description: self.description@,
            evidence: self.evidence@,
            proposed_diff: self.proposed_diff@,
            schedule: schedule_opt_view(self.schedule),
        }
    }
}

/// One item of the model's judgement over the candidates.
#[derive(Debug)]
pub struct LlmRecommendationItem {
    pub candidate_kind: CandidateKind,
    pub apply: bool,
    pub reasoning: String,
    pub risk: RiskLevel,
    pub projected_savings_usd_monthly: Option<Sample>,
}

#[derive(Debug)]
pub struct LlmAnalysisOutput {
    pub recommendations: Vec<LlmRecommendationItem>,
    pub overall_risk: RiskLevel,
    pub executive_summary: String,
}

/// One addend of a savings figure: the model's own figure, or a number of replicas that the
/// floor loses, each worth the configured monthly cost of a replica.
#[derive(Debug, Clone, Copy, PartialEq, Eq)]
pub enum SavingsPart {
    Quoted(Sample),
    FloorCut(i64),
}

/// Final, synthesized recommendation persisted to the `ScalingRecommendation` CRD.
#[derive(Debug)]
pub struct SynthesizedRecommendation {
    pub config_diff: ConfigDiff,
    pub summary_md: String,
    pub risk_level: RiskLevel,
    /// The addends of the projected savings, in order. `None` when there is no figure.
    pub projected_savings_usd_monthly: Option<Vec<SavingsPart>>,
    /// Proactive schedule carried through from an approved `PredictablePeak` candidate.
    pub schedule: Option<ScalingSchedule>,
}

/// The kinds and risk levels as prompts, answers and summaries carry them.
pub proof fn law_kind_and_risk_names()
    ensures
        CandidateKind::IdleWindow.name() == "idle_window"@,
        CandidateKind::ScaleLag.name() == "scale_lag"@,
        CandidateKind::Overprovisioned.name() == "overprovisioned"@,
        CandidateKind::Thrashing.name() == "thrashing"@,
        CandidateKind::PredictablePeak.name() == "predictable_peak"@,
        RiskLevel::Low.name() == "low"@,
        RiskLevel::Medium.name() == "medium"@,
        RiskLevel::High.name() == "high"@,
{
}

/// What a candidate holds is what each of its fields holds.
pub proof fn law_candidate_is_its_fields(c: Candidate)
    ensures
        c@.kind == c.kind,
        c@.description == c.description@,
        c@.evidence == c.evidence@,
        c@.proposed_diff == c.proposed_diff@,
        c.schedule is None <==> c@.schedule is None,
        c.schedule matches Some(windows) ==> {
            &&& c@.schedule->0.len() == windows@.len()
            &&& forall|i: int| #![trigger windows@[i]]
                0 <= i < windows@.len() ==> {
                    &&& c@.schedule->0[i].start_cron == windows@[i].start_cron@
                    &&& c@.schedule->0[i].duration_minutes == windows@[i].duration_minutes
                    &&& c@.schedule->0[i].min_replicas == windows@[i].min_replicas
                }
        },
{
}

} // verus!
