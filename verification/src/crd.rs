//! The `ScalingRecommendation` resource: what the operator proposes, and how far it has come.
use vstd::prelude::*;

use crate::domain::SavingsPart;
use crate::field_map::FieldMap;

verus! {

#[derive(Debug, Clone, Copy, PartialEq, Eq, Structural)]
pub enum TargetKind {
    HorizontalPodAutoscaler,
    ScaledObject,
}

#[derive(Debug)]
pub struct TargetRef {
    pub kind: TargetKind,
    pub name: String,
}

#[derive(Debug, Clone, Copy, PartialEq, Eq, Structural)]
pub struct DiffEntry {
    pub from: i32,
    pub to: i32,
}

/// The change to each config field, under the field's name.
pub type DiffMap = FieldMap<DiffEntry>;

/// One proactive floor-raise window on the CRD: a KEDA-style cron, how long it lasts, and the
/// floor.
#[derive(Debug)]
pub struct ScheduleWindowSpec {
    pub start_cron: String,
    pub duration_minutes: i32,
    pub min_replicas: i32,
}

impl View for ScheduleWindowSpec {
    type V = crate::domain::WindowView;

    open spec fn view(&self) -> crate::domain::WindowView {
        crate::domain::WindowView {
            start_cron: self.start_cron@,
            duration_minutes: self.duration_minutes,
            min_replicas: self.min_replicas,
        }
    }
}

/// What the windows of a schedule hold.
pub open spec fn window_views(schedule: Seq<ScheduleWindowSpec>) -> Seq<
    crate::domain::WindowView,
> {
    schedule.map_values(|w: ScheduleWindowSpec| w@)
}

/// The lifecycle phase of a recommendation's status. The string forms are what land in
/// `status.phase`; this enum is the single source of truth for the legal set so the mutating
/// passes can't invent ad-hoc phases. `Degraded` is a known-unhealthy applied change held for
/// re-judgement (rollback disabled) rather than a healthy-looking `applied`.
#[derive(Debug, Clone, Copy, PartialEq, Eq, Structural)]
pub enum Phase {
    Pending,
    Applied,
    Verified,
    RolledBack,
    Blocked,
    Degraded,
    Failed,
}

impl Phase {
    /// The phase as it stands in `status.phase`.
    pub open spec fn name(self) -> Seq<char> {
        match self {
            Phase::Pending => "pending"@,
            Phase::Applied => "applied"@,
            Phase::Verified => "verified"@,
            Phase::RolledBack => "rolledBack"@,
            Phase::Blocked => "blocked"@,
            Phase::Degraded => "degraded"@,
            Phase::Failed => "failed"@,
        }
    }

    /// The phase as it stands in `status.phase`.
    pub fn as_str(self) -> (s: &'static str)
        ensures
            s@ == self.name(),
    {
        match self {
            Phase::Pending => "pending",
            Phase::Applied => "applied",
            Phase::Verified => "verified",
            Phase::RolledBack => "rolledBack",
            Phase::Blocked => "blocked",
            Phase::Degraded => "degraded",
            Phase::Failed => "failed",
        }
    }
}

/// A scaling recommendation the operator emits for human approval, then applies.
#[derive(Debug)]
pub struct ScalingRecommendationSpec {
    pub target_ref: TargetRef,
    pub approved: bool,
    pub risk_level: String,
    pub summary_md: String,
    /// The addends of the projected savings.
    pub projected_savings_usd_monthly: Option<Vec<SavingsPart>>,
    pub config_diff: DiffMap,
    /// Proactive schedule (from a `PredictablePeak` forecast): raise `minReplicas` per window. The
    /// scalar `config_diff` carries the baseline change; this is the time-based part.
    pub schedule: Option<Vec<ScheduleWindowSpec>>,
}

#[derive(Debug)]
pub struct ScalingRecommendationStatus {
    pub phase: Option<String>,
    pub applied_at: Option<String>,
    /// RFC3339 instant until which an applied change is on probation; after it passes the verify
    /// pass judges health and either marks `verified` or auto-reverts to `rolledBack`.
    pub probation_until: Option<String>,
    /// Whether a proactive schedule is currently being enforced; `false` once retracted (its peak
    /// stopped materializing).
    pub schedule_active: Option<bool>,
    pub detail: Option<String>,
}

impl Default for ScalingRecommendationStatus {
    fn default() -> (s: Self)
        ensures
            s == (ScalingRecommendationStatus {
                phase: None,
                applied_at: None,
                probation_until: None,
                schedule_active: None,
                detail: None,
            }),
    {
        ScalingRecommendationStatus {
            phase: None,
            applied_at: None,
            probation_until: None,
            schedule_active: None,
            detail: None,
        }
    }
}

/// The phases as the resource carries them.
pub proof fn law_phase_names()
    ensures
        Phase::Pending.name() == "pending"@,
        Phase::Applied.name() == "applied"@,
        Phase::Verified.name() == "verified"@,
        Phase::RolledBack.name() == "rolledBack"@,
        Phase::Blocked.name() == "blocked"@,
        Phase::Degraded.name() == "degraded"@,
        Phase::Failed.name() == "failed"@,
{
}

} // verus!
