//! Changes of a recommendation's status, as the operator writes them.
use vstd::prelude::*;

use crate::crd::{Phase, ScalingRecommendationSpec, ScalingRecommendationStatus};
#[allow(unused_imports)]
use crate::applier::{merged, no_members, object1};
#[allow(unused_imports)]
use crate::json::{members_view, JsonView};
use crate::json::{put_member, Json};
use crate::text::text_eq;

verus! {

/// A `ScalingRecommendation` as it is listed.
#[derive(Debug)]
pub struct Recommendation {
    pub namespace: Option<String>,
    pub name: String,
    pub spec: ScalingRecommendationSpec,
    pub status: Option<ScalingRecommendationStatus>,
}

/// What a status holds.
pub ghost struct StatusView {
    pub phase: Option<Seq<char>>,
    pub applied_at: Option<Seq<char>>,
    pub probation_until: Option<Seq<char>>,
    pub schedule_active: Option<bool>,
    pub detail: Option<Seq<char>>,
}

/// What an optional text holds.
pub open spec fn text_view(s: Option<String>) -> Option<Seq<char>> {
    match s {
        Some(s) => Some(s@),
        None => None,
    }
}

impl View for ScalingRecommendationStatus {
    type V = StatusView;

    open spec fn view(&self) -> StatusView {
        StatusView {
            phase: text_view(self.phase),
            applied_at: text_view(self.applied_at),
            probation_until: text_view(self.probation_until),
            schedule_active: self.schedule_active,
            detail: text_view(self.detail),
        }
    }
}

/// The status of a recommendation that has none yet.
pub open spec fn no_status() -> StatusView {
    StatusView {
        phase: None,
        applied_at: None,
        probation_until: None,
        schedule_active: None,
        detail: None,
    }
}

impl Recommendation {
    /// What the status holds, all absent without one.
    pub open spec fn status_view(self) -> StatusView {
        match self.status {
            Some(s) => s@,
            None => no_status(),
        }
    }
}

/// Whether a status is in a phase.
pub open spec fn in_phase(status: StatusView, phase: Phase) -> bool {
    status.phase == Some(phase.name())
}

/// Whether a recommendation is in a phase.
pub fn phase_is(rec: &Recommendation, phase: Phase) -> (b: bool)
    ensures
        b == in_phase(rec.status_view(), phase),
{
    match &rec.status {
        Some(status) => match &status.phase {
            Some(p) => text_eq(p.as_str(), phase.as_str()),
            None => false,
        },
        None => false,
    }
}

/// The end of the probation in a status change: left alone, set, or removed.
#[derive(Debug)]
pub enum ProbationPatch {
    Keep,
    Until(String),
    Clear,
}

/// A change of a status: each field is left alone where it is absent.
#[derive(Debug)]
pub struct StatusPatch {
    pub phase: Option<Phase>,
    pub applied_at: Option<String>,
    pub probation_until: ProbationPatch,
    pub schedule_active: Option<bool>,
    pub detail: Option<String>,
}

/// What a change of the probation says.
pub ghost enum ProbationView {
    Keep,
    Until(Seq<char>),
    Clear,
}

/// What a change of a status says.
pub ghost struct PatchView {
    pub phase: Option<Phase>,
    pub applied_at: Option<Seq<char>>,
    pub probation_until: ProbationView,
    pub schedule_active: Option<bool>,
    pub detail: Option<Seq<char>>,
}

impl View for StatusPatch {
    type V = PatchView;

    open spec fn view(&self) -> PatchView {
        PatchView {
            phase: self.phase,
            applied_at: text_view(self.applied_at),
            probation_until: match self.probation_until {
                ProbationPatch::Keep => ProbationView::Keep,
                ProbationPatch::Until(s) => ProbationView::Until(s@),
                ProbationPatch::Clear => ProbationView::Clear,
            },
            schedule_active: self.schedule_active,
            detail: text_view(self.detail),
        }
    }
}

/// The status after a change.
pub open spec fn changed(status: StatusView, patch: PatchView) -> StatusView {
    StatusView {
        phase: match patch.phase {
            Some(p) => Some(p.name()),
            None => status.phase,
        },
        applied_at: match patch.applied_at {
            Some(s) => Some(s),
            None => status.applied_at,
        },
        probation_until: match patch.probation_until {
            ProbationView::Keep => status.probation_until,
            ProbationView::Until(s) => Some(s),
            ProbationView::Clear => None,
        },
        schedule_active: match patch.schedule_active {
            Some(b) => Some(b),
            None => status.schedule_active,
        },
        detail: match patch.detail {
            Some(s) => Some(s),
            None => status.detail,
        },
    }
}

/// `members` with a text member, where there is a text.
pub open spec fn with_text(
    members: Map<Seq<char>, JsonView>,
    name: Seq<char>,
    text: Option<Seq<char>>,
) -> Map<Seq<char>, JsonView> {
    match text {
        Some(s) => members.insert(name, JsonView::Str(s)),
        None => members,
    }
}

/// `members` with a truth value, where there is one.
pub open spec fn with_flag(
    members: Map<Seq<char>, JsonView>,
    name: Seq<char>,
    flag: Option<bool>,
) -> Map<Seq<char>, JsonView> {
    match flag {
        Some(b) => members.insert(name, JsonView::Bool(b)),
        None => members,
    }
}

/// A status as the resource's JSON carries it: absent fields are left out.
pub open spec fn status_members(status: StatusView) -> Map<Seq<char>, JsonView> {
    let a = with_text(no_members(), "phase"@, status.phase);
    let b = with_text(a, "appliedAt"@, status.applied_at);
    let c = with_text(b, "probationUntil"@, status.probation_until);
    let d = with_flag(c, "scheduleActive"@, status.schedule_active);
    with_text(d, "detail"@, status.detail)
}

/// A change as the merge-patch carries it: a removed field is null.
pub open spec fn patch_members(patch: PatchView) -> Map<Seq<char>, JsonView> {
    let a = match patch.phase {
        Some(p) => no_members().insert("phase"@, JsonView::Str(p.name())),
        None => no_members(),
    };
    let b = with_text(a, "appliedAt"@, patch.applied_at);
    let c = match patch.probation_until {
        ProbationView::Keep => b,
        ProbationView::Until(s) => b.insert("probationUntil"@, JsonView::Str(s)),
        ProbationView::Clear => b.insert("probationUntil"@, JsonView::Null),
    };
    let d = with_flag(c, "scheduleActive"@, patch.schedule_active);
    with_text(d, "detail"@, patch.detail)
}

impl StatusPatch {
    /// The merge-patch body that makes the change.
    pub fn body(&self) -> (j: Json)
        ensures
            j@ == object1("status"@, JsonView::Object(patch_members(self@))),
    {
        let mut members: Vec<(String, Json)> = Vec::new();
        if let Some(phase) = self.phase {
            put_member(&mut members, "phase", Json::text(phase.as_str()));
        }
        if let Some(s) = &self.applied_at {
            put_member(&mut members, "appliedAt", Json::text(s.as_str()));
        }
        match &self.probation_until {
            ProbationPatch::Keep => {},
            ProbationPatch::Until(s) => {
                put_member(&mut members, "probationUntil", Json::text(s.as_str()));
            },
            ProbationPatch::Clear => {
                put_member(&mut members, "probationUntil", Json::Null);
            },
        }
        if let Some(b) = self.schedule_active {
            put_member(&mut members, "scheduleActive", Json::Bool(b));
        }
        if let Some(s) = &self.detail {
            put_member(&mut members, "detail", Json::text(s.as_str()));
        }
        let mut outer: Vec<(String, Json)> = Vec::new();
        put_member(&mut outer, "status", Json::Object(members));
        Json::Object(outer)
    }
}

/// Merging a change's patch into a status leaves the changed status.
pub proof fn law_status_patch_merges(status: StatusView, patch: PatchView)
    ensures
        merged(
            JsonView::Object(status_members(status)),
            JsonView::Object(patch_members(patch)),
        ) == JsonView::Object(status_members(changed(status, patch))),
{
    reveal_strlit("phase");
    reveal_strlit("appliedAt");
    reveal_strlit("probationUntil");
    reveal_strlit("scheduleActive");
    reveal_strlit("detail");
    let (a, b, c) = ("phase"@, "appliedAt"@, "probationUntil"@);
    let (d, e) = ("scheduleActive"@, "detail"@);
    assert(c[0] != d[0]);
    assert(a.len() == 5 && b.len() == 9 && c.len() == 14 && d.len() == 14 && e.len() == 6);
    let t = status_members(status);
    let p = patch_members(patch);
    let left = merged(JsonView::Object(t), JsonView::Object(p))->Object_0;
    let right = status_members(changed(status, patch));
    assert forall|v: JsonView, leaf: JsonView| !(leaf is Object) implies #[trigger] merged(v, leaf)
        == leaf by {}
    assert forall|k: Seq<char>| p.dom().contains(k) implies !(#[trigger] p[k] is Object) by {}
    assert forall|k: Seq<char>| #[trigger] left.dom().contains(k) == right.dom().contains(k) by {
        if k == a || k == b || k == c || k == d || k == e {
        } else {
            assert(!t.dom().contains(k));
            assert(!p.dom().contains(k));
        }
    }
    assert forall|k: Seq<char>| left.dom().contains(k) implies #[trigger] left[k] == right[k] by {
        if p.dom().contains(k) {
            let was = if t.dom().contains(k) {
                t[k]
            } else {
                JsonView::Null
            };
            assert(!(p[k] is Object));
            assert(left[k] == merged(was, p[k]));
            assert(left[k] == p[k]);
        } else {
            assert(left[k] == t[k]);
        }
        if k == a || k == b || k == c || k == d || k == e {
        } else {
            assert(!t.dom().contains(k));
            assert(!p.dom().contains(k));
        }
    }
    assert(left =~= right);
}

/// A change sets what it names and leaves the rest of the status alone.
pub proof fn law_change_leaves_the_rest_alone(status: StatusView, patch: PatchView)
    ensures
        ({
            let after = changed(status, patch);
            &&& patch.phase is None ==> after.phase == status.phase
            &&& patch.phase is Some ==> after.phase == Some(patch.phase->0.name())
            &&& patch.applied_at is None ==> after.applied_at == status.applied_at
            &&& patch.applied_at is Some ==> after.applied_at == patch.applied_at
            &&& patch.probation_until is Keep ==> after.probation_until == status.probation_until
            &&& patch.probation_until is Until ==> after.probation_until == Some(
                patch.probation_until->Until_0,
            )
            &&& patch.probation_until is Clear ==> after.probation_until is None
            &&& patch.schedule_active is None ==> after.schedule_active == status.schedule_active
            &&& patch.schedule_active is Some ==> after.schedule_active == patch.schedule_active
            &&& patch.detail is None ==> after.detail == status.detail
            &&& patch.detail is Some ==> after.detail == patch.detail
        }),
{
}

/// The merge-patch of a change names exactly the changed fields, as the resource spells them; a
/// cleared probation is null.
pub proof fn law_change_is_written_field_by_field(patch: PatchView, name: Seq<char>)
    ensures
        ({
            let members = patch_members(patch);
            &&& members.dom().contains(name) <==> {
                ||| name == "phase"@ && patch.phase is Some
                ||| name == "appliedAt"@ && patch.applied_at is Some
                ||| name == "probationUntil"@ && !(patch.probation_until is Keep)
                ||| name == "scheduleActive"@ && patch.schedule_active is Some
                ||| name == "detail"@ && patch.detail is Some
            }
            &&& patch.phase is Some ==> members["phase"@] == JsonView::Str(patch.phase->0.name())
            &&& patch.applied_at is Some ==> members["appliedAt"@] == JsonView::Str(
                patch.applied_at->0,
            )
            &&& patch.probation_until is Until ==> members["probationUntil"@] == JsonView::Str(
                patch.probation_until->Until_0,
            )
            &&& patch.probation_until is Clear ==> members["probationUntil"@] == JsonView::Null
            &&& patch.schedule_active is Some ==> members["scheduleActive"@] == JsonView::Bool(
                patch.schedule_active->0,
            )
            &&& patch.detail is Some ==> members["detail"@] == JsonView::Str(patch.detail->0)
        }),
{
    reveal_strlit("phase");
    reveal_strlit("appliedAt");
    reveal_strlit("probationUntil");
    reveal_strlit("scheduleActive");
    reveal_strlit("detail");
    assert("phase"@.len() == 5 && "appliedAt"@.len() == 9 && "detail"@.len() == 6);
    assert("probationUntil"@[0] == 'p' && "scheduleActive"@[0] == 's');
    assert("probationUntil"@.len() == 14 && "scheduleActive"@.len() == 14);
}

/// What a status and a change of it hold is what each of their fields holds.
pub proof fn law_status_is_its_fields(s: ScalingRecommendationStatus, p: StatusPatch)
    ensures
        s.phase matches Some(t) ==> s@.phase == Some(t@),
        s.phase is None ==> s@.phase is None,
        s.applied_at matches Some(t) ==> s@.applied_at == Some(t@),
        s.applied_at is None ==> s@.applied_at is None,
        s.probation_until matches Some(t) ==> s@.probation_until == Some(t@),
        s.probation_until is None ==> s@.probation_until is None,
        s@.schedule_active == s.schedule_active,
        s.detail matches Some(t) ==> s@.detail == Some(t@),
        s.detail is None ==> s@.detail is None,
        p@.phase == p.phase,
        p.applied_at matches Some(t) ==> p@.applied_at == Some(t@),
        p.applied_at is None ==> p@.applied_at is None,
        p.probation_until matches ProbationPatch::Until(t)
            ==> p@.probation_until == ProbationView::Until(t@),
        p.probation_until is Keep ==> p@.probation_until is Keep,
        p.probation_until is Clear ==> p@.probation_until is Clear,
        p@.schedule_active == p.schedule_active,
        p.detail matches Some(t) ==> p@.detail == Some(t@),
        p.detail is None ==> p@.detail is None,
{
}

} // verus!
