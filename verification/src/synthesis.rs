//! Merging the approved candidates into one recommendation.
use vstd::prelude::*;
use vstd::string::*;

use crate::domain::{
    copy_schedule, Candidate, CandidateKind, ConfigDiff, ConfigDiffEntry, LlmAnalysisOutput,
    LlmRecommendationItem, SavingsPart, ScalingSchedule, SynthesizedRecommendation,
};
#[allow(unused_imports)]
use crate::domain::{schedule_opt_view, schedule_view, ScheduleWindow, WindowView};
use crate::field_map::FieldMap;

verus! {

/// The replicas that a candidate's `min_replicas` change takes off the floor; `None` where it does
/// not lower the floor.
pub open spec fn floor_reduction(candidate: Candidate) -> Option<int> {
    let diff = candidate.proposed_diff@;
    if diff.dom().contains("min_replicas"@) && diff["min_replicas"@].from > diff["min_replicas"@].to {
        Some(diff["min_replicas"@].from - diff["min_replicas"@].to)
    } else {
        None
    }
}

/// The deterministic savings of a candidate's `min_replicas` reduction, in replicas, used when the
/// model did not supply a figure of its own. `None` for non-floor-cut diffs or zero/negative cuts.
pub fn floor_savings(candidate: &Candidate) -> (r: Option<i64>)
    ensures
        match r {
            Some(n) => floor_reduction(*candidate) == Some(n as int),
            None => floor_reduction(*candidate) is None,
        },
{
    match candidate.proposed_diff.get("min_replicas") {
        Some(cut) => if cut.from > cut.to {
            Some(cut.from as i64 - cut.to as i64)
        } else {
            None
        },
        None => None,
    }
}

/// The model's judgement of a kind: its last item of that kind.
pub open spec fn judgement(items: Seq<LlmRecommendationItem>, kind: CandidateKind) -> Option<
    LlmRecommendationItem,
>
    decreases items.len(),
{
    if items.len() == 0 {
        None
    } else if items.last().candidate_kind == kind {
        Some(items.last())
    } else {
        judgement(items.drop_last(), kind)
    }
}

/// The approved candidates in order, each with its judgement.
pub open spec fn approved(candidates: Seq<Candidate>, items: Seq<LlmRecommendationItem>) -> Seq<
    (Candidate, LlmRecommendationItem),
>
    decreases candidates.len(),
{
    if candidates.len() == 0 {
        Seq::empty()
    } else {
        let before = approved(candidates.drop_last(), items);
        match judgement(items, candidates.last().kind) {
            Some(item) => if item.apply {
                before.push((candidates.last(), item))
            } else {
                before
            },
            None => before,
        }
    }
}

/// The changes of the approved candidates; a later candidate's change of a field covers an
/// earlier one's.
pub open spec fn merged_diff(applied: Seq<(Candidate, LlmRecommendationItem)>) -> Map<
    Seq<char>,
    ConfigDiffEntry,
>
    decreases applied.len(),
{
    if applied.len() == 0 {
        Map::empty()
    } else {
        merged_diff(applied.drop_last()).union_prefer_right(applied.last().0.proposed_diff@)
    }
}

/// The savings of one approved candidate: the model's figure, else the floor cut, else none.
pub open spec fn savings_of(pair: (Candidate, LlmRecommendationItem)) -> Option<SavingsPart> {
    match pair.1.projected_savings_usd_monthly {
        Some(figure) => Some(SavingsPart::Quoted(figure)),
        None => match floor_reduction(pair.0) {
            Some(n) => Some(SavingsPart::FloorCut(n as i64)),
            None => None,
        },
    }
}

/// The savings of the approved candidates.
pub open spec fn savings_parts(applied: Seq<(Candidate, LlmRecommendationItem)>) -> Seq<SavingsPart>
    decreases applied.len(),
{
    if applied.len() == 0 {
        Seq::empty()
    } else {
        let before = savings_parts(applied.drop_last());
        match savings_of(applied.last()) {
            Some(part) => before.push(part),
            None => before,
        }
    }
}

/// The summary's bullet of an approved candidate.
pub open spec fn bullet(pair: (Candidate, LlmRecommendationItem)) -> Seq<char> {
    "\n\n- **"@ + pair.0.kind.name() + "** ("@ + pair.1.risk.name() + " risk): "@
        + pair.1.reasoning@
}

/// The bullets of the approved candidates.
pub open spec fn bullets(applied: Seq<(Candidate, LlmRecommendationItem)>) -> Seq<char>
    decreases applied.len(),
{
    if applied.len() == 0 {
        Seq::empty()
    } else {
        bullets(applied.drop_last()) + bullet(applied.last())
    }
}

/// The label that marks a savings figure as an estimate, with the configured cost in it.
pub open spec fn estimate_label(cost_text: Seq<char>) -> Seq<char> {
    "\n\n_Projected savings are an estimate priced at $"@ + cost_text
        + "/replica/month (configurable: `--cost-per-replica-usd-monthly`)._"@
}

/// The first schedule among the approved candidates.
pub open spec fn carried_schedule(applied: Seq<(Candidate, LlmRecommendationItem)>) -> Option<
    Seq<WindowView>,
>
    decreases applied.len(),
{
    if applied.len() == 0 {
        None
    } else {
        match carried_schedule(applied.drop_last()) {
            Some(s) => Some(s),
            None => schedule_opt_view(applied.last().0.schedule),
        }
    }
}

fn judge(items: &Vec<LlmRecommendationItem>, kind: CandidateKind) -> (r: Option<usize>)
    ensures
        match r {
            Some(i) => i < items@.len() && judgement(items@, kind) == Some(items@[i as int]),
            None => judgement(items@, kind) is None,
        },
{
    let mut n: usize = items.len();
    assert(items@.take(n as int) == items@);
    while n > 0
        invariant
            n <= items@.len(),
            judgement(items@.take(n as int), kind) == judgement(items@, kind),
        decreases n,
    {
        assert(items@.take(n as int).drop_last() == items@.take(n - 1));
        if items[n - 1].candidate_kind == kind {
            return Some(n - 1);
        }
        n -= 1;
    }
    None
}

/// Merge the rule candidates the model approved into one recommendation. `cost_text` is the
/// printed monthly cost of a replica, which labels the savings estimate.
pub fn synthesize(candidates: &Vec<Candidate>, output: &LlmAnalysisOutput, cost_text: &str) -> (r:
    SynthesizedRecommendation)
    ensures
        ({
            let applied = approved(candidates@, output.recommendations@);
            let parts = savings_parts(applied);
            &&& r.config_diff@ == merged_diff(applied)
            &&& r.risk_level == output.overall_risk
            &&& match r.projected_savings_usd_monthly {
                Some(savings) => savings@ == parts && parts.len() > 0,
                None => parts.len() == 0,
            }
            &&& r.summary_md@ == output.executive_summary@ + bullets(applied) + if parts.len() > 0 {
                estimate_label(cost_text@)
            } else {
                Seq::empty()
            }
            &&& schedule_opt_view(r.schedule) == carried_schedule(applied)
        }),
{
    let mut config_diff: ConfigDiff = FieldMap::new();
    let mut savings: Vec<SavingsPart> = Vec::new();
    let mut summary_md = output.executive_summary.clone();
    let mut schedule: Option<ScalingSchedule> = None;
    let ghost items = output.recommendations@;
    let mut i: usize = 0;
    assert(summary_md@ =~= output.executive_summary@ + Seq::<char>::empty());
    while i < candidates.len()
        invariant
            i <= candidates@.len(),
            items == output.recommendations@,
            ({
                let applied = approved(candidates@.take(i as int), items);
                &&& config_diff@ == merged_diff(applied)
                &&& savings@ == savings_parts(applied)
                &&& summary_md@ == output.executive_summary@ + bullets(applied)
                &&& schedule_opt_view(schedule) == carried_schedule(applied)
            }),
        decreases candidates@.len() - i,
    {
        let candidate = &candidates[i];
        assert(candidates@.take(i + 1).drop_last() == candidates@.take(i as int));
        let ghost before = approved(candidates@.take(i as int), items);
        match judge(&output.recommendations, candidate.kind) {
            Some(at) => {
                let item = &output.recommendations[at];
                if item.apply {
                    assert(before.push((*candidate, *item)).drop_last() == before);
                    config_diff.absorb(&candidate.proposed_diff);
                    match item.projected_savings_usd_monthly {
                        Some(figure) => {
                            savings.push(SavingsPart::Quoted(figure));
                        },
                        None => {
                            match floor_savings(candidate) {
                                Some(n) => {
                                    savings.push(SavingsPart::FloorCut(n));
                                },
                                None => {},
                            }
                        },
                    }
                    let ghost so_far = summary_md@;
                    summary_md.append("\n\n- **");
                    summary_md.append(candidate.kind.as_str());
                    summary_md.append("** (");
                    summary_md.append(item.risk.as_str());
                    summary_md.append(" risk): ");
                    summary_md.append(item.reasoning.as_str());
                    assert(summary_md@ =~= so_far + bullet((*candidate, *item)));
                    assert(summary_md@ =~= output.executive_summary@ + bullets(
                        before.push((*candidate, *item)),
                    ));
                    if schedule.is_none() {
                        schedule = match &candidate.schedule {
                            Some(s) => Some(copy_schedule(s)),
                            None => None,
                        };
                    }
                }
            },
            None => {},
        }
        i += 1;
    }
    assert(candidates@.take(candidates@.len() as int) == candidates@);
    let ghost so_far = summary_md@;
    let projected: Option<Vec<SavingsPart>> = if savings.len() > 0 {
        summary_md.append("\n\n_Projected savings are an estimate priced at $");
        summary_md.append(cost_text);
        summary_md.append("/replica/month (configurable: `--cost-per-replica-usd-monthly`)._");
        assert(summary_md@ =~= so_far + estimate_label(cost_text@));
        Some(savings)
    } else {
        assert(summary_md@ =~= so_far + Seq::<char>::empty());
        None
    };
    SynthesizedRecommendation {
        config_diff,
        summary_md,
        risk_level: output.overall_risk,
        projected_savings_usd_monthly: projected,
        schedule,
    }
}

// ---------------------------------------------------------------------------------------------
// Laws

/// Whether the model approves a candidate.
pub open spec fn is_approved(candidate: Candidate, items: Seq<LlmRecommendationItem>) -> bool {
    match judgement(items, candidate.kind) {
        Some(item) => item.apply,
        None => false,
    }
}

/// Exactly the approved candidates are applied.
pub proof fn law_applied_are_the_approved(
    candidates: Seq<Candidate>,
    items: Seq<LlmRecommendationItem>,
)
    ensures
        forall|i: int|
            0 <= i < approved(candidates, items).len() ==> {
                let pair = #[trigger] approved(candidates, items)[i];
                candidates.contains(pair.0) && is_approved(pair.0, items) && judgement(
                    items,
                    pair.0.kind,
                ) == Some(pair.1)
            },
        forall|c: int|
            0 <= c < candidates.len() && is_approved(#[trigger] candidates[c], items)
                ==> approved(candidates, items).contains(
                (candidates[c], judgement(items, candidates[c].kind)->0),
            ),
    decreases candidates.len(),
{
    if candidates.len() > 0 {
        let rest = candidates.drop_last();
        law_applied_are_the_approved(rest, items);
        let before = approved(rest, items);
        let all = approved(candidates, items);
        assert forall|i: int| 0 <= i < all.len() implies ({
            let pair = #[trigger] all[i];
            candidates.contains(pair.0) && is_approved(pair.0, items) && judgement(
                items,
                pair.0.kind,
            ) == Some(pair.1)
        }) by {
            if i < before.len() {
                assert(all[i] == before[i]);
                let k = choose|k: int| 0 <= k < rest.len() && rest[k] == before[i].0;
                assert(candidates[k] == all[i].0);
            } else {
                assert(candidates[candidates.len() - 1] == all[i].0);
            }
        }
        assert forall|c: int|
            0 <= c < candidates.len() && is_approved(
                #[trigger] candidates[c],
                items,
            ) implies all.contains(
            (candidates[c], judgement(items, candidates[c].kind)->0),
        ) by {
            let pair = (candidates[c], judgement(items, candidates[c].kind)->0);
            if c < rest.len() {
                assert(rest[c] == candidates[c]);
                assert(before.contains(pair));
                let k = choose|k: int| 0 <= k < before.len() && before[k] == pair;
                assert(all[k] == pair);
            } else {
                assert(all[before.len() as int] == pair);
            }
        }
    }
}

/// Every change of the recommendation comes from an approved candidate.
pub proof fn law_changes_come_from_approved(
    candidates: Seq<Candidate>,
    items: Seq<LlmRecommendationItem>,
    field: Seq<char>,
)
    requires
        merged_diff(approved(candidates, items)).dom().contains(field),
    ensures
        exists|c: int|
            0 <= c < candidates.len() && is_approved(#[trigger] candidates[c], items)
                && candidates[c].proposed_diff@.dom().contains(field) && candidates[c].proposed_diff@[field]
                == merged_diff(approved(candidates, items))[field],
{
    law_applied_are_the_approved(candidates, items);
    let applied = approved(candidates, items);
    let i = lemma_change_origin(applied, field);
    let k = choose|k: int| 0 <= k < candidates.len() && candidates[k] == applied[i].0;
    assert(is_approved(candidates[k], items));
}

proof fn lemma_change_origin(
    applied: Seq<(Candidate, LlmRecommendationItem)>,
    field: Seq<char>,
) -> (i: int)
    requires
        merged_diff(applied).dom().contains(field),
    ensures
        0 <= i < applied.len(),
        applied[i].0.proposed_diff@.dom().contains(field),
        applied[i].0.proposed_diff@[field] == merged_diff(applied)[field],
    decreases applied.len(),
{
    if applied.last().0.proposed_diff@.dom().contains(field) {
        applied.len() - 1
    } else {
        lemma_change_origin(applied.drop_last(), field)
    }
}

/// Without an approved candidate nothing changes, no savings are claimed and no schedule is
/// carried.
pub proof fn law_nothing_approved_changes_nothing(
    candidates: Seq<Candidate>,
    items: Seq<LlmRecommendationItem>,
)
    requires
        forall|c: int|
            0 <= c < candidates.len() ==> !is_approved(#[trigger] candidates[c], items),
    ensures
        merged_diff(approved(candidates, items)) == Map::<Seq<char>, ConfigDiffEntry>::empty(),
        savings_parts(approved(candidates, items)).len() == 0,
        carried_schedule(approved(candidates, items)) is None,
{
    law_applied_are_the_approved(candidates, items);
    let all = approved(candidates, items);
    if all.len() > 0 {
        let pair = all[0];
        let k = choose|k: int| 0 <= k < candidates.len() && candidates[k] == pair.0;
        assert(is_approved(candidates[k], items));
    }
}

/// An approved floor cut never goes without a savings figure.
pub proof fn law_approved_floor_cut_has_savings(
    candidates: Seq<Candidate>,
    items: Seq<LlmRecommendationItem>,
    c: int,
)
    requires
        0 <= c < candidates.len(),
        is_approved(candidates[c], items),
        floor_reduction(candidates[c]) is Some,
    ensures
        savings_parts(approved(candidates, items)).len() > 0,
{
    law_applied_are_the_approved(candidates, items);
    let applied = approved(candidates, items);
    let pair = (candidates[c], judgement(items, candidates[c].kind)->0);
    assert(applied.contains(pair));
    let k = choose|k: int| 0 <= k < applied.len() && applied[k] == pair;
    lemma_savings_present(applied, k);
}

proof fn lemma_savings_present(applied: Seq<(Candidate, LlmRecommendationItem)>, k: int)
    requires
        0 <= k < applied.len(),
        savings_of(applied[k]) is Some,
    ensures
        savings_parts(applied).len() > 0,
    decreases applied.len(),
{
    if k < applied.len() - 1 {
        lemma_savings_present(applied.drop_last(), k);
    }
}

/// The judgement of a kind is the model's last item of that kind.
pub proof fn law_last_judgement_counts(items: Seq<LlmRecommendationItem>, kind: CandidateKind, i: int)
    requires
        0 <= i < items.len(),
        items[i].candidate_kind == kind,
        forall|j: int| i < j < items.len() ==> (#[trigger] items[j]).candidate_kind != kind,
    ensures
        judgement(items, kind) == Some(items[i]),
    decreases items.len(),
{
    if i < items.len() - 1 {
        law_last_judgement_counts(items.drop_last(), kind, i);
    }
}

/// A kind that no item names has no judgement.
pub proof fn law_unjudged_kind_has_no_judgement(
    items: Seq<LlmRecommendationItem>,
    kind: CandidateKind,
)
    requires
        forall|j: int| 0 <= j < items.len() ==> (#[trigger] items[j]).candidate_kind != kind,
    ensures
        judgement(items, kind) is None,
    decreases items.len(),
{
    if items.len() > 0 {
        law_unjudged_kind_has_no_judgement(items.drop_last(), kind);
    }
}

/// Candidates are approved one by one, in their order: a list is approved part by part, and of one
/// candidate it is the judgement of its kind that decides.
pub proof fn law_candidates_are_approved_one_by_one(
    some: Seq<Candidate>,
    more: Seq<Candidate>,
    items: Seq<LlmRecommendationItem>,
    i: int,
)
    ensures
        approved(some + more, items) == approved(some, items) + approved(more, items),
        some.len() == 1 && 0 <= i < items.len() && items[i].candidate_kind == some[0].kind && (
        forall|j: int|
            i < j < items.len() ==> (#[trigger] items[j]).candidate_kind != some[0].kind)
            ==> approved(some, items) == if items[i].apply {
            seq![(some[0], items[i])]
        } else {
            Seq::empty()
        },
        some.len() == 1 && (forall|j: int|
            0 <= j < items.len() ==> (#[trigger] items[j]).candidate_kind != some[0].kind)
            ==> approved(some, items).len() == 0,
    decreases more.len(),
{
    if some.len() == 1 {
        assert(some.drop_last() =~= Seq::<Candidate>::empty());
        reveal_with_fuel(approved, 2);
        if forall|j: int| 0 <= j < items.len() ==> (#[trigger] items[j]).candidate_kind
            != some[0].kind {
            law_unjudged_kind_has_no_judgement(items, some[0].kind);
        } else if 0 <= i < items.len() && items[i].candidate_kind == some[0].kind && (forall|j: int|
            i < j < items.len() ==> (#[trigger] items[j]).candidate_kind != some[0].kind) {
            law_last_judgement_counts(items, some[0].kind, i);
            assert(approved(some, items) =~= if items[i].apply {
                seq![(some[0], items[i])]
            } else {
                Seq::empty()
            });
        }
    }
    if more.len() == 0 {
        assert(some + more =~= some);
        assert(approved(some, items) + approved(more, items) =~= approved(some, items));
    } else {
        law_candidates_are_approved_one_by_one(some, more.drop_last(), items, i);
        assert((some + more).drop_last() =~= some + more.drop_last());
        assert(approved(some + more, items) =~= approved(some, items) + approved(more, items));
    }
}

/// Every field that an approved candidate changes is in the recommendation's diff, with the value
/// of the last approved candidate that changes it.
pub proof fn law_approved_changes_are_kept(
    candidates: Seq<Candidate>,
    items: Seq<LlmRecommendationItem>,
    c: int,
    i: int,
    field: Seq<char>,
)
    requires
        0 <= c < candidates.len(),
        0 <= i < items.len(),
        items[i].candidate_kind == candidates[c].kind,
        items[i].apply,
        forall|j: int|
            i < j < items.len() ==> (#[trigger] items[j]).candidate_kind != candidates[c].kind,
        candidates[c].proposed_diff@.dom().contains(field),
    ensures
        merged_diff(approved(candidates, items)).dom().contains(field),
        (forall|k: int|
            c < k < candidates.len() && is_approved(#[trigger] candidates[k], items)
                ==> !candidates[k].proposed_diff@.dom().contains(field)) ==> merged_diff(approved(candidates, items))[field]
            == candidates[c].proposed_diff@[field],
    decreases candidates.len(),
{
    law_last_judgement_counts(items, candidates[c].kind, i);
    let rest = candidates.drop_last();
    let last = candidates.last();
    let before = approved(rest, items);
    let all = approved(candidates, items);
    assert(all == before || (all == before.push(all.last()) && all.last().0 == last));
    if all != before {
        assert(all.drop_last() =~= before);
    }
    if c < candidates.len() - 1 {
        law_approved_changes_are_kept(rest, items, c, i, field);
    }
}

/// A field that no approved candidate changes is not in the recommendation's diff.
pub proof fn law_refused_changes_are_left_out(
    candidates: Seq<Candidate>,
    items: Seq<LlmRecommendationItem>,
    field: Seq<char>,
)
    requires
        forall|c: int, i: int|
            0 <= c < candidates.len() && 0 <= i < items.len() && (
            #[trigger] candidates[c]).proposed_diff@.dom().contains(field) && (
            #[trigger] items[i]).candidate_kind == candidates[c].kind ==> !items[i].apply,
    ensures
        !merged_diff(approved(candidates, items)).dom().contains(field),
    decreases candidates.len(),
{
    if candidates.len() > 0 {
        let rest = candidates.drop_last();
        assert forall|c: int, i: int|
            0 <= c < rest.len() && 0 <= i < items.len() && (
            #[trigger] rest[c]).proposed_diff@.dom().contains(field) && (
            #[trigger] items[i]).candidate_kind == rest[c].kind implies !items[i].apply by {
            assert(candidates[c].proposed_diff@.dom().contains(field));
        }
        law_refused_changes_are_left_out(rest, items, field);
        let last = candidates.last();
        if let Some(item) = judgement(items, last.kind) {
            lemma_judgement_is_an_item(items, last.kind);
            let i = choose|i: int| 0 <= i < items.len() && items[i] == item;
            assert(candidates[candidates.len() - 1] == last);
            let all = approved(candidates, items);
            if item.apply {
                assert(all.drop_last() =~= approved(rest, items));
                assert(!last.proposed_diff@.dom().contains(field));
            }
        }
    }
}

proof fn lemma_judgement_is_an_item(items: Seq<LlmRecommendationItem>, kind: CandidateKind)
    requires
        judgement(items, kind) is Some,
    ensures
        items.contains(judgement(items, kind)->0),
        judgement(items, kind)->0.candidate_kind == kind,
    decreases items.len(),
{
    if items.last().candidate_kind != kind {
        lemma_judgement_is_an_item(items.drop_last(), kind);
        let i = choose|i: int|
            0 <= i < items.len() - 1 && items.drop_last()[i] == judgement(items, kind)->0;
        assert(items[i] == judgement(items, kind)->0);
    } else {
        assert(items[items.len() - 1] == judgement(items, kind)->0);
    }
}

/// The savings are those of the approved candidates one by one, in order: the model's figure where
/// it gave one, else the replicas that the candidate takes off the floor, else nothing.
pub proof fn law_savings_add_up(
    some: Seq<(Candidate, LlmRecommendationItem)>,
    more: Seq<(Candidate, LlmRecommendationItem)>,
)
    ensures
        savings_parts(some + more) == savings_parts(some) + savings_parts(more),
        some.len() == 1 ==> {
            let (candidate, item) = some[0];
            let diff = candidate.proposed_diff@;
            let parts = savings_parts(some);
            match item.projected_savings_usd_monthly {
                Some(figure) => parts == seq![SavingsPart::Quoted(figure)],
                None => if diff.dom().contains("min_replicas"@) && diff["min_replicas"@].to
                    < diff["min_replicas"@].from {
                    parts == seq![
                        SavingsPart::FloorCut(
                            (diff["min_replicas"@].from - diff["min_replicas"@].to) as i64,
                        ),
                    ]
                } else {
                    parts.len() == 0
                },
            }
        },
    decreases more.len(),
{
    if some.len() == 1 {
        reveal_with_fuel(savings_parts, 2);
        assert(some.drop_last() =~= Seq::<(Candidate, LlmRecommendationItem)>::empty());
        assert(savings_parts(some) =~= match savings_of(some[0]) {
            Some(part) => seq![part],
            None => Seq::empty(),
        });
    }
    if more.len() == 0 {
        assert(some + more =~= some);
        assert(savings_parts(some) + savings_parts(more) =~= savings_parts(some));
    } else {
        law_savings_add_up(some, more.drop_last());
        assert((some + more).drop_last() =~= some + more.drop_last());
        assert(savings_parts(some + more) =~= savings_parts(some) + savings_parts(more));
    }
}

/// The summary has a bullet for each approved candidate, in order, with its kind, its risk and the
/// model's reasoning.
pub proof fn law_every_approved_candidate_has_its_bullet(
    some: Seq<(Candidate, LlmRecommendationItem)>,
    more: Seq<(Candidate, LlmRecommendationItem)>,
)
    ensures
        bullets(some + more) == bullets(some) + bullets(more),
        some.len() == 1 ==> bullets(some) == "\n\n- **"@ + some[0].0.kind.name() + "** ("@
            + some[0].1.risk.name() + " risk): "@ + some[0].1.reasoning@,
    decreases more.len(),
{
    if some.len() == 1 {
        reveal_with_fuel(bullets, 2);
        assert(some.drop_last() =~= Seq::<(Candidate, LlmRecommendationItem)>::empty());
        assert(bullets(some) =~= bullet(some[0]));
    }
    if more.len() == 0 {
        assert(some + more =~= some);
        assert(bullets(some) + bullets(more) =~= bullets(some));
    } else {
        law_every_approved_candidate_has_its_bullet(some, more.drop_last());
        assert((some + more).drop_last() =~= some + more.drop_last());
        assert(bullets(some + more) =~= bullets(some) + bullets(more));
    }
}

/// The recommendation carries the schedule of the first approved candidate that has one.
pub proof fn law_first_schedule_is_carried(
    applied: Seq<(Candidate, LlmRecommendationItem)>,
    k: int,
)
    requires
        0 <= k < applied.len(),
        applied[k].0.schedule is Some,
        forall|j: int| 0 <= j < k ==> (#[trigger] applied[j]).0.schedule is None,
    ensures
        carried_schedule(applied) == Some(
            applied[k].0.schedule->0@.map_values(|w: ScheduleWindow| w@),
        ),
    decreases applied.len(),
{
    if k < applied.len() - 1 {
        law_first_schedule_is_carried(applied.drop_last(), k);
    } else {
        law_no_schedule_is_made_up(applied.drop_last());
        assert(schedule_view(applied[k].0.schedule->0@) =~= applied[k].0.schedule->0@.map_values(
            |w: ScheduleWindow| w@,
        ));
    }
}

/// Where no approved candidate has a schedule, the recommendation has none.
pub proof fn law_no_schedule_is_made_up(applied: Seq<(Candidate, LlmRecommendationItem)>)
    requires
        forall|j: int| 0 <= j < applied.len() ==> (#[trigger] applied[j]).0.schedule is None,
    ensures
        carried_schedule(applied) is None,
    decreases applied.len(),
{
    if applied.len() > 0 {
        law_no_schedule_is_made_up(applied.drop_last());
    }
}

/// The savings are labelled as an estimate, with the configured cost of a replica in the label.
pub proof fn law_label_names_the_cost(cost_text: Seq<char>)
    ensures
        estimate_label(cost_text) == "\n\n_Projected savings are an estimate priced at $"@
            + cost_text + "/replica/month (configurable: `--cost-per-replica-usd-monthly`)._"@,
{
}

} // verus!
