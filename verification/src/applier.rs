//! Merge-patches: applying, reverting, and installing a proactive schedule.
use vstd::prelude::*;
use vstd::string::*;

#[allow(unused_imports)]
use crate::clock::truncated_div;
#[allow(unused_imports)]
use crate::crd::window_views;
use crate::crd::{DiffEntry, DiffMap, ScheduleWindowSpec, TargetKind};
#[allow(unused_imports)]
use crate::domain::WindowView;
#[allow(unused_imports)]
use crate::json::{items_view, member, members_view, text_of, JsonView};
use crate::json::{put_member, Json};
#[allow(unused_imports)]
use crate::text::{decimal, has_prefix, i32_of, signed_decimal, views, words_of};
use crate::text::{parse_i32, push_decimal, push_signed, signed_text, starts_with, words};

verus! {

// ---------------------------------------------------------------------------------------------
// Building objects

/// The object with no members.
pub open spec fn no_members() -> Map<Seq<char>, JsonView> {
    Map::empty()
}

/// The object with one member.
pub open spec fn object1(name: Seq<char>, value: JsonView) -> JsonView {
    JsonView::Object(no_members().insert(name, value))
}

fn single(name: &str, value: Json) -> (j: Json)
    ensures
        j@ == object1(name@, value@),
{
    let mut members: Vec<(String, Json)> = Vec::new();
    put_member(&mut members, name, value);
    Json::Object(members)
}

// ---------------------------------------------------------------------------------------------
// Applying and reverting

/// The value that a change sets, or that reverting it restores.
pub open spec fn picked(d: DiffEntry, revert: bool) -> i32 {
    if revert {
        d.from
    } else {
        d.to
    }
}

/// `members` with the member `name` set to the changed `field`, where it is changed.
pub open spec fn with_change(
    members: Map<Seq<char>, JsonView>,
    diff: Map<Seq<char>, DiffEntry>,
    revert: bool,
    field: Seq<char>,
    name: Seq<char>,
    wrap: spec_fn(int) -> JsonView,
) -> Map<Seq<char>, JsonView> {
    if diff.dom().contains(field) {
        members.insert(name, wrap(picked(diff[field], revert) as int))
    } else {
        members
    }
}

/// The HPA's CPU utilization target in `spec.metrics`.
pub open spec fn cpu_metric(n: int) -> JsonView {
    JsonView::Array(
        seq![
            JsonView::Object(
                no_members().insert("type"@, JsonView::Str("Resource"@)).insert(
                    "resource"@,
                    JsonView::Object(
                        no_members().insert("name"@, JsonView::Str("cpu"@)).insert(
                            "target"@,
                            JsonView::Object(
                                no_members().insert("type"@, JsonView::Str("Utilization"@)).insert(
                                    "averageUtilization"@,
                                    JsonView::Whole(n),
                                ),
                            ),
                        ),
                    ),
                ),
            ),
        ],
    )
}

/// The HPA's scale-down stabilization in `spec.behavior`.
pub open spec fn stabilization(n: int) -> JsonView {
    object1("scaleDown"@, object1("stabilizationWindowSeconds"@, JsonView::Whole(n)))
}

/// A number as it stands in a patch.
pub open spec fn plain(n: int) -> JsonView {
    JsonView::Whole(n)
}

/// The HPA spec fields that a diff changes.
pub open spec fn hpa_spec(diff: Map<Seq<char>, DiffEntry>, revert: bool) -> Map<
    Seq<char>,
    JsonView,
> {
    let a = with_change(
        no_members(),
        diff,
        revert,
        "min_replicas"@,
        "minReplicas"@,
        |n: int| plain(n),
    );
    let b = with_change(a, diff, revert, "max_replicas"@, "maxReplicas"@, |n: int| plain(n));
    let c = with_change(b, diff, revert, "target_cpu_pct"@, "metrics"@, |n: int| cpu_metric(n));
    with_change(
        c,
        diff,
        revert,
        "scale_down_cooldown_s"@,
        "behavior"@,
        |n: int| stabilization(n),
    )
}

/// The ScaledObject spec fields that a diff changes. A CPU target has none.
pub open spec fn scaled_object_spec(diff: Map<Seq<char>, DiffEntry>, revert: bool) -> Map<
    Seq<char>,
    JsonView,
> {
    let a = with_change(
        no_members(),
        diff,
        revert,
        "min_replicas"@,
        "minReplicaCount"@,
        |n: int| plain(n),
    );
    let b = with_change(a, diff, revert, "max_replicas"@, "maxReplicaCount"@, |n: int| plain(n));
    with_change(
        b,
        diff,
        revert,
        "scale_down_cooldown_s"@,
        "cooldownPeriod"@,
        |n: int| plain(n),
    )
}

/// The merge-patch of a diff for a kind of target.
pub open spec fn patch_view(
    kind: TargetKind,
    diff: Map<Seq<char>, DiffEntry>,
    revert: bool,
) -> JsonView {
    object1(
        "spec"@,
        JsonView::Object(
            match kind {
                TargetKind::HorizontalPodAutoscaler => hpa_spec(diff, revert),
                TargetKind::ScaledObject => scaled_object_spec(diff, revert),
            },
        ),
    )
}

fn pick(d: &DiffEntry, revert: bool) -> (n: i64)
    ensures
        n == picked(*d, revert),
{
    if revert {
        d.from as i64
    } else {
        d.to as i64
    }
}

fn cpu_metric_json(n: i64) -> (j: Json)
    ensures
        j@ == cpu_metric(n as int),
{
    let mut target: Vec<(String, Json)> = Vec::new();
    put_member(&mut target, "type", Json::text("Utilization"));
    put_member(&mut target, "averageUtilization", Json::whole(n));
    let mut resource: Vec<(String, Json)> = Vec::new();
    put_member(&mut resource, "name", Json::text("cpu"));
    put_member(&mut resource, "target", Json::Object(target));
    let mut metric: Vec<(String, Json)> = Vec::new();
    put_member(&mut metric, "type", Json::text("Resource"));
    put_member(&mut metric, "resource", Json::Object(resource));
    let mut metrics: Vec<Json> = Vec::new();
    metrics.push(Json::Object(metric));
    proof {
        crate::json::lemma_items(metrics@);
        assert(items_view(metrics@) =~= seq![metrics@[0]@]);
    }
    Json::Array(metrics)
}

/// The merge-patch that sets an HPA's (`autoscaling/v2`) fields.
fn hpa_patch(config_diff: &DiffMap, revert: bool) -> (j: Json)
    ensures
        j@ == patch_view(TargetKind::HorizontalPodAutoscaler, config_diff@, revert),
{
    let mut spec: Vec<(String, Json)> = Vec::new();
    if let Some(d) = config_diff.get("min_replicas") {
        put_member(&mut spec, "minReplicas", Json::whole(pick(d, revert)));
    }
    if let Some(d) = config_diff.get("max_replicas") {
        put_member(&mut spec, "maxReplicas", Json::whole(pick(d, revert)));
    }
    if let Some(d) = config_diff.get("target_cpu_pct") {
        put_member(&mut spec, "metrics", cpu_metric_json(pick(d, revert)));
    }
    if let Some(d) = config_diff.get("scale_down_cooldown_s") {
        let window = single("stabilizationWindowSeconds", Json::whole(pick(d, revert)));
        put_member(&mut spec, "behavior", single("scaleDown", window));
    }
    single("spec", Json::Object(spec))
}

/// The merge-patch that sets a ScaledObject's fields.
fn scaled_object_patch(config_diff: &DiffMap, revert: bool) -> (j: Json)
    ensures
        j@ == patch_view(TargetKind::ScaledObject, config_diff@, revert),
{
    let mut spec: Vec<(String, Json)> = Vec::new();
    if let Some(d) = config_diff.get("min_replicas") {
        put_member(&mut spec, "minReplicaCount", Json::whole(pick(d, revert)));
    }
    if let Some(d) = config_diff.get("max_replicas") {
        put_member(&mut spec, "maxReplicaCount", Json::whole(pick(d, revert)));
    }
    if let Some(d) = config_diff.get("scale_down_cooldown_s") {
        put_member(&mut spec, "cooldownPeriod", Json::whole(pick(d, revert)));
    }
    single("spec", Json::Object(spec))
}

fn build_patch(kind: TargetKind, config_diff: &DiffMap, revert: bool) -> (j: Json)
    ensures
        j@ == patch_view(kind, config_diff@, revert),
{
    match kind {
        TargetKind::HorizontalPodAutoscaler => hpa_patch(config_diff, revert),
        TargetKind::ScaledObject => scaled_object_patch(config_diff, revert),
    }
}

/// Build the merge-patch body that applies a recommendation's config diff, mapping our field names
/// onto the target's spec (HPA `autoscaling/v2` or KEDA `ScaledObject`).
pub fn patch_for(kind: TargetKind, config_diff: &DiffMap) -> (j: Json)
    ensures
        j@ == patch_view(kind, config_diff@, false),
{
    build_patch(kind, config_diff, false)
}

/// Build the inverse merge-patch that restores the pre-apply values (`from`) - the auto-rollback
/// safety net. The rollback target is free: it is already recorded in each `DiffEntry`.
pub fn revert_patch_for(kind: TargetKind, config_diff: &DiffMap) -> (j: Json)
    ensures
        j@ == patch_view(kind, config_diff@, true),
{
    build_patch(kind, config_diff, true)
}

// ---------------------------------------------------------------------------------------------
// KEDA schedules

/// Whether a trigger is one of the cron triggers that this operator manages: its name begins with
/// the managed prefix. A re-patch replaces only those and leaves the workload's real scalers
/// (kafka/prometheus/...) untouched.
pub open spec fn managed(trigger: JsonView) -> bool {
    match text_of(member(trigger, "name"@)) {
        Some(name) => has_prefix(name, "openhpa-cron-"@),
        None => false,
    }
}

/// The managed triggers (or, with `ours` false, the others), in order.
pub open spec fn triggers_of(triggers: Seq<JsonView>, ours: bool) -> Seq<JsonView>
    decreases triggers.len(),
{
    if triggers.len() == 0 {
        Seq::empty()
    } else {
        let before = triggers_of(triggers.drop_last(), ours);
        if managed(triggers.last()) == ours {
            before.push(triggers.last())
        } else {
            before
        }
    }
}

/// The minute of the day at which a window of `duration` minutes ends that opens at
/// `hour:minute`: on the same day, so at most 23:59.
pub open spec fn end_minute(minute: int, hour: int, duration: int) -> int {
    let end = hour * 60 + minute + duration;
    if end < 1439 {
        end
    } else {
        1439
    }
}

/// The field of a cron as a number, 0 where it is absent or malformed.
pub open spec fn number_field(fields: Seq<Seq<char>>, i: int) -> int {
    if i < fields.len() {
        match i32_of(fields[i]) {
            Some(n) => n as int,
            None => 0,
        }
    } else {
        0
    }
}

/// The KEDA cron `end` of a window.
pub open spec fn end_cron_text(start_cron: Seq<char>, duration_minutes: i32) -> Seq<char> {
    let fields = words_of(start_cron);
    let end = end_minute(
        number_field(fields, 0),
        number_field(fields, 1),
        duration_minutes as int,
    );
    let hour = truncated_div(end, 60);
    signed_decimal(end - hour * 60) + " "@ + signed_decimal(hour) + " * * "@ + if fields.len() > 4 {
        fields[4]
    } else {
        "*"@
    }
}

/// The managed cron trigger of the `index`th window.
pub open spec fn cron_trigger_view(index: int, w: WindowView) -> JsonView {
    JsonView::Object(
        no_members().insert("type"@, JsonView::Str("cron"@)).insert(
            "name"@,
            JsonView::Str("openhpa-cron-"@ + decimal(index as nat)),
        ).insert(
            "metadata"@,
            JsonView::Object(
                no_members().insert("timezone"@, JsonView::Str("UTC"@)).insert(
                    "start"@,
                    JsonView::Str(w.start_cron),
                ).insert(
                    "end"@,
                    JsonView::Str(end_cron_text(w.start_cron, w.duration_minutes)),
                ).insert(
                    "desiredReplicas"@,
                    JsonView::Str(signed_decimal(w.min_replicas as int)),
                ),
            ),
        ),
    )
}

/// The managed cron triggers of a schedule.
pub open spec fn schedule_triggers(windows: Seq<WindowView>) -> Seq<JsonView> {
    Seq::new(windows.len(), |i: int| cron_trigger_view(i, windows[i]))
}

/// The triggers after a schedule is installed: the workload's own, then the schedule's.
pub open spec fn installed(existing: Seq<JsonView>, windows: Seq<WindowView>) -> Seq<JsonView> {
    triggers_of(existing, false) + schedule_triggers(windows)
}

fn is_managed_cron(trigger: &Json) -> (b: bool)
    ensures
        b == managed(trigger@),
{
    match trigger.get("name") {
        Some(name) => match name.as_str() {
            Some(s) => starts_with(s.as_str(), "openhpa-cron-"),
            None => false,
        },
        None => false,
    }
}

/// Derive the KEDA cron `end` from a window's `start` cron + duration, clamped to the same day
/// (sub-day windows; a window running to midnight ends at 23:59).
pub fn end_cron(start_cron: &str, duration_minutes: i32) -> (s: String)
    ensures
        s@ == end_cron_text(start_cron@, duration_minutes),
{
    let fields = words(start_cron);
    let ghost texts = words_of(start_cron@);
    assert(views(fields@).len() == fields@.len());
    assert(forall|i: int| 0 <= i < fields@.len() ==> views(fields@)[i] == fields@[i]@);
    let minute: i64 = if fields.len() > 0 {
        match parse_i32(fields[0].as_str()) {
            Some(n) => n as i64,
            None => 0,
        }
    } else {
        0
    };
    let hour: i64 = if fields.len() > 1 {
        match parse_i32(fields[1].as_str()) {
            Some(n) => n as i64,
            None => 0,
        }
    } else {
        0
    };
    let sum: i64 = hour * 60 + minute + duration_minutes as i64;
    let end: i64 = if sum < 1439 {
        sum
    } else {
        1439
    };
    let end_hour: i64 = end / 60;
    let mut s = signed_text(end - end_hour * 60);
    s.append(" ");
    push_signed(&mut s, end_hour);
    s.append(" * * ");
    if fields.len() > 4 {
        s.append(fields[4].as_str());
    } else {
        s.append("*");
    }
    s
}

fn cron_trigger(index: usize, window: &ScheduleWindowSpec) -> (j: Json)
    ensures
        j@ == cron_trigger_view(index as int, window@),
{
    let mut metadata: Vec<(String, Json)> = Vec::new();
    put_member(&mut metadata, "timezone", Json::text("UTC"));
    put_member(&mut metadata, "start", Json::text(window.start_cron.as_str()));
    let end = end_cron(window.start_cron.as_str(), window.duration_minutes);
    put_member(&mut metadata, "end", Json::Str(end));
    put_member(&mut metadata, "desiredReplicas", Json::Str(signed_text(window.min_replicas as i64)));
    let mut name = "openhpa-cron-".to_owned();
    push_decimal(&mut name, index as u64);
    let mut trigger: Vec<(String, Json)> = Vec::new();
    put_member(&mut trigger, "type", Json::text("cron"));
    put_member(&mut trigger, "name", Json::Str(name));
    put_member(&mut trigger, "metadata", Json::Object(metadata));
    Json::Object(trigger)
}

fn push_schedule_triggers(triggers: &mut Vec<Json>, schedule: &Vec<ScheduleWindowSpec>)
    ensures
        items_view(final(triggers)@) == items_view(old(triggers)@) + schedule_triggers(
            window_views(schedule@),
        ),
{
    let ghost wanted = schedule_triggers(window_views(schedule@));
    let mut i: usize = 0;
    assert(items_view(triggers@) =~= items_view(old(triggers)@) + wanted.take(0));
    while i < schedule.len()
        invariant
            i <= schedule@.len(),
            wanted == schedule_triggers(window_views(schedule@)),
            items_view(triggers@) == items_view(old(triggers)@) + wanted.take(i as int),
        decreases schedule@.len() - i,
    {
        let ghost before = triggers@;
        let t = cron_trigger(i, &schedule[i]);
        triggers.push(t);
        assert(triggers@.drop_last() == before);
        assert(wanted.take(i + 1) =~= wanted.take(i as int).push(t@));
        assert(items_view(triggers@) =~= items_view(old(triggers)@) + wanted.take(i + 1));
        i += 1;
    }
    assert(wanted.take(wanted.len() as int) == wanted);
}

/// Build the ScaledObject merge-patch that installs the proactive schedule as KEDA `cron`
/// triggers - KEDA does the time-based scaling, the operator doesn't babysit. The workload's
/// existing non-cron (and other-owner) triggers are preserved; only our own cron triggers are
/// replaced.
pub fn schedule_patch_for_keda(
    existing_triggers: &Vec<Json>,
    schedule: &Vec<ScheduleWindowSpec>,
) -> (j: Json)
    ensures
        j@ == object1(
            "spec"@,
            object1(
                "triggers"@,
                JsonView::Array(
                    installed(items_view(existing_triggers@), window_views(schedule@)),
                ),
            ),
        ),
{
    let ghost existing = items_view(existing_triggers@);
    let mut triggers: Vec<Json> = Vec::new();
    let mut i: usize = 0;
    proof {
        crate::json::lemma_items(existing_triggers@);
    }
    while i < existing_triggers.len()
        invariant
            i <= existing_triggers@.len(),
            existing == items_view(existing_triggers@),
            existing.len() == existing_triggers@.len(),
            forall|k: int|
                0 <= k < existing.len() ==> #[trigger] existing[k] == existing_triggers@[k]@,
            items_view(triggers@) == triggers_of(existing.take(i as int), false),
        decreases existing_triggers@.len() - i,
    {
        assert(existing.take(i + 1).drop_last() == existing.take(i as int));
        assert(existing.take(i + 1).last() == existing_triggers@[i as int]@);
        if !is_managed_cron(&existing_triggers[i]) {
            let ghost before = triggers@;
            triggers.push(existing_triggers[i].copy());
            assert(triggers@.drop_last() == before);
        }
        i += 1;
    }
    assert(existing.take(existing.len() as int) == existing);
    push_schedule_triggers(&mut triggers, schedule);
    single("spec", single("triggers", Json::Array(triggers)))
}

/// Whether `whole` begins with `part`.
pub open spec fn begins(whole: Seq<JsonView>, part: Seq<JsonView>) -> bool {
    part.len() <= whole.len() && whole.take(part.len() as int) == part
}

proof fn lemma_begins_push(whole: Seq<JsonView>, part: Seq<JsonView>, x: JsonView)
    ensures
        begins(whole, part.push(x)) <==> begins(whole, part) && part.len() < whole.len()
            && whole[part.len() as int] == x,
{
    let n = part.len() as int;
    let longer = part.push(x);
    if begins(whole, longer) {
        assert(whole.take(n + 1)[n] == x);
        assert(whole.take(n) =~= part) by {
            assert forall|i: int| 0 <= i < n implies whole[i] == part[i] by {
                assert(whole.take(n + 1)[i] == longer[i]);
            }
        }
    }
    if begins(whole, part) && n < whole.len() && whole[n] == x {
        assert(whole.take(n + 1) =~= longer) by {
            assert forall|i: int| 0 <= i < n implies whole[i] == part[i] by {
                assert(whole.take(n)[i] == part[i]);
            }
        }
    }
}

/// Whether the live triggers already carry exactly the managed cron triggers this schedule wants
/// (ignoring the workload's own triggers, which we never touch) - so the controller can skip a
/// no-op patch every tick.
pub fn keda_schedule_in_sync(
    existing_triggers: &Vec<Json>,
    schedule: &Vec<ScheduleWindowSpec>,
) -> (b: bool)
    ensures
        b == (triggers_of(items_view(existing_triggers@), true) == schedule_triggers(
            window_views(schedule@),
        )),
{
    let ghost existing = items_view(existing_triggers@);
    let ghost wanted = schedule_triggers(window_views(schedule@));
    let mut found: usize = 0;
    let mut equal: bool = true;
    let mut i: usize = 0;
    assert(wanted.take(0) == Seq::<JsonView>::empty());
    proof {
        crate::json::lemma_items(existing_triggers@);
    }
    while i < existing_triggers.len()
        invariant
            found <= i <= existing_triggers@.len(),
            existing == items_view(existing_triggers@),
            existing.len() == existing_triggers@.len(),
            forall|k: int|
                0 <= k < existing.len() ==> #[trigger] existing[k] == existing_triggers@[k]@,
            wanted == schedule_triggers(window_views(schedule@)),
            wanted.len() == schedule@.len(),
            found == triggers_of(existing.take(i as int), true).len(),
            equal == begins(wanted, triggers_of(existing.take(i as int), true)),
        decreases existing_triggers@.len() - i,
    {
        assert(existing.take(i + 1).drop_last() == existing.take(i as int));
        assert(existing.take(i + 1).last() == existing_triggers@[i as int]@);
        let ghost before = triggers_of(existing.take(i as int), true);
        let ghost now = triggers_of(existing.take(i + 1), true);
        if is_managed_cron(&existing_triggers[i]) {
            let here: bool = if found < schedule.len() {
                existing_triggers[i].same(&cron_trigger(found, &schedule[found]))
            } else {
                false
            };
            proof {
                assert(now == before.push(existing_triggers@[i as int]@));
                lemma_begins_push(wanted, before, existing_triggers@[i as int]@);
            }
            equal = equal && here;
            found += 1;
        }
        i += 1;
    }
    proof {
        assert(existing.take(existing.len() as int) == existing);
        let live = triggers_of(existing, true);
        if found == schedule@.len() {
            assert(wanted.take(found as int) == wanted);
        }
    }
    equal && found == schedule.len()
}

// ---------------------------------------------------------------------------------------------
// Laws

proof fn lemma_triggers_concat(a: Seq<JsonView>, b: Seq<JsonView>, ours: bool)
    ensures
        triggers_of(a + b, ours) == triggers_of(a, ours) + triggers_of(b, ours),
    decreases b.len(),
{
    if b.len() == 0 {
        assert(a + b =~= a);
        assert(triggers_of(a + b, ours) =~= triggers_of(a, ours) + triggers_of(b, ours));
    } else {
        lemma_triggers_concat(a, b.drop_last(), ours);
        assert((a + b).drop_last() =~= a + b.drop_last());
        assert((a + b).last() == b.last());
        assert(triggers_of(a + b, ours) =~= triggers_of(a, ours) + triggers_of(b, ours));
    }
}

proof fn lemma_triggers_uniform(s: Seq<JsonView>, ours: bool)
    requires
        forall|i: int| 0 <= i < s.len() ==> managed(#[trigger] s[i]) == ours,
    ensures
        triggers_of(s, ours) == s,
        triggers_of(s, !ours) == Seq::<JsonView>::empty(),
    decreases s.len(),
{
    if s.len() > 0 {
        let rest = s.drop_last();
        assert forall|i: int| 0 <= i < rest.len() implies managed(#[trigger] rest[i]) == ours by {
            assert(rest[i] == s[i]);
        }
        lemma_triggers_uniform(rest, ours);
        assert(managed(s[s.len() - 1]) == ours);
        assert(rest.push(s.last()) =~= s);
    } else {
        assert(s =~= Seq::<JsonView>::empty());
    }
}

proof fn lemma_triggers_of_uniform(s: Seq<JsonView>, ours: bool)
    ensures
        forall|i: int|
            0 <= i < triggers_of(s, ours).len() ==> managed(#[trigger] triggers_of(s, ours)[i])
                == ours,
    decreases s.len(),
{
    if s.len() > 0 {
        lemma_triggers_of_uniform(s.drop_last(), ours);
        let before = triggers_of(s.drop_last(), ours);
        assert forall|i: int| 0 <= i < triggers_of(s, ours).len() implies managed(
            #[trigger] triggers_of(s, ours)[i],
        ) == ours by {
            if i < before.len() {
                assert(triggers_of(s, ours)[i] == before[i]);
            }
        }
    }
}

proof fn lemma_schedule_is_managed(windows: Seq<WindowView>)
    ensures
        forall|i: int|
            0 <= i < windows.len() ==> managed(#[trigger] schedule_triggers(windows)[i]),
{
    reveal_strlit("type");
    reveal_strlit("name");
    reveal_strlit("metadata");
    assert("name"@.len() != "metadata"@.len());
    assert forall|i: int| 0 <= i < windows.len() implies managed(
        #[trigger] schedule_triggers(windows)[i],
    ) by {
        let name = "openhpa-cron-"@ + decimal(i as nat);
        assert(name.take("openhpa-cron-"@.len() as int) =~= "openhpa-cron-"@);
        let m = cron_trigger_view(i, windows[i])->Object_0;
        assert(m.dom().contains("name"@));
        assert(m["name"@] == JsonView::Str(name));
    }
}

/// Installing a schedule brings the triggers in sync with it.
pub proof fn law_installed_schedule_is_in_sync(existing: Seq<JsonView>, windows: Seq<WindowView>)
    ensures
        triggers_of(installed(existing, windows), true) == schedule_triggers(windows),
{
    lemma_schedule_is_managed(windows);
    lemma_triggers_uniform(schedule_triggers(windows), true);
    lemma_triggers_of_uniform(existing, false);
    lemma_triggers_uniform(triggers_of(existing, false), false);
    lemma_triggers_concat(triggers_of(existing, false), schedule_triggers(windows), true);
    assert(triggers_of(installed(existing, windows), true) =~= schedule_triggers(windows));
}

/// Installing a schedule keeps every trigger that is not ours, in order.
pub proof fn law_real_triggers_are_kept(existing: Seq<JsonView>, windows: Seq<WindowView>)
    ensures
        triggers_of(installed(existing, windows), false) == triggers_of(existing, false),
{
    lemma_schedule_is_managed(windows);
    lemma_triggers_uniform(schedule_triggers(windows), true);
    lemma_triggers_of_uniform(existing, false);
    lemma_triggers_uniform(triggers_of(existing, false), false);
    lemma_triggers_concat(triggers_of(existing, false), schedule_triggers(windows), false);
    assert(triggers_of(installed(existing, windows), false) =~= triggers_of(existing, false));
}

/// Installing one schedule after another leaves what installing the second alone leaves.
pub proof fn law_reinstalling_replaces(
    existing: Seq<JsonView>,
    first: Seq<WindowView>,
    second: Seq<WindowView>,
)
    ensures
        installed(installed(existing, first), second) == installed(existing, second),
{
    law_real_triggers_are_kept(existing, first);
}

/// The result of merging a patch into a value (JSON merge patch): an object's members are merged
/// one by one, a null member is removed, and anything else replaces what was there.
pub open spec fn merged(target: JsonView, patch: JsonView) -> JsonView
    decreases patch,
{
    match patch {
        JsonView::Object(p) => {
            let t = match target {
                JsonView::Object(t) => t,
                _ => no_members(),
            };
            JsonView::Object(
                Map::new(
                    |k: Seq<char>|
                        if p.dom().contains(k) {
                            !(p[k] is Null)
                        } else {
                            t.dom().contains(k)
                        },
                    |k: Seq<char>|
                        if p.dom().contains(k) {
                            merged(
                                if t.dom().contains(k) {
                                    t[k]
                                } else {
                                    JsonView::Null
                                },
                                p[k],
                            )
                        } else {
                            t[k]
                        },
                ),
            )
        },
        _ => patch,
    }
}

/// Whether two patches set the same places: member by member where both are objects, else both
/// something other than an object; neither removes anything.
pub open spec fn same_places(a: JsonView, b: JsonView) -> bool
    decreases a,
{
    match (a, b) {
        (JsonView::Object(x), JsonView::Object(y)) => {
            &&& x.dom() == y.dom()
            &&& forall|k: Seq<char>|
                x.dom().contains(k) ==> same_places(#[trigger] x[k], y[k]) && !(x[k] is Null) && !(
                y[k] is Null)
        },
        (JsonView::Object(_), _) => false,
        (_, JsonView::Object(_)) => false,
        _ => true,
    }
}

/// A patch that sets the same places covers an earlier one.
pub proof fn law_later_patch_covers(target: JsonView, first: JsonView, second: JsonView)
    requires
        same_places(first, second),
    ensures
        merged(merged(target, first), second) == merged(target, second),
    decreases first,
{
    if let JsonView::Object(x) = first {
        let y = second->Object_0;
        let t = match target {
            JsonView::Object(t) => t,
            _ => no_members(),
        };
        let one = merged(target, first)->Object_0;
        let left = merged(merged(target, first), second)->Object_0;
        let right = merged(target, second)->Object_0;
        assert(left.dom() =~= right.dom());
        assert forall|k: Seq<char>| left.dom().contains(k) implies left[k] == right[k] by {
            if x.dom().contains(k) {
                assert(same_places(x[k], y[k]));
                let was = if t.dom().contains(k) {
                    t[k]
                } else {
                    JsonView::Null
                };
                law_later_patch_covers(was, x[k], y[k]);
                assert(one[k] == merged(was, x[k]));
            }
        }
        assert(left =~= right);
    }
}

proof fn lemma_change_same_places(
    a: Map<Seq<char>, JsonView>,
    b: Map<Seq<char>, JsonView>,
    diff: Map<Seq<char>, DiffEntry>,
    field: Seq<char>,
    name: Seq<char>,
    wrap: spec_fn(int) -> JsonView,
)
    requires
        same_places(JsonView::Object(a), JsonView::Object(b)),
        forall|m: int, n: int|
            #![trigger wrap(m), wrap(n)]
            same_places(wrap(m), wrap(n)) && !(wrap(m) is Null),
    ensures
        same_places(
            JsonView::Object(with_change(a, diff, false, field, name, wrap)),
            JsonView::Object(with_change(b, diff, true, field, name, wrap)),
        ),
{
    let x = with_change(a, diff, false, field, name, wrap);
    let y = with_change(b, diff, true, field, name, wrap);
    assert(x.dom() =~= y.dom());
    assert forall|k: Seq<char>| x.dom().contains(k) implies same_places(#[trigger] x[k], y[k]) && !(
    x[k] is Null) && !(y[k] is Null) by {
        if k == name && diff.dom().contains(field) {
            let (m, n) = (picked(diff[field], false) as int, picked(diff[field], true) as int);
            assert(same_places(wrap(m), wrap(n)));
            assert(same_places(wrap(n), wrap(m)));
        } else {
            assert(same_places(a[k], b[k]));
        }
    }
}

proof fn lemma_single_same_places(name: Seq<char>, a: JsonView, b: JsonView)
    requires
        same_places(a, b),
        !(a is Null),
        !(b is Null),
    ensures
        same_places(object1(name, a), object1(name, b)),
{
    let x = no_members().insert(name, a);
    let y = no_members().insert(name, b);
    assert(x.dom() =~= y.dom());
    assert forall|k: Seq<char>| x.dom().contains(k) implies same_places(#[trigger] x[k], y[k]) && !(
    x[k] is Null) && !(y[k] is Null) by {}
}

proof fn lemma_wraps_same_places()
    ensures
        forall|m: int, n: int|
            #![trigger plain(m), plain(n)]
            same_places(plain(m), plain(n)),
        forall|m: int, n: int|
            #![trigger cpu_metric(m), cpu_metric(n)]
            same_places(cpu_metric(m), cpu_metric(n)),
        forall|m: int, n: int|
            #![trigger stabilization(m), stabilization(n)]
            same_places(stabilization(m), stabilization(n)),
{
    assert forall|m: int, n: int|
        #![trigger stabilization(m), stabilization(n)]
        same_places(stabilization(m), stabilization(n)) by {
        let (a, b) = (JsonView::Whole(m), JsonView::Whole(n));
        let name = "stabilizationWindowSeconds"@;
        lemma_single_same_places(name, a, b);
        lemma_single_same_places("scaleDown"@, object1(name, a), object1(name, b));
    }
}

/// A diff's patch and its revert patch set the same places.
pub proof fn law_revert_sets_the_same_places(kind: TargetKind, diff: Map<Seq<char>, DiffEntry>)
    ensures
        same_places(patch_view(kind, diff, false), patch_view(kind, diff, true)),
{
    lemma_wraps_same_places();
    let empty = no_members();
    assert(same_places(JsonView::Object(empty), JsonView::Object(empty)));
    let p = |n: int| plain(n);
    match kind {
        TargetKind::HorizontalPodAutoscaler => {
            let c = |n: int| cpu_metric(n);
            let s = |n: int| stabilization(n);
            assert forall|m: int, n: int|
                #![trigger c(m), c(n)]
                same_places(c(m), c(n)) && !(c(m) is Null) by {
                assert(same_places(cpu_metric(m), cpu_metric(n)));
            }
            assert forall|m: int, n: int|
                #![trigger s(m), s(n)]
                same_places(s(m), s(n)) && !(s(m) is Null) by {
                assert(same_places(stabilization(m), stabilization(n)));
            }
            lemma_change_same_places(
                empty,
                empty,
                diff,
                "min_replicas"@,
                "minReplicas"@,
                p,
            );
            let a0 = with_change(empty, diff, false, "min_replicas"@, "minReplicas"@, p);
            let a1 = with_change(empty, diff, true, "min_replicas"@, "minReplicas"@, p);
            lemma_change_same_places(a0, a1, diff, "max_replicas"@, "maxReplicas"@, p);
            let b0 = with_change(a0, diff, false, "max_replicas"@, "maxReplicas"@, p);
            let b1 = with_change(a1, diff, true, "max_replicas"@, "maxReplicas"@, p);
            lemma_change_same_places(b0, b1, diff, "target_cpu_pct"@, "metrics"@, c);
            let c0 = with_change(b0, diff, false, "target_cpu_pct"@, "metrics"@, c);
            let c1 = with_change(b1, diff, true, "target_cpu_pct"@, "metrics"@, c);
            lemma_change_same_places(c0, c1, diff, "scale_down_cooldown_s"@, "behavior"@, s);
            lemma_single_same_places(
                "spec"@,
                JsonView::Object(hpa_spec(diff, false)),
                JsonView::Object(hpa_spec(diff, true)),
            );
        },
        TargetKind::ScaledObject => {
            lemma_change_same_places(
                empty,
                empty,
                diff,
                "min_replicas"@,
                "minReplicaCount"@,
                p,
            );
            let a0 = with_change(empty, diff, false, "min_replicas"@, "minReplicaCount"@, p);
            let a1 = with_change(empty, diff, true, "min_replicas"@, "minReplicaCount"@, p);
            lemma_change_same_places(a0, a1, diff, "max_replicas"@, "maxReplicaCount"@, p);
            let b0 = with_change(a0, diff, false, "max_replicas"@, "maxReplicaCount"@, p);
            let b1 = with_change(a1, diff, true, "max_replicas"@, "maxReplicaCount"@, p);
            lemma_change_same_places(
                b0,
                b1,
                diff,
                "scale_down_cooldown_s"@,
                "cooldownPeriod"@,
                p,
            );
            lemma_single_same_places(
                "spec"@,
                JsonView::Object(scaled_object_spec(diff, false)),
                JsonView::Object(scaled_object_spec(diff, true)),
            );
        },
    }
}

/// Reverting an applied change restores the resource: where it held the recorded `from` values
/// before, it is afterwards what it was.
pub proof fn law_revert_undoes_apply(
    kind: TargetKind,
    diff: Map<Seq<char>, DiffEntry>,
    resource: JsonView,
)
    requires
        merged(resource, patch_view(kind, diff, true)) == resource,
    ensures
        merged(
            merged(resource, patch_view(kind, diff, false)),
            patch_view(kind, diff, true),
        ) == resource,
{
    law_revert_sets_the_same_places(kind, diff);
    law_later_patch_covers(
        resource,
        patch_view(kind, diff, false),
        patch_view(kind, diff, true),
    );
}

/// The end of a written window opens at the window's last minute on the same days: `duration`
/// minutes after the start, or 23:59 where that lies past the end of the day.
pub proof fn law_end_cron_is_a_window_cron(days: Seq<u32>, minute_of_day: u32, duration: i32)
    requires
        days.len() > 0,
        minute_of_day < 1440,
        duration >= 0,
    ensures
        end_cron_text(crate::cron::window_cron(days, minute_of_day), duration)
            == crate::cron::window_cron(
            days,
            if minute_of_day + duration < 1439 {
                (minute_of_day + duration) as u32
            } else {
                1439
            },
        ),
{
    let (m, h) = ((minute_of_day % 60) as u32, (minute_of_day / 60) as u32);
    let fields = words_of(crate::cron::window_cron(days, minute_of_day));
    crate::cron::lemma_cron_words(days, minute_of_day);
    crate::text::law_i32_reads_back(m as i32);
    crate::text::law_i32_reads_back(h as i32);
    assert(number_field(fields, 0) == m);
    assert(number_field(fields, 1) == h);
    reveal_strlit(" ");
    assert(" "@ =~= seq![' ']);
}

/// What a diff sets in an HPA: each changed field at its place, with its new value (or, reverting,
/// its old one), and nothing else.
pub proof fn law_hpa_patch_sets_the_changes(
    diff: Map<Seq<char>, DiffEntry>,
    revert: bool,
    name: Seq<char>,
)
    ensures
        ({
            let patch = patch_view(TargetKind::HorizontalPodAutoscaler, diff, revert);
            let spec = patch->Object_0["spec"@]->Object_0;
            let target = spec["metrics"@]->Array_0[0]->Object_0["resource"@]->Object_0["target"@];
            let down = spec["behavior"@]->Object_0["scaleDown"@];
            &&& patch->Object_0.dom() == set!["spec"@]
            &&& spec.dom().contains(name) <==> {
                ||| name == "minReplicas"@ && diff.dom().contains("min_replicas"@)
                ||| name == "maxReplicas"@ && diff.dom().contains("max_replicas"@)
                ||| name == "metrics"@ && diff.dom().contains("target_cpu_pct"@)
                ||| name == "behavior"@ && diff.dom().contains("scale_down_cooldown_s"@)
            }
            &&& diff.dom().contains("min_replicas"@) ==> spec["minReplicas"@] == JsonView::Whole(
                (if revert {
                    diff["min_replicas"@].from
                } else {
                    diff["min_replicas"@].to
                }) as int,
            )
            &&& diff.dom().contains("max_replicas"@) ==> spec["maxReplicas"@] == JsonView::Whole(
                (if revert {
                    diff["max_replicas"@].from
                } else {
                    diff["max_replicas"@].to
                }) as int,
            )
            &&& diff.dom().contains("target_cpu_pct"@) ==> {
                &&& spec["metrics"@]->Array_0.len() == 1
                &&& spec["metrics"@]->Array_0[0]->Object_0["type"@] == JsonView::Str("Resource"@)
                &&& spec["metrics"@]->Array_0[0]->Object_0["resource"@]->Object_0["name"@]
                    == JsonView::Str("cpu"@)
                &&& target->Object_0["type"@] == JsonView::Str("Utilization"@)
                &&& target->Object_0["averageUtilization"@] == JsonView::Whole(
                    (if revert {
                        diff["target_cpu_pct"@].from
                    } else {
                        diff["target_cpu_pct"@].to
                    }) as int,
                )
            }
            &&& diff.dom().contains("scale_down_cooldown_s"@)
                ==> down->Object_0["stabilizationWindowSeconds"@] == JsonView::Whole(
                (if revert {
                    diff["scale_down_cooldown_s"@].from
                } else {
                    diff["scale_down_cooldown_s"@].to
                }) as int,
            )
        }),
{
    lemma_spec_names();
    reveal_strlit("type");
    reveal_strlit("resource");
    reveal_strlit("name");
    reveal_strlit("target");
    reveal_strlit("averageUtilization");
    assert("type"@.len() == 4 && "resource"@.len() == 8 && "target"@.len() == 6);
    assert("name"@.len() == 4 && "averageUtilization"@.len() == 18);
    let patch = patch_view(TargetKind::HorizontalPodAutoscaler, diff, revert);
    assert(patch->Object_0.dom() =~= set!["spec"@]);
}

proof fn lemma_spec_names()
    ensures
        "minReplicas"@ != "maxReplicas"@,
        "minReplicas"@ != "metrics"@,
        "minReplicas"@ != "behavior"@,
        "maxReplicas"@ != "metrics"@,
        "maxReplicas"@ != "behavior"@,
        "metrics"@ != "behavior"@,
        "minReplicaCount"@ != "maxReplicaCount"@,
        "minReplicaCount"@ != "cooldownPeriod"@,
        "maxReplicaCount"@ != "cooldownPeriod"@,
{
    reveal_strlit("minReplicas");
    reveal_strlit("maxReplicas");
    reveal_strlit("metrics");
    reveal_strlit("behavior");
    reveal_strlit("minReplicaCount");
    reveal_strlit("maxReplicaCount");
    reveal_strlit("cooldownPeriod");
    assert("minReplicas"@[1] == 'i' && "maxReplicas"@[1] == 'a');
    assert("minReplicaCount"@[1] == 'i' && "maxReplicaCount"@[1] == 'a');
    assert("minReplicas"@.len() == 11 && "maxReplicas"@.len() == 11 && "metrics"@.len() == 7);
    assert("behavior"@.len() == 8 && "minReplicaCount"@.len() == 15);
    assert("maxReplicaCount"@.len() == 15 && "cooldownPeriod"@.len() == 14);
}

/// What a diff sets in a ScaledObject: each changed field at its place, with its new value (or,
/// reverting, its old one), and nothing else. A CPU target has no place there.
pub proof fn law_scaled_object_patch_sets_the_changes(
    diff: Map<Seq<char>, DiffEntry>,
    revert: bool,
    name: Seq<char>,
)
    ensures
        ({
            let patch = patch_view(TargetKind::ScaledObject, diff, revert);
            let spec = patch->Object_0["spec"@]->Object_0;
            &&& patch->Object_0.dom() == set!["spec"@]
            &&& spec.dom().contains(name) <==> {
                ||| name == "minReplicaCount"@ && diff.dom().contains("min_replicas"@)
                ||| name == "maxReplicaCount"@ && diff.dom().contains("max_replicas"@)
                ||| name == "cooldownPeriod"@ && diff.dom().contains("scale_down_cooldown_s"@)
            }
            &&& diff.dom().contains("min_replicas"@) ==> spec["minReplicaCount"@]
                == JsonView::Whole(
                (if revert {
                    diff["min_replicas"@].from
                } else {
                    diff["min_replicas"@].to
                }) as int,
            )
            &&& diff.dom().contains("max_replicas"@) ==> spec["maxReplicaCount"@]
                == JsonView::Whole(
                (if revert {
                    diff["max_replicas"@].from
                } else {
                    diff["max_replicas"@].to
                }) as int,
            )
            &&& diff.dom().contains("scale_down_cooldown_s"@) ==> spec["cooldownPeriod"@]
                == JsonView::Whole(
                (if revert {
                    diff["scale_down_cooldown_s"@].from
                } else {
                    diff["scale_down_cooldown_s"@].to
                }) as int,
            )
        }),
{
    lemma_spec_names();
    let patch = patch_view(TargetKind::ScaledObject, diff, revert);
    assert(patch->Object_0.dom() =~= set!["spec"@]);
}

/// A schedule becomes one cron trigger per window, in order, in UTC, from the window's start to its
/// end with the window's floor, under a name that marks it as managed.
pub proof fn law_every_window_has_its_trigger(windows: Seq<WindowView>, i: int)
    requires
        0 <= i < windows.len(),
    ensures
        ({
            let trigger = schedule_triggers(windows)[i]->Object_0;
            let metadata = trigger["metadata"@]->Object_0;
            &&& schedule_triggers(windows).len() == windows.len()
            &&& schedule_triggers(windows)[i] is Object
            &&& trigger.dom() == set!["type"@, "name"@, "metadata"@]
            &&& trigger["type"@] == JsonView::Str("cron"@)
            &&& trigger["name"@] == JsonView::Str("openhpa-cron-"@ + decimal(i as nat))
            &&& trigger["metadata"@] is Object
            &&& metadata.dom() == set!["timezone"@, "start"@, "end"@, "desiredReplicas"@]
            &&& metadata["timezone"@] == JsonView::Str("UTC"@)
            &&& metadata["start"@] == JsonView::Str(windows[i].start_cron)
            &&& metadata["end"@] == JsonView::Str(
                end_cron_text(windows[i].start_cron, windows[i].duration_minutes),
            )
            &&& metadata["desiredReplicas"@] == JsonView::Str(
                signed_decimal(windows[i].min_replicas as int),
            )
        }),
{
    reveal_strlit("type");
    reveal_strlit("name");
    reveal_strlit("metadata");
    reveal_strlit("timezone");
    reveal_strlit("start");
    reveal_strlit("end");
    reveal_strlit("desiredReplicas");
    assert("type"@[0] == 't' && "name"@[0] == 'n' && "metadata"@[0] == 'm');
    assert("timezone"@.len() == 8 && "start"@.len() == 5 && "end"@.len() == 3);
    assert("desiredReplicas"@.len() == 15);
    let trigger = schedule_triggers(windows)[i]->Object_0;
    assert(trigger.dom() =~= set!["type"@, "name"@, "metadata"@]);
    assert(trigger["metadata"@]->Object_0.dom() =~= set![
        "timezone"@,
        "start"@,
        "end"@,
        "desiredReplicas"@,
    ]);
}

/// The operator's own triggers are those whose name begins with its prefix.
pub proof fn law_own_triggers_are_named(members: Map<Seq<char>, JsonView>, rest: Seq<char>)
    ensures
        members.dom().contains("name"@) && members["name"@] == JsonView::Str(
            "openhpa-cron-"@ + rest,
        ) ==> managed(JsonView::Object(members)),
        !members.dom().contains("name"@) || !(members["name"@] is Str)
            ==> !managed(JsonView::Object(members)),
        members.dom().contains("name"@) && members["name"@] is Str && !"openhpa-cron-"@.is_prefix_of(
            members["name"@]->Str_0,
        ) ==> !managed(JsonView::Object(members)),
{
    let name = "openhpa-cron-"@ + rest;
    assert(name.take("openhpa-cron-"@.len() as int) =~= "openhpa-cron-"@);
    if members.dom().contains("name"@) && members["name"@] is Str && has_prefix(
        members["name"@]->Str_0,
        "openhpa-cron-"@,
    ) {
        let given = members["name"@]->Str_0;
        assert("openhpa-cron-"@ =~= given.subrange(0, "openhpa-cron-"@.len() as int));
    }
}

/// Triggers are told apart one by one, in their order.
pub proof fn law_triggers_are_told_apart(triggers: Seq<JsonView>)
    ensures
        triggers_of(triggers, true) == triggers.filter(|t: JsonView| managed(t)),
        triggers_of(triggers, false) == triggers.filter(|t: JsonView| !managed(t)),
    decreases triggers.len(),
{
    reveal(Seq::filter);
    if triggers.len() > 0 {
        law_triggers_are_told_apart(triggers.drop_last());
    }
}

/// A window ends its length after the minute and the hour that its cron begins with, on the same
/// day and so at 23:59 at the latest, on the days that the cron names; a field that is no number
/// counts as zero and absent days are every day.
pub proof fn law_end_follows_any_start(start: Seq<char>, duration: i32, minute: int, hour: int)
    requires
        0 <= minute < 60,
        0 <= hour < 24,
        0 <= duration,
        words_of(start).len() >= 2,
        match i32_of(words_of(start)[0]) {
            Some(n) => n == minute,
            None => minute == 0,
        },
        match i32_of(words_of(start)[1]) {
            Some(n) => n == hour,
            None => hour == 0,
        },
    ensures
        ({
            let days = if words_of(start).len() > 4 {
                words_of(start)[4]
            } else {
                "*"@
            };
            let end = hour * 60 + minute + duration;
            &&& end <= 1439 ==> end_cron_text(start, duration) == decimal((end % 60) as nat)
                + " "@ + decimal((end / 60) as nat) + " * * "@ + days
            &&& end > 1439 ==> end_cron_text(start, duration) == decimal(59) + " "@ + decimal(23)
                + " * * "@ + days
        }),
{
}

} // verus!
