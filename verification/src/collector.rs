//! Reading a workload's autoscaler: HPAs and KEDA ScaledObjects.
use vstd::prelude::*;

use crate::clock::Timestamp;
use crate::domain::WorkloadConfig;
#[allow(unused_imports)]
use crate::json::{i64_of, items_view, member, member_of, opt_view, text_of, JsonView};
use crate::json::{member_in, Json};
#[allow(unused_imports)]
use crate::text::{i32_of, trimmed};
use crate::text::{parse_i32, text_eq, trim};

verus! {

/// A resource metric of an HPA: its name, and its average utilization where there is one.
#[derive(Debug)]
pub struct ResourceMetric {
    pub name: String,
    pub average_utilization: Option<i32>,
}

/// One entry of an HPA's `metrics` or `currentMetrics`; `None` where it is no resource metric.
#[derive(Debug)]
pub struct HpaMetric {
    pub resource: Option<ResourceMetric>,
}

/// The scaling rules of an HPA's `behavior.scaleDown`.
#[derive(Debug)]
pub struct ScalingRules {
    pub stabilization_window_seconds: Option<i32>,
}

/// An HPA's `behavior`.
#[derive(Debug)]
pub struct HpaBehavior {
    pub scale_down: Option<ScalingRules>,
}

/// What is read of an HPA's `spec`.
#[derive(Debug)]
pub struct HpaSpec {
    pub min_replicas: Option<i32>,
    pub max_replicas: i32,
    pub metrics: Option<Vec<HpaMetric>>,
    pub behavior: Option<HpaBehavior>,
    pub scale_target_name: String,
}

/// What is read of an HPA's `status`.
#[derive(Debug)]
pub struct HpaStatus {
    pub current_replicas: Option<i32>,
    pub current_metrics: Option<Vec<HpaMetric>>,
}

/// What is read of an HPA: the kinds of its owners, its spec and its status.
#[derive(Debug)]
pub struct Hpa {
    pub owner_kinds: Option<Vec<String>>,
    pub spec: Option<HpaSpec>,
    pub status: Option<HpaStatus>,
}

/// A metric point as an HPA's status reports it: utilization in whole percent.
#[derive(Debug, Clone, Copy, PartialEq, Eq)]
pub struct StatusPoint {
    pub timestamp: Timestamp,
    pub cpu_pct: i32,
    pub replicas: i32,
}

/// The utilization of a metric, where it is a `cpu` resource metric that has one.
pub open spec fn cpu_of(metric: HpaMetric) -> Option<i32> {
    match metric.resource {
        Some(r) => if r.name@ == "cpu"@ {
            r.average_utilization
        } else {
            None
        },
        None => None,
    }
}

/// The utilization of the first `cpu` resource metric that has one.
pub open spec fn first_cpu(metrics: Seq<HpaMetric>) -> Option<i32>
    decreases metrics.len(),
{
    if metrics.len() == 0 {
        None
    } else {
        match cpu_of(metrics[0]) {
            Some(n) => Some(n),
            None => first_cpu(metrics.drop_first()),
        }
    }
}

fn find_cpu(metrics: &Vec<HpaMetric>) -> (r: Option<i32>)
    ensures
        r == first_cpu(metrics@),
{
    let mut i: usize = 0;
    assert(metrics@.skip(0) == metrics@);
    while i < metrics.len()
        invariant
            i <= metrics@.len(),
            first_cpu(metrics@.skip(i as int)) == first_cpu(metrics@),
        decreases metrics@.len() - i,
    {
        assert(metrics@.skip(i as int).drop_first() == metrics@.skip(i + 1));
        match &metrics[i].resource {
            Some(r) => {
                if text_eq(r.name.as_str(), "cpu") && r.average_utilization.is_some() {
                    return r.average_utilization;
                }
            },
            None => {},
        }
        i += 1;
    }
    None
}

/// The CPU utilization target of an HPA spec.
pub open spec fn spec_cpu_target(spec: HpaSpec) -> Option<i32> {
    match spec.metrics {
        Some(metrics) => first_cpu(metrics@),
        None => None,
    }
}

/// The scale-down stabilization of an HPA spec.
pub open spec fn spec_cooldown(spec: HpaSpec) -> Option<i32> {
    match spec.behavior {
        Some(behavior) => match behavior.scale_down {
            Some(rules) => rules.stabilization_window_seconds,
            None => None,
        },
        None => None,
    }
}

/// `v`, or `default` without one.
pub open spec fn or_default(v: Option<i32>, default: i32) -> i32 {
    match v {
        Some(n) => n,
        None => default,
    }
}

/// Read the live autoscaler config from an HPA spec. Missing fields fall back to sane defaults.
pub fn workload_config(hpa: &Hpa) -> (c: WorkloadConfig)
    ensures
        c == match hpa.spec {
            Some(spec) => WorkloadConfig {
                min_replicas: or_default(spec.min_replicas, 1),
                max_replicas: spec.max_replicas,
                target_cpu_pct: or_default(spec_cpu_target(spec), 80),
                scale_down_cooldown_s: or_default(spec_cooldown(spec), 300),
            },
            None => WorkloadConfig {
                min_replicas: 1,
                max_replicas: 1,
                target_cpu_pct: 80,
                scale_down_cooldown_s: 300,
            },
        },
{
    match &hpa.spec {
        Some(spec) => {
            let min_replicas: i32 = match spec.min_replicas {
                Some(n) => n,
                None => 1,
            };
            let target: Option<i32> = match &spec.metrics {
                Some(metrics) => find_cpu(metrics),
                None => None,
            };
            let target_cpu_pct: i32 = match target {
                Some(n) => n,
                None => 80,
            };
            let cooldown: Option<i32> = match &spec.behavior {
                Some(behavior) => match &behavior.scale_down {
                    Some(rules) => rules.stabilization_window_seconds,
                    None => None,
                },
                None => None,
            };
            let scale_down_cooldown_s: i32 = match cooldown {
                Some(n) => n,
                None => 300,
            };
            WorkloadConfig {
                min_replicas,
                max_replicas: spec.max_replicas,
                target_cpu_pct,
                scale_down_cooldown_s,
            }
        },
        None => WorkloadConfig {
            min_replicas: 1,
            max_replicas: 1,
            target_cpu_pct: 80,
            scale_down_cooldown_s: 300,
        },
    }
}

/// The Deployment (or other workload) name the HPA scales, used to target Prometheus queries.
pub fn scale_target_name(hpa: &Hpa) -> (r: Option<String>)
    ensures
        match r {
            Some(name) => hpa.spec is Some && name@ == hpa.spec->0.scale_target_name@,
            None => hpa.spec is None,
        },
{
    match &hpa.spec {
        Some(spec) => Some(spec.scale_target_name.clone()),
        None => None,
    }
}

/// Whether this HPA is created and managed by KEDA for a ScaledObject. The HPA collector skips
/// those: the ScaledObject itself is analyzed (and patched) instead, so reading both would emit
/// two competing recommendations for one workload - and patching a KEDA-managed HPA directly
/// would be fought by the KEDA operator.
pub fn is_keda_managed(hpa: &Hpa) -> (b: bool)
    ensures
        b == match hpa.owner_kinds {
            Some(kinds) => crate::text::views(kinds@).contains("ScaledObject"@),
            None => false,
        },
{
    match &hpa.owner_kinds {
        Some(kinds) => crate::field_map::contains_text(kinds, "ScaledObject"),
        None => false,
    }
}

/// Derive a single current metric point from the HPA status (utilization is reported 0-100).
/// `None` without a status, or where it reports no CPU utilization.
pub fn current_point(hpa: &Hpa, now: Timestamp) -> (r: Option<StatusPoint>)
    ensures
        r == match hpa.status {
            Some(status) => match status.current_metrics {
                Some(metrics) => match first_cpu(metrics@) {
                    Some(cpu_pct) => Some(
                        StatusPoint {
                            timestamp: now,
                            cpu_pct,
                            replicas: or_default(status.current_replicas, 0),
                        },
                    ),
                    None => None,
                },
                None => None,
            },
            None => None,
        },
{
    match &hpa.status {
        Some(status) => {
            let replicas: i32 = match status.current_replicas {
                Some(n) => n,
                None => 0,
            };
            match &status.current_metrics {
                Some(metrics) => match find_cpu(metrics) {
                    Some(cpu_pct) => Some(StatusPoint { timestamp: now, cpu_pct, replicas }),
                    None => None,
                },
                None => None,
            }
        },
        None => None,
    }
}

// ---------------------------------------------------------------------------------------------
// ScaledObjects

/// Whether a trigger is of type `cpu`.
pub open spec fn is_cpu_trigger(trigger: JsonView) -> bool {
    member(trigger, "type"@) == Some(JsonView::Str("cpu"@))
}

/// The target in a trigger's `metadata.value` (a string in KEDA).
pub open spec fn trigger_value(trigger: JsonView) -> Option<i32> {
    match text_of(member_of(member(trigger, "metadata"@), "value"@)) {
        Some(value) => i32_of(trimmed(value)),
        None => None,
    }
}

/// The target of the first `cpu` trigger.
pub open spec fn first_cpu_trigger(triggers: Seq<JsonView>) -> Option<i32>
    decreases triggers.len(),
{
    if triggers.len() == 0 {
        None
    } else if is_cpu_trigger(triggers[0]) {
        trigger_value(triggers[0])
    } else {
        first_cpu_trigger(triggers.drop_first())
    }
}

/// The CPU target of a ScaledObject spec.
pub open spec fn cpu_trigger_view(spec: Option<JsonView>) -> Option<i32> {
    match member_of(spec, "triggers"@) {
        Some(JsonView::Array(triggers)) => first_cpu_trigger(triggers),
        _ => None,
    }
}

/// The whole number of a member, cut to 32 bits, or `default` where there is none.
pub open spec fn count_member(spec: Option<JsonView>, name: Seq<char>, default: i32) -> i32 {
    match i64_of(member_of(spec, name)) {
        Some(v) => v as i32,
        None => default,
    }
}

fn read_count(spec: Option<&Json>, name: &str, default: i32) -> (n: i32)
    ensures
        n == count_member(opt_view(spec), name@, default),
{
    match member_in(spec, name) {
        Some(j) => match j.as_i64() {
            Some(v) => v as i32,
            None => default,
        },
        None => default,
    }
}

fn read_trigger_value(trigger: &Json) -> (r: Option<i32>)
    ensures
        r == trigger_value(trigger@),
{
    match member_in(trigger.get("metadata"), "value") {
        Some(value) => match value.as_str() {
            Some(s) => parse_i32(trim(s.as_str()).as_str()),
            None => None,
        },
        None => None,
    }
}

fn cpu_trigger_target(spec: Option<&Json>) -> (r: Option<i32>)
    ensures
        r == cpu_trigger_view(opt_view(spec)),
{
    let triggers: &Vec<Json> = match member_in(spec, "triggers") {
        Some(j) => match j.as_array() {
            Some(items) => items,
            None => return None,
        },
        None => return None,
    };
    let ghost all = items_view(triggers@);
    proof {
        crate::json::lemma_items(triggers@);
    }
    let mut i: usize = 0;
    assert(all.skip(0) == all);
    while i < triggers.len()
        invariant
            i <= triggers@.len(),
            all == items_view(triggers@),
            all.len() == triggers@.len(),
            cpu_trigger_view(opt_view(spec)) == first_cpu_trigger(all),
            forall|k: int| 0 <= k < all.len() ==> #[trigger] all[k] == triggers@[k]@,
            first_cpu_trigger(all.skip(i as int)) == first_cpu_trigger(all),
        decreases triggers@.len() - i,
    {
        assert(all.skip(i as int).drop_first() == all.skip(i + 1));
        assert(all.skip(i as int)[0] == triggers@[i as int]@);
        match triggers[i].get("type") {
            Some(kind) => match kind.as_str() {
                Some(s) => {
                    if text_eq(s.as_str(), "cpu") {
                        return read_trigger_value(&triggers[i]);
                    }
                },
                None => {},
            },
            None => {},
        }
        i += 1;
    }
    None
}

/// Read the live autoscaler config from a KEDA ScaledObject. KEDA's defaults differ from the HPA's
/// (minReplicaCount 0, maxReplicaCount 100, cooldownPeriod 300); the CPU target comes from a `cpu`
/// trigger's `metadata.value` (a string in KEDA), defaulting to 80 like the HPA path.
pub fn scaled_object_config(scaled_object: &Json) -> (c: WorkloadConfig)
    ensures
        c == ({
            let spec = member(scaled_object@, "spec"@);
            WorkloadConfig {
                min_replicas: count_member(spec, "minReplicaCount"@, 0),
                max_replicas: count_member(spec, "maxReplicaCount"@, 100),
                target_cpu_pct: or_default(cpu_trigger_view(spec), 80),
                scale_down_cooldown_s: count_member(spec, "cooldownPeriod"@, 300),
            }
        }),
{
    let spec = scaled_object.get("spec");
    let target_cpu_pct: i32 = match cpu_trigger_target(spec) {
        Some(n) => n,
        None => 80,
    };
    WorkloadConfig {
        min_replicas: read_count(spec, "minReplicaCount", 0),
        max_replicas: read_count(spec, "maxReplicaCount", 100),
        target_cpu_pct,
        scale_down_cooldown_s: read_count(spec, "cooldownPeriod", 300),
    }
}

/// The workload name a ScaledObject scales (`spec.scaleTargetRef.name`), used for metric queries.
pub fn scaled_object_target_name(scaled_object: &Json) -> (r: Option<String>)
    ensures
        match r {
            Some(name) => text_of(
                member_of(
                    member_of(member(scaled_object@, "spec"@), "scaleTargetRef"@),
                    "name"@,
                ),
            ) == Some(name@),
            None => text_of(
                member_of(
                    member_of(member(scaled_object@, "spec"@), "scaleTargetRef"@),
                    "name"@,
                ),
            ) is None,
        },
{
    let target = member_in(scaled_object.get("spec"), "scaleTargetRef");
    match member_in(target, "name") {
        Some(j) => match j.as_str() {
            Some(s) => Some(s.clone()),
            None => None,
        },
        None => None,
    }
}

// ---------------------------------------------------------------------------------------------
// Laws

/// The CPU figure is that of the first `cpu` resource metric that gives one.
pub proof fn law_first_cpu_metric_counts(metrics: Seq<HpaMetric>, i: int)
    requires
        0 <= i <= metrics.len(),
        forall|j: int|
            0 <= j < i ==> (#[trigger] metrics[j]).resource is None || metrics[j].resource->0.name@
                != "cpu"@ || metrics[j].resource->0.average_utilization is None,
    ensures
        i == metrics.len() ==> first_cpu(metrics) is None,
        i < metrics.len() && metrics[i].resource is Some && metrics[i].resource->0.name@ == "cpu"@
            && metrics[i].resource->0.average_utilization is Some ==> first_cpu(metrics)
            == metrics[i].resource->0.average_utilization,
    decreases metrics.len(),
{
    if i > 0 {
        assert(metrics[0].resource is None || metrics[0].resource->0.name@ != "cpu"@
            || metrics[0].resource->0.average_utilization is None);
        let rest = metrics.drop_first();
        assert forall|j: int| 0 <= j < i - 1 implies (#[trigger] rest[j]).resource is None
            || rest[j].resource->0.name@ != "cpu"@ || rest[j].resource->0.average_utilization is None by {
            assert(rest[j] == metrics[j + 1]);
        }
        law_first_cpu_metric_counts(rest, i - 1);
        if i < metrics.len() {
            assert(rest[i - 1] == metrics[i]);
        }
    }
}

/// A given value is taken as it is; the default stands in only where there is none.
pub proof fn law_defaults_stand_in(v: i32, default: i32)
    ensures
        or_default(Some(v), default) == v,
        or_default(None, default) == default,
{
}

/// An HPA's CPU target and cooldown are read from its metrics and its scale-down behavior, and are
/// unknown where these are absent.
pub proof fn law_hpa_spec_is_read(spec: HpaSpec)
    ensures
        spec.metrics is None ==> spec_cpu_target(spec) is None,
        spec.metrics is Some ==> spec_cpu_target(spec) == first_cpu(spec.metrics->0@),
        spec.behavior is None || spec.behavior->0.scale_down is None ==> spec_cooldown(spec) is None,
        spec.behavior is Some && spec.behavior->0.scale_down is Some ==> spec_cooldown(spec)
            == spec.behavior->0.scale_down->0.stabilization_window_seconds,
{
}

/// The CPU target of a ScaledObject is the whole number in the `metadata.value` text of its first
/// `cpu` trigger, whatever the later ones say.
pub proof fn law_first_cpu_trigger_counts(
    triggers: Seq<JsonView>,
    i: int,
    members: Map<Seq<char>, JsonView>,
    metadata: Map<Seq<char>, JsonView>,
)
    requires
        0 <= i <= triggers.len(),
        forall|j: int|
            0 <= j < i ==> !(#[trigger] triggers[j] is Object) || !triggers[j]->Object_0.dom().contains(
                "type"@,
            ) || triggers[j]->Object_0["type"@] != JsonView::Str("cpu"@),
        i < triggers.len() ==> triggers[i] == JsonView::Object(members) && members.dom().contains(
            "type"@,
        ) && members["type"@] == JsonView::Str("cpu"@),
    ensures
        i == triggers.len() ==> first_cpu_trigger(triggers) is None,
        i < triggers.len() && members.dom().contains("metadata"@) && members["metadata"@]
            == JsonView::Object(metadata) && metadata.dom().contains("value"@)
            && metadata["value"@] is Str ==> first_cpu_trigger(triggers) == i32_of(
            trimmed(metadata["value"@]->Str_0),
        ),
        i < triggers.len() && (!members.dom().contains("metadata"@) || !(
        members["metadata"@] is Object)) ==> first_cpu_trigger(triggers) is None,
    decreases triggers.len(),
{
    if i > 0 {
        assert(!(triggers[0] is Object) || !triggers[0]->Object_0.dom().contains("type"@)
            || triggers[0]->Object_0["type"@] != JsonView::Str("cpu"@));
        let rest = triggers.drop_first();
        assert forall|j: int| 0 <= j < i - 1 implies !(#[trigger] rest[j] is Object)
            || !rest[j]->Object_0.dom().contains("type"@) || rest[j]->Object_0["type"@]
            != JsonView::Str("cpu"@) by {
            assert(rest[j] == triggers[j + 1]);
        }
        if i < triggers.len() {
            assert(rest[i - 1] == triggers[i]);
        }
        law_first_cpu_trigger_counts(rest, i - 1, members, metadata);
    }
}

/// A count of a ScaledObject is the whole number under its name; the default stands in where there
/// is none.
pub proof fn law_counts_are_read(
    spec: Map<Seq<char>, JsonView>,
    name: Seq<char>,
    default: i32,
    n: i32,
)
    ensures
        spec.dom().contains(name) && spec[name] == JsonView::Whole(n as int) ==> count_member(
            Some(JsonView::Object(spec)),
            name,
            default,
        ) == n,
        !spec.dom().contains(name) || !(spec[name] is Whole) ==> count_member(
            Some(JsonView::Object(spec)),
            name,
            default,
        ) == default,
        count_member(None, name, default) == default,
{
}

/// The triggers of a ScaledObject are those of its spec.
pub proof fn law_triggers_are_those_of_the_spec(spec: Map<Seq<char>, JsonView>, triggers: Seq<JsonView>)
    ensures
        spec.dom().contains("triggers"@) && spec["triggers"@] == JsonView::Array(triggers)
            ==> cpu_trigger_view(Some(JsonView::Object(spec))) == first_cpu_trigger(triggers),
        !spec.dom().contains("triggers"@) || !(spec["triggers"@] is Array) ==> cpu_trigger_view(
            Some(JsonView::Object(spec)),
        ) is None,
{
}

} // verus!
