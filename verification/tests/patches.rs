use openhpa::applier::{
    end_cron, keda_schedule_in_sync, patch_for, revert_patch_for, schedule_patch_for_keda,
};
use openhpa::controller::schedule::{floor_patch, keda_schedule_patch};
use openhpa::crd::{DiffEntry, DiffMap, Phase, ScheduleWindowSpec, TargetKind};
use openhpa::field_map::FieldMap;
use openhpa::json::{Json, JsonNumber};
use openhpa::sample::Sample;
use openhpa::status::{ProbationPatch, StatusPatch};
use serde_json::Value;

fn to_value(json: &Json) -> Value {
    match json {
        Json::Null => Value::Null,
        Json::Bool(b) => Value::Bool(*b),
        Json::Number(JsonNumber::Unsigned(u)) => Value::from(*u),
        Json::Number(JsonNumber::Negative(i)) => Value::from(*i),
        Json::Number(JsonNumber::Float(x)) => Value::from(f64::from_bits(x.bits)),
        Json::Str(s) => Value::String(s.clone()),
        Json::Array(items) => Value::Array(items.iter().map(to_value).collect()),
        Json::Object(members) => {
            Value::Object(members.iter().map(|(k, v)| (k.clone(), to_value(v))).collect())
        }
    }
}

fn from_value(value: &Value) -> Json {
    match value {
        Value::Null => Json::Null,
        Value::Bool(b) => Json::Bool(*b),
        Value::Number(n) => Json::Number(match (n.as_u64(), n.as_i64()) {
            (Some(u), _) => JsonNumber::Unsigned(u),
            (None, Some(i)) => JsonNumber::Negative(i),
            (None, None) => {
                JsonNumber::Float(Sample { bits: n.as_f64().unwrap().to_bits() })
            }
        }),
        Value::String(t) => Json::Str(t.clone()),
        Value::Array(items) => Json::Array(items.iter().map(from_value).collect()),
        Value::Object(members) => {
            Json::Object(members.iter().map(|(k, v)| (k.clone(), from_value(v))).collect())
        }
    }
}

fn json(text: &str) -> Json {
    from_value(&serde_json::from_str::<Value>(text).unwrap())
}

fn diff(pairs: &[(&str, i32, i32)]) -> DiffMap {
    let mut diff = FieldMap::new();
    for (k, from, to) in pairs {
        diff.insert(k.to_string(), DiffEntry { from: *from, to: *to });
    }
    diff
}

#[test]
fn hpa_patch_maps_min_and_target() {
    let patch = to_value(&patch_for(
        TargetKind::HorizontalPodAutoscaler,
        &diff(&[("min_replicas", 10, 3), ("target_cpu_pct", 70, 85)]),
    ));
    assert_eq!(patch["spec"]["minReplicas"], 3);
    assert_eq!(patch["spec"]["metrics"][0]["resource"]["target"]["averageUtilization"], 85);
}

#[test]
fn scaled_object_patch_uses_keda_fields() {
    let patch = to_value(&patch_for(
        TargetKind::ScaledObject,
        &diff(&[("min_replicas", 10, 3), ("scale_down_cooldown_s", 300, 600)]),
    ));
    assert_eq!(patch["spec"]["minReplicaCount"], 3);
    assert_eq!(patch["spec"]["cooldownPeriod"], 600);
}

#[test]
fn revert_hpa_patch_restores_from_values() {
    let diff = diff(&[("min_replicas", 10, 3), ("target_cpu_pct", 70, 85)]);
    let patch = to_value(&revert_patch_for(TargetKind::HorizontalPodAutoscaler, &diff));
    assert_eq!(patch["spec"]["minReplicas"], 10);
    assert_eq!(patch["spec"]["metrics"][0]["resource"]["target"]["averageUtilization"], 70);
}

#[test]
fn revert_scaled_object_patch_restores_from_values() {
    let diff = diff(&[("min_replicas", 10, 3), ("scale_down_cooldown_s", 300, 600)]);
    let patch = to_value(&revert_patch_for(TargetKind::ScaledObject, &diff));
    assert_eq!(patch["spec"]["minReplicaCount"], 10);
    assert_eq!(patch["spec"]["cooldownPeriod"], 300);
}

#[test]
fn hpa_patches_hold_the_whole_change_and_nothing_else() {
    let all = diff(&[
        ("min_replicas", 10, 3),
        ("scale_down_cooldown_s", 300, 600),
        ("target_cpu_pct", 70, -5),
        ("max_replicas", 1, 2),
    ]);
    let patch = patch_for(TargetKind::HorizontalPodAutoscaler, &all);
    let expected = json(
        r#"{"spec": {
            "minReplicas": 3,
            "maxReplicas": 2,
            "metrics": [{"type": "Resource", "resource": {"name": "cpu", "target": {"type": "Utilization", "averageUtilization": -5}}}],
            "behavior": {"scaleDown": {"stabilizationWindowSeconds": 600}}
        }}"#,
    );
    assert!(patch.same(&expected), "{patch:?}");
    let nothing = patch_for(TargetKind::ScaledObject, &diff(&[("target_cpu_pct", 70, 85)]));
    assert!(nothing.same(&json(r#"{"spec": {}}"#)), "{nothing:?}");
}

fn window(start_cron: &str, duration_minutes: i32, min_replicas: i32) -> ScheduleWindowSpec {
    ScheduleWindowSpec { start_cron: start_cron.to_owned(), duration_minutes, min_replicas }
}

#[test]
fn keda_schedule_emits_cron_trigger_with_derived_end() {
    let patch = to_value(&schedule_patch_for_keda(&vec![], &vec![window("0 9 * * 1-5", 480, 8)]));
    let trigger = &patch["spec"]["triggers"][0];
    assert_eq!(trigger["type"], "cron");
    assert_eq!(trigger["metadata"]["start"], "0 9 * * 1-5");
    assert_eq!(trigger["metadata"]["end"], "0 17 * * 1-5");
    assert_eq!(trigger["metadata"]["desiredReplicas"], "8");
}

#[test]
fn keda_schedule_preserves_real_triggers_and_replaces_managed_ones() {
    let existing = vec![
        json(r#"{"type": "kafka", "name": "main", "metadata": {}}"#),
        json(r#"{"type": "cron", "name": "openhpa-cron-0", "metadata": {}}"#),
    ];
    let patch =
        to_value(&schedule_patch_for_keda(&existing, &vec![window("0 6 * * *", 120, 5)]));
    let triggers = patch["spec"]["triggers"].as_array().unwrap();
    assert_eq!(triggers.len(), 2, "{triggers:?}");
    assert!(triggers.iter().any(|t| t["type"] == "kafka"));
    let managed: Vec<&Value> = triggers
        .iter()
        .filter(|t| t["name"].as_str().is_some_and(|n| n.starts_with("openhpa-cron-")))
        .collect();
    assert_eq!(managed.len(), 1);
    assert_eq!(managed[0]["metadata"]["desiredReplicas"], "5");
}

#[test]
fn keda_in_sync_detects_when_a_patch_is_needed() {
    let schedule = vec![window("0 9 * * 1-5", 480, 8)];
    // No managed cron yet -> a patch is needed.
    let kafka = || json(r#"{"type": "kafka", "name": "main"}"#);
    assert!(!keda_schedule_in_sync(&vec![kafka()], &schedule));
    // Already-applied managed cron alongside the real trigger -> in sync, no patch.
    let applied = schedule_patch_for_keda(&vec![kafka()], &schedule);
    let triggers: Vec<Json> = to_value(&applied)["spec"]["triggers"]
        .as_array()
        .unwrap()
        .iter()
        .map(from_value)
        .collect();
    assert!(keda_schedule_in_sync(&triggers, &schedule));
    // A different desired floor is out of sync.
    assert!(!keda_schedule_in_sync(&triggers, &vec![window("0 9 * * 1-5", 480, 9)]));
    // A schedule that goes away takes its triggers along.
    assert!(!keda_schedule_in_sync(&triggers, &vec![]));
}

#[test]
fn a_scaled_object_is_patched_only_when_out_of_line() {
    let schedule = vec![window("0 9 * * 1-5", 480, 8)];
    let bare = json(r#"{"spec": {"scaleTargetRef": {"name": "web"}}}"#);
    let patch = keda_schedule_patch(&bare, &schedule).expect("a patch is needed");
    assert!(keda_schedule_patch(&patch, &schedule).is_none());
    assert!(keda_schedule_patch(&bare, &vec![]).is_none());
    assert!(keda_schedule_patch(&json("null"), &schedule).is_some());
}

#[test]
fn the_end_cron_stays_on_the_same_day() {
    assert_eq!(end_cron("0 9 * * *", 60), "0 10 * * *");
    assert_eq!(end_cron("30 23 * * 1", 45), "59 23 * * 1");
    assert_eq!(end_cron("0 22 * * 6,0", 119), "59 23 * * 6,0");
    assert_eq!(end_cron("0 22 * * 6,0", i32::MAX), "59 23 * * 6,0");
    // Absent or malformed fields count as zero, and as every day.
    assert_eq!(end_cron("x 3", 45), "45 3 * * *");
    assert_eq!(end_cron("", -90), "-30 -1 * * *");
}

#[test]
fn the_floor_patch_sets_one_field() {
    assert!(floor_patch(-3).same(&json(r#"{"spec": {"minReplicas": -3}}"#)));
    assert!(!floor_patch(3).same(&json(r#"{"spec": {"minReplicas": 3.0}}"#)));
}

#[test]
fn a_status_change_leaves_absent_fields_out() {
    let set = StatusPatch {
        phase: Some(Phase::RolledBack),
        applied_at: Some("t".to_owned()),
        probation_until: ProbationPatch::Clear,
        schedule_active: Some(false),
        detail: Some("d".to_owned()),
    };
    assert!(set.body().same(&json(
        r#"{"status": {"phase": "rolledBack", "appliedAt": "t", "probationUntil": null, "scheduleActive": false, "detail": "d"}}"#
    )));
    let none = StatusPatch {
        phase: None,
        applied_at: None,
        probation_until: ProbationPatch::Keep,
        schedule_active: None,
        detail: None,
    };
    assert!(none.body().same(&json(r#"{"status": {}}"#)));
}

#[test]
fn json_equality_ignores_the_order_of_members() {
    assert!(json(r#"{"a": 1, "b": [1, {"c": null}]}"#)
        .same(&json(r#"{"b": [1, {"c": null}], "a": 1}"#)));
    assert!(!json(r#"{"a": 1}"#).same(&json(r#"{"a": 1, "b": 2}"#)));
    assert!(!json(r#"[1, 2]"#).same(&json(r#"[2, 1]"#)));
    assert!(json("-0.0").same(&json("0.0")));
    let value = json(r#"{"a": [1.5, -2, true, "x"]}"#);
    assert!(value.copy().same(&value));
    assert_eq!(value.get("a").unwrap().as_array().unwrap()[1].as_i64(), Some(-2));
    assert_eq!(json("18446744073709551615").as_i64(), None);
}
