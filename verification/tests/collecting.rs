use k8s_openapi::api::autoscaling::v2::{HorizontalPodAutoscaler, MetricSpec, MetricStatus};
use openhpa::clock::Timestamp;
use openhpa::collector::{
    current_point, is_keda_managed, scale_target_name, scaled_object_config,
    scaled_object_target_name, workload_config, Hpa, HpaBehavior, HpaMetric, HpaSpec, HpaStatus,
    ResourceMetric, ScalingRules, StatusPoint,
};
use openhpa::json::{Json, JsonNumber};
use openhpa::sample::Sample;
use serde_json::Value;

fn spec_metric(m: &MetricSpec) -> HpaMetric {
    HpaMetric {
        resource: m.resource.as_ref().map(|r| ResourceMetric {
            name: r.name.clone(),
            average_utilization: r.target.average_utilization,
        }),
    }
}

fn status_metric(m: &MetricStatus) -> HpaMetric {
    HpaMetric {
        resource: m.resource.as_ref().map(|r| ResourceMetric {
            name: r.name.clone(),
            average_utilization: r.current.average_utilization,
        }),
    }
}

fn hpa_from(text: &str) -> Hpa {
    let hpa: HorizontalPodAutoscaler = serde_json::from_str(text).unwrap();
    Hpa {
        owner_kinds: hpa
            .metadata
            .owner_references
            .as_ref()
            .map(|owners| owners.iter().map(|o| o.kind.clone()).collect()),
        spec: hpa.spec.as_ref().map(|spec| HpaSpec {
            min_replicas: spec.min_replicas,
            max_replicas: spec.max_replicas,
            metrics: spec.metrics.as_ref().map(|ms| ms.iter().map(spec_metric).collect()),
            behavior: spec.behavior.as_ref().map(|b| HpaBehavior {
                scale_down: b.scale_down.as_ref().map(|d| ScalingRules {
                    stabilization_window_seconds: d.stabilization_window_seconds,
                }),
            }),
            scale_target_name: spec.scale_target_ref.name.clone(),
        }),
        status: hpa.status.as_ref().map(|status| HpaStatus {
            current_replicas: status.current_replicas,
            current_metrics: status
                .current_metrics
                .as_ref()
                .map(|ms| ms.iter().map(status_metric).collect()),
        }),
    }
}

fn from_value(value: &Value) -> Json {
    match value {
        Value::Null => Json::Null,
        Value::Bool(b) => Json::Bool(*b),
        Value::Number(n) => Json::Number(match (n.as_u64(), n.as_i64()) {
            (Some(u), _) => JsonNumber::Unsigned(u),
            (None, Some(i)) => JsonNumber::Negative(i),
            (None, None) => {
                JsonNumber::Float(Sample { bits: n.as_f64().unwrap().to_bits() })
            }
        }),
        Value::String(t) => Json::Str(t.clone()),
        Value::Array(items) => Json::Array(items.iter().map(from_value).collect()),
        Value::Object(members) => {
            Json::Object(members.iter().map(|(k, v)| (k.clone(), from_value(v))).collect())
        }
    }
}

fn scaled_object_from(spec: &str) -> Json {
    let spec = from_value(&serde_json::from_str::<Value>(spec).unwrap());
    Json::Object(vec![("spec".to_owned(), spec)])
}

#[test]
fn reads_config_from_spec() {
    let hpa = hpa_from(
        r#"{
            "apiVersion": "autoscaling/v2",
            "kind": "HorizontalPodAutoscaler",
            "metadata": {"name": "web", "namespace": "demo"},
            "spec": {
                "scaleTargetRef": {"apiVersion": "apps/v1", "kind": "Deployment", "name": "web"},
                "minReplicas": 10,
                "maxReplicas": 40,
                "metrics": [{"type": "Resource", "resource": {"name": "cpu", "target": {"type": "Utilization", "averageUtilization": 70}}}],
                "behavior": {"scaleDown": {"stabilizationWindowSeconds": 300}}
            }
        }"#,
    );
    let config = workload_config(&hpa);
    assert_eq!(config.min_replicas, 10);
    assert_eq!(config.max_replicas, 40);
    assert_eq!(config.target_cpu_pct, 70);
    assert_eq!(config.scale_down_cooldown_s, 300);
}

#[test]
fn defaults_when_fields_absent() {
    let hpa = hpa_from(
        r#"{
            "apiVersion": "autoscaling/v2",
            "kind": "HorizontalPodAutoscaler",
            "metadata": {"name": "web", "namespace": "demo"},
            "spec": {"scaleTargetRef": {"apiVersion": "apps/v1", "kind": "Deployment", "name": "web"}, "maxReplicas": 5}
        }"#,
    );
    let config = workload_config(&hpa);
    assert_eq!(config.min_replicas, 1);
    assert_eq!(config.max_replicas, 5);
    assert_eq!(config.target_cpu_pct, 80);
    assert_eq!(scale_target_name(&hpa).as_deref(), Some("web"));
}

#[test]
fn only_the_cpu_metric_counts() {
    let hpa = hpa_from(
        r#"{
            "metadata": {},
            "spec": {
                "scaleTargetRef": {"kind": "Deployment", "name": "web"},
                "maxReplicas": 5,
                "metrics": [
                    {"type": "Resource", "resource": {"name": "memory", "target": {"type": "Utilization", "averageUtilization": 33}}},
                    {"type": "Pods"},
                    {"type": "Resource", "resource": {"name": "cpu", "target": {"type": "Utilization", "averageUtilization": 44}}}
                ]
            }
        }"#,
    );
    assert_eq!(workload_config(&hpa).target_cpu_pct, 44);
    assert_eq!(workload_config(&Hpa { owner_kinds: None, spec: None, status: None }).min_replicas, 1);
}

#[test]
fn reads_scaled_object_config_from_spec() {
    let so = scaled_object_from(
        r#"{
            "scaleTargetRef": {"name": "web-deploy"},
            "minReplicaCount": 10,
            "maxReplicaCount": 40,
            "cooldownPeriod": 600,
            "triggers": [
                {"type": "kafka", "name": "main", "metadata": {"lagThreshold": "100"}},
                {"type": "cpu", "metricType": "Utilization", "metadata": {"value": "60"}}
            ]
        }"#,
    );
    let config = scaled_object_config(&so);
    assert_eq!(config.min_replicas, 10);
    assert_eq!(config.max_replicas, 40);
    assert_eq!(config.target_cpu_pct, 60, "the cpu trigger's string value is parsed");
    assert_eq!(config.scale_down_cooldown_s, 600);
    assert_eq!(scaled_object_target_name(&so).as_deref(), Some("web-deploy"));
}

#[test]
fn scaled_object_defaults_match_keda_not_the_hpa() {
    let so = scaled_object_from(r#"{"scaleTargetRef": {"name": "web"}}"#);
    let config = scaled_object_config(&so);
    assert_eq!(config.min_replicas, 0, "KEDA minReplicaCount defaults to 0");
    assert_eq!(config.max_replicas, 100, "KEDA maxReplicaCount defaults to 100");
    assert_eq!(config.target_cpu_pct, 80, "no cpu trigger falls back to the HPA-style default");
    assert_eq!(config.scale_down_cooldown_s, 300);
}

#[test]
fn unparsable_cpu_trigger_value_falls_back_to_default() {
    let so = scaled_object_from(
        r#"{
            "scaleTargetRef": {"name": "web"},
            "triggers": [{"type": "cpu", "metadata": {"value": "not-a-number"}}]
        }"#,
    );
    assert_eq!(scaled_object_config(&so).target_cpu_pct, 80);
}

#[test]
fn only_whole_counts_are_read() {
    let so = scaled_object_from(
        r#"{"minReplicaCount": "3", "maxReplicaCount": 7.0, "cooldownPeriod": -2147483648}"#,
    );
    let config = scaled_object_config(&so);
    assert_eq!((config.min_replicas, config.max_replicas), (0, 100));
    assert_eq!(config.scale_down_cooldown_s, i32::MIN);
    assert_eq!(scaled_object_target_name(&so), None);
}

#[test]
fn keda_managed_hpa_is_detected_by_owner_reference() {
    let managed = hpa_from(
        r#"{
            "apiVersion": "autoscaling/v2",
            "kind": "HorizontalPodAutoscaler",
            "metadata": {
                "name": "keda-hpa-web", "namespace": "demo",
                "ownerReferences": [{"apiVersion": "keda.sh/v1alpha1", "kind": "ScaledObject", "name": "web", "uid": "u1", "controller": true}]
            },
            "spec": {"scaleTargetRef": {"apiVersion": "apps/v1", "kind": "Deployment", "name": "web"}, "maxReplicas": 5}
        }"#,
    );
    assert!(is_keda_managed(&managed));

    let standalone = hpa_from(
        r#"{
            "apiVersion": "autoscaling/v2",
            "kind": "HorizontalPodAutoscaler",
            "metadata": {
                "name": "web", "namespace": "demo",
                "ownerReferences": [{"apiVersion": "apps/v1", "kind": "Deployment", "name": "web", "uid": "u2"}]
            },
            "spec": {"scaleTargetRef": {"apiVersion": "apps/v1", "kind": "Deployment", "name": "web"}, "maxReplicas": 5}
        }"#,
    );
    assert!(
        !is_keda_managed(&standalone),
        "a non-ScaledObject owner must not trigger the skip"
    );
}

#[test]
fn the_status_gives_a_point_once_it_reports() {
    let now = Timestamp { secs: 1_700_000_000, nanos: 0 };
    let hpa = |status: Option<HpaStatus>| Hpa { owner_kinds: None, spec: None, status };
    assert_eq!(current_point(&hpa(None), now), None);
    let metric = |name: &str, pct| HpaMetric {
        resource: Some(ResourceMetric { name: name.to_owned(), average_utilization: pct }),
    };
    let status = HpaStatus {
        current_replicas: Some(4),
        current_metrics: Some(vec![
            metric("memory", Some(1)),
            HpaMetric { resource: None },
            metric("cpu", Some(37)),
        ]),
    };
    assert_eq!(
        current_point(&hpa(Some(status)), now),
        Some(StatusPoint { timestamp: now, cpu_pct: 37, replicas: 4 })
    );
}
