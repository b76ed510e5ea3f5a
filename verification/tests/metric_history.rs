use openhpa::clock::Timestamp;
use openhpa::domain::MetricPoint;
use openhpa::json::{Json, JsonNumber};
use openhpa::metrics::{
    assemble_points, default_cpu_query, default_replicas_query, interpolate,
    matrix_series_count, parse_matrix_series, scan_matrix, Decoded, MatrixError, MetricsSource,
    PromQlTemplates, PrometheusSource,
};
use openhpa::sample::Sample;
use serde_json::Value;

fn s(x: f64) -> Sample {
    Sample { bits: x.to_bits() }
}

fn f(x: Sample) -> f64 {
    f64::from_bits(x.bits)
}

fn from_value(value: &Value) -> Json {
    match value {
        Value::Null => Json::Null,
        Value::Bool(b) => Json::Bool(*b),
        Value::Number(n) => Json::Number(match (n.as_u64(), n.as_i64()) {
            (Some(u), _) => JsonNumber::Unsigned(u),
            (None, Some(i)) => JsonNumber::Negative(i),
            (None, None) => JsonNumber::Float(s(n.as_f64().unwrap())),
        }),
        Value::String(t) => Json::Str(t.clone()),
        Value::Array(items) => Json::Array(items.iter().map(from_value).collect()),
        Value::Object(members) => {
            Json::Object(members.iter().map(|(k, v)| (k.clone(), from_value(v))).collect())
        }
    }
}

fn json(text: &str) -> Json {
    from_value(&serde_json::from_str::<Value>(text).unwrap())
}

fn series(body: &Json) -> Result<Vec<(i64, f64)>, String> {
    let scan = scan_matrix(body);
    let decoded: Vec<Decoded> = scan
        .pairs
        .iter()
        .map(|p| Decoded {
            timestamp: match p.timestamp {
                JsonNumber::Unsigned(u) => u as f64 as i64,
                JsonNumber::Negative(i) => i as f64 as i64,
                JsonNumber::Float(x) => f(x) as i64,
            },
            sample: p.sample.parse::<f64>().ok().map(s),
        })
        .collect();
    match parse_matrix_series(scan, &decoded) {
        Ok(points) => Ok(points
            .iter()
            .map(|p| (p.timestamp, p.samples.iter().fold(0.0, |sum, x| sum + f(*x))))
            .collect()),
        Err(e) => Err(e.message()),
    }
}

fn assemble(
    cpu: Vec<(i64, f64)>,
    replicas: &[(i64, f64)],
    queue: &[(i64, f64)],
) -> Vec<MetricPoint> {
    let samples = |list: &[(i64, f64)]| list.iter().map(|(t, x)| (*t, s(*x))).collect::<Vec<_>>();
    let counts: Vec<(i64, i32)> = replicas.iter().map(|(t, x)| (*t, x.round() as i32)).collect();
    assemble_points(&samples(&cpu), &counts, &samples(queue))
}

#[test]
fn parses_matrix_series_values() {
    let body = json(
        r#"{
            "status": "success",
            "data": {
                "resultType": "matrix",
                "result": [{"metric": {}, "values": [[1700000000, "0.42"], [1700000300, "0.55"]]}]
            }
        }"#,
    );
    assert_eq!(series(&body).unwrap(), vec![(1700000000, 0.42), (1700000300, 0.55)]);
}

#[test]
fn non_finite_samples_are_skipped() {
    let body = json(
        r#"{"data": {"result": [{"metric": {}, "values": [[1700000000, "NaN"], [1700000300, "0.5"]]}]}}"#,
    );
    assert_eq!(series(&body).unwrap(), vec![(1700000300, 0.5)]);
}

#[test]
fn malformed_sample_is_still_an_error() {
    let body = json(r#"{"data": {"result": [{"metric": {}, "values": [[1700000000, "oops"]]}]}}"#);
    let err = series(&body).unwrap_err();
    assert!(err.contains("not a float"), "{err}");
    assert!(err.ends_with("oops"), "{err}");
}

#[test]
fn empty_result_is_not_an_error() {
    let body = json(r#"{"status": "success", "data": {"resultType": "matrix", "result": []}}"#);
    assert!(series(&body).unwrap().is_empty());
}

#[test]
fn missing_result_array_is_an_error() {
    let body = json(r#"{"status": "success", "data": {}}"#);
    let err = series(&body).unwrap_err();
    assert!(err.contains("data.result"), "{err}");
}

#[test]
fn each_malformed_place_has_its_error() {
    let error = |result: &str| {
        let body = json(&format!("{{\"data\": {{\"result\": {result}}}}}"));
        scan_matrix(&body).error
    };
    assert_eq!(error("{}"), Some(MatrixError::MissingResult));
    assert_eq!(error("[{}]"), Some(MatrixError::MissingValues));
    assert_eq!(error("[{\"values\": 3}]"), Some(MatrixError::MissingValues));
    assert_eq!(error("[{\"values\": [3]}]"), Some(MatrixError::PairNotAnArray));
    assert_eq!(error("[{\"values\": [[]]}]"), Some(MatrixError::MissingTimestamp));
    assert_eq!(error("[{\"values\": [[\"1\", \"2\"]]}]"), Some(MatrixError::MissingTimestamp));
    assert_eq!(error("[{\"values\": [[1]]}]"), Some(MatrixError::MissingSample));
    assert_eq!(error("[{\"values\": [[1, 2]]}]"), Some(MatrixError::MissingSample));
    assert_eq!(error("[{\"values\": [[1.5, \"2\", 3]]}]"), None);
    // What stands before the malformed place comes first: its text is no number.
    let body =
        json(r#"{"data": {"result": [{"values": [[1, "x"]]}, {"metric": {}}]}}"#);
    assert_eq!(series(&body).unwrap_err(), "prometheus sample is not a float: x");
    let body =
        json(r#"{"data": {"result": [{"values": [[1, "2"]]}, {"metric": {}}]}}"#);
    assert_eq!(series(&body).unwrap_err(), "prometheus series missing values");
}

#[test]
fn assembles_points_aligning_replicas_and_queue() {
    let cpu = vec![(1700000000, 0.42), (1700000300, 0.55)];
    let replicas = [(1700000000, 3.0), (1700000300, 4.0)];
    let queue = [(1700000300, 12.0)];
    let points = assemble(cpu, &replicas, &queue);
    assert_eq!(points.len(), 2);
    assert_eq!(points[0].replicas, 3);
    assert_eq!(points[0].queue_depth, None);
    assert_eq!(points[1].replicas, 4);
    assert_eq!(points[1].queue_depth, Some(s(12.0)));
}

#[test]
fn missing_replicas_carry_forward_never_zero() {
    // cpu at three grid points, replicas only at the 1st and 3rd (gap at the 2nd) - the gap
    // carries the last-known count forward, never fabricating replicas=0 against live cpu.
    let cpu = vec![(1700000000, 0.42), (1700000300, 0.55), (1700000600, 0.6)];
    let replicas = [(1700000000, 3.0), (1700000600, 7.0)];
    let points = assemble(cpu, &replicas, &[]);
    assert_eq!(points.iter().map(|p| p.replicas).collect::<Vec<_>>(), vec![3, 3, 7]);
    assert!(points.iter().all(|p| p.replicas > 0));
}

#[test]
fn empty_cpu_uses_the_replicas_timeline() {
    // an empty cpu series must NOT zero out history when replicas data is present.
    let points = assemble(vec![], &[(1700000000, 3.0), (1700000300, 4.0)], &[]);
    assert_eq!(points.len(), 2, "{points:?}");
    assert_eq!(points.iter().map(|p| p.replicas).collect::<Vec<_>>(), vec![3, 4]);
    assert!(points.iter().all(|p| p.cpu_util == s(0.0)));
}

#[test]
fn cpu_loss_mid_stream_keeps_advancing() {
    // cpu present only at the first grid point; the timeline must still advance over the
    // later replicas samples (carrying the last cpu forward) instead of collapsing to one point.
    let cpu = vec![(1700000000, 0.5)];
    let replicas = [(1700000000, 3.0), (1700000300, 3.0), (1700000600, 3.0)];
    let points = assemble(cpu, &replicas, &[]);
    assert_eq!(points.len(), 3, "{points:?}");
    assert!(points.iter().all(|p| (f(p.cpu_util) - 0.5).abs() < f64::EPSILON));
}

#[test]
fn leading_points_without_replicas_are_dropped() {
    // No replicas sample until the 2nd grid point - the 1st cpu point has no real count to use.
    let cpu = vec![(1700000000, 0.42), (1700000300, 0.55)];
    let points = assemble(cpu, &[(1700000300, 4.0)], &[]);
    assert_eq!(points.len(), 1);
    assert_eq!(points[0].replicas, 4);
}

#[test]
fn timestamps_outside_the_calendar_are_dropped() {
    let points = assemble(vec![], &[(i64::MAX, 3.0), (1700000000, 2.0), (i64::MIN, 1.0)], &[]);
    assert_eq!(points.len(), 1);
    assert_eq!((points[0].timestamp.secs, points[0].replicas), (1700000000, 2));
}

#[test]
fn sums_across_multiple_series() {
    // Sharded KSM / per-partition metric: two series at the same timestamps are summed.
    let body = json(
        r#"{"data": {"result": [
            {"metric": {"shard": "a"}, "values": [[1700000000, "2"], [1700000300, "3"]]},
            {"metric": {"shard": "b"}, "values": [[1700000000, "5"], [1700000300, "4"]]}
        ]}}"#,
    );
    assert_eq!(series(&body).unwrap(), vec![(1700000000, 7.0), (1700000300, 7.0)]);
    assert_eq!(matrix_series_count(&body), 2);
}

#[test]
fn default_cpu_query_tolerates_missing_requests() {
    // denominator falls back to CPU limits when requests are unset.
    assert!(default_cpu_query().contains("kube_pod_container_resource_limits"));
}

#[test]
fn interpolate_replaces_placeholders() {
    let out = interpolate("x{namespace=\"{ns}\",deployment=\"{deploy}\"}", "prod", "web");
    assert_eq!(out, "x{namespace=\"prod\",deployment=\"web\"}");
}

#[test]
fn a_namespace_is_filled_in_before_the_deployment() {
    assert_eq!(interpolate("{ns}/{ns}-{deploy}", "{deploy}", "web"), "web/web-web");
    assert_eq!(interpolate("plain", "a", "b"), "plain");
}

#[test]
fn empty_url_selects_hpa_status_fallback() {
    let source = MetricsSource::from_config("  ", None, None, None);
    assert!(!source.is_prometheus());
}

#[test]
fn url_selects_prometheus_with_default_templates() {
    let source = MetricsSource::from_config("http://prom:9090/", None, None, None);
    assert!(source.is_prometheus());
    let MetricsSource::Prometheus(source) = source else { unreachable!() };
    assert_eq!(source.base_url, "http://prom:9090");
    assert_eq!(source.templates.cpu, default_cpu_query());
    assert!(source.templates.queue.is_none());
}

#[test]
fn promql_overrides_take_precedence() {
    let source = MetricsSource::from_config(
        "http://prom",
        Some("custom_cpu".to_owned()),
        None,
        Some("q".to_owned()),
    );
    let MetricsSource::Prometheus(source) = source else { unreachable!() };
    assert_eq!(source.templates.cpu, "custom_cpu");
    assert_eq!(source.templates.replicas, default_replicas_query());
    assert_eq!(source.templates.queue.as_deref(), Some("q"));
}

#[test]
fn history_asks_for_each_template() {
    let source = PrometheusSource {
        base_url: "http://prom".to_owned(),
        templates: PromQlTemplates {
            cpu: "c_{ns}_{deploy}".to_owned(),
            replicas: "r_{deploy}".to_owned(),
            queue: None,
        },
    };
    let since = Timestamp { secs: -3, nanos: 9 };
    let end = Timestamp { secs: 1700000300, nanos: 0 };
    let queries = source.history("prod", "web", since, end, 300);
    assert_eq!(queries.cpu.url, "http://prom/api/v1/query_range");
    assert_eq!(queries.cpu.query, "c_prod_web");
    assert_eq!(queries.replicas.query, "r_web");
    assert_eq!(queries.cpu.start, "-3");
    assert_eq!(queries.cpu.end, "1700000300");
    assert_eq!(queries.cpu.step, "300");
    assert!(queries.queue.is_none());
}
