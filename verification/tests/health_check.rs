use chrono::{TimeZone, Utc};
use openhpa::clock::Timestamp;
use openhpa::domain::{MetricPoint, WorkloadConfig};
use openhpa::safety::{
    count_replica_changes, evaluate_health, pinned_count, queue_thirds, HealthMeasures,
    HealthVerdict,
};
use openhpa::sample::Sample;

fn s(x: f64) -> Sample {
    Sample { bits: x.to_bits() }
}

fn f(x: Sample) -> f64 {
    f64::from_bits(x.bits)
}

fn config() -> WorkloadConfig {
    WorkloadConfig {
        min_replicas: 2,
        max_replicas: 10,
        target_cpu_pct: 70,
        scale_down_cooldown_s: 300,
    }
}

fn point(minute: i64, cpu_util: f64, replicas: i32, queue_depth: Option<f64>) -> MetricPoint {
    let t = Utc.with_ymd_and_hms(2026, 1, 1, 0, 0, 0).unwrap();
    MetricPoint {
        timestamp: Timestamp { secs: t.timestamp() + minute * 60, nanos: 0 },
        cpu_util: s(cpu_util),
        replicas,
        queue_depth: queue_depth.map(s),
    }
}

fn window(cpu_util: f64, replicas: i32) -> Vec<MetricPoint> {
    (0..6).map(|m| point(m, cpu_util, replicas, None)).collect()
}

fn mean(values: &[f64]) -> f64 {
    let mut sum = 0.0;
    for v in values {
        sum += v;
    }
    if values.is_empty() { 0.0 } else { sum / values.len() as f64 }
}

fn oscillation_rate(points: &Vec<MetricPoint>) -> f64 {
    if points.len() < 2 {
        return 0.0;
    }
    count_replica_changes(points) as f64 / (points.len() - 1) as f64
}

fn measures(
    before: &Vec<MetricPoint>,
    after: &Vec<MetricPoint>,
    config: &WorkloadConfig,
    margin: f64,
) -> HealthMeasures {
    let cpu = mean(&after.iter().map(|p| f(p.cpu_util)).collect::<Vec<_>>());
    let ceiling = f64::from(config.target_cpu_pct) / 100.0 + margin;
    let pinned = pinned_count(after, config.max_replicas) as f64 / after.len() as f64;
    let (head, tail) = queue_thirds(after).unwrap_or_default();
    let head = mean(&head.iter().map(|q| f(*q)).collect::<Vec<_>>());
    let tail = mean(&tail.iter().map(|q| f(*q)).collect::<Vec<_>>());
    HealthMeasures {
        cpu: s(cpu),
        ceiling: s(ceiling),
        cpu_text: format!("{:.0}", cpu * 100.0),
        ceiling_text: format!("{:.0}", ceiling * 100.0),
        pinned_text: format!("{:.0}", pinned * 100.0),
        queue_head: s(head),
        queue_bound: s(head * 1.5),
        queue_tail: s(tail),
        oscillation: s(oscillation_rate(after)),
        oscillation_bound: s(oscillation_rate(before) + 0.2),
    }
}

fn judge(before: Vec<MetricPoint>, after: Vec<MetricPoint>) -> HealthVerdict {
    let m = measures(&before, &after, &config(), 0.15);
    evaluate_health(&before, &after, &config(), &m)
}

#[test]
fn healthy_when_cpu_and_replicas_settle() {
    assert_eq!(judge(vec![], window(0.55, 4)), HealthVerdict::Healthy);
}

#[test]
fn insufficient_data_is_inconclusive() {
    let after = vec![point(0, 0.99, 10, None), point(1, 0.99, 10, None)];
    assert_eq!(judge(vec![], after), HealthVerdict::Inconclusive);
    assert_eq!(judge(window(0.5, 4), vec![]), HealthVerdict::Inconclusive);
}

#[test]
fn oscillation_against_short_before_is_not_degraded() {
    // `after` thrashes, but `before` is too short to be a real baseline - must not revert.
    let after: Vec<MetricPoint> =
        (0..6).map(|m| point(m, 0.5, 4 + (m as i32 % 2), None)).collect();
    let before = vec![point(-1, 0.5, 4, None)];
    assert_eq!(judge(before, after), HealthVerdict::Healthy);
}

#[test]
fn cpu_saturation_is_degraded() {
    let HealthVerdict::Degraded(reason) = judge(vec![], window(0.90, 4)) else {
        panic!("expected degraded");
    };
    assert!(reason.contains("cpu"), "{reason}");
    assert_eq!(reason, "cpu 90% sustained above target+margin 85%");
}

#[test]
fn pinned_at_max_replicas_is_degraded() {
    let HealthVerdict::Degraded(reason) = judge(vec![], window(0.50, 10)) else {
        panic!("expected degraded");
    };
    assert!(reason.contains("max_replicas"), "{reason}");
    assert_eq!(reason, "pinned at max_replicas 10 for 100% of the window");
}

#[test]
fn four_fifths_at_the_maximum_are_tolerated() {
    let mut after: Vec<MetricPoint> = (0..4).map(|m| point(m, 0.5, 10, None)).collect();
    after.push(point(4, 0.5, 9, None));
    assert_eq!(judge(vec![], after), HealthVerdict::Healthy);
    let mut after: Vec<MetricPoint> = (0..5).map(|m| point(m, 0.5, 11, None)).collect();
    after.push(point(5, 0.5, 9, None));
    assert_eq!(
        judge(vec![], after),
        HealthVerdict::Degraded("pinned at max_replicas 10 for 83% of the window".to_owned())
    );
}

#[test]
fn growing_queue_is_degraded() {
    let after: Vec<MetricPoint> =
        (0..6).map(|m| point(m, 0.5, 4, Some(f64::from(m as i32) * 10.0 + 1.0))).collect();
    let HealthVerdict::Degraded(reason) = judge(vec![], after) else {
        panic!("expected degraded");
    };
    assert!(reason.contains("queue"), "{reason}");
}

#[test]
fn a_queue_that_was_empty_or_grows_little_is_tolerated() {
    let queue = |depths: [f64; 3]| {
        depths.iter().enumerate().map(|(m, q)| point(m as i64, 0.5, 4, Some(*q))).collect()
    };
    assert_eq!(judge(vec![], queue([0.0, 5.0, 9.0])), HealthVerdict::Healthy);
    assert_eq!(judge(vec![], queue([2.0, 5.0, 3.0])), HealthVerdict::Healthy);
    assert!(matches!(judge(vec![], queue([2.0, 0.0, 3.5])), HealthVerdict::Degraded(_)));
    // Two reported depths are too few.
    let thin = vec![
        point(0, 0.5, 4, Some(1.0)),
        point(1, 0.5, 4, None),
        point(2, 0.5, 4, Some(99.0)),
    ];
    assert_eq!(judge(vec![], thin), HealthVerdict::Healthy);
}

#[test]
fn increased_oscillation_is_degraded() {
    let before = window(0.5, 4);
    let after: Vec<MetricPoint> =
        (0..6).map(|m| point(m, 0.5, 4 + (m as i32 % 2), None)).collect();
    let HealthVerdict::Degraded(reason) = judge(before, after) else {
        panic!("expected degraded");
    };
    assert!(reason.contains("oscillation"), "{reason}");
}

#[test]
fn the_counts_that_the_figures_rest_on() {
    let points = vec![
        point(0, 0.5, 3, Some(1.0)),
        point(1, 0.5, 4, None),
        point(2, 0.5, 4, Some(2.0)),
        point(3, 0.5, 3, None),
    ];
    assert_eq!(count_replica_changes(&points), 2);
    assert_eq!(count_replica_changes(&vec![]), 0);
    assert_eq!(pinned_count(&points, 4), 2);
    // Two reported depths show no trend; of eight, the thirds hold two each.
    assert_eq!(queue_thirds(&points), None);
    let eight: Vec<MetricPoint> =
        (0..8).map(|m| point(m, 0.5, 3, Some(m as f64))).collect();
    assert_eq!(
        queue_thirds(&eight),
        Some((vec![s(0.0), s(1.0)], vec![s(6.0), s(7.0)]))
    );
}
