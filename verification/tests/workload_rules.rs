use chrono::{TimeZone, Timelike, Utc};
use openhpa::clock::Timestamp;
use openhpa::controller::into_schedule_specs;
use openhpa::controller::schedule::active_window_min;
use openhpa::domain::{
    Candidate, CandidateKind, ConfigDiffEntry, EvidenceValue, MetricPoint, MetricsSnapshot,
    ScalingEvent, WorkloadConfig,
};
use openhpa::forecast::{
    bin_groups, bins_per_day, build_profile, profile_grid, queue_floor, regular_groups,
    week_groups, weekly_bin_index, ForecastParams, ProfileMeasures, SeasonalForecast,
};
use openhpa::rules::{
    busy_bins, detect_predictable_peak, event_window_seconds, headroom_replicas,
    longest_idle_run, median_replicas, rank_neighbours, run_rules, IdleMeasures, LoadMeasures, PeakMeasures,
    RuleMeasures,
};
use openhpa::sample::Sample;
use openhpa::schedule::build_schedule;

fn s(x: f64) -> Sample {
    Sample { bits: x.to_bits() }
}

fn f(x: Sample) -> f64 {
    f64::from_bits(x.bits)
}

fn utc(y: i32, m: u32, d: u32, h: u32, mi: u32, sec: u32) -> Timestamp {
    let t = Utc.with_ymd_and_hms(y, m, d, h, mi, sec).unwrap();
    Timestamp { secs: t.timestamp(), nanos: t.timestamp_subsec_nanos() }
}

// --- the arithmetic on the measured values ---

fn percentile(values: &[f64], pct: f64) -> f64 {
    if values.is_empty() {
        return 0.0;
    }
    let pct = pct.clamp(0.0, 1.0);
    let rank = (values.len() as f64 - 1.0) * pct;
    let low = rank.floor() as usize;
    let samples: Vec<Sample> = values.iter().map(|v| s(*v)).collect();
    match rank_neighbours(&samples, low) {
        (a, None) => f(a),
        (a, Some(b)) => f(a) + (f(b) - f(a)) * (rank - low as f64),
    }
}

fn load_measures(points: &[MetricPoint], target_cpu_pct: i32) -> LoadMeasures {
    let utils: Vec<f64> = points.iter().map(|p| f(p.cpu_util)).collect();
    let util = percentile(&utils, 0.95);
    let median = median_replicas(points) as f64 / 2.0;
    let needed = (median * util * 1.5 / (f64::from(target_cpu_pct) / 100.0)).ceil();
    LoadMeasures {
        util_p95: s(util),
        util_pct_text: format!("{:.0}", util * 100.0),
        needed: needed as i32,
    }
}

fn measures(snapshot: &MetricsSnapshot) -> RuleMeasures {
    let (from, to) = longest_idle_run(&snapshot.points);
    let run = &snapshot.points[from..to];
    let hours = if run.is_empty() {
        0.0
    } else {
        (run[run.len() - 1].timestamp.secs - run[0].timestamp.secs) as f64 / 3600.0
    };
    let window = event_window_seconds(&snapshot.points).unwrap_or(86_400) as f64 / 3600.0;
    let rate = snapshot.scaling_events.len() as f64 / window;
    RuleMeasures {
        idle: IdleMeasures {
            hours: s(hours),
            hours_text: format!("{hours:.1}"),
            load: load_measures(run, snapshot.config.target_cpu_pct),
        },
        overall: load_measures(&snapshot.points, snapshot.config.target_cpu_pct),
        events_per_hour: s(rate),
        events_per_hour_text: format!("{rate:.1}"),
    }
}

fn rules(snapshot: &MetricsSnapshot) -> Vec<Candidate> {
    run_rules(snapshot, &measures(snapshot))
}

fn needed_replicas(point: &MetricPoint, cfg: &WorkloadConfig) -> f64 {
    let target = if cfg.target_cpu_pct > 0 { f64::from(cfg.target_cpu_pct) / 100.0 } else { 1.0 };
    let cpu_based = (f64::from(point.replicas) * f(point.cpu_util) / target).ceil();
    cpu_based.max(f64::from(queue_floor(point))).max(0.0)
}

fn least_squares(series: &[f64]) -> (f64, f64) {
    let n = series.len() as f64;
    if n < 2.0 {
        return (series.first().copied().unwrap_or(0.0), 0.0);
    }
    let mean_x = (n - 1.0) / 2.0;
    let mean_y = series.iter().sum::<f64>() / n;
    let (mut cov, mut var_x) = (0.0, 0.0);
    for (i, y) in series.iter().enumerate() {
        let dx = i as f64 - mean_x;
        cov += dx * (y - mean_y);
        var_x += dx * dx;
    }
    let slope = if var_x > 0.0 { cov / var_x } else { 0.0 };
    (mean_y - slope * mean_x, slope)
}

fn pearson(a: &[f64], b: &[f64]) -> f64 {
    let n = a.len() as f64;
    let mean_a = a.iter().sum::<f64>() / n;
    let mean_b = b.iter().sum::<f64>() / n;
    let (mut cov, mut var_a, mut var_b) = (0.0, 0.0, 0.0);
    for (x, y) in a.iter().zip(b) {
        let (dx, dy) = (x - mean_a, y - mean_b);
        cov += dx * dy;
        var_a += dx * dx;
        var_b += dy * dy;
    }
    if var_a < 1e-9 || var_b < 1e-9 {
        return 0.0;
    }
    (cov / (var_a.sqrt() * var_b.sqrt())).clamp(-1.0, 1.0)
}

fn autocorrelation(series: &[f64], lag: usize) -> f64 {
    if lag == 0 || series.len() <= lag + 1 {
        return 0.0;
    }
    pearson(&series[..series.len() - lag], &series[lag..])
}

fn profile_measures(
    points: &Vec<MetricPoint>,
    cfg: &WorkloadConfig,
    params: &ForecastParams,
) -> Option<ProfileMeasures> {
    let per_day = profile_grid(points, params)?;
    let per_week = per_day * 7;
    let mean_of = |members: &Vec<usize>, value: &dyn Fn(usize) -> f64| {
        let mut sum = 0.0;
        for m in members {
            sum += value(*m);
        }
        sum / members.len() as f64
    };
    let cpu = |i: usize| f(points[i].cpu_util);
    let mut total = 0.0;
    for p in points {
        total += f(p.cpu_util);
    }
    let overall = total / points.len() as f64;
    let groups = regular_groups(points, params.bin_minutes);
    let last = groups[groups.len() - 1].key;
    let mut series = vec![overall; last as usize + 1];
    for g in &groups {
        if g.key >= 0 {
            series[g.key as usize] = mean_of(&g.members, &cpu);
        }
    }
    let (intercept, slope) = least_squares(&series);
    let detrended: Vec<f64> =
        series.iter().enumerate().map(|(i, v)| v - (intercept + slope * i as f64)).collect();

    let need = |i: usize| needed_replicas(&points[i], cfg);
    let mut bins = vec![s(0.0); per_week];
    for g in bin_groups(points, params.bin_minutes) {
        let values: Vec<f64> = g.members.iter().map(|m| need(*m)).collect();
        bins[g.key as usize] = s(percentile(&values, f(params.quantile)));
    }
    let weeks: Vec<f64> = week_groups(points).iter().map(|g| mean_of(&g.members, &need)).collect();
    let trend = if weeks.len() < 2 { 0.0 } else { least_squares(&weeks).1 };
    Some(ProfileMeasures {
        daily: s(autocorrelation(&detrended, per_day)),
        daily_twice: s(autocorrelation(&detrended, 2 * per_day)),
        weekly: s(autocorrelation(&detrended, per_week)),
        weekly_twice: s(autocorrelation(&detrended, 2 * per_week)),
        bins,
        trend_per_week: s(trend),
    })
}

fn profile(
    points: &Vec<MetricPoint>,
    cfg: &WorkloadConfig,
    params: &ForecastParams,
) -> Option<SeasonalForecast> {
    build_profile(points, params, profile_measures(points, cfg, params)?)
}

fn predictable_peak(snapshot: &MetricsSnapshot, params: &ForecastParams) -> Option<Candidate> {
    let profile = profile_measures(&snapshot.points, &snapshot.config, params)?;
    let bins: Vec<f64> = profile.bins.iter().map(|b| f(*b)).collect();
    let positive: Vec<f64> = busy_bins(&profile.bins).iter().map(|b| f(*b)).collect();
    let growth = f(profile.trend_per_week).max(0.0);
    let projected =
        bins.iter().map(|&b| if b > 0.0 { b + growth } else { 0.0 }).map(|b| b.ceil() as i32);
    let confidence = f(profile.daily).max(f(profile.weekly));
    let m = PeakMeasures {
        off_peak: percentile(&positive, 0.2).ceil() as i32,
        projected: projected.collect(),
        confidence_text: format!("{:.0}", confidence * 100.0),
    };
    detect_predictable_peak(snapshot, params, profile, &m)
}

// --- forecasting ---

fn forecast_config() -> WorkloadConfig {
    WorkloadConfig {
        min_replicas: 5,
        max_replicas: 50,
        target_cpu_pct: 70,
        scale_down_cooldown_s: 300,
    }
}

fn start() -> Timestamp {
    utc(2026, 1, 4, 0, 0, 0) // a Sunday
}

fn later(t: Timestamp, hours: i64) -> Timestamp {
    Timestamp { secs: t.secs + hours * 3600, nanos: t.nanos }
}

/// `hours` of hourly points; `cpu(hour_of_day, absolute_hour) -> util`.
fn series(hours: i64, cpu: impl Fn(u32, i64) -> f64) -> Vec<MetricPoint> {
    (0..hours)
        .map(|h| {
            let timestamp = later(start(), h);
            MetricPoint {
                timestamp,
                cpu_util: s(cpu(timestamp.minutes_from_midnight() / 60, h)),
                replicas: 5,
                queue_depth: None,
            }
        })
        .collect()
}

fn frac(i: i64) -> f64 {
    let x = i as f64 * 0.618_033_988_75;
    x - x.floor()
}

fn bin_at(forecast: &SeasonalForecast, when: Timestamp) -> f64 {
    let per_day = forecast.bins.len() / 7;
    f(forecast.bins[weekly_bin_index(when, forecast.bin_minutes, per_day)])
}

#[test]
fn daily_peak_is_recovered() {
    // 21 days, busy 09:00-17:00, quiet otherwise, small deterministic jitter.
    let points = series(21 * 24, |hod, h| {
        let base = if (9..17).contains(&hod) { 0.85 } else { 0.15 };
        base + 0.02 * frac(h)
    });
    let forecast =
        profile(&points, &forecast_config(), &ForecastParams::default()).expect("periodic");
    let peak = bin_at(&forecast, later(start(), 13));
    let quiet = bin_at(&forecast, later(start(), 3));
    assert!(peak > quiet, "peak {peak} quiet {quiet}");
    assert!(f(forecast.confidence) >= 0.3);
}

#[test]
fn single_level_shift_is_not_a_cycle() {
    // One sustained step up halfway through - happened once, must not read as recurring.
    let points = series(21 * 24, |_, h| if h < 21 * 12 { 0.2 } else { 0.8 });
    assert!(profile(&points, &forecast_config(), &ForecastParams::default()).is_none());
}

#[test]
fn flat_series_is_not_forecast() {
    let points = series(21 * 24, |_, _| 0.5);
    assert!(profile(&points, &forecast_config(), &ForecastParams::default()).is_none());
}

#[test]
fn white_noise_is_not_forecast() {
    let points = series(21 * 24, |_, h| 0.3 + 0.5 * frac(h * 7 + 3));
    assert!(profile(&points, &forecast_config(), &ForecastParams::default()).is_none());
}

#[test]
fn pure_growth_trend_is_not_a_cycle() {
    let points = series(21 * 24, |_, h| 0.1 + 0.0005 * h as f64);
    assert!(profile(&points, &forecast_config(), &ForecastParams::default()).is_none());
}

#[test]
fn weekly_pattern_is_recovered() {
    // Busy only on weekdays (Mon-Fri), quiet on weekends.
    let points = series(28 * 24, |_, h| {
        let weekday = later(start(), h).days_from_sunday();
        if (1..=5).contains(&weekday) { 0.8 } else { 0.1 }
    });
    let forecast =
        profile(&points, &forecast_config(), &ForecastParams::default()).expect("periodic");
    // Wednesday noon (busy) vs Sunday noon (quiet). start() is a Sunday.
    let busy = bin_at(&forecast, later(start(), 3 * 24 + 12));
    let quiet = bin_at(&forecast, later(start(), 12));
    assert!(busy > quiet, "busy {busy} quiet {quiet}");
}

#[test]
fn trend_tracks_week_over_week_growth() {
    // Daily cycle whose amplitude grows each week.
    let points = series(28 * 24, |hod, h| {
        let week = (h / (24 * 7)) as f64;
        let base = if (9..17).contains(&hod) { 0.4 } else { 0.1 };
        base + 0.1 * week + 0.01 * frac(h)
    });
    let forecast =
        profile(&points, &forecast_config(), &ForecastParams::default()).expect("periodic");
    assert!(f(forecast.trend_per_week) > 0.0, "trend {}", f(forecast.trend_per_week));
}

#[test]
fn non_divisor_bin_size_covers_the_full_day() {
    // 50 doesn't divide 1440; the grid must cover all 1440 minutes (ceil), not truncate the last
    // partial bin.
    let bin = 50u32;
    let points = series(21 * 24, |hour, h| {
        let base = if (9..17).contains(&hour) { 0.85 } else { 0.15 };
        base + 0.02 * frac(h)
    });
    let params = ForecastParams { bin_minutes: bin, ..ForecastParams::default() };
    let forecast = profile(&points, &forecast_config(), &params).expect("periodic");
    let expected = 1440u32.div_ceil(bin) as usize * 7;
    assert_eq!(forecast.bins.len(), expected); // 29 * 7 = 203, not 28 * 7 = 196
}

#[test]
fn the_grid_needs_history_and_a_bin_length() {
    let points = series(14 * 24 + 1, |_, _| 0.5);
    let params = ForecastParams::default();
    assert_eq!(profile_grid(&points, &params), Some(24));
    assert_eq!(profile_grid(&points[..14 * 24].to_vec(), &params), None);
    assert_eq!(profile_grid(&Vec::new(), &params), None);
    let no_bins = ForecastParams { bin_minutes: 0, ..params };
    assert_eq!(profile_grid(&points, &no_bins), None);
    for (bin, count) in [(1, 1440), (7, 206), (60, 24), (720, 2), (1440, 1), (u32::MAX, 1)] {
        assert_eq!(bins_per_day(bin), count);
    }
}

#[test]
fn default_params_are_the_documented_ones() {
    let params = ForecastParams::default();
    assert_eq!(params.quantile, s(0.95));
    assert_eq!(params.periodicity_threshold, s(0.3));
    assert_eq!((params.min_history_days, params.bin_minutes), (14, 60));
    assert_eq!(params.prescale_lead_minutes, 10);
}

#[test]
fn recurrence_asks_for_two_multiples_of_a_period() {
    let points = series(21 * 24, |_, _| 0.5);
    let params = ForecastParams::default();
    let recurs = |daily: f64, daily_twice: f64, weekly: f64, weekly_twice: f64| {
        let m = ProfileMeasures {
            daily: s(daily),
            daily_twice: s(daily_twice),
            weekly: s(weekly),
            weekly_twice: s(weekly_twice),
            bins: vec![s(1.0); 168],
            trend_per_week: s(0.5),
        };
        build_profile(&points, &params, m).map(|p| {
            assert_eq!(p.bins.len(), 168);
            f(p.confidence)
        })
    };
    assert_eq!(recurs(0.3, 0.3, 0.0, 0.0), Some(0.3));
    assert_eq!(recurs(0.9, 0.29, 0.9, 0.29), None);
    assert_eq!(recurs(0.0, 0.0, 0.4, 0.5), Some(0.4));
    assert_eq!(recurs(f64::NAN, 0.9, 0.4, 0.5), Some(0.4));
    assert_eq!(recurs(0.9, f64::NAN, 0.9, f64::NAN), None);
}

#[test]
fn weekly_bins_count_from_sunday_midnight() {
    assert_eq!(weekly_bin_index(start(), 60, 24), 0);
    assert_eq!(weekly_bin_index(later(start(), 23), 60, 24), 23);
    assert_eq!(weekly_bin_index(later(start(), 24), 60, 24), 24);
    assert_eq!(weekly_bin_index(later(start(), 7 * 24 - 1), 60, 24), 167);
    assert_eq!(weekly_bin_index(later(start(), -1), 60, 24), 167);
    assert_eq!(weekly_bin_index(later(start(), 23), 50, 29), 27);
    // A grid of fewer bins than the day has clamps to its last one; a wide grid is indexed too.
    assert_eq!(weekly_bin_index(later(start(), 47), 60, 20), 39);
    assert_eq!(weekly_bin_index(later(start(), 47), 60, 0x1000_0000), 0x1000_0000 + 23);
}

#[test]
fn a_backlog_holds_the_replicas() {
    let point = |queue| MetricPoint {
        timestamp: start(),
        cpu_util: s(0.1),
        replicas: 7,
        queue_depth: queue,
    };
    assert_eq!(queue_floor(&point(None)), 0);
    assert_eq!(queue_floor(&point(Some(s(0.0)))), 0);
    assert_eq!(queue_floor(&point(Some(s(-0.0)))), 0);
    assert_eq!(queue_floor(&point(Some(s(0.5)))), 7);
    assert_eq!(queue_floor(&point(Some(s(f64::NAN)))), 0);
}

#[test]
fn groups_come_in_order_of_their_keys() {
    let mut points = series(30, |_, _| 0.5);
    points.swap(0, 29);
    // The first point now lies latest: stretches are counted from it, and lie before it.
    let groups = regular_groups(&points, 60);
    assert_eq!(groups.first().map(|g| g.key), Some(-29));
    assert_eq!(groups.last().map(|g| (g.key, g.members.clone())), Some((0, vec![0])));
    let by_bin = bin_groups(&points, 720);
    assert_eq!(by_bin.iter().map(|g| g.key).collect::<Vec<_>>(), vec![0, 1, 2]);
    assert_eq!(by_bin[2].members, vec![0, 24, 25, 26, 27, 28]);
    assert_eq!(week_groups(&series(200, |_, _| 0.5)).len(), 2);
}

// --- the rules ---

fn config() -> WorkloadConfig {
    WorkloadConfig {
        min_replicas: 10,
        max_replicas: 40,
        target_cpu_pct: 70,
        scale_down_cooldown_s: 300,
    }
}

fn point(hour: i64, cpu_util: f64, replicas: i32, queue_depth: Option<f64>) -> MetricPoint {
    MetricPoint {
        timestamp: later(utc(2026, 1, 1, 0, 0, 0), hour),
        cpu_util: s(cpu_util),
        replicas,
        queue_depth: queue_depth.map(s),
    }
}

fn snapshot(config: WorkloadConfig, points: Vec<MetricPoint>) -> MetricsSnapshot {
    MetricsSnapshot { config, points, scaling_events: vec![] }
}

fn kinds(candidates: &[Candidate]) -> Vec<CandidateKind> {
    candidates.iter().map(|c| c.kind).collect()
}

#[test]
fn idle_and_overprovisioned_detected() {
    // 8h idle at 8% CPU with 3 replicas, then steady 30% - p95 < 40%, idle run >= 4h.
    let mut points: Vec<MetricPoint> = (0..8).map(|h| point(h, 0.08, 3, None)).collect();
    points.extend((8..24).map(|h| point(h, 0.30, 12, None)));
    let kinds = kinds(&rules(&snapshot(config(), points)));
    assert!(kinds.contains(&CandidateKind::IdleWindow), "kinds: {kinds:?}");
    assert!(kinds.contains(&CandidateKind::Overprovisioned), "kinds: {kinds:?}");
}

#[test]
fn idle_window_drops_min_replicas() {
    // 6h idle at 5% CPU running 2 replicas, floor pinned at 10. The headroom floor is
    // ceil(2 * 0.05 * 1.5 / 0.70) = 1, so min replicas drops 10 -> 1.
    let points: Vec<MetricPoint> = (0..6).map(|h| point(h, 0.05, 2, None)).collect();
    let candidates = rules(&snapshot(config(), points));
    let idle = candidates.iter().find(|c| c.kind == CandidateKind::IdleWindow).unwrap();
    let diff = idle.proposed_diff.get("min_replicas").unwrap();
    assert_eq!(*diff, ConfigDiffEntry::new(10, 1));
    assert_eq!(idle.evidence.get("replicas_reduced"), Some(&EvidenceValue::Whole(9)));
    assert_eq!(idle.evidence.get("needed_replicas"), Some(&EvidenceValue::Whole(1)));
    assert_eq!(idle.evidence.get("idle_hours"), Some(&EvidenceValue::Measured(s(5.0))));
    assert_eq!(idle.evidence.get("util_p95"), Some(&EvidenceValue::Measured(s(0.05))));
    assert_eq!(idle.evidence.len(), 4);
    assert_eq!(
        idle.description,
        "Idle for 5.0h at p95 5% CPU; min replicas can drop from 10 to 1 (load headroom)."
    );
}

#[test]
fn overprovisioned_floor_cut_from_headroom() {
    // A service pinned at min=4 but idle (~5% CPU) over a short (<4h) window. The idle_window
    // detector is 4h-gated, so the headline floor cut must come from detect_overprovisioning.
    let cfg = WorkloadConfig {
        min_replicas: 4,
        max_replicas: 20,
        target_cpu_pct: 70,
        scale_down_cooldown_s: 300,
    };
    let points: Vec<MetricPoint> = (0..3).map(|h| point(h, 0.05, 4, None)).collect();
    let candidates = rules(&snapshot(cfg, points));
    let over = candidates
        .iter()
        .find(|c| c.kind == CandidateKind::Overprovisioned)
        .expect("candidates");
    assert_eq!(*over.proposed_diff.get("min_replicas").unwrap(), ConfigDiffEntry::new(4, 1));
    assert!(!over.proposed_diff.contains_key("target_cpu_pct"));
    assert_eq!(over.evidence.get("replicas_reduced"), Some(&EvidenceValue::Whole(3)));
    assert!(
        !candidates.iter().any(|c| c.kind == CandidateKind::IdleWindow),
        "idle_window is 4h-gated and must not fire on a 2h window: {candidates:?}"
    );
}

#[test]
fn thrashing_detected_from_event_rate() {
    // 1h window, 20 scaling events -> 20/hour > 10.
    let points = vec![point(0, 0.6, 10, None), point(1, 0.6, 10, None)];
    let events: Vec<ScalingEvent> = (0..20)
        .map(|_| ScalingEvent {
            timestamp: utc(2026, 1, 1, 0, 0, 0),
            from_replicas: 10,
            to_replicas: 11,
        })
        .collect();
    let snapshot = MetricsSnapshot { config: config(), points, scaling_events: events };
    let candidates = rules(&snapshot);
    assert_eq!(candidates.iter().filter(|c| c.kind == CandidateKind::Thrashing).count(), 1);
    let thrashing = candidates.last().unwrap();
    assert_eq!(
        *thrashing.proposed_diff.get("scale_down_cooldown_s").unwrap(),
        ConfigDiffEntry::new(300, 600)
    );
    assert_eq!(
        thrashing.description,
        "20.0 scaling events/hour; double scale-down cooldown to 600s."
    );
}

#[test]
fn optimal_workload_has_no_candidates() {
    let points: Vec<MetricPoint> = (0..24).map(|h| point(h, 0.62, 12, None)).collect();
    assert_eq!(rules(&snapshot(config(), points)).len(), 0);
}

#[test]
fn scale_lag_detected_from_rising_queue() {
    // queue rising for 4 minutes (>180s) while replicas flat.
    let at = |minute: u32, queue: f64| MetricPoint {
        timestamp: utc(2026, 1, 1, 0, minute, 0),
        cpu_util: s(0.6),
        replicas: 10,
        queue_depth: Some(s(queue)),
    };
    let points = vec![at(0, 1.0), at(2, 5.0), at(4, 9.0)];
    let candidates = rules(&snapshot(config(), points));
    let lag = candidates.iter().find(|c| c.kind == CandidateKind::ScaleLag).unwrap();
    assert_eq!(*lag.proposed_diff.get("target_cpu_pct").unwrap(), ConfigDiffEntry::new(70, 55));
    assert_eq!(lag.evidence.get("lag_seconds"), Some(&EvidenceValue::Whole(240)));
    assert_eq!(
        lag.description,
        "Queue grew for 240s without scaling; lower target to 55%."
    );
}

#[test]
fn a_broken_rise_starts_anew() {
    let at = |minute: u32, queue: Option<f64>, replicas: i32| MetricPoint {
        timestamp: utc(2026, 1, 1, 0, minute, 0),
        cpu_util: s(0.6),
        replicas,
        queue_depth: queue.map(s),
    };
    let lag = |points: Vec<MetricPoint>| kinds(&rules(&snapshot(config(), points)));
    // A scale-up, a missing sample, or a shrinking queue ends the rise.
    assert!(lag(vec![at(0, Some(1.0), 10), at(2, Some(2.0), 10), at(4, Some(3.0), 11)]).is_empty());
    assert!(lag(vec![at(0, Some(1.0), 10), at(2, None, 10), at(4, Some(3.0), 10)]).is_empty());
    assert!(
        lag(vec![at(0, Some(5.0), 10), at(2, Some(4.0), 10), at(4, Some(6.0), 10)]).is_empty()
    );
    // Exactly three minutes of growth count.
    assert_eq!(
        lag(vec![at(0, Some(1.0), 10), at(3, Some(2.0), 10)]),
        vec![CandidateKind::ScaleLag]
    );
    // A low target is not lowered below 20.
    let low = WorkloadConfig { target_cpu_pct: 30, ..config() };
    let candidates = rules(&snapshot(low, vec![at(0, Some(1.0), 10), at(3, Some(2.0), 10)]));
    let change = *candidates[0].proposed_diff.get("target_cpu_pct").unwrap();
    assert_eq!(change, ConfigDiffEntry::new(30, 20));
}

#[test]
fn the_target_is_raised_when_the_floor_is_right() {
    let low_floor = WorkloadConfig { min_replicas: 1, ..config() };
    let points: Vec<MetricPoint> = (0..3).map(|h| point(h, 0.35, 10, None)).collect();
    let candidates = rules(&snapshot(low_floor, points.clone()));
    assert_eq!(kinds(&candidates), vec![CandidateKind::Overprovisioned]);
    assert_eq!(
        *candidates[0].proposed_diff.get("target_cpu_pct").unwrap(),
        ConfigDiffEntry::new(70, 85)
    );
    assert_eq!(candidates[0].description, "p95 CPU is 35%; target can rise to 85%.");
    let high = WorkloadConfig { min_replicas: 1, target_cpu_pct: 80, ..config() };
    let candidates = rules(&snapshot(high, points.clone()));
    assert_eq!(candidates[0].proposed_diff.get("target_cpu_pct").unwrap().to, 90);
    // A target that cannot rise any further is left alone.
    for (from, to) in [(89, Some(90)), (90, None), (95, None), (i32::MAX, None)] {
        let full = WorkloadConfig { min_replicas: 1, target_cpu_pct: from, ..config() };
        let candidates = rules(&snapshot(full, points.clone()));
        let raised = candidates.first().map(|c| c.proposed_diff.get("target_cpu_pct").unwrap().to);
        assert_eq!(raised, to, "{from}");
    }
    // Exactly 40% is not overprovisioned.
    let busy: Vec<MetricPoint> = (0..3).map(|h| point(h, 0.40, 10, None)).collect();
    assert!(rules(&snapshot(low_floor, busy)).is_empty());
    // Without a target there is no headroom to size by.
    assert_eq!(headroom_replicas(3, 0, 5), None);
    assert_eq!(headroom_replicas(0, 70, 5), None);
    assert_eq!(headroom_replicas(3, 70, -4), Some(1));
    assert_eq!(headroom_replicas(3, 70, 6), Some(6));
}

#[test]
fn the_first_longest_idle_run_counts() {
    let points: Vec<MetricPoint> = [0.1, 0.1, 0.5, 0.1, 0.19, 0.2, 0.1, 0.1, 0.9]
        .iter()
        .enumerate()
        .map(|(h, u)| point(h as i64, *u, 3, None))
        .collect();
    assert_eq!(longest_idle_run(&points), (0, 2));
    assert_eq!(longest_idle_run(&points[2..].to_vec()), (1, 3));
    assert_eq!(longest_idle_run(&points[5..6].to_vec()), (0, 0));
    let nan = vec![point(0, f64::NAN, 3, None), point(1, 0.1, 3, None)];
    assert_eq!(longest_idle_run(&nan), (1, 2));
}

#[test]
fn only_bins_with_demand_are_busy() {
    let bins = vec![s(0.0), s(2.0), s(-0.0), s(f64::NAN), s(1.0), s(-3.0)];
    assert_eq!(busy_bins(&bins), vec![s(2.0), s(1.0)]);
    assert!(busy_bins(&vec![s(0.0)]).is_empty());
}

#[test]
fn order_statistics_follow_the_total_order() {
    let values = vec![s(2.0), s(-1.0), s(0.0), s(-0.0), s(f64::INFINITY)];
    assert_eq!(rank_neighbours(&values, 0), (s(-1.0), Some(s(-0.0))));
    assert_eq!(rank_neighbours(&values, 1), (s(-0.0), Some(s(0.0))));
    assert_eq!(rank_neighbours(&values, 4), (s(f64::INFINITY), None));
    let replicas = |rs: &[i32]| rs.iter().map(|r| point(0, 0.1, *r, None)).collect::<Vec<_>>();
    assert_eq!(median_replicas(&replicas(&[5, 1, 3])), 6);
    assert_eq!(median_replicas(&replicas(&[5, 1, 3, 4])), 7);
    assert_eq!(median_replicas(&replicas(&[i32::MAX, i32::MAX])), 2 * i64::from(i32::MAX));
    assert_eq!(median_replicas(&[]), 0);
}

#[test]
fn thresholds_are_the_documented_numbers() {
    assert_eq!(openhpa::rules::IDLE_CPU_THRESHOLD, 0.20f64.to_bits());
    assert_eq!(openhpa::rules::OVERPROVISION_P95_THRESHOLD, 0.40f64.to_bits());
    assert_eq!(openhpa::rules::THRASHING_EVENTS_PER_HOUR, 10.0f64.to_bits());
    assert_eq!(openhpa::domain::ESTIMATED_REPLICA_MONTHLY_USD, 30.0f64.to_bits());
}

fn daily_points(busy: impl Fn(u32) -> f64) -> Vec<MetricPoint> {
    let base = Utc.with_ymd_and_hms(2026, 1, 4, 0, 0, 0).unwrap();
    (0..21 * 24)
        .map(|h| {
            let timestamp = base + chrono::Duration::hours(h);
            MetricPoint {
                timestamp: Timestamp { secs: timestamp.timestamp(), nanos: 0 },
                cpu_util: s(busy(timestamp.hour())),
                replicas: 5,
                queue_depth: None,
            }
        })
        .collect()
}

#[test]
fn predictable_peak_emits_schedule_and_lowers_baseline() {
    let points = daily_points(|hour| if (9..17).contains(&hour) { 0.85 } else { 0.15 });
    let snapshot = snapshot(config(), points);
    let candidate = predictable_peak(&snapshot, &ForecastParams::default()).expect("forecast");
    assert_eq!(candidate.kind, CandidateKind::PredictablePeak);
    let schedule = candidate.schedule.expect("schedule");
    assert!(!schedule.is_empty(), "{schedule:?}");
    assert!(schedule.iter().all(|window| window.min_replicas > 2), "{schedule:?}");
    // Off-peak baseline recommended below the static floor of 10.
    let baseline = candidate.proposed_diff.get("min_replicas").expect("baseline lowering");
    assert_eq!(baseline.from, 10);
    assert!(baseline.to < 10, "{baseline:?}");
    // One daily window: opened ten minutes early, until the end of the busy hours.
    assert_eq!(schedule.len(), 1);
    assert_eq!(schedule[0].start_cron, "50 8 * * *");
    assert_eq!(schedule[0].duration_minutes, 8 * 60 + 10);
    assert_eq!(schedule[0].min_replicas, 7);
    assert!(
        candidate.description.ends_with("hold baseline 2, pre-scale to 7 across 1 window(s)."),
        "{}",
        candidate.description
    );
}

#[test]
fn flat_workload_emits_no_forecast() {
    let points = daily_points(|_| 0.5);
    let snapshot = snapshot(config(), points);
    assert!(predictable_peak(&snapshot, &ForecastParams::default()).is_none());
}

#[test]
fn out_of_range_quantile_does_not_panic() {
    // a quantile > 1.0 must be clamped, not index past the end of percentile().
    let points = daily_points(|hour| if (9..17).contains(&hour) { 0.85 } else { 0.15 });
    let snapshot = snapshot(config(), points);
    let params = ForecastParams { quantile: s(1.5), ..ForecastParams::default() };
    assert!(predictable_peak(&snapshot, &params).is_some());
}

#[test]
fn window_floor_never_exceeds_max_replicas() {
    // a low target inflates needed_replicas above max_replicas; the window must be clamped.
    let config = WorkloadConfig {
        min_replicas: 10,
        max_replicas: 40,
        target_cpu_pct: 10,
        scale_down_cooldown_s: 300,
    };
    let points = daily_points(|hour| if (9..17).contains(&hour) { 0.85 } else { 0.05 });
    let snapshot = snapshot(config, points);
    let schedule =
        predictable_peak(&snapshot, &ForecastParams::default()).unwrap().schedule.unwrap();
    assert!(schedule.iter().all(|window| window.min_replicas <= 40), "{schedule:?}");
    assert!(schedule.iter().any(|window| window.min_replicas == 40), "expected a clamped peak");
}

// --- the schedule ---

fn windows(
    bins: &[i32],
    per_day: usize,
    minutes: u32,
    baseline: i32,
    max: i32,
    lead: i64,
) -> Vec<(String, i32, i32)> {
    build_schedule(&bins.to_vec(), per_day, minutes, baseline, max, lead)
        .into_iter()
        .map(|w| (w.start_cron, w.duration_minutes, w.min_replicas))
        .collect()
}

#[test]
fn the_schedule_covers_every_exceeding_bin() {
    // Bins of 50 minutes, the last of a day a partial one; a run over noon, one at midnight and
    // one at the end of the day, each beyond the baseline of 2, the last beyond the ceiling of 9.
    let per_day = bins_per_day(50);
    assert_eq!(per_day, 29);
    let mut bins = vec![2; 7 * per_day];
    for day in 0..7 {
        bins[day * per_day] = 3;
        bins[day * per_day + 14] = 5 + day as i32 % 2;
        bins[day * per_day + 15] = 4;
        bins[day * per_day + 28] = 12;
    }
    let specs = into_schedule_specs(build_schedule(&bins, per_day, 50, 2, 9, 10));
    for minute in 0..7 * 24 * 60 {
        let now = start().plus_seconds(minute * 60 + 59);
        let need = bins[weekly_bin_index(now, 50, per_day)];
        let floor = active_window_min(&specs, now);
        if need > 2 {
            assert!(floor.is_some_and(|f| f >= need.min(9)), "minute {minute}: {floor:?}");
        }
    }
}

#[test]
fn runs_become_windows_and_days_are_merged() {
    // Six-hour bins: a run of two on Monday and Tuesday, a single one on Saturday.
    let mut bins = vec![1; 28];
    for day in [1, 2] {
        bins[day * 4 + 1] = 5;
        bins[day * 4 + 2] = 7;
    }
    bins[6 * 4 + 3] = 9;
    assert_eq!(
        windows(&bins, 4, 360, 2, 8, 30),
        vec![
            ("30 5 * * 1,2".to_owned(), 750, 7),
            ("30 17 * * 6".to_owned(), 390, 8),
        ]
    );
    // Without a lead, and with one that would reach into the day before.
    assert_eq!(windows(&bins, 4, 360, 2, 8, -5)[0], ("0 6 * * 1,2".to_owned(), 720, 7));
    assert_eq!(windows(&bins, 4, 360, 2, 8, i64::MAX)[0].0, "0 0 * * 1,2");
    // Nothing exceeds the baseline.
    assert!(windows(&bins, 4, 360, 9, 20, 30).is_empty());
}

#[test]
fn windows_come_in_ascending_order() {
    // Two runs a day that open at the same clamped minute but differ in length.
    let mut bins = vec![0; 21];
    bins[0] = 3;
    bins[2] = 4;
    bins[3 + 2] = 4;
    let got = windows(&bins, 3, 480, 0, 10, 2000);
    assert_eq!(
        got,
        vec![("0 0 * * 0".to_owned(), 480, 3), ("0 0 * * 0,1".to_owned(), 1440, 4)]
    );
}
