use openhpa::config::{
    api_key_env_var, resolve_namespace, select_api_key, Config, ConfigError, OperatingMode,
};
use openhpa::sample::Sample;

fn s(x: f64) -> Sample {
    Sample { bits: x.to_bits() }
}

fn f(x: Sample) -> f64 {
    f64::from_bits(x.bits)
}

#[test]
fn defaults_to_rules_only_and_all_namespaces() {
    let cfg = Config::default();
    assert_eq!(cfg.llm_provider, "none");
    assert!(cfg.namespaces().is_empty());
}

#[test]
fn selects_key_for_the_configured_provider() {
    let key = select_api_key("openai", |var| {
        (var == "OPENAI_API_KEY").then_some("sk-openai".to_owned())
    })
    .unwrap();
    assert_eq!(key, Some("sk-openai".to_owned()));
}

#[test]
fn anthropic_provider_ignores_a_present_openai_key() {
    // Both keys set: provider=anthropic must use the Anthropic key, never fall back to OpenAI.
    let key = select_api_key("anthropic", |var| match var {
        "OPENAI_API_KEY" => Some("sk-openai".to_owned()),
        "ANTHROPIC_API_KEY" => Some("sk-anthropic".to_owned()),
        _ => None,
    })
    .unwrap();
    assert_eq!(key, Some("sk-anthropic".to_owned()));
}

#[test]
fn missing_provider_key_errors_naming_the_var() {
    // provider=anthropic with only OPENAI_API_KEY present must error, not silently send the
    // OpenAI key to Anthropic.
    let err = select_api_key("anthropic", |var| {
        (var == "OPENAI_API_KEY").then_some("sk-openai".to_owned())
    })
    .unwrap_err();
    let message = err.message("");
    assert!(message.contains("ANTHROPIC_API_KEY"), "{message}");
    assert!(matches!(
        err,
        ConfigError::MissingKey { provider, var }
            if provider == "anthropic" && var == "ANTHROPIC_API_KEY"
    ));
}

#[test]
fn none_provider_needs_no_key() {
    assert_eq!(select_api_key("none", |_| None).unwrap(), None);
}

#[test]
fn only_the_known_providers_have_a_variable() {
    assert_eq!(api_key_env_var("openai"), Some("OPENAI_API_KEY"));
    assert_eq!(api_key_env_var("anthropic"), Some("ANTHROPIC_API_KEY"));
    for other in ["none", "", "OpenAI", "openai "] {
        assert_eq!(api_key_env_var(other), None, "{other}");
        // An unknown provider is never asked for a key, whatever is set.
        assert_eq!(select_api_key(other, |_| Some("k".to_owned())).unwrap(), None);
    }
}

#[test]
fn mode_defaults_to_recommend_and_apply_enables_apply() {
    // Safe-by-default: the binary must never mutate unless apply is explicitly requested, so a
    // direct run or an omitted Helm value can't patch a workload.
    let cfg = Config::default();
    assert_eq!(cfg.mode, OperatingMode::Recommend);
    assert!(!cfg.apply_enabled(), "the default mode must never enable apply");

    let cfg = Config { mode: OperatingMode::Recommend, ..Config::default() };
    assert_eq!(cfg.mode, OperatingMode::Recommend);
    assert!(!cfg.apply_enabled(), "recommend mode must never enable apply");

    let cfg = Config { mode: OperatingMode::Apply, ..Config::default() };
    assert_eq!(cfg.mode, OperatingMode::Apply);
    assert!(cfg.apply_enabled(), "apply mode enables apply");
}

#[test]
fn llm_endpoint_defaults_and_overrides() {
    let cfg = Config::default();
    assert!(cfg.llm_base_url.is_none(), "base URL defaults to the provider's real endpoint");
    assert_eq!(cfg.llm_timeout(), 30);

    let cfg = Config {
        llm_base_url: Some("http://prom-proxy:8080".to_owned()),
        llm_timeout_seconds: 5,
        ..Config::default()
    };
    assert_eq!(cfg.llm_base_url.as_deref(), Some("http://prom-proxy:8080"));
    assert_eq!(cfg.llm_timeout(), 5);
}

#[test]
fn hardening_defaults() {
    let cfg = Config::default();
    assert!(cfg.prometheus_url.is_empty());
    assert_eq!(cfg.metrics_window_days, 14);
    assert!(cfg.promql_cpu.is_none());
    assert_eq!(cfg.probation_window_minutes, 45);
    assert!(cfg.rollback_enabled);
    assert!((f(cfg.health_cpu_margin) - 0.15).abs() < f64::EPSILON);
    assert!(cfg.enable_leader_election);
    assert_eq!(cfg.lease_name, "openhpa-leader");
}

#[test]
fn forecasting_defaults_off_with_sane_params() {
    let cfg = Config::default();
    assert!(!cfg.enable_forecasting);
    let params = cfg.forecast_params();
    assert_eq!(params.min_history_days, 14);
    assert_eq!(params.bin_minutes, 60);
    assert!((f(params.periodicity_threshold) - 0.3).abs() < f64::EPSILON);
    assert_eq!(params.quantile, s(0.95));
}

#[test]
fn forecast_quantile_is_clamped() {
    let cfg = Config { forecast_quantile: s(1.5), ..Config::default() };
    assert!((f(cfg.forecast_params().quantile) - 1.0).abs() < f64::EPSILON);
    for (given, used) in [(-0.5, 0.0), (0.0, 0.0), (0.7, 0.7), (1.0, 1.0), (f64::INFINITY, 1.0)] {
        let cfg = Config { forecast_quantile: s(given), ..Config::default() };
        assert_eq!(f(cfg.forecast_params().quantile), used);
    }
    let nan = Config { forecast_quantile: s(f64::NAN), ..Config::default() };
    assert!(f(nan.forecast_params().quantile).is_nan());
}

#[test]
fn llm_concurrency_defaults_and_clamps_to_at_least_one() {
    let cfg = Config::default();
    assert_eq!(cfg.llm_concurrency(), 4);

    let cfg = Config { llm_concurrency: 0, ..Config::default() };
    assert_eq!(cfg.llm_concurrency(), 1);
}

#[test]
fn analysis_budget_defaults_to_one_interval() {
    let cfg = Config { interval_seconds: 120, ..Config::default() };
    assert_eq!(cfg.analysis_budget(), 120);

    let cfg = Config { analysis_budget_seconds: Some(30), ..Config::default() };
    assert_eq!(cfg.analysis_budget(), 30);
}

#[test]
fn cost_per_replica_defaults_to_30_and_rejects_nonpositive_values() {
    let cfg = Config::default();
    assert!((f(cfg.cost_per_replica_usd_monthly().unwrap()) - 30.0).abs() < f64::EPSILON);

    let cfg = Config { cost_per_replica_usd_monthly: s(55.5), ..Config::default() };
    assert!((f(cfg.cost_per_replica_usd_monthly().unwrap()) - 55.5).abs() < f64::EPSILON);

    for (bad, text) in [(0.0, "0"), (-12.5, "-12.5"), (-0.0, "-0"), (f64::NAN, "NaN")] {
        let cfg = Config { cost_per_replica_usd_monthly: s(bad), ..Config::default() };
        let err = cfg.cost_per_replica_usd_monthly().unwrap_err();
        assert_eq!(err, ConfigError::NonPositiveCost(s(bad)));
        let message = err.message(text);
        assert!(message.contains("must be > 0"), "{message}");
        assert!(message.contains(text), "{message}");
    }
}

#[test]
fn probation_window_has_a_positive_minimum() {
    let cfg = Config { probation_window_minutes: 0, ..Config::default() };
    assert_eq!(cfg.probation_window(), 60);
    assert_eq!(Config::default().probation_window(), 45 * 60);
    let long = Config { probation_window_minutes: u32::MAX, ..Config::default() };
    assert_eq!(long.probation_window(), i64::from(u32::MAX) * 60);
}

#[test]
fn namespaces_split_trims_and_drops_empties() {
    let cfg = Config { watch_namespaces: "default, prod ,,api".to_owned(), ..Config::default() };
    assert_eq!(
        cfg.namespaces(),
        vec!["default".to_owned(), "prod".to_owned(), "api".to_owned()]
    );
}

#[test]
fn the_lease_namespace_falls_back_to_the_own_one() {
    assert_eq!(resolve_namespace("ops", Some("own".to_owned())), "ops");
    assert_eq!(resolve_namespace("", Some(" own\n".to_owned())), "own");
    assert_eq!(resolve_namespace("", Some(" \n".to_owned())), "default");
    assert_eq!(resolve_namespace("", None), "default");
}

#[test]
fn default_bits_are_the_documented_numbers() {
    let cfg = Config::default();
    assert_eq!(cfg.health_cpu_margin, s(0.15));
    assert_eq!(cfg.forecast_quantile, s(0.95));
    assert_eq!(cfg.periodicity_threshold, s(0.3));
    assert_eq!(cfg.cost_per_replica_usd_monthly, s(30.0));
    assert_eq!(openhpa::config::ONE, 1.0f64.to_bits());
}
