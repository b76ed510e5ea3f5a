//! The operator's configuration.
use vstd::prelude::*;
use vstd::string::*;

use crate::domain::ESTIMATED_REPLICA_MONTHLY_USD;
use crate::forecast::ForecastParams;
use crate::sample::Sample;
#[allow(unused_imports)]
use crate::text::{pieces_of, trimmed, views};
use crate::text::{split_on, text_eq, trim};

verus! {

/// The bits of 1.0.
pub const ONE: u64 = 0x3FF0_0000_0000_0000;

/// Whether the operator may mutate cluster autoscaling config. `Recommend` only ever emits
/// `ScalingRecommendation` CRDs - it never patches a workload, even an approved one (the safe
/// default for a first rollout). `Apply` additionally patches approved targets.
#[derive(Debug, Clone, Copy, PartialEq, Eq, Structural)]
pub enum OperatingMode {
    Recommend,
    Apply,
}

#[derive(Debug)]
pub struct Config {
    /// Comma-separated namespaces to watch; empty = all.
    pub watch_namespaces: String,
    /// Operating mode: `recommend` (only emit recommendations, never mutate - even an approved CR)
    /// or `apply` (also patch approved targets). Recommend-only is the safe rollout default.
    pub mode: OperatingMode,
    /// LLM backend: openai | anthropic | none (rules-only).
    pub llm_provider: String,
    pub llm_model: String,
    /// Override the LLM API base URL (empty = the provider's real endpoint); point at an
    /// in-cluster proxy, a local-model sidecar, or a mock.
    pub llm_base_url: Option<String>,
    /// Per-request timeout (seconds) for LLM calls so a stalled model can't stretch a reconcile
    /// pass.
    pub llm_timeout_seconds: u64,
    /// Max concurrent LLM calls during the analysis pass (values below 1 are treated as 1).
    pub llm_concurrency: u32,
    /// Time budget (seconds) for the analysis pass's LLM phase; unset = one reconcile interval.
    /// Workloads not reached before the budget elapses are analyzed on the next tick.
    pub analysis_budget_seconds: Option<u64>,
    /// Estimated monthly cost (USD) of one always-on replica, pricing the projected-savings
    /// estimates (rules fallback + LLM prompt guidance). Must be > 0.
    pub cost_per_replica_usd_monthly: Sample,
    /// Seconds between reconcile ticks.
    pub interval_seconds: u64,
    /// Prometheus base URL for metric history; empty falls back to slow HPA-status accumulation.
    pub prometheus_url: String,
    /// Days of metric history to backfill from Prometheus per workload.
    pub metrics_window_days: u32,
    /// Sampling step (seconds) for Prometheus history queries.
    pub metrics_step_seconds: u64,
    /// PromQL template overrides (`{ns}` / `{deploy}` placeholders); default to
    /// kube-state-metrics.
    pub promql_cpu: Option<String>,
    pub promql_replicas: Option<String>,
    pub promql_queue: Option<String>,
    /// Minutes an applied change stays on probation before the verify pass judges its health.
    pub probation_window_minutes: u32,
    /// Auto-revert a probationary change when health degrades (the safety net).
    pub rollback_enabled: bool,
    /// Headroom over the target CPU fraction tolerated before a change is judged degraded.
    pub health_cpu_margin: Sample,
    /// Elect a single leader so `replicas: 2+` never double-apply; only the leader mutates.
    pub enable_leader_election: bool,
    /// Name of the coordination.k8s.io Lease used for leader election.
    pub lease_name: String,
    /// Namespace for the leader Lease; empty = the operator's own namespace.
    pub lease_namespace: String,
    /// Forecast recurring peaks and pre-scale the floor ahead of them (off until validated).
    pub enable_forecasting: bool,
    /// Minimum days of history before a forecast is attempted (needs >= 2 weekly cycles).
    pub forecast_min_history_days: u32,
    /// Seasonal grid bin size in minutes (168 hourly bins per week by default).
    pub forecast_bin_minutes: u32,
    /// Quantile of per-bin demand used for the forecast (headroom for safety).
    pub forecast_quantile: Sample,
    /// Minimum lag-24h/7d autocorrelation for a workload to count as periodic (forecast gate).
    pub periodicity_threshold: Sample,
    /// Minutes of head start to raise the floor before each forecasted peak.
    pub prescale_lead_minutes: u32,
    /// Print the ScalingRecommendation CRD as JSON and exit.
    pub print_crd: bool,
}

impl Default for Config {
    /// The configuration without any flag or variable: rules only, all namespaces, and never
    /// mutating, so a direct run or an omitted value can't patch a workload.
    fn default() -> (c: Self)
        ensures
            c.watch_namespaces@ == ""@,
            c.mode == OperatingMode::Recommend,
            c.llm_provider@ == "none"@,
            c.llm_model@ == "gpt-4o-mini"@,
            c.llm_base_url is None,
            c.llm_timeout_seconds == 30,
            c.llm_concurrency == 4,
            c.analysis_budget_seconds is None,
            c.cost_per_replica_usd_monthly == (Sample { bits: ESTIMATED_REPLICA_MONTHLY_USD }),
            c.interval_seconds == 300,
            c.prometheus_url@ == ""@,
            c.metrics_window_days == 14,
            c.metrics_step_seconds == 300,
            c.promql_cpu is None,
            c.promql_replicas is None,
            c.promql_queue is None,
            c.probation_window_minutes == 45,
            c.rollback_enabled,
            c.health_cpu_margin == (Sample { bits: 0x3FC3_3333_3333_3333 }),
            c.enable_leader_election,
            c.lease_name@ == "openhpa-leader"@,
            c.lease_namespace@ == ""@,
            !c.enable_forecasting,
            c.forecast_min_history_days == 14,
            c.forecast_bin_minutes == 60,
            c.forecast_quantile == (Sample { bits: 0x3FEE_6666_6666_6666 }),
            c.periodicity_threshold == (Sample { bits: 0x3FD3_3333_3333_3333 }),
            c.prescale_lead_minutes == 10,
            !c.print_crd,
    {
        Config {
            watch_namespaces: "".to_owned(),
            mode: OperatingMode::Recommend,
            llm_provider: "none".to_owned(),
            llm_model: "gpt-4o-mini".to_owned(),
            llm_base_url: None,
            llm_timeout_seconds: 30,
            llm_concurrency: 4,
            analysis_budget_seconds: None,
            cost_per_replica_usd_monthly: Sample { bits: ESTIMATED_REPLICA_MONTHLY_USD },
            interval_seconds: 300,
            prometheus_url: "".to_owned(),
            metrics_window_days: 14,
            metrics_step_seconds: 300,
            promql_cpu: None,
            promql_replicas: None,
            promql_queue: None,
            probation_window_minutes: 45,
            rollback_enabled: true,
            health_cpu_margin: Sample { bits: 0x3FC3_3333_3333_3333 },
            enable_leader_election: true,
            lease_name: "openhpa-leader".to_owned(),
            lease_namespace: "".to_owned(),
            enable_forecasting: false,
            forecast_min_history_days: 14,
            forecast_bin_minutes: 60,
            forecast_quantile: Sample { bits: 0x3FEE_6666_6666_6666 },
            periodicity_threshold: Sample { bits: 0x3FD3_3333_3333_3333 },
            prescale_lead_minutes: 10,
            print_crd: false,
        }
    }
}

/// Why a configuration is refused.
#[derive(Debug, PartialEq, Eq)]
pub enum ConfigError {
    /// The variable that holds the provider's API key is not set.
    MissingKey { provider: String, var: String },
    /// The cost of a replica is not above zero.
    NonPositiveCost(Sample),
}

impl ConfigError {
    /// The error as it is shown. `cost_text` is the printed cost that was refused.
    pub fn message(&self, cost_text: &str) -> (m: String)
        ensures
            m@ == match *self {
                ConfigError::MissingKey { provider, var } => "llm provider '"@ + provider@
                    + "' requires the "@ + var@ + " environment variable to be set"@,
                ConfigError::NonPositiveCost(_) =>
                    "--cost-per-replica-usd-monthly must be > 0 (got "@ + cost_text@ + ")"@,
            },
    {
        match self {
            ConfigError::MissingKey { provider, var } => {
                let mut m = "llm provider '".to_owned();
                m.append(provider.as_str());
                m.append("' requires the ");
                m.append(var.as_str());
                m.append(" environment variable to be set");
                m
            },
            ConfigError::NonPositiveCost(_) => {
                let mut m = "--cost-per-replica-usd-monthly must be > 0 (got ".to_owned();
                m.append(cost_text);
                m.append(")");
                m
            },
        }
    }
}

/// The trimmed pieces that are not empty, in order.
pub open spec fn named(pieces: Seq<Seq<char>>) -> Seq<Seq<char>>
    decreases pieces.len(),
{
    if pieces.len() == 0 {
        Seq::empty()
    } else {
        let before = named(pieces.drop_last());
        let here = trimmed(pieces.last());
        if here.len() > 0 {
            before.push(here)
        } else {
            before
        }
    }
}

/// `x` kept within 0 and 1; what is no number stays none.
pub open spec fn unit_clamped(x: Sample) -> Sample {
    if x.lt(Sample { bits: 0 }) {
        Sample { bits: 0 }
    } else if (Sample { bits: ONE }).lt(x) {
        Sample { bits: ONE }
    } else {
        x
    }
}

fn unit_clamp(x: Sample) -> (y: Sample)
    ensures
        y == unit_clamped(x),
{
    let zero = Sample { bits: 0 };
    let one = Sample { bits: ONE };
    if x.below(zero) {
        zero
    } else if one.below(x) {
        one
    } else {
        x
    }
}

impl Config {
    /// The watched namespaces; none = all.
    pub fn namespaces(&self) -> (names: Vec<String>)
        ensures
            views(names@) == named(pieces_of(self.watch_namespaces@, ',')),
    {
        let parts = split_on(self.watch_namespaces.as_str(), ',');
        let ghost all = views(parts@);
        let mut names: Vec<String> = Vec::new();
        let mut i: usize = 0;
        assert(views(names@) =~= named(all.take(0)));
        while i < parts.len()
            invariant
                i <= parts@.len(),
                all == views(parts@),
                views(names@) == named(all.take(i as int)),
            decreases parts@.len() - i,
        {
            assert(all.take(i + 1).drop_last() == all.take(i as int));
            assert(all.take(i + 1).last() == parts@[i as int]@);
            let name = trim(parts[i].as_str());
            if name.as_str().unicode_len() > 0 {
                let ghost before = names@;
                names.push(name);
                assert(views(names@) =~= views(before).push(name@));
            }
            i += 1;
        }
        assert(all.take(all.len() as int) == all);
        names
    }

    /// Per-request LLM timeout, in seconds.
    pub fn llm_timeout(&self) -> (s: u64)
        ensures
            s == self.llm_timeout_seconds,
    {
        self.llm_timeout_seconds
    }

    /// LLM fan-out width for the analysis pass, clamped so at least one call is in flight.
    pub fn llm_concurrency(&self) -> (n: usize)
        ensures
            n == if self.llm_concurrency < 1 {
                1
            } else {
                self.llm_concurrency as int
            },
    {
        if self.llm_concurrency < 1 {
            1
        } else {
            self.llm_concurrency as usize
        }
    }

    /// Analysis-pass LLM time budget, in seconds; defaults to one reconcile interval so a cold
    /// pass over many workloads can't stretch a tick unboundedly.
    pub fn analysis_budget(&self) -> (s: u64)
        ensures
            s == match self.analysis_budget_seconds {
                Some(budget) => budget,
                None => self.interval_seconds,
            },
    {
        match self.analysis_budget_seconds {
            Some(budget) => budget,
            None => self.interval_seconds,
        }
    }

    /// Whether the operator may patch workloads. `false` in `recommend` mode (never mutate).
    pub fn apply_enabled(&self) -> (b: bool)
        ensures
            b == (self.mode == OperatingMode::Apply),
    {
        self.mode == OperatingMode::Apply
    }

    /// The forecaster's tuning. The quantile is clamped so a misconfigured one can't reach past
    /// the data.
    pub fn forecast_params(&self) -> (p: ForecastParams)
        ensures
            p == (ForecastParams {
                min_history_days: self.forecast_min_history_days as i64,
                bin_minutes: self.forecast_bin_minutes,
                quantile: unit_clamped(self.forecast_quantile),
                periodicity_threshold: self.periodicity_threshold,
                prescale_lead_minutes: self.prescale_lead_minutes as i64,
            }),
    {
        ForecastParams {
            min_history_days: self.forecast_min_history_days as i64,
            bin_minutes: self.forecast_bin_minutes,
            quantile: unit_clamp(self.forecast_quantile),
            periodicity_threshold: self.periodicity_threshold,
            prescale_lead_minutes: self.prescale_lead_minutes as i64,
        }
    }

    /// Probation window in seconds, clamped to a positive minimum so apply and verify can't both
    /// run in one tick and rubber-stamp a change with zero post-apply data.
    pub fn probation_window(&self) -> (s: i64)
        ensures
            s == 60 * if self.probation_window_minutes < 1 {
                1
            } else {
                self.probation_window_minutes as int
            },
            s >= 60,
    {
        if self.probation_window_minutes < 1 {
            60
        } else {
            self.probation_window_minutes as i64 * 60
        }
    }

    /// Per-replica monthly cost for savings estimates; a zero or negative cost is a
    /// misconfiguration, not a clampable value, so it is rejected at startup.
    pub fn cost_per_replica_usd_monthly(&self) -> (r: Result<Sample, ConfigError>)
        ensures
            r == if self.cost_per_replica_usd_monthly.positive() {
                Ok::<Sample, ConfigError>(self.cost_per_replica_usd_monthly)
            } else {
                Err(ConfigError::NonPositiveCost(self.cost_per_replica_usd_monthly))
            },
    {
        if self.cost_per_replica_usd_monthly.above_zero() {
            Ok(self.cost_per_replica_usd_monthly)
        } else {
            Err(ConfigError::NonPositiveCost(self.cost_per_replica_usd_monthly))
        }
    }
}

/// The variable that holds a provider's API key.
pub open spec fn key_var(provider: Seq<char>) -> Option<Seq<char>> {
    if provider == "openai"@ {
        Some("OPENAI_API_KEY"@)
    } else if provider == "anthropic"@ {
        Some("ANTHROPIC_API_KEY"@)
    } else {
        None
    }
}

/// Env var holding the API key for a provider; `None` for the keyless `none` / unknown backends.
pub fn api_key_env_var(provider: &str) -> (r: Option<&'static str>)
    ensures
        match r {
            Some(var) => key_var(provider@) == Some(var@),
            None => key_var(provider@) is None,
        },
{
    if text_eq(provider, "openai") {
        Some("OPENAI_API_KEY")
    } else if text_eq(provider, "anthropic") {
        Some("ANTHROPIC_API_KEY")
    } else {
        None
    }
}

/// Resolve the API key for `provider` via `lookup`, keyed strictly off the configured provider
/// (not env-var precedence), erroring if the matching var is unset. `none`/unknown providers need
/// no key (`Ok(None)`); the LLM backend rejects an unknown provider downstream.
pub fn select_api_key(provider: &str, lookup: impl Fn(&str) -> Option<String>) -> (r: Result<
    Option<String>,
    ConfigError,
>)
    requires
        forall|var: &str| call_requires(lookup, (var,)),
    ensures
        match key_var(provider@) {
            None => r == Ok::<Option<String>, ConfigError>(None),
            Some(name) => exists|var: &str, found: Option<String>|
                var@ == name && #[trigger] call_ensures(lookup, (var,), found) && match found {
                    Some(key) => r == Ok::<Option<String>, ConfigError>(Some(key)),
                    None => r matches Err(ConfigError::MissingKey { provider: p, var: v }) && p@
                        == provider@ && v@ == name,
                },
        },
{
    let var = match api_key_env_var(provider) {
        Some(var) => var,
        None => return Ok(None),
    };
    match lookup(var) {
        Some(key) => Ok(Some(key)),
        None => Err(
            ConfigError::MissingKey { provider: provider.to_owned(), var: var.to_owned() },
        ),
    }
}

/// The namespace for the leader Lease: the configured value, else the operator's own namespace (as
/// its service-account file gives it), else `default`.
pub fn resolve_namespace(configured: &str, own: Option<String>) -> (ns: String)
    ensures
        ns@ == if configured@.len() > 0 {
            configured@
        } else {
            match own {
                Some(text) => if trimmed(text@).len() > 0 {
                    trimmed(text@)
                } else {
                    "default"@
                },
                None => "default"@,
            }
        },
{
    if configured.unicode_len() > 0 {
        return configured.to_owned();
    }
    if let Some(text) = own {
        let ns = trim(text.as_str());
        if ns.as_str().unicode_len() > 0 {
            return ns;
        }
    }
    "default".to_owned()
}

/// No provider is ever given another provider's key: each key variable belongs to one provider.
pub proof fn law_keys_belong_to_one_provider(one: Seq<char>, other: Seq<char>)
    requires
        key_var(one) is Some,
        key_var(one) == key_var(other),
    ensures
        one == other,
{
    reveal_strlit("OPENAI_API_KEY");
    reveal_strlit("ANTHROPIC_API_KEY");
    assert("OPENAI_API_KEY"@.len() != "ANTHROPIC_API_KEY"@.len());
}

/// The watched namespaces are the listed names without the white space around them, in order;
/// blank ones are left out.
pub proof fn law_blank_names_are_left_out(pieces: Seq<Seq<char>>)
    ensures
        named(pieces) == pieces.map_values(|p: Seq<char>| trimmed(p)).filter(
            |p: Seq<char>| p.len() > 0,
        ),
    decreases pieces.len(),
{
    reveal(Seq::filter);
    let trim_it = |p: Seq<char>| trimmed(p);
    let keep = |p: Seq<char>| p.len() > 0;
    if pieces.len() > 0 {
        law_blank_names_are_left_out(pieces.drop_last());
        assert(pieces.map_values(trim_it).drop_last() =~= pieces.drop_last().map_values(trim_it));
        assert(pieces.map_values(trim_it).last() == trimmed(pieces.last()));
    } else {
        assert(named(pieces) =~= pieces.map_values(trim_it).filter(keep));
    }
}

/// The quantile is kept where it lies within 0 and 1, and brought to the nearer end where not.
pub proof fn law_quantile_is_clamped(x: Sample)
    ensures
        ({
            let zero = Sample { bits: 0 };
            let one = Sample { bits: 0x3FF0_0000_0000_0000 };
            &&& zero.le(x) && x.le(one) ==> unit_clamped(x) == x
            &&& x.lt(zero) ==> unit_clamped(x) == zero
            &&& one.lt(x) ==> unit_clamped(x) == one
            &&& x.is_nan() ==> unit_clamped(x) == x
        }),
{
}

/// Each provider has its own key variable, and any other needs none.
pub proof fn law_key_variables(provider: Seq<char>)
    ensures
        key_var("openai"@) == Some("OPENAI_API_KEY"@),
        key_var("anthropic"@) == Some("ANTHROPIC_API_KEY"@),
        provider != "openai"@ && provider != "anthropic"@ ==> key_var(provider) is None,
{
    reveal_strlit("openai");
    reveal_strlit("anthropic");
    assert("openai"@.len() != "anthropic"@.len());
}

/// An always-on replica is estimated at 30 dollars a month.
pub proof fn law_replica_cost_estimate()
    ensures
        ESTIMATED_REPLICA_MONTHLY_USD == 0x403E_0000_0000_0000,
{
}

} // verus!
