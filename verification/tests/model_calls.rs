use openhpa::backend::{
    backoff, retry_step, rules_only_analysis, rules_only_output, BackendError, LlmBackend,
    RetryStep, MAX_ATTEMPTS,
};
use openhpa::domain::{
    Candidate, CandidateKind, LlmAnalysisOutput, LlmRecommendationItem, RiskLevel, WorkloadConfig,
};
use openhpa::field_map::FieldMap;
use openhpa::json::{Json, JsonNumber};
use openhpa::llm::{build_prompt, llm_payload, parse_failure, ParseError};
use openhpa::sample::Sample;
use serde::de::{self, Deserialize};
use serde_json::Value;

const RESPONSE: &str = r#"{
      "recommendations": [
        {"candidate_kind": "idle_window", "apply": true, "reasoning": "nightly idle", "risk": "low", "projected_savings_usd_monthly": 1240}
      ],
      "overall_risk": "low",
      "executive_summary": "overprovisioned at night"
    }"#;

/// A model's answer, decoded strictly: every field but the savings must be there, with its type,
/// and each kind and risk level must be a known one.
struct Decoded(LlmAnalysisOutput);

fn text<E: de::Error>(value: &Value, field: &'static str) -> Result<String, E> {
    match value.get(field) {
        Some(Value::String(s)) => Ok(s.clone()),
        Some(_) => Err(E::custom("expected a string")),
        None => Err(E::missing_field(field)),
    }
}

fn flag<E: de::Error>(value: &Value, field: &'static str) -> Result<bool, E> {
    match value.get(field) {
        Some(Value::Bool(b)) => Ok(*b),
        Some(_) => Err(E::custom("expected a boolean")),
        None => Err(E::missing_field(field)),
    }
}

fn risk<E: de::Error>(value: &Value, field: &'static str) -> Result<RiskLevel, E> {
    let name: String = text(value, field)?;
    [RiskLevel::Low, RiskLevel::Medium, RiskLevel::High]
        .into_iter()
        .find(|r| r.as_str() == name)
        .ok_or_else(|| E::unknown_variant(&name, &["low", "medium", "high"]))
}

const KINDS: [(&str, CandidateKind); 5] = [
    ("idle_window", CandidateKind::IdleWindow),
    ("scale_lag", CandidateKind::ScaleLag),
    ("overprovisioned", CandidateKind::Overprovisioned),
    ("thrashing", CandidateKind::Thrashing),
    ("predictable_peak", CandidateKind::PredictablePeak),
];

fn judged<E: de::Error>(value: &Value) -> Result<LlmRecommendationItem, E> {
    let name: String = text(value, "candidate_kind")?;
    let (_, candidate_kind) = KINDS
        .into_iter()
        .find(|(known, _)| *known == name)
        .ok_or_else(|| E::custom(format!("unknown variant `{name}`")))?;
    let projected_savings_usd_monthly = match value.get("projected_savings_usd_monthly") {
        None | Some(Value::Null) => None,
        Some(n) => {
            let usd = n.as_f64().ok_or_else(|| E::custom("expected a number"))?;
            Some(Sample { bits: usd.to_bits() })
        }
    };
    Ok(LlmRecommendationItem {
        candidate_kind,
        apply: flag(value, "apply")?,
        reasoning: text(value, "reasoning")?,
        risk: risk(value, "risk")?,
        projected_savings_usd_monthly,
    })
}

impl<'de> de::Deserialize<'de> for Decoded {
    fn deserialize<D: de::Deserializer<'de>>(deserializer: D) -> Result<Self, D::Error> {
        let value = Value::deserialize(deserializer)?;
        let items = match value.get("recommendations") {
            Some(Value::Array(items)) => items,
            Some(_) => return Err(de::Error::custom("expected an array")),
            None => return Err(de::Error::missing_field("recommendations")),
        };
        let mut recommendations = Vec::new();
        for item in items {
            recommendations.push(judged(item)?);
        }
        Ok(Self(LlmAnalysisOutput {
            recommendations,
            overall_risk: risk(&value, "overall_risk")?,
            executive_summary: text(&value, "executive_summary")?,
        }))
    }
}

fn decode(text: &str) -> Result<LlmAnalysisOutput, ParseError> {
    let payload = llm_payload(text);
    match serde_json::from_str::<Decoded>(&payload) {
        Ok(Decoded(output)) => Ok(output),
        Err(e) => Err(parse_failure(e.to_string(), &payload)),
    }
}

fn config() -> WorkloadConfig {
    WorkloadConfig {
        min_replicas: 10,
        max_replicas: 40,
        target_cpu_pct: 70,
        scale_down_cooldown_s: 300,
    }
}

fn candidate(kind: CandidateKind, description: &str) -> Candidate {
    Candidate {
        kind,
        description: description.to_owned(),
        evidence: FieldMap::new(),
        proposed_diff: FieldMap::new(),
        schedule: None,
    }
}

#[test]
fn parses_bare_json() {
    let out = decode(RESPONSE).unwrap();
    assert_eq!(out.recommendations.len(), 1);
    assert_eq!(out.overall_risk, RiskLevel::Low);
    let savings = out.recommendations[0].projected_savings_usd_monthly;
    assert_eq!(savings.map(|usd| f64::from_bits(usd.bits)), Some(1240.0));
    assert_eq!(out.recommendations[0].candidate_kind, CandidateKind::IdleWindow);
    assert_eq!(llm_payload(RESPONSE), RESPONSE);
}

#[test]
fn parses_fenced_json() {
    let fenced = format!("```json\n{RESPONSE}\n```");
    let out = decode(&fenced).unwrap();
    assert_eq!(out.executive_summary, "overprovisioned at night");
    assert_eq!(llm_payload(&fenced), RESPONSE);
    assert_eq!(llm_payload(&format!("  ```\n{RESPONSE}```  ")), RESPONSE);
    assert_eq!(llm_payload("```json"), "");
    assert_eq!(llm_payload("``` ``` "), "");
}

#[test]
fn rejects_garbage() {
    let err = decode("not json at all").unwrap_err();
    assert!(matches!(err, ParseError::Json { .. }));
    let ParseError::Json { source, snippet } = &err;
    assert_eq!(snippet, "not json at all");
    assert_eq!(err.message(), format!("failed to parse LLM output: {source}: not json at all"));
}

#[test]
fn rejects_json_of_another_shape() {
    for (from, to) in [
        ("\"apply\": true", "\"apply\": \"yes\""),
        ("\"risk\": \"low\"", "\"risk\": \"none\""),
        ("idle_window", "idle_windows"),
        ("\"reasoning\": \"nightly idle\", ", ""),
        ("\"overall_risk\": \"low\",", ""),
        ("1240", "\"1240\""),
    ] {
        let altered = RESPONSE.replace(from, to);
        assert_ne!(altered, RESPONSE);
        let err = decode(&altered).err().expect("rejected");
        let ParseError::Json { snippet, .. } = &err;
        assert!(altered.starts_with(snippet.as_str()));
    }
    // Only the savings may be left out.
    let unpriced = RESPONSE.replace(", \"projected_savings_usd_monthly\": 1240", "");
    let out = decode(&unpriced).unwrap();
    assert_eq!(out.recommendations[0].projected_savings_usd_monthly, None);
}

#[test]
fn a_long_payload_is_cut_in_the_error() {
    let long = "\u{e9}".repeat(300);
    let ParseError::Json { snippet, .. } = parse_failure("bad".to_owned(), &long);
    assert_eq!(snippet, "\u{e9}".repeat(200));
}

#[test]
fn prompt_contains_workload_and_candidates() {
    let candidates = vec![candidate(CandidateKind::IdleWindow, "idle")];
    let (system, user) = build_prompt("demo/web", &config(), &candidates, "30");
    assert!(system.contains("Kubernetes autoscaling expert"));
    assert!(user.contains("demo/web"));
    assert!(user.contains("idle_window"));
    assert!(user.starts_with(
        "WORKLOAD: demo/web\nCURRENT CONFIG:\n  min_replicas: 10\n  max_replicas: 40\n  \
         target_cpu: 70%\n  scale_down_cooldown: 300s\n\nCANDIDATES:\n  1. idle_window: idle\n\n\
         OUTPUT STRICT JSON matching:\n"
    ));
}

#[test]
fn prompt_prices_savings_with_the_configured_replica_cost() {
    let (system, _) = build_prompt("demo/web", &config(), &vec![], "42.5");
    assert!(system.contains("$42.5/month"), "prompt must carry the configured cost: {system}");
}

#[test]
fn without_a_model_the_summary_says_so() {
    let candidates = vec![candidate(CandidateKind::Overprovisioned, "p95 low")];
    let out = rules_only_analysis(&candidates);
    assert_eq!(out.executive_summary, "Rule-based recommendation (no LLM configured).");
    assert!(out.recommendations[0].apply);
    assert_eq!(out.recommendations[0].reasoning, "p95 low");
}

#[test]
fn rules_only_applies_all_candidates() {
    let candidates = vec![candidate(CandidateKind::Overprovisioned, "p95 low")];
    let out = rules_only_output(&candidates, "Rule-based recommendation (no LLM configured).");
    assert_eq!(out.recommendations.len(), 1);
    assert!(out.recommendations[0].apply);
    assert_eq!(out.recommendations[0].candidate_kind, CandidateKind::Overprovisioned);
    assert_eq!(out.recommendations[0].reasoning, "p95 low");
    assert_eq!(out.overall_risk, RiskLevel::Low);
    assert_eq!(out.executive_summary, "Rule-based recommendation (no LLM configured).");
}

fn build(
    provider: &str,
    model: &str,
    key: Option<&str>,
    base_url: Option<&str>,
) -> Result<LlmBackend, BackendError> {
    LlmBackend::from_config(
        provider,
        model,
        key.map(str::to_owned),
        base_url.map(str::to_owned),
    )
}

#[test]
fn from_config_rejects_unknown_provider() {
    let err = build("grok", "x", None, None).err().unwrap();
    assert!(err.message().contains("unknown llm provider"));
    assert_eq!(err, BackendError::UnknownProvider("grok".to_owned()));
}

#[test]
fn openai_requires_key() {
    let err = build("openai", "gpt-4o-mini", None, None).err().unwrap();
    assert!(err.message().contains("requires an API key"));
    assert_eq!(err, BackendError::MissingKey("openai".to_owned()));
}

#[test]
fn debug_never_leaks_the_api_key() {
    // A stray print of the backend (or anything embedding it) must not print the key.
    let backend = build("anthropic", "opus-mini", Some("super-secret-key"), None)
        .ok()
        .expect("anthropic backend builds");
    let rendered = backend.describe();
    assert!(!rendered.contains("super-secret-key"), "api key leaked into Debug: {rendered}");
    assert!(rendered.contains("<redacted>"), "{rendered}");
    assert_eq!(
        rendered,
        "Anthropic { model: \"opus-mini\", base_url: \"https://api.anthropic.com\", api_key: \
         \"<redacted>\" }"
    );
    let escaped = build("openai", "a\"b\n", Some("k"), None).ok().unwrap().describe();
    assert!(escaped.starts_with("OpenAi { model: \"a\\\"b\\n\", "), "{escaped}");
    assert_eq!(build("none", "m", None, None).ok().unwrap().describe(), "RulesOnly");
}

#[test]
fn openai_uses_the_configured_base_url_trimmed() {
    let backend = build("openai", "gpt-4o-mini", Some("k"), Some("http://127.0.0.1:9999/"));
    let Ok(LlmBackend::OpenAi { base_url, .. }) = backend else { panic!("expected OpenAi") };
    assert_eq!(base_url, "http://127.0.0.1:9999");
}

#[test]
fn backends_default_to_the_real_api_base_urls() {
    let openai = build("openai", "m", Some("k"), None);
    let Ok(LlmBackend::OpenAi { base_url, .. }) = openai else { panic!("expected OpenAi") };
    assert_eq!(base_url, "https://api.openai.com");

    // An empty override falls back to the default rather than producing a malformed URL.
    let anthropic = build("anthropic", "m", Some("k"), Some("  "));
    let Ok(LlmBackend::Anthropic { base_url, .. }) = anthropic else {
        panic!("expected Anthropic")
    };
    assert_eq!(base_url, "https://api.anthropic.com");
}

fn to_value(json: &Json) -> Value {
    match json {
        Json::Null => Value::Null,
        Json::Bool(b) => Value::Bool(*b),
        Json::Number(JsonNumber::Unsigned(u)) => Value::from(*u),
        Json::Number(JsonNumber::Negative(i)) => Value::from(*i),
        Json::Number(JsonNumber::Float(x)) => Value::from(f64::from_bits(x.bits)),
        Json::Str(s) => Value::String(s.clone()),
        Json::Array(items) => Value::Array(items.iter().map(to_value).collect()),
        Json::Object(members) => {
            Value::Object(members.iter().map(|(k, v)| (k.clone(), to_value(v))).collect())
        }
    }
}

fn from_value(value: &Value) -> Json {
    match value {
        Value::Null => Json::Null,
        Value::Bool(b) => Json::Bool(*b),
        Value::Number(n) => Json::Number(JsonNumber::Unsigned(n.as_u64().unwrap())),
        Value::String(t) => Json::Str(t.clone()),
        Value::Array(items) => Json::Array(items.iter().map(from_value).collect()),
        Value::Object(members) => {
            Json::Object(members.iter().map(|(k, v)| (k.clone(), from_value(v))).collect())
        }
    }
}

fn json(text: &str) -> Json {
    from_value(&serde_json::from_str::<Value>(text).unwrap())
}

#[test]
fn each_provider_is_asked_in_its_own_form() {
    let openai = build("openai", "m", Some("k"), None).ok().unwrap();
    let request = openai.complete("sys", "usr").unwrap();
    assert_eq!(request.url, "https://api.openai.com/v1/chat/completions");
    assert_eq!(request.bearer.as_deref(), Some("k"));
    assert!(request.headers.is_empty());
    let body = to_value(&request.body);
    assert_eq!(body["model"], "m");
    assert_eq!(body["messages"][0]["role"], "system");
    assert_eq!(body["messages"][1]["content"], "usr");

    let anthropic = build("anthropic", "m", Some("k"), Some("http://p/")).ok().unwrap();
    let request = anthropic.complete("sys", "usr").unwrap();
    assert_eq!(request.url, "http://p/v1/messages");
    assert_eq!(request.bearer, None);
    assert_eq!(
        request.headers,
        vec![
            ("x-api-key".to_owned(), "k".to_owned()),
            ("anthropic-version".to_owned(), "2023-06-01".to_owned()),
        ]
    );
    let body = to_value(&request.body);
    assert_eq!(body["max_tokens"], 1024);
    assert_eq!(body["system"], "sys");
    assert_eq!(body["messages"].as_array().unwrap().len(), 1);

    assert!(LlmBackend::RulesOnly.complete("sys", "usr").is_none());
}

#[test]
fn the_answer_is_found_in_each_form() {
    let openai = build("openai", "m", Some("k"), None).ok().unwrap();
    let anthropic = build("anthropic", "m", Some("k"), None).ok().unwrap();
    let chat = json(r#"{"choices": [{"message": {"role": "assistant", "content": "hi"}}]}"#);
    let message = json(r#"{"content": [{"type": "text", "text": "ho"}]}"#);
    assert_eq!(openai.answer(&chat), Ok("hi".to_owned()));
    assert_eq!(anthropic.answer(&message), Ok("ho".to_owned()));
    assert_eq!(
        openai.answer(&json(r#"{"choices": []}"#)),
        Err("openai response had no message content".to_owned())
    );
    assert_eq!(
        anthropic.answer(&chat),
        Err("anthropic response had no text content".to_owned())
    );
    assert_eq!(LlmBackend::RulesOnly.answer(&chat), Err("no LLM configured".to_owned()));
}

#[test]
fn a_429_or_5xx_is_retried_until_the_last_attempt() {
    for status in [429, 500, 503, 599] {
        assert_eq!(
            retry_step(1, status, "x", "openai", "", 1_000),
            RetryStep::Retry { wait_ms: 500, attempt: 2 }
        );
        assert_eq!(
            retry_step(2, status, "x", "openai", "", 1_249),
            RetryStep::Retry { wait_ms: 1249, attempt: 3 }
        );
    }
    assert_eq!(
        retry_step(MAX_ATTEMPTS, 429, "429 Too Many Requests", "openai", "quota", 0),
        RetryStep::Fail("openai API returned 429 Too Many Requests: quota".to_owned())
    );
}

#[test]
fn success_is_decoded_and_other_statuses_fail_at_once() {
    assert_eq!(retry_step(1, 200, "200 OK", "openai", "", 0), RetryStep::Done);
    assert_eq!(retry_step(3, 299, "299", "openai", "", 0), RetryStep::Done);
    let long = "y".repeat(400);
    assert_eq!(
        retry_step(1, 400, "400 Bad Request", "anthropic", &long, 0),
        RetryStep::Fail(format!("anthropic API returned 400 Bad Request: {}", "y".repeat(300)))
    );
    assert!(matches!(retry_step(1, 301, "301", "openai", "", 0), RetryStep::Fail(_)));
}

#[test]
fn the_wait_doubles() {
    assert_eq!(backoff(1, 0), 500);
    assert_eq!(backoff(2, 0), 1000);
    assert_eq!(backoff(3, 999_999_999), 2000 + 249);
    assert_eq!(backoff(56, 0), 500 << 55);
}
