//! The model backend: which provider, what is sent, how failures are retried, what comes back.
use vstd::prelude::*;
use vstd::string::*;

use vstd::arithmetic::power2::pow2;

use crate::domain::{Candidate, LlmAnalysisOutput, LlmRecommendationItem, RiskLevel};
#[allow(unused_imports)]
use crate::json::{items_view, member_of, members_view, opt_view, text_of, JsonView};
use crate::json::{member_in, put_member, Json};
#[allow(unused_imports)]
use crate::text::{first_chars, trim_end_char, trimmed};
use crate::text::{take_chars, text_eq, trim, trim_end_of};

verus! {

/// Total tries per request (1 initial + retries) for 429/5xx responses. With the per-request
/// timeout this bounds one call to this many timeouts plus ~2s of backoff.
pub const MAX_ATTEMPTS: u32 = 3;

pub const BACKOFF_BASE_MS: u64 = 500;

/// How much of a provider error body to carry into the error message.
pub const ERROR_BODY_MAX_CHARS: usize = 300;

/// The model backend the operator calls for analysis. `RulesOnly` skips the model entirely
/// (air-gapped / no external model). `base_url` is configurable so the backend can point at an
/// in-cluster proxy, a local-model sidecar, or a mock. It has no `Debug`, which would print the
/// API key: [`LlmBackend::describe`] is what may be logged.
pub enum LlmBackend {
    OpenAi { api_key: String, model: String, base_url: String },
    Anthropic { api_key: String, model: String, base_url: String },
    RulesOnly,
}

/// Why a backend could not be configured.
#[derive(Debug, PartialEq, Eq)]
pub enum BackendError {
    MissingKey(String),
    UnknownProvider(String),
}

impl BackendError {
    /// The error as it is shown.
    pub fn message(&self) -> (m: String)
        ensures
            m@ == match *self {
                BackendError::MissingKey(provider) => "llm provider '"@ + provider@
                    + "' requires an API key"@,
                BackendError::UnknownProvider(other) => "unknown llm provider: "@ + other@
                    + " (expected openai|anthropic|none)"@,
            },
    {
        match self {
            BackendError::MissingKey(provider) => {
                let mut m = "llm provider '".to_owned();
                m.append(provider.as_str());
                m.append("' requires an API key");
                m
            },
            BackendError::UnknownProvider(other) => {
                let mut m = "unknown llm provider: ".to_owned();
                m.append(other.as_str());
                m.append(" (expected openai|anthropic|none)");
                m
            },
        }
    }
}

/// What a backend is.
pub ghost enum BackendView {
    OpenAi { api_key: Seq<char>, model: Seq<char>, base_url: Seq<char> },
    Anthropic { api_key: Seq<char>, model: Seq<char>, base_url: Seq<char> },
    RulesOnly,
}

impl View for LlmBackend {
    type V = BackendView;

    open spec fn view(&self) -> BackendView {
        match *self {
            LlmBackend::OpenAi { api_key, model, base_url } => BackendView::OpenAi {
                api_key: api_key@,
                model: model@,
                base_url: base_url@,
            },
            LlmBackend::Anthropic { api_key, model, base_url } => BackendView::Anthropic {
                api_key: api_key@,
                model: model@,
                base_url: base_url@,
            },
            LlmBackend::RulesOnly => BackendView::RulesOnly,
        }
    }
}

/// The base URL in use: the override without white space and trailing slashes, or the provider's
/// own where that leaves nothing.
pub open spec fn base_url_view(given: Option<String>, default: Seq<char>) -> Seq<char> {
    match given {
        Some(url) => {
            let cleaned = trim_end_char(trimmed(url@), '/');
            if cleaned.len() == 0 {
                default
            } else {
                cleaned
            }
        },
        None => default,
    }
}

fn resolve_base_url(given: &Option<String>, default: &str) -> (r: String)
    ensures
        r@ == base_url_view(*given, default@),
{
    match given {
        Some(url) => {
            let cleaned = trim_end_of(trim(url.as_str()).as_str(), '/');
            if cleaned.as_str().unicode_len() == 0 {
                default.to_owned()
            } else {
                cleaned
            }
        },
        None => default.to_owned(),
    }
}

/// What the standard library's `Debug` prints for a text: the text in double quotes, with escapes.
pub uninterp spec fn debug_quoted(s: Seq<char>) -> Seq<char>;

/// `format!("{:?}", s)`: the `Debug` form of a string, which is a function of its characters.
#[verifier::external_body]
fn quoted(s: &str) -> (q: String)
    ensures
        q@ == debug_quoted(s@),
{
    format!("{:?}", s)
}

/// A request to a provider: where it goes, the bearer token where one is sent, the other headers,
/// and the JSON body.
pub struct LlmRequest {
    pub url: String,
    pub bearer: Option<String>,
    pub headers: Vec<(String, String)>,
    pub body: Json,
}

/// One chat message.
pub open spec fn chat_message(role: Seq<char>, content: Seq<char>) -> JsonView {
    JsonView::Object(
        Map::<Seq<char>, JsonView>::empty().insert("role"@, JsonView::Str(role)).insert(
            "content"@,
            JsonView::Str(content),
        ),
    )
}

/// The body of an OpenAI chat completion request.
pub open spec fn openai_body(model: Seq<char>, system: Seq<char>, user: Seq<char>) -> JsonView {
    JsonView::Object(
        Map::<Seq<char>, JsonView>::empty().insert("model"@, JsonView::Str(model)).insert(
            "messages"@,
            JsonView::Array(seq![chat_message("system"@, system), chat_message("user"@, user)]),
        ),
    )
}

/// The body of an Anthropic messages request.
pub open spec fn anthropic_body(model: Seq<char>, system: Seq<char>, user: Seq<char>) -> JsonView {
    JsonView::Object(
        Map::<Seq<char>, JsonView>::empty().insert("model"@, JsonView::Str(model)).insert(
            "max_tokens"@,
            JsonView::Whole(1024),
        ).insert("system"@, JsonView::Str(system)).insert(
            "messages"@,
            JsonView::Array(seq![chat_message("user"@, user)]),
        ),
    )
}

/// Whether a request is the one that a backend sends for a prompt.
pub open spec fn asks(
    request: LlmRequest,
    backend: BackendView,
    system: Seq<char>,
    user: Seq<char>,
) -> bool {
    match backend {
        BackendView::OpenAi { api_key, model, base_url } => {
            &&& request.url@ == base_url + "/v1/chat/completions"@
            &&& request.bearer is Some && request.bearer->0@ == api_key
            &&& request.headers@.len() == 0
            &&& request.body@ == openai_body(model, system, user)
        },
        BackendView::Anthropic { api_key, model, base_url } => {
            &&& request.url@ == base_url + "/v1/messages"@
            &&& request.bearer is None
            &&& request.headers@.len() == 2
            &&& request.headers@[0].0@ == "x-api-key"@ && request.headers@[0].1@ == api_key
            &&& request.headers@[1].0@ == "anthropic-version"@ && request.headers@[1].1@
                == "2023-06-01"@
            &&& request.body@ == anthropic_body(model, system, user)
        },
        BackendView::RulesOnly => false,
    }
}

/// The first item of an optional array.
pub open spec fn first_item(v: Option<JsonView>) -> Option<JsonView> {
    match v {
        Some(JsonView::Array(items)) => if items.len() > 0 {
            Some(items[0])
        } else {
            None
        },
        _ => None,
    }
}

/// The text of a provider's answer: `choices[0].message.content` of a chat completion, or
/// `content[0].text` of a message.
pub open spec fn answer_text(backend: BackendView, response: JsonView) -> Option<Seq<char>> {
    match backend {
        BackendView::OpenAi { .. } => text_of(
            member_of(
                member_of(first_item(member_of(Some(response), "choices"@)), "message"@),
                "content"@,
            ),
        ),
        BackendView::Anthropic { .. } => text_of(
            member_of(first_item(member_of(Some(response), "content"@)), "text"@),
        ),
        BackendView::RulesOnly => None,
    }
}

/// What happens after a provider's response.
#[derive(Debug, PartialEq, Eq)]
pub enum RetryStep {
    /// The request succeeded: decode its body.
    Done,
    /// The request failed for good.
    Fail(String),
    /// Wait, then send the request again as attempt `attempt`.
    Retry { wait_ms: u64, attempt: u32 },
}

/// Whether a status says that sending again may help.
pub open spec fn retryable(status: u16) -> bool {
    status == 429 || 500 <= status < 600
}

fn message_json(role: &str, content: &str) -> (j: Json)
    ensures
        j@ == chat_message(role@, content@),
{
    let mut members: Vec<(String, Json)> = Vec::new();
    put_member(&mut members, "role", Json::text(role));
    put_member(&mut members, "content", Json::text(content));
    Json::Object(members)
}

fn first_of<'a>(j: Option<&'a Json>) -> (r: Option<&'a Json>)
    ensures
        opt_view(r) == first_item(opt_view(j)),
{
    match j {
        Some(j) => match j.as_array() {
            Some(items) => {
                proof {
                    crate::json::lemma_items(items@);
                }
                if items.len() > 0 {
                    Some(&items[0])
                } else {
                    None
                }
            },
            None => None,
        },
        None => None,
    }
}

fn owned_text(j: Option<&Json>) -> (r: Option<String>)
    ensures
        match r {
            Some(s) => text_of(opt_view(j)) == Some(s@),
            None => text_of(opt_view(j)) is None,
        },
{
    match j {
        Some(j) => match j.as_str() {
            Some(s) => Some(s.clone()),
            None => None,
        },
        None => None,
    }
}

impl LlmBackend {
    /// Build a backend. `base_url` overrides the provider's real endpoint (empty/`None` keeps it).
    pub fn from_config(
        provider: &str,
        model: &str,
        api_key: Option<String>,
        base_url: Option<String>,
    ) -> (r: Result<LlmBackend, BackendError>)
        ensures
            if provider@ == "openai"@ {
                match api_key {
                    Some(key) => r matches Ok(b) && b@ == (BackendView::OpenAi {
                        api_key: key@,
                        model: model@,
                        base_url: base_url_view(base_url, "https://api.openai.com"@),
                    }),
                    None => r matches Err(BackendError::MissingKey(p)) && p@ == provider@,
                }
            } else if provider@ == "anthropic"@ {
                match api_key {
                    Some(key) => r matches Ok(b) && b@ == (BackendView::Anthropic {
                        api_key: key@,
                        model: model@,
                        base_url: base_url_view(base_url, "https://api.anthropic.com"@),
                    }),
                    None => r matches Err(BackendError::MissingKey(p)) && p@ == provider@,
                }
            } else if provider@ == "none"@ {
                r matches Ok(b) && b@ == BackendView::RulesOnly
            } else {
                r matches Err(BackendError::UnknownProvider(p)) && p@ == provider@
            },
    {
        if text_eq(provider, "openai") {
            match api_key {
                Some(api_key) => Ok(
                    LlmBackend::OpenAi {
                        api_key,
                        model: model.to_owned(),
                        base_url: resolve_base_url(&base_url, "https://api.openai.com"),
                    },
                ),
                None => Err(BackendError::MissingKey(provider.to_owned())),
            }
        } else if text_eq(provider, "anthropic") {
            match api_key {
                Some(api_key) => Ok(
                    LlmBackend::Anthropic {
                        api_key,
                        model: model.to_owned(),
                        base_url: resolve_base_url(&base_url, "https://api.anthropic.com"),
                    },
                ),
                None => Err(BackendError::MissingKey(provider.to_owned())),
            }
        } else if text_eq(provider, "none") {
            Ok(LlmBackend::RulesOnly)
        } else {
            Err(BackendError::UnknownProvider(provider.to_owned()))
        }
    }

    /// The backend as it may be logged: everything but the API key.
    pub fn describe(&self) -> (s: String)
        ensures
            s@ == description(self@),
    {
        match self {
            LlmBackend::OpenAi { api_key: _, model, base_url } => {
                let mut s = "OpenAi { model: ".to_owned();
                s.append(quoted(model.as_str()).as_str());
                s.append(", base_url: ");
                s.append(quoted(base_url.as_str()).as_str());
                s.append(", api_key: \"<redacted>\" }");
                s
            },
            LlmBackend::Anthropic { api_key: _, model, base_url } => {
                let mut s = "Anthropic { model: ".to_owned();
                s.append(quoted(model.as_str()).as_str());
                s.append(", base_url: ");
                s.append(quoted(base_url.as_str()).as_str());
                s.append(", api_key: \"<redacted>\" }");
                s
            },
            LlmBackend::RulesOnly => "RulesOnly".to_owned(),
        }
    }

    /// The request that asks the model for its judgement; `None` without a model.
    pub fn complete(&self, system: &str, user: &str) -> (r: Option<LlmRequest>)
        ensures
            match r {
                Some(request) => asks(request, self@, system@, user@),
                None => self@ is RulesOnly,
            },
    {
        match self {
            LlmBackend::RulesOnly => None,
            LlmBackend::OpenAi { api_key, model, base_url } => {
                let mut messages: Vec<Json> = Vec::new();
                messages.push(message_json("system", system));
                messages.push(message_json("user", user));
                proof {
                    crate::json::lemma_items(messages@);
                    assert(items_view(messages@) =~= seq![
                        chat_message("system"@, system@),
                        chat_message("user"@, user@),
                    ]);
                }
                let mut body: Vec<(String, Json)> = Vec::new();
                put_member(&mut body, "model", Json::text(model.as_str()));
                put_member(&mut body, "messages", Json::Array(messages));
                let mut url = base_url.clone();
                url.append("/v1/chat/completions");
                Some(
                    LlmRequest {
                        url,
                        bearer: Some(api_key.clone()),
                        headers: Vec::new(),
                        body: Json::Object(body),
                    },
                )
            },
            LlmBackend::Anthropic { api_key, model, base_url } => {
                let mut messages: Vec<Json> = Vec::new();
                messages.push(message_json("user", user));
                proof {
                    crate::json::lemma_items(messages@);
                    assert(items_view(messages@) =~= seq![chat_message("user"@, user@)]);
                }
                let mut body: Vec<(String, Json)> = Vec::new();
                put_member(&mut body, "model", Json::text(model.as_str()));
                put_member(&mut body, "max_tokens", Json::whole(1024));
                put_member(&mut body, "system", Json::text(system));
                put_member(&mut body, "messages", Json::Array(messages));
                let mut url = base_url.clone();
                url.append("/v1/messages");
                let mut headers: Vec<(String, String)> = Vec::new();
                headers.push(("x-api-key".to_owned(), api_key.clone()));
                headers.push(("anthropic-version".to_owned(), "2023-06-01".to_owned()));
                Some(LlmRequest { url, bearer: None, headers, body: Json::Object(body) })
            },
        }
    }

    /// The model's text in a provider's response, or the error that there is none.
    pub fn answer(&self, response: &Json) -> (r: Result<String, String>)
        ensures
            match r {
                Ok(text) => answer_text(self@, response@) == Some(text@),
                Err(e) => answer_text(self@, response@) is None && e@ == match self@ {
                    BackendView::OpenAi { .. } => "openai response had no message content"@,
                    BackendView::Anthropic { .. } => "anthropic response had no text content"@,
                    BackendView::RulesOnly => "no LLM configured"@,
                },
            },
    {
        match self {
            LlmBackend::OpenAi { .. } => {
                let choice = first_of(response.get("choices"));
                match owned_text(member_in(member_in(choice, "message"), "content")) {
                    Some(text) => Ok(text),
                    None => Err("openai response had no message content".to_owned()),
                }
            },
            LlmBackend::Anthropic { .. } => {
                let part = first_of(response.get("content"));
                match owned_text(member_in(part, "text")) {
                    Some(text) => Ok(text),
                    None => Err("anthropic response had no text content".to_owned()),
                }
            },
            LlmBackend::RulesOnly => Err("no LLM configured".to_owned()),
        }
    }
}

/// The backend as it may be logged.
pub open spec fn description(backend: BackendView) -> Seq<char> {
    match backend {
        BackendView::OpenAi { model, base_url, .. } => "OpenAi { model: "@ + debug_quoted(model)
            + ", base_url: "@ + debug_quoted(base_url) + ", api_key: \"<redacted>\" }"@,
        BackendView::Anthropic { model, base_url, .. } => "Anthropic { model: "@ + debug_quoted(
            model,
        ) + ", base_url: "@ + debug_quoted(base_url) + ", api_key: \"<redacted>\" }"@,
        BackendView::RulesOnly => "RulesOnly"@,
    }
}

/// Milliseconds to wait after attempt `attempt`: half a second, doubled with each attempt, plus
/// up to a quarter of a second of jitter taken from the clock's nanoseconds.
pub open spec fn wait_ms_after(attempt: int, clock_nanos: u32) -> int {
    BACKOFF_BASE_MS * pow2((attempt - 1) as nat) + clock_nanos % 250
}

/// Milliseconds to wait after attempt `attempt`.
pub fn backoff(attempt: u32, clock_nanos: u32) -> (ms: u64)
    requires
        1 <= attempt <= 56,
    ensures
        ms == wait_ms_after(attempt as int, clock_nanos),
{
    let mut factor: u64 = 1;
    let mut i: u32 = 1;
    proof {
        vstd::arithmetic::power2::lemma2_to64();
        vstd::arithmetic::power2::lemma_pow2_adds(55, 9);
        assert(pow2(55) * 512 == pow2(64));
    }
    while i < attempt
        invariant
            1 <= i <= attempt <= 56,
            factor == pow2((i - 1) as nat),
            pow2(55) == 0x80000000000000,
        decreases attempt - i,
    {
        proof {
            vstd::arithmetic::power2::lemma_pow2_unfold(i as nat);
            if i < 55 {
                vstd::arithmetic::power2::lemma_pow2_strictly_increases(i as nat, 55);
            }
        }
        factor = factor * 2;
        i += 1;
    }
    proof {
        if attempt - 1 < 55 {
            vstd::arithmetic::power2::lemma_pow2_strictly_increases((attempt - 1) as nat, 55);
        }
    }
    BACKOFF_BASE_MS * factor + (clock_nanos % 250) as u64
}

/// What follows a response: success is decoded; 429/5xx is retried with bounded exponential
/// backoff; any other status, and the last attempt, fails. The error carries (a truncated slice
/// of) the provider's response body, which is what distinguishes e.g. a transient rate limit from
/// an exhausted billing quota. `status_text` is the printed status.
pub fn retry_step(
    attempt: u32,
    status: u16,
    status_text: &str,
    provider: &str,
    body: &str,
    clock_nanos: u32,
) -> (step: RetryStep)
    requires
        1 <= attempt,
    ensures
        if 200 <= status < 300 {
            step is Done
        } else if retryable(status) && attempt < MAX_ATTEMPTS {
            step == (RetryStep::Retry {
                wait_ms: wait_ms_after(attempt as int, clock_nanos) as u64,
                attempt: (attempt + 1) as u32,
            })
        } else {
            step matches RetryStep::Fail(message) && message@ == provider@ + " API returned "@
                + status_text@ + ": "@ + first_chars(body@, ERROR_BODY_MAX_CHARS as int)
        },
{
    if 200 <= status && status < 300 {
        return RetryStep::Done;
    }
    let again: bool = status == 429 || (500 <= status && status < 600);
    if !again || attempt >= MAX_ATTEMPTS {
        let mut message = provider.to_owned();
        message.append(" API returned ");
        message.append(status_text);
        message.append(": ");
        message.append(take_chars(body, ERROR_BODY_MAX_CHARS).as_str());
        return RetryStep::Fail(message);
    }
    let wait_ms: u64 = backoff(attempt, clock_nanos);
    RetryStep::Retry { wait_ms, attempt: attempt + 1 }
}

/// Deterministic output when no model is configured: apply every detected candidate, low risk,
/// with `executive_summary` naming the reason.
pub fn rules_only_output(candidates: &Vec<Candidate>, executive_summary: &str) -> (out:
    LlmAnalysisOutput)
    ensures
        out.overall_risk == RiskLevel::Low,
        out.executive_summary@ == executive_summary@,
        out.recommendations@.len() == candidates@.len(),
        forall|i: int|
            0 <= i < candidates@.len() ==> accepts(
                #[trigger] out.recommendations@[i],
                candidates@[i],
            ),
{
    let mut recommendations: Vec<LlmRecommendationItem> = Vec::new();
    let mut i: usize = 0;
    while i < candidates.len()
        invariant
            i <= candidates@.len(),
            recommendations@.len() == i,
            forall|j: int|
                0 <= j < i ==> accepts(#[trigger] recommendations@[j], candidates@[j]),
        decreases candidates@.len() - i,
    {
        recommendations.push(
            LlmRecommendationItem {
                candidate_kind: candidates[i].kind,
                apply: true,
                reasoning: candidates[i].description.clone(),
                risk: RiskLevel::Low,
                projected_savings_usd_monthly: None,
            },
        );
        i += 1;
    }
    LlmAnalysisOutput {
        recommendations,
        overall_risk: RiskLevel::Low,
        executive_summary: executive_summary.to_owned(),
    }
}

/// The judgement where no model is configured: every candidate is applied, and the summary says so.
pub fn rules_only_analysis(candidates: &Vec<Candidate>) -> (out: LlmAnalysisOutput)
    ensures
        out.overall_risk == RiskLevel::Low,
        out.executive_summary@ == "Rule-based recommendation (no LLM configured)."@,
        out.recommendations@.len() == candidates@.len(),
        forall|i: int|
            0 <= i < candidates@.len() ==> accepts(
                #[trigger] out.recommendations@[i],
                candidates@[i],
            ),
{
    rules_only_output(candidates, "Rule-based recommendation (no LLM configured).")
}

/// Whether an item applies a candidate at low risk, with the candidate's description as its
/// reasoning and without a savings figure.
pub open spec fn accepts(item: LlmRecommendationItem, candidate: Candidate) -> bool {
    &&& item.candidate_kind == candidate.kind
    &&& item.apply
    &&& item.reasoning@ == candidate.description@
    &&& item.risk == RiskLevel::Low
    &&& item.projected_savings_usd_monthly is None
}

// ---------------------------------------------------------------------------------------------
// Laws

/// Milliseconds that a request waits in all, when it is sent `attempts` times and `jitter` is what
/// the clock shows after each.
pub open spec fn total_wait_ms(attempts: int, jitter: Seq<u32>) -> int
    decreases attempts,
{
    if attempts <= 1 {
        0
    } else {
        total_wait_ms(attempts - 1, jitter) + wait_ms_after(attempts - 1, jitter[attempts - 2])
    }
}

/// However often a request is sent, it waits less than two seconds in all.
pub proof fn law_backoff_is_bounded(attempts: int, jitter: Seq<u32>)
    requires
        attempts <= MAX_ATTEMPTS,
    ensures
        0 <= total_wait_ms(attempts, jitter) < 2000,
{
    vstd::arithmetic::power2::lemma2_to64();
    reveal_with_fuel(total_wait_ms, 4);
}

/// What is logged of a backend says nothing of its key: two backends that differ only in the key
/// are described alike.
pub proof fn law_description_hides_the_key(
    one: Seq<char>,
    other: Seq<char>,
    model: Seq<char>,
    base_url: Seq<char>,
)
    ensures
        description(BackendView::OpenAi { api_key: one, model, base_url }) == description(
            BackendView::OpenAi { api_key: other, model, base_url },
        ),
        description(BackendView::Anthropic { api_key: one, model, base_url }) == description(
            BackendView::Anthropic { api_key: other, model, base_url },
        ),
{
}

/// Without a model every candidate is approved.
pub proof fn law_rules_only_approves_everything(
    items: Seq<LlmRecommendationItem>,
    candidates: Seq<Candidate>,
    c: int,
)
    requires
        items.len() == candidates.len(),
        forall|i: int|
            0 <= i < candidates.len() ==> accepts(#[trigger] items[i], candidates[i]),
        0 <= c < candidates.len(),
    ensures
        crate::synthesis::is_approved(candidates[c], items),
{
    assert(accepts(items[c], candidates[c]));
    lemma_judged(items, candidates[c].kind, c);
}

proof fn lemma_judged(
    items: Seq<LlmRecommendationItem>,
    kind: crate::domain::CandidateKind,
    c: int,
)
    requires
        0 <= c < items.len(),
        items[c].candidate_kind == kind,
        forall|i: int| 0 <= i < items.len() ==> (#[trigger] items[i]).apply,
    ensures
        crate::synthesis::judgement(items, kind) is Some,
        crate::synthesis::judgement(items, kind)->0.apply,
    decreases items.len(),
{
    assert(items[items.len() - 1].apply);
    if items.last().candidate_kind != kind {
        let rest = items.drop_last();
        assert forall|i: int| 0 <= i < rest.len() implies (#[trigger] rest[i]).apply by {
            assert(items[i].apply);
        }
        assert(rest[c] == items[c]);
        lemma_judged(rest, kind, c);
    }
}

/// A given base URL is used without the white space around it and without slashes at its end; the
/// provider's own stands in where none is given or nothing is left.
pub proof fn law_base_url_is_cleaned(given: Option<String>, default: Seq<char>)
    ensures
        given is None ==> base_url_view(given, default) == default,
        given is Some && trim_end_char(trimmed(given->0@), '/').len() > 0 ==> base_url_view(
            given,
            default,
        ) == trim_end_char(trimmed(given->0@), '/'),
        given is Some && trim_end_char(trimmed(given->0@), '/').len() == 0 ==> base_url_view(
            given,
            default,
        ) == default,
{
}

/// What is asked of a provider: at its own endpoint, with its own kind of credential, for the
/// configured model, with the system and the user prompt in their places.
pub proof fn law_request_carries_the_prompt(
    request: LlmRequest,
    backend: BackendView,
    system: Seq<char>,
    user: Seq<char>,
)
    requires
        asks(request, backend, system, user),
    ensures
        !(backend is RulesOnly),
        ({
            let body = request.body@->Object_0;
            let messages = body["messages"@]->Array_0;
            match backend {
                BackendView::OpenAi { api_key, model, base_url } => {
                    &&& request.url@ == base_url + "/v1/chat/completions"@
                    &&& request.bearer is Some && request.bearer->0@ == api_key
                    &&& request.headers@.len() == 0
                    &&& body.dom() == set!["model"@, "messages"@]
                    &&& body["model"@] == JsonView::Str(model)
                    &&& messages.len() == 2
                    &&& messages[0]->Object_0["role"@] == JsonView::Str("system"@)
                    &&& messages[0]->Object_0["content"@] == JsonView::Str(system)
                    &&& messages[1]->Object_0["role"@] == JsonView::Str("user"@)
                    &&& messages[1]->Object_0["content"@] == JsonView::Str(user)
                },
                BackendView::Anthropic { api_key, model, base_url } => {
                    &&& request.url@ == base_url + "/v1/messages"@
                    &&& request.bearer is None
                    &&& request.headers@.len() == 2
                    &&& request.headers@[0].0@ == "x-api-key"@ && request.headers@[0].1@ == api_key
                    &&& request.headers@[1].0@ == "anthropic-version"@
                    &&& request.headers@[1].1@ == "2023-06-01"@
                    &&& body.dom() == set!["model"@, "max_tokens"@, "system"@, "messages"@]
                    &&& body["model"@] == JsonView::Str(model)
                    &&& body["max_tokens"@] == JsonView::Whole(1024)
                    &&& body["system"@] == JsonView::Str(system)
                    &&& messages.len() == 1
                    &&& messages[0]->Object_0["role"@] == JsonView::Str("user"@)
                    &&& messages[0]->Object_0["content"@] == JsonView::Str(user)
                },
                BackendView::RulesOnly => true,
            }
        }),
{
    reveal_strlit("model");
    reveal_strlit("messages");
    reveal_strlit("max_tokens");
    reveal_strlit("system");
    reveal_strlit("role");
    reveal_strlit("content");
    assert("model"@.len() == 5 && "messages"@.len() == 8 && "max_tokens"@.len() == 10);
    assert("system"@.len() == 6 && "role"@.len() == 4 && "content"@.len() == 7);
    let body = request.body@->Object_0;
    if backend is OpenAi {
        assert(body.dom() =~= set!["model"@, "messages"@]);
    } else {
        assert(body.dom() =~= set!["model"@, "max_tokens"@, "system"@, "messages"@]);
    }
}

/// The model's text is where each provider puts it: the content of the first choice's message, or
/// the text of the first content part.
pub proof fn law_answer_is_the_first_choice(
    backend: BackendView,
    text: Seq<char>,
    response: Map<Seq<char>, JsonView>,
    items: Seq<JsonView>,
    first: Map<Seq<char>, JsonView>,
    message: Map<Seq<char>, JsonView>,
)
    requires
        items.len() > 0,
        items[0] == JsonView::Object(first),
    ensures
        backend is OpenAi && response.dom().contains("choices"@) && response["choices"@]
            == JsonView::Array(items) && first.dom().contains("message"@) && first["message"@]
            == JsonView::Object(message) && message.dom().contains("content"@)
            && message["content"@] == JsonView::Str(text) ==> answer_text(
            backend,
            JsonView::Object(response),
        ) == Some(text),
        backend is Anthropic && response.dom().contains("content"@) && response["content"@]
            == JsonView::Array(items) && first.dom().contains("text"@) && first["text"@]
            == JsonView::Str(text) ==> answer_text(backend, JsonView::Object(response)) == Some(
            text,
        ),
{
}

/// A response without the model's text has no answer.
pub proof fn law_missing_text_is_no_answer(
    backend: BackendView,
    response: Map<Seq<char>, JsonView>,
)
    ensures
        backend is OpenAi && (!response.dom().contains("choices"@) || !(
        response["choices"@] is Array) || response["choices"@]->Array_0.len() == 0) ==> answer_text(
            backend,
            JsonView::Object(response),
        ) is None,
        backend is Anthropic && (!response.dom().contains("content"@) || !(
        response["content"@] is Array) || response["content"@]->Array_0.len() == 0)
            ==> answer_text(backend, JsonView::Object(response)) is None,
        backend is RulesOnly ==> answer_text(backend, JsonView::Object(response)) is None,
{
}

/// Too many requests and server errors are tried again, and nothing else; a request is sent three
/// times at most, and an error keeps 300 characters of the body.
pub proof fn law_what_is_tried_again(status: u16)
    ensures
        retryable(status) <==> status == 429 || status / 100 == 5,
        MAX_ATTEMPTS == 3,
        ERROR_BODY_MAX_CHARS == 300,
{
}

/// The wait begins at half a second and doubles with each attempt; less than a quarter of a second
/// of jitter is added to it.
pub proof fn law_wait_doubles(attempt: int, nanos: u32)
    requires
        attempt >= 1,
    ensures
        500 <= wait_ms_after(1, nanos) < 750,
        wait_ms_after(1, nanos) == 500 + nanos % 250,
        wait_ms_after(attempt + 1, nanos) - nanos % 250 == 2 * (wait_ms_after(attempt, nanos)
            - nanos % 250),
{
    vstd::arithmetic::power2::lemma2_to64();
    vstd::arithmetic::power2::lemma_pow2_unfold(attempt as nat);
    let p = pow2((attempt - 1) as nat) as int;
    assert(500 * (2 * p) == 2 * (500 * p)) by (nonlinear_arith);
}

/// Without a model a candidate is applied at low risk, with its own description and no figure.
pub proof fn law_rules_only_items(item: LlmRecommendationItem, candidate: Candidate)
    requires
        accepts(item, candidate),
    ensures
        item.candidate_kind == candidate.kind,
        item.apply,
        item.risk == RiskLevel::Low,
        item.reasoning@ == candidate.description@,
        item.projected_savings_usd_monthly is None,
{
}

/// A description begins with the kind of the backend and its model, and ends with its address and
/// a key that is blotted out.
pub proof fn law_description_shows_model_and_address(
    api_key: Seq<char>,
    model: Seq<char>,
    base_url: Seq<char>,
)
    ensures
        ({
            let end = ", base_url: "@ + debug_quoted(base_url) + ", api_key: \"<redacted>\" }"@;
            let openai = description(BackendView::OpenAi { api_key, model, base_url });
            let anthropic = description(BackendView::Anthropic { api_key, model, base_url });
            &&& openai == "OpenAi { model: "@ + debug_quoted(model) + end
            &&& anthropic == "Anthropic { model: "@ + debug_quoted(model) + end
            &&& description(BackendView::RulesOnly) == "RulesOnly"@
        }),
{
    let end = ", base_url: "@ + debug_quoted(base_url) + ", api_key: \"<redacted>\" }"@;
    assert(description(BackendView::OpenAi { api_key, model, base_url }) =~= "OpenAi { model: "@
        + debug_quoted(model) + end);
    assert(description(BackendView::Anthropic { api_key, model, base_url })
        =~= "Anthropic { model: "@ + debug_quoted(model) + end);
}

} // verus!
