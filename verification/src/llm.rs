//! The model's prompt, and the framing of its answer.
use vstd::prelude::*;
use vstd::string::*;

use crate::domain::{Candidate, WorkloadConfig};
#[allow(unused_imports)]
use crate::text::{decimal, first_chars, has_prefix, has_suffix, signed_decimal, trimmed};
use crate::text::{push_decimal, push_signed, strip_prefix, strip_suffix, take_chars, trim};

verus! {

/// The system prompt, priced with the printed per-replica cost so the model's savings estimates
/// and the deterministic fallback ([`crate::synthesis::floor_savings`]) agree on one baseline.
pub open spec fn system_prompt_text(cost_text: Seq<char>) -> Seq<char> {
    "You are a Kubernetes autoscaling expert. Below is a customer workload running on Kubernetes with an HPA. Rule-based analysis surfaced these candidates. For each, decide if it should be applied, explain the reasoning in 2-3 sentences a DevOps engineer would respect, and assign a risk level. When a candidate lowers min_replicas, estimate projected_savings_usd_monthly from the replica reduction (each always-on replica costs roughly $"@
        + cost_text
        + "/month of node share unless you have better pricing); never leave it at 0 when replicas are reduced."@
}

fn system_prompt(cost_text: &str) -> (s: String)
    ensures
        s@ == system_prompt_text(cost_text@),
{
    let mut s =
        "You are a Kubernetes autoscaling expert. Below is a customer workload running on Kubernetes with an HPA. Rule-based analysis surfaced these candidates. For each, decide if it should be applied, explain the reasoning in 2-3 sentences a DevOps engineer would respect, and assign a risk level. When a candidate lowers min_replicas, estimate projected_savings_usd_monthly from the replica reduction (each always-on replica costs roughly $".to_owned();
    s.append(cost_text);
    s.append(
        "/month of node share unless you have better pricing); never leave it at 0 when replicas are reduced.",
    );
    s
}

/// The user prompt's head: the workload and its current config.
pub open spec fn workload_text(workload_desc: Seq<char>, config: WorkloadConfig) -> Seq<char> {
    "WORKLOAD: "@ + workload_desc + "\nCURRENT CONFIG:\n  min_replicas: "@ + signed_decimal(
        config.min_replicas as int,
    ) + "\n  max_replicas: "@ + signed_decimal(config.max_replicas as int) + "\n  target_cpu: "@
        + signed_decimal(config.target_cpu_pct as int) + "%\n  scale_down_cooldown: "@
        + signed_decimal(config.scale_down_cooldown_s as int) + "s\n\nCANDIDATES:\n"@
}

/// The user prompt's line of the `index`th candidate, counted from one.
pub open spec fn candidate_line(index: int, candidate: Candidate) -> Seq<char> {
    "  "@ + decimal((index + 1) as nat) + ". "@ + candidate.kind.name() + ": "@
        + candidate.description@ + "\n"@
}

/// The user prompt's candidate lines.
pub open spec fn candidate_lines(candidates: Seq<Candidate>) -> Seq<char>
    decreases candidates.len(),
{
    if candidates.len() == 0 {
        Seq::empty()
    } else {
        candidate_lines(candidates.drop_last()) + candidate_line(
            candidates.len() - 1,
            candidates.last(),
        )
    }
}

/// The user prompt's tail: the shape of the answer.
pub open spec fn answer_shape() -> Seq<char> {
    "\nOUTPUT STRICT JSON matching:\n{\n  \"recommendations\": [{ \"candidate_kind\": \"<idle_window|scale_lag|overprovisioned|thrashing|predictable_peak>\", \"apply\": true, \"reasoning\": \"...\", \"risk\": \"<low|medium|high>\", \"projected_savings_usd_monthly\": 0 }],\n  \"overall_risk\": \"<low|medium|high>\",\n  \"executive_summary\": \"...\"\n}"@
}

/// Build the (system, user) prompt pair for the model's analysis call. `cost_text` is the printed
/// per-replica cost that prices the savings guidance in the system prompt.
pub fn build_prompt(
    workload_desc: &str,
    config: &WorkloadConfig,
    candidates: &Vec<Candidate>,
    cost_text: &str,
) -> (r: (String, String))
    ensures
        r.0@ == system_prompt_text(cost_text@),
        r.1@ == workload_text(workload_desc@, *config) + candidate_lines(candidates@)
            + answer_shape(),
{
    let mut user = "WORKLOAD: ".to_owned();
    user.append(workload_desc);
    user.append("\nCURRENT CONFIG:\n  min_replicas: ");
    push_signed(&mut user, config.min_replicas as i64);
    user.append("\n  max_replicas: ");
    push_signed(&mut user, config.max_replicas as i64);
    user.append("\n  target_cpu: ");
    push_signed(&mut user, config.target_cpu_pct as i64);
    user.append("%\n  scale_down_cooldown: ");
    push_signed(&mut user, config.scale_down_cooldown_s as i64);
    user.append("s\n\nCANDIDATES:\n");
    let ghost head = workload_text(workload_desc@, *config);
    assert(user@ =~= head + Seq::<char>::empty());
    let mut i: usize = 0;
    while i < candidates.len()
        invariant
            i <= candidates@.len(),
            head == workload_text(workload_desc@, *config),
            user@ == head + candidate_lines(candidates@.take(i as int)),
        decreases candidates@.len() - i,
    {
        let ghost before = user@;
        let candidate = &candidates[i];
        assert(candidates@.take(i + 1).drop_last() == candidates@.take(i as int));
        user.append("  ");
        push_decimal(&mut user, i as u64 + 1);
        user.append(". ");
        user.append(candidate.kind.as_str());
        user.append(": ");
        user.append(candidate.description.as_str());
        user.append("\n");
        assert(user@ =~= before + candidate_line(i as int, *candidate));
        assert(user@ =~= head + candidate_lines(candidates@.take(i + 1)));
        i += 1;
    }
    assert(candidates@.take(candidates@.len() as int) == candidates@);
    user.append(
        "\nOUTPUT STRICT JSON matching:\n{\n  \"recommendations\": [{ \"candidate_kind\": \"<idle_window|scale_lag|overprovisioned|thrashing|predictable_peak>\", \"apply\": true, \"reasoning\": \"...\", \"risk\": \"<low|medium|high>\", \"projected_savings_usd_monthly\": 0 }],\n  \"overall_risk\": \"<low|medium|high>\",\n  \"executive_summary\": \"...\"\n}",
    );
    (system_prompt(cost_text), user)
}

/// `text` without a leading code fence.
pub open spec fn unfenced(text: Seq<char>) -> Seq<char> {
    if has_prefix(text, "```json"@) {
        text.skip("```json"@.len() as int)
    } else if has_prefix(text, "```"@) {
        text.skip("```"@.len() as int)
    } else {
        text
    }
}

/// The JSON payload of a model's answer: the text without white space around it and without a
/// code fence.
pub open spec fn payload(text: Seq<char>) -> Seq<char> {
    let inner = unfenced(trimmed(text));
    trimmed(
        if has_suffix(inner, "```"@) {
            inner.take(inner.len() - "```"@.len())
        } else {
            inner
        },
    )
}

/// The JSON payload of a model's answer, tolerating ```json fenced code blocks.
pub fn llm_payload(text: &str) -> (p: String)
    ensures
        p@ == payload(text@),
{
    let outer = trim(text);
    let inner = match strip_prefix(outer.as_str(), "```json") {
        Some(rest) => rest,
        None => match strip_prefix(outer.as_str(), "```") {
            Some(rest) => rest,
            None => outer,
        },
    };
    let cleaned = match strip_suffix(inner.as_str(), "```") {
        Some(rest) => rest,
        None => inner,
    };
    trim(cleaned.as_str())
}

/// Why an answer could not be read: the decoder's message, and the beginning of the payload.
#[derive(Debug, PartialEq, Eq)]
pub enum ParseError {
    Json { source: String, snippet: String },
}

/// The error of a payload that could not be decoded.
pub fn parse_failure(source: String, payload: &str) -> (e: ParseError)
    ensures
        e matches ParseError::Json { source: s, snippet } && s == source && snippet@ == first_chars(
            payload@,
            200,
        ),
{
    ParseError::Json { source, snippet: take_chars(payload, 200) }
}

impl ParseError {
    /// The error as it is shown.
    pub fn message(&self) -> (m: String)
        ensures
            match *self {
                ParseError::Json { source, snippet } => m@ == "failed to parse LLM output: "@
                    + source@ + ": "@ + snippet@,
            },
    {
        match self {
            ParseError::Json { source, snippet } => {
                let mut m = "failed to parse LLM output: ".to_owned();
                m.append(source.as_str());
                m.append(": ");
                m.append(snippet.as_str());
                m
            },
        }
    }
}

/// Whether a text is its own trimmed form.
pub open spec fn is_trimmed(s: Seq<char>) -> bool {
    s.len() > 0 ==> !crate::text::is_space(s[0]) && !crate::text::is_space(s.last())
}

/// A payload without fences comes through unchanged.
pub proof fn law_bare_payload_is_kept(p: Seq<char>)
    requires
        is_trimmed(p),
        !has_prefix(p, "```"@),
        !has_suffix(p, "```"@),
    ensures
        payload(p) == p,
{
    reveal_strlit("```json");
    reveal_strlit("```");
    if has_prefix(p, "```json"@) {
        assert(p.take(3) =~= "```"@) by {
            assert(p.take(7)[0] == '`' && p.take(7)[1] == '`' && p.take(7)[2] == '`');
        }
    }
}

/// A fenced payload comes out of its fences: whatever answer the model frames, with or without
/// the language tag, the payload is the same.
pub proof fn law_fences_are_stripped(p: Seq<char>)
    requires
        is_trimmed(p),
        p.len() > 0,
    ensures
        payload("```json"@ + seq!['\n'] + p + seq!['\n'] + "```"@) == p,
        payload("```"@ + seq!['\n'] + p + seq!['\n'] + "```"@) == p,
{
    reveal_strlit("```json");
    reveal_strlit("```");
    let body = seq!['\n'] + p + seq!['\n'];
    let tagged = "```json"@ + seq!['\n'] + p + seq!['\n'] + "```"@;
    let plain = "```"@ + seq!['\n'] + p + seq!['\n'] + "```"@;
    lemma_trim_body(p);
    // tagged
    assert(tagged[0] == '`' && tagged.last() == '`');
    assert(trimmed(tagged) == tagged);
    assert(tagged.take(7) =~= "```json"@);
    assert(tagged.skip(7) =~= body + "```"@);
    // plain
    assert(plain[0] == '`' && plain.last() == '`');
    assert(trimmed(plain) == plain);
    assert(plain.take(3) =~= "```"@);
    assert(!has_prefix(plain, "```json"@)) by {
        if has_prefix(plain, "```json"@) {
            assert(plain.take(7)[3] == 'j');
            assert(plain[3] == '\n');
        }
    }
    assert(plain.skip(3) =~= body + "```"@);
    let inner = body + "```"@;
    assert(inner.skip(inner.len() - 3) =~= "```"@);
    assert(inner.take(inner.len() - 3) =~= body);
}

proof fn lemma_trim_body(p: Seq<char>)
    requires
        is_trimmed(p),
        p.len() > 0,
    ensures
        trimmed(seq!['\n'] + p + seq!['\n']) == p,
{
    let body = seq!['\n'] + p + seq!['\n'];
    let tail = p + seq!['\n'];
    assert(body.drop_first() =~= tail);
    assert(body[0] == '\n');
    assert(tail[0] == p[0]);
    assert(crate::text::trim_start(tail) == tail);
    assert(crate::text::trim_start(body) == tail);
    assert(tail.last() == '\n');
    assert(tail.drop_last() =~= p);
    assert(crate::text::trim_end(p) == p);
}

/// Every candidate is put to the model, in order, on a line of its own with its number, its kind
/// and its description.
pub proof fn law_every_candidate_is_put_to_the_model(candidates: Seq<Candidate>, more: Candidate)
    ensures
        candidate_lines(candidates.push(more)) == candidate_lines(candidates) + ("  "@ + decimal(
            (candidates.len() + 1) as nat,
        ) + ". "@ + more.kind.name() + ": "@ + more.description@ + "\n"@),
        candidates.len() == 0 ==> candidate_lines(candidates).len() == 0,
{
    assert(candidates.push(more).drop_last() =~= candidates);
}

/// The prompt names the workload and its present configuration, field by field.
pub proof fn law_prompt_names_the_config(desc: Seq<char>, config: WorkloadConfig)
    ensures
        workload_text(desc, config) == "WORKLOAD: "@ + desc
            + "\nCURRENT CONFIG:\n  min_replicas: "@ + signed_decimal(config.min_replicas as int)
            + "\n  max_replicas: "@ + signed_decimal(config.max_replicas as int)
            + "\n  target_cpu: "@ + signed_decimal(config.target_cpu_pct as int)
            + "%\n  scale_down_cooldown: "@ + signed_decimal(config.scale_down_cooldown_s as int)
            + "s\n\nCANDIDATES:\n"@,
{
}

/// White space around an answer does not matter.
pub proof fn law_payload_is_trimmed(text: Seq<char>)
    ensures
        payload(trimmed(text)) == payload(text),
{
    crate::text::law_trimming_twice_is_trimming_once(text);
}

/// However an answer is framed, its payload comes out: with an opening fence (tagged or not) or
/// without one, with a closing fence or without one, and with any white space around it and inside
/// the fences.
pub proof fn law_payload_comes_out_of_its_frame(
    a: Seq<char>,
    open: Seq<char>,
    b: Seq<char>,
    p: Seq<char>,
    c: Seq<char>,
    close: Seq<char>,
    e: Seq<char>,
)
    requires
        forall|i: int| 0 <= i < a.len() ==> crate::text::is_space(#[trigger] a[i]),
        forall|i: int| 0 <= i < b.len() ==> crate::text::is_space(#[trigger] b[i]),
        forall|i: int| 0 <= i < c.len() ==> crate::text::is_space(#[trigger] c[i]),
        forall|i: int| 0 <= i < e.len() ==> crate::text::is_space(#[trigger] e[i]),
        p.len() > 0,
        !crate::text::is_space(p[0]),
        !crate::text::is_space(p.last()),
        open == "```json"@ || open == "```"@ || open == ""@,
        close == "```"@ || close == ""@,
        open == "```"@ ==> b.len() > 0 || p[0] != 'j',
        open == ""@ ==> b.len() == 0 && p[0] != '`',
        close == ""@ ==> c.len() == 0 && p.last() != '`',
    ensures
        payload(a + open + b + p + c + close + e) == p,
{
    reveal_strlit("```json");
    reveal_strlit("```");
    reveal_strlit("");
    let core = b + p + c + close;
    let t = open + core;
    assert(a + open + b + p + c + close + e =~= a + t + e);
    assert(t[0] == '`' || t[0] == p[0]);
    assert(t.last() == '`' || t.last() == p.last());
    crate::text::law_trimming_keeps_what_is_between(a, t, e);
    assert(unfenced(t) == core) by {
        if open == "```json"@ {
            assert(t.take(7) =~= "```json"@);
            assert(t.skip(7) =~= core);
        } else if open == "```"@ {
            assert(t.take(3) =~= "```"@);
            assert(t.skip(3) =~= core);
            if has_prefix(t, "```json"@) {
                assert(t.take(7)[3] == 'j');
                assert(t[3] == core[0]);
                if b.len() > 0 {
                    assert(crate::text::is_space(b[0]));
                }
            }
        } else {
            assert(t =~= core);
            if has_prefix(t, "```"@) {
                assert(t.take(3)[0] == '`');
            }
            if has_prefix(t, "```json"@) {
                assert(t.take(7)[0] == '`');
            }
        }
    }
    let inner = b + p + c;
    assert(core =~= inner + close);
    if close == "```"@ {
        assert(core.skip(core.len() - 3) =~= "```"@);
        assert(core.take(core.len() - 3) =~= inner);
    } else {
        assert(core =~= inner);
        assert(!has_suffix(core, "```"@)) by {
            if has_suffix(core, "```"@) {
                assert(core.skip(core.len() - 3)[2] == core.last());
            }
        }
    }
    crate::text::law_trimming_keeps_what_is_between(b, p, c);
}

/// The system prompt prices a replica with the given cost: it stands between a dollar sign and
/// the month.
pub proof fn law_system_prompt_names_the_cost(cost: Seq<char>) -> (parts: (Seq<char>, Seq<char>))
    ensures
        system_prompt_text(cost) == parts.0 + cost + parts.1,
        crate::text::has_suffix(parts.0, "each always-on replica costs roughly $"@),
        crate::text::has_prefix(parts.1, "/month"@),
{
    reveal_strlit("each always-on replica costs roughly $");
    reveal_strlit("/month");
    reveal_strlit(
        "You are a Kubernetes autoscaling expert. Below is a customer workload running on Kubernetes with an HPA. Rule-based analysis surfaced these candidates. For each, decide if it should be applied, explain the reasoning in 2-3 sentences a DevOps engineer would respect, and assign a risk level. When a candidate lowers min_replicas, estimate projected_savings_usd_monthly from the replica reduction (each always-on replica costs roughly $",
    );
    reveal_strlit(
        "/month of node share unless you have better pricing); never leave it at 0 when replicas are reduced.",
    );
    let head =
        "You are a Kubernetes autoscaling expert. Below is a customer workload running on Kubernetes with an HPA. Rule-based analysis surfaced these candidates. For each, decide if it should be applied, explain the reasoning in 2-3 sentences a DevOps engineer would respect, and assign a risk level. When a candidate lowers min_replicas, estimate projected_savings_usd_monthly from the replica reduction (each always-on replica costs roughly $"@;
    let tail =
        "/month of node share unless you have better pricing); never leave it at 0 when replicas are reduced."@;
    let end = "each always-on replica costs roughly $"@;
    assert(head.skip(head.len() - end.len()) =~= end);
    assert(tail.take(6) =~= "/month"@);
    (head, tail)
}

} // verus!
