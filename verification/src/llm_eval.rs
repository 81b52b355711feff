//! LLM-based security evaluation of skills: the prompt sent to the evaluator,
//! the pre-scan for prompt-injection patterns, and the reading of its verdict.
use vstd::prelude::*;
use vstd::string::StrSliceExecFns;
use vstd::string::StringExecFns;

use crate::json::{as_array, as_bool, as_object, as_str, get, get_str, obj_get, str_eq, Json};
use crate::git_url::{take_chars, take_chars_spec};
use crate::text::{
    decimal, ends_with, usize_to_decimal, string_of, has_suffix,
    chars_of, find_char_at, has_prefix, join, join_strings, rfind_seq, rfind_seq_at, starts_with,
    strs_of, trim, trim_at, first_index, lemma_first_index,
};

verus! {

broadcast use vstd::string::group_string_axioms;

// ---------------------------------------------------------------------------
// Types
// ---------------------------------------------------------------------------

/// One dimension of the evaluator's assessment.
#[derive(Debug, Clone)]
pub struct LlmEvalDimension {
    pub name: String,
    pub label: String,
    pub rating: String,
    pub detail: String,
}

/// The evaluator's verdict on a skill.
#[derive(Debug, Clone)]
pub struct LlmEvalResult {
    pub verdict: String,
    pub confidence: String,
    pub summary: String,
    pub dimensions: Vec<LlmEvalDimension>,
    pub guidance: String,
    pub findings: String,
}

/// Context assembled for the LLM evaluator.
pub struct SkillEvalContext {
    pub slug: String,
    pub display_name: String,
    pub summary: Option<String>,
    pub version: Option<String>,
    pub skill_md_content: String,
    pub file_contents: Vec<FileEntry>,
    pub file_manifest: Vec<FileManifestEntry>,
    pub injection_signals: Vec<String>,
    pub metadata_json: Option<String>,
    pub frontmatter_always: Option<bool>,
}

/// A file of the skill with its content.
pub struct FileEntry {
    pub path: String,
    pub content: String,
}

/// A file of the skill with its size in bytes.
pub struct FileManifestEntry {
    pub path: String,
    pub size: usize,
}

// ---------------------------------------------------------------------------
// Outside calls
// ---------------------------------------------------------------------------

/// The outcome of compiling `pattern` with the `regex` crate and testing it against
/// `text`: `None` when the pattern does not compile, else whether it matches.
pub uninterp spec fn regex_match_outcome(pattern: Seq<char>, text: Seq<char>) -> Option<bool>;

/// `regex::Regex::new(pattern)` followed by `is_match(text)`. Trusted: the result is
/// whatever the `regex` crate computes for these two strings, named by
/// `regex_match_outcome`; nothing more is claimed of it.
#[verifier::external_body]
pub(crate) fn regex_is_match(pattern: &str, text: &str) -> (r: Option<bool>)
    ensures
        r == regex_match_outcome(pattern@, text@),
{
    match regex::Regex::new(pattern) {
        Ok(re) => Some(re.is_match(text)),
        Err(_) => None,
    }
}

/// The Unicode lower-case form of `s`, as `str::to_lowercase` computes it.
pub uninterp spec fn lowercased(s: Seq<char>) -> Seq<char>;

/// `str::to_lowercase`. Trusted: the result is named by `lowercased`; for a string of
/// ASCII characters it is the ASCII lower-case form, as the standard library documents.
#[verifier::external_body]
pub(crate) fn to_lowercase(s: &str) -> (r: String)
    ensures
        r@ == lowercased(s@),
        vstd::utf8::is_ascii_chars(s@) ==> r@ == crate::text::ascii_lower_seq(s@),
{
    s.to_lowercase()
}

// ---------------------------------------------------------------------------
// Injection detection
// ---------------------------------------------------------------------------

/// The prompt-injection rules: a name and the regular expression that flags it.
pub open spec fn injection_rules() -> Seq<(Seq<char>, Seq<char>)> {
    seq![
        ("ignore-previous-instructions"@, "(?i)ignore\\s+(all\\s+)?previous\\s+instructions"@),
        ("you-are-now"@, "(?i)you\\s+are\\s+now\\s+(a|an)\\b"@),
        ("system-prompt-override"@, "(?i)system\\s*prompt\\s*[:=]"@),
        ("base64-block"@, "[A-Za-z0-9+/=]{200,}"@),
        ("unicode-control-chars"@, "[\\x{200B}-\\x{200F}\\x{202A}-\\x{202E}\\x{2060}-\\x{2064}\\x{FEFF}]"@),
    ]
}

/// The names of the rules in `rules` whose expression matches `text`, in order.
pub open spec fn matched_rule_names(rules: Seq<(Seq<char>, Seq<char>)>, text: Seq<char>) -> Seq<
    Seq<char>,
>
    decreases rules.len(),
{
    if rules.len() == 0 {
        Seq::empty()
    } else {
        let prev = matched_rule_names(rules.drop_last(), text);
        if regex_match_outcome(rules.last().1, text) == Some(true) {
            prev.push(rules.last().0)
        } else {
            prev
        }
    }
}

/// Append `name` to `out` when `pattern` matches `text`.
fn flag_if_match(out: &mut Vec<String>, name: &str, pattern: &str, text: &str)
    ensures
        strs_of(final(out)@) == if regex_match_outcome(pattern@, text@) == Some(true) {
            strs_of(old(out)@).push(name@)
        } else {
            strs_of(old(out)@)
        },
{
    if let Some(true) = regex_is_match(pattern, text) {
        out.push(name.to_string());
        assert(strs_of(out@) =~= strs_of(old(out)@).push(name@));
    }
}

/// `name` is reported for `text` exactly when `pattern` matches it, among rules with
/// distinct names.
proof fn lemma_rule_reported(
    rules: Seq<(Seq<char>, Seq<char>)>,
    text: Seq<char>,
    k: int,
)
    requires
        0 <= k < rules.len(),
        forall|a: int, b: int| 0 <= a < b < rules.len() ==> rules[a].0 != rules[b].0,
    ensures
        matched_rule_names(rules, text).contains(rules[k].0) <==> regex_match_outcome(
            rules[k].1,
            text,
        ) == Some(true),
    decreases rules.len(),
{
    let prev = rules.drop_last();
    let n = rules.len() - 1;
    if k < n {
        lemma_rule_reported(prev, text, k);
        assert(prev[k] == rules[k]);
        if regex_match_outcome(rules.last().1, text) == Some(true) {
            let m = matched_rule_names(prev, text);
            assert(m.push(rules.last().0).contains(rules[k].0) <==> m.contains(rules[k].0)) by {
                if m.push(rules.last().0).contains(rules[k].0) {
                    let j = choose|j: int|
                        0 <= j < m.push(rules.last().0).len() && m.push(rules.last().0)[j]
                            == rules[k].0;
                    if j == m.len() {
                        assert(rules[k].0 == rules[n].0);
                    } else {
                        assert(m[j] == rules[k].0);
                    }
                }
                if m.contains(rules[k].0) {
                    let j = choose|j: int| 0 <= j < m.len() && m[j] == rules[k].0;
                    assert(m.push(rules.last().0)[j] == rules[k].0);
                }
            }
        }
    } else {
        let m = matched_rule_names(prev, text);
        lemma_names_from(prev, text);
        if regex_match_outcome(rules.last().1, text) == Some(true) {
            assert(m.push(rules.last().0)[m.len() as int] == rules[k].0);
        } else if m.contains(rules[k].0) {
            let j = choose|j: int| 0 <= j < m.len() && m[j] == rules[k].0;
            let i = choose|i: int| 0 <= i < prev.len() && prev[i].0 == m[j];
            assert(prev[i] == rules[i]);
        }
    }
}

/// Every reported name is the name of one of the rules.
proof fn lemma_names_from(rules: Seq<(Seq<char>, Seq<char>)>, text: Seq<char>)
    ensures
        forall|j: int|
            0 <= j < matched_rule_names(rules, text).len() ==> exists|i: int|
                0 <= i < rules.len() && rules[i].0 == #[trigger] matched_rule_names(rules, text)[j],
    decreases rules.len(),
{
    if rules.len() > 0 {
        let prev = rules.drop_last();
        lemma_names_from(prev, text);
        let m = matched_rule_names(prev, text);
        assert forall|j: int|
            0 <= j < matched_rule_names(rules, text).len() implies exists|i: int|
                0 <= i < rules.len() && rules[i].0 == #[trigger] matched_rule_names(rules, text)[j] by {
            if j < m.len() {
                let i = choose|i: int| 0 <= i < prev.len() && prev[i].0 == m[j];
                assert(prev[i] == rules[i]);
                assert(matched_rule_names(rules, text)[j] == m[j]);
            } else {
                assert(rules[rules.len() - 1].0 == matched_rule_names(rules, text)[j]);
            }
        }
    }
}

/// The five prompt-injection rules are all checked: each rule's name is reported for a
/// text exactly when the rule's expression matches it (ignoring previous instructions,
/// "you are now a/an", a system-prompt override, a long base64 block, invisible Unicode
/// control characters), and nothing else is reported.
pub proof fn law_injection_rules_checked(text: Seq<char>)
    ensures
        matched_rule_names(injection_rules(), text).contains("ignore-previous-instructions"@)
            <==> regex_match_outcome("(?i)ignore\\s+(all\\s+)?previous\\s+instructions"@, text)
            == Some(true),
        matched_rule_names(injection_rules(), text).contains("you-are-now"@) <==> regex_match_outcome(
            "(?i)you\\s+are\\s+now\\s+(a|an)\\b"@,
            text,
        ) == Some(true),
        matched_rule_names(injection_rules(), text).contains("system-prompt-override"@)
            <==> regex_match_outcome("(?i)system\\s*prompt\\s*[:=]"@, text) == Some(true),
        matched_rule_names(injection_rules(), text).contains("base64-block"@) <==> regex_match_outcome(
            "[A-Za-z0-9+/=]{200,}"@,
            text,
        ) == Some(true),
        matched_rule_names(injection_rules(), text).contains("unicode-control-chars"@)
            <==> regex_match_outcome(
            "[\\x{200B}-\\x{200F}\\x{202A}-\\x{202E}\\x{2060}-\\x{2064}\\x{FEFF}]"@,
            text,
        ) == Some(true),
        forall|j: int|
            0 <= j < matched_rule_names(injection_rules(), text).len() ==> {
                let n = #[trigger] matched_rule_names(injection_rules(), text)[j];
                n == "ignore-previous-instructions"@ || n == "you-are-now"@ || n
                    == "system-prompt-override"@ || n == "base64-block"@ || n
                    == "unicode-control-chars"@
            },
{
    let rules = injection_rules();
    reveal_strlit("ignore-previous-instructions");
    reveal_strlit("you-are-now");
    reveal_strlit("system-prompt-override");
    reveal_strlit("base64-block");
    reveal_strlit("unicode-control-chars");
    assert(rules[0].0[0] == 'i' && rules[1].0[0] == 'y' && rules[2].0[0] == 's'
        && rules[3].0[0] == 'b' && rules[4].0[0] == 'u');
    assert forall|a: int, b: int| 0 <= a < b < rules.len() implies rules[a].0 != rules[b].0 by {
        assert(rules[a].0[0] != rules[b].0[0]);
    }
    lemma_rule_reported(rules, text, 0);
    lemma_rule_reported(rules, text, 1);
    lemma_rule_reported(rules, text, 2);
    lemma_rule_reported(rules, text, 3);
    lemma_rule_reported(rules, text, 4);
    lemma_names_from(rules, text);
}

/// The names of the prompt-injection patterns found in `text`.
pub fn detect_injection_patterns(text: &str) -> (r: Vec<String>)
    ensures
        strs_of(r@) == matched_rule_names(injection_rules(), text@),
{
    let mut out: Vec<String> = Vec::new();
    let ghost rules = injection_rules();
    assert(strs_of(out@) =~= matched_rule_names(rules.take(0), text@));
    flag_if_match(
        &mut out,
        "ignore-previous-instructions",
        "(?i)ignore\\s+(all\\s+)?previous\\s+instructions",
        text,
    );
    assert(rules.take(1).drop_last() =~= rules.take(0));
    assert(strs_of(out@) =~= matched_rule_names(rules.take(1), text@));
    flag_if_match(&mut out, "you-are-now", "(?i)you\\s+are\\s+now\\s+(a|an)\\b", text);
    assert(rules.take(2).drop_last() =~= rules.take(1));
    assert(strs_of(out@) =~= matched_rule_names(rules.take(2), text@));
    flag_if_match(&mut out, "system-prompt-override", "(?i)system\\s*prompt\\s*[:=]", text);
    assert(rules.take(3).drop_last() =~= rules.take(2));
    assert(strs_of(out@) =~= matched_rule_names(rules.take(3), text@));
    flag_if_match(&mut out, "base64-block", "[A-Za-z0-9+/=]{200,}", text);
    assert(rules.take(4).drop_last() =~= rules.take(3));
    assert(strs_of(out@) =~= matched_rule_names(rules.take(4), text@));
    flag_if_match(
        &mut out,
        "unicode-control-chars",
        "[\\x{200B}-\\x{200F}\\x{202A}-\\x{202E}\\x{2060}-\\x{2064}\\x{FEFF}]",
        text,
    );
    assert(rules.take(5).drop_last() =~= rules.take(4));
    assert(rules.take(5) =~= rules);
    out
}

// ---------------------------------------------------------------------------
// Labels, statuses, endpoints
// ---------------------------------------------------------------------------

/// The display label of an evaluation dimension key.
pub open spec fn dimension_label_of(key: Seq<char>) -> Seq<char> {
    if key == "purpose_capability"@ {
        "Purpose & Capability"@
    } else if key == "instruction_scope"@ {
        "Instruction Scope"@
    } else if key == "install_mechanism"@ {
        "Install Mechanism"@
    } else if key == "environment_proportionality"@ {
        "Credentials"@
    } else if key == "persistence_privilege"@ {
        "Persistence & Privilege"@
    } else {
        key
    }
}

/// The display label of an evaluation dimension key (unknown keys label themselves).
pub fn dimension_label(key: &str) -> (r: &str)
    ensures
        r@ == dimension_label_of(key@),
{
    if str_eq(key, "purpose_capability") {
        "Purpose & Capability"
    } else if str_eq(key, "instruction_scope") {
        "Instruction Scope"
    } else if str_eq(key, "install_mechanism") {
        "Install Mechanism"
    } else if str_eq(key, "environment_proportionality") {
        "Credentials"
    } else if str_eq(key, "persistence_privilege") {
        "Persistence & Privilege"
    } else {
        key
    }
}

/// The scan status recorded for an evaluator verdict.
pub open spec fn verdict_status(verdict: Seq<char>) -> Seq<char> {
    if verdict == "benign"@ {
        "clean"@
    } else if verdict == "malicious"@ {
        "malicious"@
    } else if verdict == "suspicious"@ {
        "suspicious"@
    } else {
        "pending"@
    }
}

/// The scan status recorded for an evaluator verdict.
pub fn verdict_to_status(verdict: &str) -> (r: &str)
    ensures
        r@ == verdict_status(verdict@),
{
    if str_eq(verdict, "benign") {
        "clean"
    } else if str_eq(verdict, "malicious") {
        "malicious"
    } else if str_eq(verdict, "suspicious") {
        "suspicious"
    } else {
        "pending"
    }
}

/// Each evaluator verdict is recorded under its own status and never as a milder one: a
/// status is `malicious` exactly for the verdict `malicious`, `suspicious` exactly for
/// `suspicious`, and `clean` exactly for `benign`; two different verdicts share a status
/// only when neither is one of these three (both are then recorded as `pending`). A
/// severity goes with exactly the harmful verdicts: `high` for malicious, `medium` for
/// suspicious.
pub proof fn law_verdict_status_faithful(v: Seq<char>, w: Seq<char>)
    ensures
        verdict_status(v) == "malicious"@ <==> v == "malicious"@,
        verdict_status(v) == "suspicious"@ <==> v == "suspicious"@,
        verdict_status(v) == "clean"@ <==> v == "benign"@,
        v != w && verdict_status(v) == verdict_status(w) ==> verdict_status(v) == "pending"@,
        verdict_severity(v) == Some("high"@) <==> v == "malicious"@,
        verdict_severity(v) == Some("medium"@) <==> v == "suspicious"@,
        verdict_severity(v) is None <==> verdict_status(v) == "clean"@ || verdict_status(v)
            == "pending"@,
{
    reveal_strlit("malicious");
    reveal_strlit("suspicious");
    reveal_strlit("clean");
    reveal_strlit("pending");
    reveal_strlit("benign");
    reveal_strlit("high");
    reveal_strlit("medium");
    assert("high"@[0] != "medium"@[0]);
    assert("benign"@[0] != "malicious"@[0]);
    assert("benign"@[0] != "suspicious"@[0]);
    assert("malicious"@[0] != "suspicious"@[0]);
    assert("malicious"@[0] != "clean"@[0]);
    assert("malicious"@[0] != "pending"@[0]);
    assert("suspicious"@[0] != "clean"@[0]);
    assert("suspicious"@[0] != "pending"@[0]);
    assert("clean"@[0] != "pending"@[0]);
}

/// The severity recorded for an evaluator verdict.
pub open spec fn verdict_severity(verdict: Seq<char>) -> Option<Seq<char>> {
    if verdict == "malicious"@ {
        Some("high"@)
    } else if verdict == "suspicious"@ {
        Some("medium"@)
    } else {
        None
    }
}

/// The severity recorded for an evaluator verdict.
pub fn verdict_to_severity(verdict: &str) -> (r: Option<String>)
    ensures
        match r {
            Some(s) => verdict_severity(verdict@) == Some(s@),
            None => verdict_severity(verdict@) is None,
        },
{
    if str_eq(verdict, "malicious") {
        Some("high".to_string())
    } else if str_eq(verdict, "suspicious") {
        Some("medium".to_string())
    } else {
        None
    }
}

/// The chat-completions endpoint for a provider, or under a configured base URL.
pub open spec fn provider_endpoint(api_url: Option<Seq<char>>, provider: Seq<char>) -> Seq<char> {
    match api_url {
        Some(base) => crate::text::trim_end_matches(base, seq!['/']) + "/chat/completions"@,
        None => if provider == "zhipu"@ {
            "https://open.bigmodel.cn/api/paas/v4/chat/completions"@
        } else if provider == "doubao"@ {
            "https://ark.cn-beijing.volces.com/api/v3/chat/completions"@
        } else {
            "https://open.bigmodel.cn/api/paas/v4/chat/completions"@
        },
    }
}

/// The chat-completions endpoint: `{api_url}/chat/completions` when a base URL is
/// configured, else the provider's own endpoint.
pub fn security_eval_endpoint(api_url: Option<&str>, provider: &str) -> (r: String)
    ensures
        r@ == provider_endpoint(
            match api_url {
                Some(u) => Some(u@),
                None => None,
            },
            provider@,
        ),
{
    match api_url {
        Some(base) => {
            let v = chars_of(base);
            let slash = vec!['/'];
            let e = crate::text::trim_end_matches_at(&v, 0, v.len(), &slash);
            assert(v@.subrange(0, v.len() as int) =~= v@);
            let mut r = crate::text::string_of(&crate::text::slice_vec(&v, 0, e));
            assert(slash@ =~= seq!['/']);
            assert(r@ == crate::text::trim_end_matches(base@, seq!['/']));
            r.append("/chat/completions");
            assert(r@ == crate::text::trim_end_matches(base@, seq!['/']) + "/chat/completions"@);
            r
        },
        None => {
            if str_eq(provider, "zhipu") {
                "https://open.bigmodel.cn/api/paas/v4/chat/completions".to_string()
            } else if str_eq(provider, "doubao") {
                "https://ark.cn-beijing.volces.com/api/v3/chat/completions".to_string()
            } else {
                "https://open.bigmodel.cn/api/paas/v4/chat/completions".to_string()
            }
        },
    }
}

/// The endpoint used for flock metadata generation; it is chosen the same way.
pub fn chat_endpoint(api_url: Option<&str>, provider: &str) -> (r: String)
    ensures
        r@ == provider_endpoint(
            match api_url {
                Some(u) => Some(u@),
                None => None,
            },
            provider@,
        ),
{
    security_eval_endpoint(api_url, provider)
}

/// Default model for security evaluation with a provider.
pub open spec fn security_model_of(provider: Seq<char>) -> Seq<char> {
    if provider == "zhipu"@ {
        "glm-5"@
    } else if provider == "doubao"@ {
        "doubao-1-5-pro-32k-250115"@
    } else {
        "glm-5"@
    }
}

/// Default model for security evaluation with a provider.
pub fn default_security_model(provider: &str) -> (r: &'static str)
    ensures
        r@ == security_model_of(provider@),
{
    if str_eq(provider, "zhipu") {
        "glm-5"
    } else if str_eq(provider, "doubao") {
        "doubao-1-5-pro-32k-250115"
    } else {
        "glm-5"
    }
}

/// Default model for metadata generation with a provider.
pub open spec fn metadata_model_of(provider: Seq<char>) -> Seq<char> {
    if provider == "zhipu"@ {
        "glm-4-flash"@
    } else if provider == "doubao"@ {
        "doubao-1-5-pro-32k-250115"@
    } else {
        "glm-4-flash"@
    }
}

/// Default model for metadata generation with a provider.
pub fn default_model(provider: &str) -> (r: &'static str)
    ensures
        r@ == metadata_model_of(provider@),
{
    if str_eq(provider, "zhipu") {
        "glm-4-flash"
    } else if str_eq(provider, "doubao") {
        "doubao-1-5-pro-32k-250115"
    } else {
        "glm-4-flash"
    }
}

/// The jitter (in milliseconds, below 1000) added to a retry delay, from the
/// sub-second nanoseconds of the current time.
pub fn rand_delay_ms(subsec_nanos: u32) -> (r: u32)
    ensures
        r == subsec_nanos % 1000,
        r < 1000,
{
    subsec_nanos % 1000
}

/// The delay before retry number `attempt` (0-based): `2^attempt * 2000` ms plus jitter
/// (for the attempts where that fits in a `u64`; beyond them the original's arithmetic
/// overflows).
pub fn retry_delay_ms(attempt: u32, jitter_ms: u32) -> (r: u64)
    requires
        vstd::arithmetic::power2::pow2(attempt as nat) * 2000 + jitter_ms <= u64::MAX,
    ensures
        r == vstd::arithmetic::power2::pow2(attempt as nat) * 2000 + jitter_ms,
{
    let mut p: u64 = 1;
    let mut k: u32 = 0;
    proof {
        vstd::arithmetic::power2::lemma2_to64();
    }
    while k < attempt
        invariant
            k <= attempt,
            p == vstd::arithmetic::power2::pow2(k as nat),
            vstd::arithmetic::power2::pow2(attempt as nat) * 2000 + jitter_ms <= u64::MAX,
        decreases attempt - k,
    {
        proof {
            vstd::arithmetic::power2::lemma_pow2_unfold((k + 1) as nat);
            if k + 1 < attempt {
                vstd::arithmetic::power2::lemma_pow2_strictly_increases(
                    (k + 1) as nat,
                    attempt as nat,
                );
            }
        }
        p = p * 2;
        k = k + 1;
    }
    p * 2000 + (jitter_ms as u64)
}

/// Whether a request to the evaluator is tried again: on a rate limit (429) or a server
/// error (500 and above), while retries are left.
pub fn should_retry(status: u16, attempt: u32, max_retries: u32) -> (r: bool)
    ensures
        r == ((status == 429 || status >= 500) && attempt < max_retries),
{
    (status == 429 || status >= 500) && attempt < max_retries
}

/// The error recorded when the evaluator answers with an error status: the status and
/// the first 200 characters of the body.
pub fn llm_api_error_message(status: &str, body: &str) -> (r: String)
    ensures
        r@ == "LLM API error ("@ + status@ + "): "@ + take_chars_spec(body@, 200),
{
    let a = crate::text::concat(&chars_of("LLM API error ("), &chars_of(status));
    let b = crate::text::concat(&a, &chars_of("): "));
    let short = crate::git_url::take_chars(body, 200);
    crate::text::string_of(&crate::text::concat(&b, &chars_of(short.as_str())))
}

// ---------------------------------------------------------------------------
// Reading the evaluator's response
// ---------------------------------------------------------------------------

/// "```".
pub open spec fn fence() -> Seq<char> {
    seq!['`', '`', '`']
}

/// The JSON text inside an evaluator response: the trimmed response, and when it is
/// fenced as a markdown code block, what lies between the opening line and the last fence.
pub open spec fn response_json_text(raw: Seq<char>) -> Seq<char> {
    let t = trim(raw);
    if has_prefix(t, fence()) {
        let i = first_index(t, '\n');
        let t1 = if i < 0 {
            t
        } else {
            t.subrange(i + 1, t.len() as int)
        };
        let j = rfind_seq(t1, fence());
        let t2 = if j < 0 {
            t1
        } else {
            t1.subrange(0, j)
        };
        trim(t2)
    } else {
        t
    }
}

/// The JSON text inside an evaluator response (markdown code fences removed).
pub fn response_json_text_of(raw: &str) -> (r: &str)
    ensures
        r@ == response_json_text(raw@),
{
    let v = chars_of(raw);
    let n = v.len();
    assert(v@.subrange(0, n as int) =~= v@);
    let (a, b) = trim_at(&v, 0, n);
    let f = vec!['`', '`', '`'];
    if !crate::text::has_prefix_at(&v, a, b, &f) {
        return raw.substring_char(a, b);
    }
    let ghost t = v@.subrange(a as int, b as int);
    let a1 = match find_char_at(&v, a, b, '\n') {
        Some(i) => {
            assert(t.subrange(i + 1, t.len() as int) =~= v@.subrange(a + i + 1, b as int));
            a + i + 1
        },
        None => a,
    };
    let ghost t1 = v@.subrange(a1 as int, b as int);
    let b1 = match rfind_seq_at(&v, a1, b, &f) {
        Some(j) => {
            assert(t1.subrange(0, j as int) =~= v@.subrange(a1 as int, a1 + j));
            a1 + j
        },
        None => b,
    };
    let (a2, b2) = trim_at(&v, a1, b1);
    raw.substring_char(a2, b2)
}

/// `entries[key]` as a string, or `default` when it is missing or not a string.
pub open spec fn str_or(entries: Seq<(String, Json)>, key: Seq<char>, default: Seq<char>) -> Seq<
    char,
> {
    match as_str(obj_get(entries, key)) {
        Some(s) => s,
        None => default,
    }
}

/// A dimension as plain values: `(name, label, rating, detail)`.
pub type DimensionView = (Seq<char>, Seq<char>, Seq<char>, Seq<char>);

/// The dimensions read from the `dimensions` object: one per entry whose value is an object.
pub open spec fn dims_from(d: Seq<(String, Json)>) -> Seq<DimensionView>
    decreases d.len(),
{
    if d.len() == 0 {
        Seq::empty()
    } else {
        let prev = dims_from(d.drop_last());
        match d.last().1 {
            Json::Object(o) => prev.push(
                (
                    d.last().0@,
                    dimension_label_of(d.last().0@),
                    str_or(o@, "status"@, "note"@),
                    str_or(o@, "detail"@, ""@),
                ),
            ),
            _ => prev,
        }
    }
}

/// The dimensions of a result, as plain values.
pub open spec fn dim_views(s: Seq<LlmEvalDimension>) -> Seq<DimensionView> {
    Seq::new(s.len(), |i: int| (s[i].name@, s[i].label@, s[i].rating@, s[i].detail@))
}

/// The line a scan finding contributes: `[ruleId] expected|unexpected: note`; none when
/// the finding is not an object or has no `ruleId`.
pub open spec fn finding_line(f: Json) -> Option<Seq<char>> {
    match f {
        Json::Object(o) => match obj_get(o@, "ruleId"@) {
            None => None,
            Some(rule) => {
                let rule_id = match rule {
                    Json::Str(s) => s@,
                    _ => "unknown"@,
                };
                let expected = if as_bool(obj_get(o@, "expected_for_purpose"@)) == Some(true) {
                    "expected"@
                } else {
                    "unexpected"@
                };
                Some("["@ + rule_id + "] "@ + expected + ": "@ + str_or(o@, "note"@, ""@))
            },
        },
        _ => None,
    }
}

/// The lines of the scan findings, in order.
pub open spec fn finding_lines(a: Seq<Json>) -> Seq<Seq<char>>
    decreases a.len(),
{
    if a.len() == 0 {
        Seq::empty()
    } else {
        let prev = finding_lines(a.drop_last());
        match finding_line(a.last()) {
            Some(l) => prev.push(l),
            None => prev,
        }
    }
}

/// Whether `s` is one of the three verdicts.
pub open spec fn is_verdict(s: Seq<char>) -> bool {
    s == "benign"@ || s == "suspicious"@ || s == "malicious"@
}

/// Whether `s` is one of the three confidence levels.
pub open spec fn is_confidence(s: Seq<char>) -> bool {
    s == "high"@ || s == "medium"@ || s == "low"@
}

/// Whether a parsed evaluator response is accepted: an object whose `verdict` and
/// `confidence` are strings that, lower-cased, are a known verdict and level.
pub open spec fn eval_accepted(v: Json) -> bool {
    match v {
        Json::Object(o) => match (as_str(obj_get(o@, "verdict"@)), as_str(
            obj_get(o@, "confidence"@),
        )) {
            (Some(verdict), Some(confidence)) => is_verdict(lowercased(verdict)) && is_confidence(
                lowercased(confidence),
            ),
            _ => false,
        },
        _ => false,
    }
}

/// Whether `res` holds what an accepted response `v` says.
pub open spec fn eval_read_from(v: Json, res: LlmEvalResult) -> bool {
    match v {
        Json::Object(o) => {
            &&& res.verdict@ == lowercased(as_str(obj_get(o@, "verdict"@))->0)
            &&& res.confidence@ == lowercased(as_str(obj_get(o@, "confidence"@))->0)
            &&& res.summary@ == str_or(o@, "summary"@, ""@)
            &&& dim_views(res.dimensions@) == match as_object(obj_get(o@, "dimensions"@)) {
                Some(d) => dims_from(d),
                None => Seq::empty(),
            }
            &&& res.findings@ == match as_array(obj_get(o@, "scan_findings_in_context"@)) {
                Some(a) => join(finding_lines(a), "\n"@),
                None => Seq::empty(),
            }
            &&& res.guidance@ == str_or(o@, "user_guidance"@, ""@)
        },
        _ => false,
    }
}

/// `entries[key]` as a string, or `default`.
fn get_str_or(entries: &Vec<(String, Json)>, key: &str, default: &str) -> (r: String)
    ensures
        r@ == str_or(entries@, key@, default@),
{
    match get_str(entries, key) {
        Some(s) => s.clone(),
        None => default.to_string(),
    }
}

/// The dimensions of the `dimensions` object.
fn read_dimensions(d: &Vec<(String, Json)>) -> (r: Vec<LlmEvalDimension>)
    ensures
        dim_views(r@) == dims_from(d@),
{
    let mut r: Vec<LlmEvalDimension> = Vec::new();
    let mut i: usize = 0;
    while i < d.len()
        invariant
            i <= d.len(),
            dim_views(r@) == dims_from(d@.take(i as int)),
        decreases d.len() - i,
    {
        assert(d@.take(i + 1).drop_last() =~= d@.take(i as int));
        assert(d@.take(i + 1).last() == d@[i as int]);
        let key = &d[i].0;
        match &d[i].1 {
            Json::Object(o) => {
                let dim = LlmEvalDimension {
                    name: key.clone(),
                    label: dimension_label(key.as_str()).to_string(),
                    rating: get_str_or(o, "status", "note"),
                    detail: get_str_or(o, "detail", ""),
                };
                let ghost before = r@;
                r.push(dim);
                assert(dim_views(r@) =~= dim_views(before).push(
                    (key@, dimension_label_of(key@), str_or(o@, "status"@, "note"@), str_or(o@, "detail"@, ""@)),
                ));
            },
            _ => {},
        }
        i += 1;
    }
    assert(d@.take(d.len() as int) =~= d@);
    r
}

/// The line a scan finding contributes, if any.
fn read_finding(f: &Json) -> (r: Option<String>)
    ensures
        match r {
            Some(l) => finding_line(*f) == Some(l@),
            None => finding_line(*f) is None,
        },
{
    match f {
        Json::Object(o) => match get(o, "ruleId") {
            None => None,
            Some(rule) => {
                let mut line = "[".to_string();
                match rule {
                    Json::Str(s) => line.append(s.as_str()),
                    _ => line.append("unknown"),
                }
                line.append("] ");
                let expected = match get(o, "expected_for_purpose") {
                    Some(Json::Bool(true)) => "expected",
                    _ => "unexpected",
                };
                line.append(expected);
                line.append(": ");
                let note = get_str_or(o, "note", "");
                line.append(note.as_str());
                Some(line)
            },
        },
        _ => None,
    }
}

/// The lines of the scan findings.
fn read_findings(a: &Vec<Json>) -> (r: Vec<String>)
    ensures
        strs_of(r@) == finding_lines(a@),
{
    let mut r: Vec<String> = Vec::new();
    let mut i: usize = 0;
    while i < a.len()
        invariant
            i <= a.len(),
            strs_of(r@) == finding_lines(a@.take(i as int)),
        decreases a.len() - i,
    {
        assert(a@.take(i + 1).drop_last() =~= a@.take(i as int));
        assert(a@.take(i + 1).last() == a@[i as int]);
        match read_finding(&a[i]) {
            Some(line) => {
                let ghost before = r@;
                let ghost l = line@;
                r.push(line);
                assert(strs_of(r@) =~= strs_of(before).push(l));
            },
            None => {},
        }
        i += 1;
    }
    assert(a@.take(a.len() as int) =~= a@);
    r
}

/// Read the evaluator's verdict from its parsed JSON response; `None` when the response
/// is not an object or its verdict or confidence is missing or unknown.
pub fn llm_eval_from_json(parsed: &Json) -> (r: Option<LlmEvalResult>)
    ensures
        r is Some <==> eval_accepted(*parsed),
        r matches Some(res) ==> eval_read_from(*parsed, res),
{
    let o = match parsed {
        Json::Object(o) => o,
        _ => return None,
    };
    let verdict = match get_str(o, "verdict") {
        Some(v) => to_lowercase(v.as_str()),
        None => return None,
    };
    if !(str_eq(verdict.as_str(), "benign") || str_eq(verdict.as_str(), "suspicious") || str_eq(
        verdict.as_str(),
        "malicious",
    )) {
        return None;
    }
    let confidence = match get_str(o, "confidence") {
        Some(c) => to_lowercase(c.as_str()),
        None => return None,
    };
    if !(str_eq(confidence.as_str(), "high") || str_eq(confidence.as_str(), "medium") || str_eq(
        confidence.as_str(),
        "low",
    )) {
        return None;
    }
    let summary = get_str_or(o, "summary", "");
    let dimensions = match get(o, "dimensions") {
        Some(Json::Object(d)) => read_dimensions(d),
        _ => Vec::new(),
    };
    assert(dim_views(Seq::<LlmEvalDimension>::empty()) =~= Seq::<DimensionView>::empty());
    let findings = match get(o, "scan_findings_in_context") {
        Some(Json::Array(a)) => {
            let lines = read_findings(a);
            join_strings(&lines, "\n")
        },
        _ => String::new(),
    };
    let guidance = get_str_or(o, "user_guidance", "");
    Some(LlmEvalResult { verdict, confidence, summary, dimensions, guidance, findings })
}

// ---------------------------------------------------------------------------
// The evaluator prompt
// ---------------------------------------------------------------------------

/// Characters of SKILL.md shown to the evaluator.
pub const MAX_SKILL_MD_CHARS: usize = 6000;

/// Characters of each file shown to the evaluator.
pub const MAX_FILE_CHARS: usize = 10000;

/// Bytes of file content after which the remaining files are left out.
pub const MAX_TOTAL_FILE_CHARS: usize = 50000;

/// The extensions that mark a code file.
pub open spec fn code_exts() -> Seq<&'static str> {
    seq![
        ".js",
        ".ts",
        ".mjs",
        ".cjs",
        ".jsx",
        ".tsx",
        ".py",
        ".rb",
        ".sh",
        ".bash",
        ".zsh",
        ".go",
        ".rs",
        ".c",
        ".cpp",
        ".java",
    ]
}

/// Whether a path (lower-cased) ends with a code-file extension.
pub open spec fn is_code_path(path: Seq<char>) -> bool {
    exists|k: int| 0 <= k < code_exts().len() && has_suffix(lowercased(path), code_exts()[k]@)
}

/// The code files of a manifest, in order.
pub open spec fn code_files(m: Seq<FileManifestEntry>) -> Seq<FileManifestEntry>
    decreases m.len(),
{
    if m.len() == 0 {
        Seq::empty()
    } else if is_code_path(m.last().path@) {
        code_files(m.drop_last()).push(m.last())
    } else {
        code_files(m.drop_last())
    }
}

/// `  path (size bytes)`.
pub open spec fn manifest_line(f: FileManifestEntry) -> Seq<char> {
    "  "@ + f.path@ + " ("@ + decimal(f.size as nat) + " bytes)"@
}

/// The manifest lines of some files.
pub open spec fn manifest_lines(m: Seq<FileManifestEntry>) -> Seq<Seq<char>> {
    Seq::new(m.len(), |i: int| manifest_line(m[i]))
}

/// `- signal` lines.
pub open spec fn signal_lines(s: Seq<String>) -> Seq<Seq<char>> {
    Seq::new(s.len(), |i: int| "- "@ + s[i]@)
}

/// Text shown in place of at most `n` characters, marked when it was cut.
pub open spec fn preview(s: Seq<char>, n: nat) -> Seq<char> {
    if s.len() > n {
        take_chars_spec(s, n) + "\n...[truncated]"@
    } else {
        s
    }
}

/// The byte length of a string, as `str::len` reports it.
pub open spec fn byte_len(s: Seq<char>) -> int {
    (vstd::utf8::encode_utf8(s).len() as usize) as int
}

/// The block showing one file.
pub open spec fn file_block(f: FileEntry) -> Seq<char> {
    "#### "@ + f.path@ + "\n```\n"@ + preview(f.content@, MAX_FILE_CHARS as nat) + "\n```"@
}

/// The note that `n` files were left out.
pub open spec fn omitted_note(n: nat) -> Seq<char> {
    "\n...[remaining files truncated, "@ + decimal(n) + " file(s) omitted]"@
}

/// The file blocks from file `i` on, after `total` bytes of shown content.
pub open spec fn file_blocks(files: Seq<FileEntry>, i: int, total: int) -> Seq<Seq<char>>
    decreases files.len() - i,
{
    if i >= files.len() || i < 0 {
        Seq::empty()
    } else if total >= MAX_TOTAL_FILE_CHARS {
        seq![omitted_note((files.len() - i) as nat)]
    } else {
        seq![file_block(files[i])] + file_blocks(
            files,
            i + 1,
            total + byte_len(preview(files[i].content@, MAX_FILE_CHARS as nat)),
        )
    }
}

/// The sections of the evaluator's user message.
pub open spec fn eval_sections(ctx: SkillEvalContext) -> Seq<Seq<char>> {
    let identity = "## Skill under evaluation\n\n**Name:** "@ + ctx.display_name@
        + "\n**Description:** "@ + match ctx.summary {
        Some(s) => s@,
        None => "No description provided."@,
    } + "\n**Slug:** "@ + ctx.slug@ + "\n**Version:** "@ + match ctx.version {
        Some(v) => v@,
        None => "unknown"@,
    };
    let flags = "**Flags:**\n- always: "@ + if ctx.frontmatter_always == Some(true) {
        "true"@
    } else {
        "false (default)"@
    };
    let code = code_files(ctx.file_manifest@);
    let code_section = if code.len() == 0 {
        "### Code file presence\nNo code files present — this is an instruction-only skill."@
    } else {
        "### Code file presence\n"@ + decimal(code.len()) + " code file(s):\n"@ + join(
            manifest_lines(code),
            "\n"@,
        )
    };
    let manifest_section = "### File manifest\n"@ + decimal(ctx.file_manifest@.len())
        + " file(s):\n"@ + join(manifest_lines(ctx.file_manifest@), "\n"@);
    let signals_section = if ctx.injection_signals@.len() == 0 {
        "### Pre-scan injection signals\nNone detected."@
    } else {
        "### Pre-scan injection signals\nThe following prompt-injection patterns were detected:\n"@
            + join(signal_lines(ctx.injection_signals@), "\n"@)
    };
    let skill_md_section = "### SKILL.md content (runtime instructions)\n"@ + preview(
        ctx.skill_md_content@,
        MAX_SKILL_MD_CHARS as nat,
    );
    let head = seq![
        identity,
        flags,
        code_section,
        manifest_section,
        signals_section,
        skill_md_section,
    ];
    let files_part = if ctx.file_contents@.len() == 0 {
        Seq::empty()
    } else {
        seq![
            "### File contents\nReview these carefully for malicious behavior.\n\n"@ + join(
                file_blocks(ctx.file_contents@, 0, 0),
                "\n\n"@,
            ),
        ]
    };
    head + files_part + seq!["Respond with your evaluation as a single JSON object."@]
}

/// The evaluator's user message.
pub open spec fn eval_user_message(ctx: SkillEvalContext) -> Seq<char> {
    join(eval_sections(ctx), "\n\n"@)
}

/// Whether a path ends with a code-file extension, ignoring case.
fn is_code_file(path: &str) -> (r: bool)
    ensures
        r == is_code_path(path@),
{
    let exts: Vec<&str> = vec![
        ".js",
        ".ts",
        ".mjs",
        ".cjs",
        ".jsx",
        ".tsx",
        ".py",
        ".rb",
        ".sh",
        ".bash",
        ".zsh",
        ".go",
        ".rs",
        ".c",
        ".cpp",
        ".java",
    ];
    assert(exts@ == code_exts());
    let lower = chars_of(to_lowercase(path).as_str());
    let mut k: usize = 0;
    while k < exts.len()
        invariant
            k <= exts.len(),
            exts@ == code_exts(),
            lower@ == lowercased(path@),
            forall|j: int| 0 <= j < k ==> !has_suffix(lowercased(path@), code_exts()[j]@),
        decreases exts.len() - k,
    {
        if ends_with(&lower, &chars_of(exts[k])) {
            return true;
        }
        k += 1;
    }
    false
}

/// The manifest line of a file.
fn manifest_line_of(f: &FileManifestEntry) -> (r: String)
    ensures
        r@ == manifest_line(*f),
{
    let mut r = "  ".to_string();
    r.append(f.path.as_str());
    r.append(" (");
    r.append(usize_to_decimal(f.size).as_str());
    r.append(" bytes)");
    r
}

/// The manifest lines of the code files, and their number.
fn code_file_lines(m: &Vec<FileManifestEntry>) -> (r: Vec<String>)
    ensures
        strs_of(r@) == manifest_lines(code_files(m@)),
{
    let mut r: Vec<String> = Vec::new();
    let mut i: usize = 0;
    while i < m.len()
        invariant
            i <= m.len(),
            strs_of(r@) == manifest_lines(code_files(m@.take(i as int))),
        decreases m.len() - i,
    {
        assert(m@.take(i + 1).drop_last() =~= m@.take(i as int));
        assert(m@.take(i + 1).last() == m@[i as int]);
        if is_code_file(m[i].path.as_str()) {
            let line = manifest_line_of(&m[i]);
            let ghost before = r@;
            let ghost l = line@;
            r.push(line);
            let ghost cf = code_files(m@.take(i as int));
            assert(code_files(m@.take(i + 1)) == cf.push(m@[i as int]));
            assert(strs_of(r@) =~= strs_of(before).push(l));
            assert(manifest_lines(cf.push(m@[i as int])) =~= manifest_lines(cf).push(
                manifest_line(m@[i as int]),
            ));
        }
        i += 1;
    }
    assert(m@.take(m.len() as int) =~= m@);
    r
}

/// The manifest lines of all files.
fn all_manifest_lines(m: &Vec<FileManifestEntry>) -> (r: Vec<String>)
    ensures
        strs_of(r@) == manifest_lines(m@),
{
    let mut r: Vec<String> = Vec::new();
    let mut i: usize = 0;
    while i < m.len()
        invariant
            i <= m.len(),
            strs_of(r@) == manifest_lines(m@.take(i as int)),
        decreases m.len() - i,
    {
        let line = manifest_line_of(&m[i]);
        let ghost before = r@;
        let ghost l = line@;
        r.push(line);
        assert(strs_of(r@) =~= strs_of(before).push(l));
        assert(manifest_lines(m@.take(i + 1)) =~= manifest_lines(m@.take(i as int)).push(
            manifest_line(m@[i as int]),
        ));
        i += 1;
    }
    assert(m@.take(m.len() as int) =~= m@);
    r
}

/// Text shown in place of at most `n` characters.
fn preview_of(s: &str, n: usize) -> (r: String)
    ensures
        r@ == preview(s@, n as nat),
{
    let p = take_chars(s, n);
    if chars_of(s).len() > n {
        let mut p = p;
        p.append("\n...[truncated]");
        p
    } else {
        p
    }
}

/// The blocks showing the files, with the note on files left out.
fn file_block_list(files: &Vec<FileEntry>) -> (r: Vec<String>)
    ensures
        strs_of(r@) == file_blocks(files@, 0, 0),
{
    let mut blocks: Vec<String> = Vec::new();
    let mut total: usize = 0;
    let ghost mut spec_total: int = 0;
    let mut i: usize = 0;
    while i < files.len()
        invariant
            i <= files.len(),
            blocks@.len() == i,
            spec_total >= 0,
            total as int == if spec_total > usize::MAX { usize::MAX as int } else { spec_total },
            strs_of(blocks@) + file_blocks(files@, i as int, spec_total) == file_blocks(files@, 0, 0),
        decreases files.len() - i,
    {
        if total >= MAX_TOTAL_FILE_CHARS {
            let mut note = "\n...[remaining files truncated, ".to_string();
            note.append(usize_to_decimal(files.len() - blocks.len()).as_str());
            note.append(" file(s) omitted]");
            let ghost before = strs_of(blocks@);
            blocks.push(note);
            assert(strs_of(blocks@) =~= before.push(omitted_note((files@.len() - i) as nat)));
            assert(strs_of(blocks@) =~= before + file_blocks(files@, i as int, spec_total));
            return blocks;
        }
        let content = preview_of(files[i].content.as_str(), MAX_FILE_CHARS);
        let mut block = "#### ".to_string();
        block.append(files[i].path.as_str());
        block.append("\n```\n");
        block.append(content.as_str());
        block.append("\n```");
        let ghost before = strs_of(blocks@);
        blocks.push(block);
        assert(strs_of(blocks@) =~= before.push(file_block(files@[i as int])));
        let len = content.as_str().len();
        proof {
            spec_total = spec_total + byte_len(content@);
        }
        total = total.saturating_add(len);
        assert(strs_of(blocks@) + file_blocks(files@, i + 1, spec_total) =~= before + file_blocks(
            files@,
            i as int,
            spec_total - byte_len(content@),
        ));
        i += 1;
    }
    assert(strs_of(blocks@) + Seq::<Seq<char>>::empty() =~= strs_of(blocks@));
    blocks
}

/// `- signal` lines.
fn signal_line_list(s: &Vec<String>) -> (r: Vec<String>)
    ensures
        strs_of(r@) == signal_lines(s@),
{
    let mut r: Vec<String> = Vec::new();
    let mut i: usize = 0;
    while i < s.len()
        invariant
            i <= s.len(),
            strs_of(r@) == signal_lines(s@.take(i as int)),
        decreases s.len() - i,
    {
        let mut line = "- ".to_string();
        line.append(s[i].as_str());
        let ghost before = r@;
        let ghost l = line@;
        r.push(line);
        assert(strs_of(r@) =~= strs_of(before).push(l));
        assert(signal_lines(s@.take(i + 1)) =~= signal_lines(s@.take(i as int)).push(
            "- "@ + s@[i as int]@,
        ));
        i += 1;
    }
    assert(s@.take(s.len() as int) =~= s@);
    r
}

/// The user message sent to the security evaluator: identity, flags, code files,
/// manifest, injection signals, SKILL.md and file contents, in sections.
pub fn assemble_eval_user_message(ctx: &SkillEvalContext) -> (r: String)
    ensures
        r@ == eval_user_message(*ctx),
{
    let mut sections: Vec<String> = Vec::new();

    let mut identity = "## Skill under evaluation\n\n**Name:** ".to_string();
    identity.append(ctx.display_name.as_str());
    identity.append("\n**Description:** ");
    match &ctx.summary {
        Some(s) => identity.append(s.as_str()),
        None => identity.append("No description provided."),
    }
    identity.append("\n**Slug:** ");
    identity.append(ctx.slug.as_str());
    identity.append("\n**Version:** ");
    match &ctx.version {
        Some(v) => identity.append(v.as_str()),
        None => identity.append("unknown"),
    }
    sections.push(identity);

    let mut flags = "**Flags:**\n- always: ".to_string();
    match ctx.frontmatter_always {
        Some(true) => flags.append("true"),
        _ => flags.append("false (default)"),
    }
    sections.push(flags);

    let code_lines = code_file_lines(&ctx.file_manifest);
    if code_lines.len() == 0 {
        sections.push(
            "### Code file presence\nNo code files present — this is an instruction-only skill.".to_string(),
        );
    } else {
        let mut code = "### Code file presence\n".to_string();
        code.append(usize_to_decimal(code_lines.len()).as_str());
        code.append(" code file(s):\n");
        code.append(join_strings(&code_lines, "\n").as_str());
        sections.push(code);
    }

    let mut manifest = "### File manifest\n".to_string();
    manifest.append(usize_to_decimal(ctx.file_manifest.len()).as_str());
    manifest.append(" file(s):\n");
    manifest.append(join_strings(&all_manifest_lines(&ctx.file_manifest), "\n").as_str());
    sections.push(manifest);

    if ctx.injection_signals.len() == 0 {
        sections.push("### Pre-scan injection signals\nNone detected.".to_string());
    } else {
        let mut signals =
            "### Pre-scan injection signals\nThe following prompt-injection patterns were detected:\n".to_string();
        signals.append(join_strings(&signal_line_list(&ctx.injection_signals), "\n").as_str());
        sections.push(signals);
    }

    let mut skill_md = "### SKILL.md content (runtime instructions)\n".to_string();
    skill_md.append(preview_of(ctx.skill_md_content.as_str(), MAX_SKILL_MD_CHARS).as_str());
    sections.push(skill_md);

    if ctx.file_contents.len() > 0 {
        let mut files = "### File contents\nReview these carefully for malicious behavior.\n\n".to_string();
        files.append(join_strings(&file_block_list(&ctx.file_contents), "\n\n").as_str());
        sections.push(files);
    }

    sections.push("Respond with your evaluation as a single JSON object.".to_string());
    assert(strs_of(sections@) =~= eval_sections(*ctx));
    join_strings(&sections, "\n\n")
}

} // verus!
