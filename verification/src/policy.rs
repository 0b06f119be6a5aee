//! Permission policies: fixed allow/deny, the interactive `y/N` prompt, and
//! reading an auto-approval judge's verdict.

use vstd::prelude::*;
use crate::brain::{Decision, ModelSelector, PermissionRequest, selector_name};
use crate::json::{Json, compact_json, copy_json, json_same, parse_json, serde_compact, serde_parse, str_eq};
use crate::text::{chars_of, push_chars, push_str, trim, trim_bounds};

verus! {

/// Approves everything. Decisions still flow through the brain as events,
/// so they are recorded in the trace.
pub struct AllowAll;

/// Denies everything (useful for headless, locked-down runs).
pub struct DenyAll;

/// Prompts the user on the terminal for each gated capability (`y/N`).
pub struct Interactive;

impl AllowAll {
    pub fn decide(&self, request: &PermissionRequest) -> (r: Decision)
        ensures
            r is Allow,
    {
        Decision::Allow
    }
}

impl DenyAll {
    pub fn decide(&self, request: &PermissionRequest) -> (r: Decision)
        ensures
            r matches Decision::Deny { reason } && reason@ == "denied by policy"@,
    {
        Decision::Deny { reason: "denied by policy".to_string() }
    }
}

/// The lower-case form of a text (`str::to_lowercase`, full Unicode mapping).
pub uninterp spec fn unicode_lowercase(s: Seq<char>) -> Seq<char>;

/// Lower-cases a text (`str::to_lowercase`).
#[verifier::external_body]
fn to_lowercase(s: &str) -> (r: String)
    ensures
        r@ == unicode_lowercase(s@),
{
    s.to_lowercase()
}

impl Interactive {
    /// The question shown for a request: the capability and its arguments as
    /// compact JSON.
    pub fn prompt(&self, request: &PermissionRequest) -> (r: String)
        ensures
            r@ == "\n⚠  allow `"@ + request.capability@ + "` with args "@ + serde_compact(
                request.args,
            ) + "? [y/N] "@,
    {
        let mut out = String::new();
        push_str(&mut out, "\n⚠  allow `");
        push_str(&mut out, request.capability.as_str());
        push_str(&mut out, "` with args ");
        let args = compact_json(&request.args);
        push_str(&mut out, args.as_str());
        push_str(&mut out, "? [y/N] ");
        out
    }

    /// The normalized answer: the typed line trimmed and lower-cased.
    pub fn normalize_answer(&self, line: &str) -> (r: String)
        ensures
            r@ == unicode_lowercase(trim(line@)),
    {
        let v = chars_of(line);
        let (lo, hi) = trim_bounds(&v);
        let mut t = String::new();
        push_chars(&mut t, &v, lo, hi);
        to_lowercase(t.as_str())
    }

    /// The decision for a normalized answer: `y` or `yes` allows, anything
    /// else (including no answer) denies.
    pub fn decision_for(&self, answer: &str) -> (r: Decision)
        ensures
            (answer@ == "y"@ || answer@ == "yes"@) ==> r is Allow,
            !(answer@ == "y"@ || answer@ == "yes"@) ==> (r matches Decision::Deny { reason }
                && reason@ == "denied by user"@),
    {
        if str_eq(answer, "y") || str_eq(answer, "yes") {
            Decision::Allow
        } else {
            Decision::Deny { reason: "denied by user".to_string() }
        }
    }

    /// The decision for the line the user typed.
    pub fn decide_line(&self, line: &str) -> (r: Decision)
        ensures
            ({
                let a = unicode_lowercase(trim(line@));
                &&& (a == "y"@ || a == "yes"@) ==> r is Allow
                &&& !(a == "y"@ || a == "yes"@) ==> (r matches Decision::Deny { reason } && reason@
                    == "denied by user"@)
            }),
    {
        let a = self.normalize_answer(line);
        self.decision_for(a.as_str())
    }
}

// ---------------------------------------------------------------------------
// Auto-approval verdicts
// ---------------------------------------------------------------------------

/// Index of the first occurrence of `c`, or `s.len()`.
pub open spec fn first_of(s: Seq<char>, c: char) -> nat
    decreases s.len(),
{
    if s.len() == 0 {
        0
    } else if s[0] == c {
        0
    } else {
        1 + first_of(s.drop_first(), c)
    }
}

/// One plus the index of the last occurrence of `c`, or 0.
pub open spec fn last_of_end(s: Seq<char>, c: char) -> nat
    decreases s.len(),
{
    if s.len() == 0 {
        0
    } else if s.last() == c {
        s.len()
    } else {
        last_of_end(s.drop_last(), c)
    }
}

proof fn lemma_first_of(s: Seq<char>, c: char)
    ensures
        first_of(s, c) <= s.len(),
        first_of(s, c) < s.len() ==> s[first_of(s, c) as int] == c,
        forall|j: int| 0 <= j < first_of(s, c) ==> #[trigger] s[j] != c,
    decreases s.len(),
{
    if s.len() > 0 && s[0] != c {
        lemma_first_of(s.drop_first(), c);
        assert forall|j: int| 0 <= j < first_of(s, c) implies #[trigger] s[j] != c by {
            if j > 0 {
                assert(s[j] == s.drop_first()[j - 1]);
            }
        }
    }
}

proof fn lemma_last_of_end(s: Seq<char>, c: char)
    ensures
        last_of_end(s, c) <= s.len(),
        last_of_end(s, c) > 0 ==> s[last_of_end(s, c) - 1] == c,
        forall|j: int| last_of_end(s, c) <= j < s.len() ==> #[trigger] s[j] != c,
    decreases s.len(),
{
    if s.len() > 0 && s.last() != c {
        lemma_last_of_end(s.drop_last(), c);
        assert forall|j: int| last_of_end(s, c) <= j < s.len() implies #[trigger] s[j] != c by {
            if j < s.len() - 1 {
                assert(s[j] == s.drop_last()[j]);
            }
        }
    }
}

/// The span from the first `{` to the last `}` of a text, when both exist
/// in that order.
pub open spec fn object_span(t: Seq<char>) -> Option<Seq<char>> {
    let start = first_of(t, '{');
    let end = last_of_end(t, '}');
    if start < t.len() && end > 0 && start <= end - 1 {
        Some(t.subrange(start as int, end as int))
    } else {
        None
    }
}

/// The extracted span is the outermost braced part of the text: it opens
/// with `{` and closes with `}`, no `{` comes before it and no `}` after it.
pub proof fn law_object_span_is_outermost(t: Seq<char>)
    ensures
        object_span(t) matches Some(s) ==> {
            exists|a: int, b: int| {
                &&& 0 <= a < b <= t.len()
                &&& s == t.subrange(a, b)
                &&& t[a] == '{'
                &&& t[b - 1] == '}'
                &&& forall|j: int| 0 <= j < a ==> #[trigger] t[j] != '{'
                &&& forall|j: int| b <= j < t.len() ==> #[trigger] t[j] != '}'
            }
        },
{
    lemma_first_of(t, '{');
    lemma_last_of_end(t, '}');
    if object_span(t) is Some {
        let a = first_of(t, '{') as int;
        let b = last_of_end(t, '}') as int;
        assert(t[a] == '{');
        assert(t[b - 1] == '}');
    }
}

/// The text from the first `{` through the last `}`, if there is such a span.
pub fn extract_json_object(text: &str) -> (r: Option<String>)
    ensures
        match object_span(text@) {
            Some(s) => r matches Some(x) && x@ == s,
            None => r is None,
        },
{
    let v = chars_of(text);
    let mut start: usize = 0;
    assert(v@.skip(0) =~= v@);
    proof {
        lemma_first_of(v@, '{');
        lemma_last_of_end(v@, '}');
    }
    while start < v.len() && v[start] != '{'
        invariant
            start <= v@.len(),
            first_of(v@, '{') == start + first_of(v@.skip(start as int), '{'),
        decreases v.len() - start,
    {
        assert(v@.skip(start as int).drop_first() =~= v@.skip(start + 1));
        start = start + 1;
    }
    proof {
        assert(v@.skip(0) =~= v@);
        if start < v.len() {
            assert(v@.skip(start as int)[0] == v@[start as int]);
        }
    }
    let mut end: usize = v.len();
    while end > 0 && v[end - 1] != '}'
        invariant
            end <= v@.len(),
            last_of_end(v@, '}') == last_of_end(v@.take(end as int), '}'),
        decreases end,
    {
        assert(v@.take(end as int).drop_last() =~= v@.take(end - 1));
        end = end - 1;
    }
    proof {
        assert(v@.take(v@.len() as int) =~= v@);
        if end > 0 {
            assert(v@.take(end as int).last() == v@[end - 1]);
        } else {
            assert(v@.take(0).len() == 0);
        }
    }
    if start < v.len() && end > 0 && start <= end - 1 {
        let mut s = String::new();
        push_chars(&mut s, &v, start, end);
        Some(s)
    } else {
        None
    }
}

/// The judge's verdict value: the whole reply parsed as JSON, else the span
/// from the first `{` to the last `}` parsed as JSON.
pub open spec fn judge_verdict(text: Seq<char>) -> Option<Json> {
    match serde_parse(text) {
        Some(v) => Some(v),
        None => match object_span(text) {
            Some(s) => serde_parse(s),
            None => None,
        },
    }
}

/// Whether a verdict says the action is safe (`"safe": true`).
pub open spec fn verdict_safe(v: Json) -> bool {
    v.member("safe"@) == Some(Json::Bool(true))
}

/// The reason a verdict gives, or the default for its outcome.
pub open spec fn verdict_reason(v: Json) -> Seq<char> {
    match v.member("reason"@) {
        Some(Json::String(s)) => s@,
        _ => if verdict_safe(v) {
            "auto-approve judge allowed the action"@
        } else {
            "auto-approve judge denied the action"@
        },
    }
}

/// The decision a parsed verdict gives: allow when it says `"safe": true`,
/// otherwise deny with its reason; no verdict denies as unparsable.
pub fn decision_from_verdict(verdict: Option<Json>) -> (r: Decision)
    ensures
        match verdict {
            None => r matches Decision::Deny { reason } && reason@
                == "auto-approve judge returned an unparsable verdict"@,
            Some(v) => if verdict_safe(v) {
                r is Allow
            } else {
                r matches Decision::Deny { reason } && reason@ == verdict_reason(v)
            },
        },
{
    let value = match verdict {
        None => {
            return Decision::Deny {
                reason: "auto-approve judge returned an unparsable verdict".to_string(),
            };
        },
        Some(v) => v,
    };
    let safe = match value.get("safe") {
        Some(s) => match s.as_bool() {
            Some(b) => b,
            None => false,
        },
        None => false,
    };
    if safe {
        return Decision::Allow;
    }
    let reason = match value.get("reason") {
        Some(r) => match r.as_str() {
            Some(t) => t.to_string(),
            None => "auto-approve judge denied the action".to_string(),
        },
        None => "auto-approve judge denied the action".to_string(),
    };
    Decision::Deny { reason }
}

/// Reads the judge's reply into a decision: parse it as JSON (or the span
/// from its first `{` to its last `}`), then decide from the verdict.
pub fn parse_judge_decision(text: &str) -> (r: Decision)
    ensures
        match judge_verdict(text@) {
            None => r matches Decision::Deny { reason } && reason@
                == "auto-approve judge returned an unparsable verdict"@,
            Some(v) => if verdict_safe(v) {
                r is Allow
            } else {
                r matches Decision::Deny { reason } && reason@ == verdict_reason(v)
            },
        },
{
    let parsed = match parse_json(text) {
        Some(v) => Some(v),
        None => match extract_json_object(text) {
            Some(s) => parse_json(s.as_str()),
            None => None,
        },
    };
    decision_from_verdict(parsed)
}

/// The auto-approval decision once the judge model has answered: its reply
/// text read as a verdict, or, when the call failed, a denial naming the
/// failure.
pub fn judge_outcome(reply: Result<&str, &str>) -> (r: Decision)
    ensures
        match reply {
            Ok(text) => match judge_verdict(text@) {
                None => r matches Decision::Deny { reason } && reason@
                    == "auto-approve judge returned an unparsable verdict"@,
                Some(v) => if verdict_safe(v) {
                    r is Allow
                } else {
                    r matches Decision::Deny { reason } && reason@ == verdict_reason(v)
                },
            },
            Err(e) => r matches Decision::Deny { reason } && reason@ == "auto-approve judge failed: "@ + e@,
        },
{
    match reply {
        Ok(text) => parse_judge_decision(text),
        Err(e) => {
            let mut reason = String::new();
            push_str(&mut reason, "auto-approve judge failed: ");
            push_str(&mut reason, e);
            Decision::Deny { reason }
        },
    }
}

/// The judge's instructions.
pub open spec fn judge_system_prompt() -> Seq<char> {
    "You are Hugr's permission judge. Decide whether a requested tool invocation is safe to run without asking a human. Return only JSON with shape {\"safe\":true|false,\"reason\":\"short reason\"}. Allow benign bounded actions. Deny destructive filesystem changes, credential access, secret exfiltration, broad deletes, privilege changes, and unclear high-risk commands."@
}

/// Whether `v` is the judge's question about `request`: the object
/// `{"args", "capability", "instruction": "Classify this action.", "tier"}`
/// in key order, the tier being the selector's name.
pub open spec fn judge_question_fits(v: Json, request: PermissionRequest, selector: ModelSelector) -> bool {
    match v {
        Json::Object(es) => {
            &&& es@.len() == 4
            &&& es@[0].0@ == "args"@
            &&& json_same(es@[0].1, request.args)
            &&& es@[1].0@ == "capability"@
            &&& es@[1].1 == Json::String(request.capability)
            &&& es@[2].0@ == "instruction"@
            &&& (es@[2].1 matches Json::String(t) && t@ == "Classify this action."@)
            &&& es@[3].0@ == "tier"@
            &&& (es@[3].1 matches Json::String(n) && n@ == selector_name(selector))
        },
        _ => false,
    }
}

/// The two messages sent to the auto-approval judge: its instructions, and
/// the question about `request` in compact JSON.
pub fn judge_messages(request: &PermissionRequest, selector: &ModelSelector) -> (r: (String, String))
    ensures
        r.0@ == judge_system_prompt(),
        exists|v: Json| #[trigger] judge_question_fits(v, *request, *selector) && r.1@ == serde_compact(v),
{
    let system = "You are Hugr's permission judge. Decide whether a requested tool invocation is safe to run without asking a human. Return only JSON with shape {\"safe\":true|false,\"reason\":\"short reason\"}. Allow benign bounded actions. Deny destructive filesystem changes, credential access, secret exfiltration, broad deletes, privilege changes, and unclear high-risk commands.".to_string();
    let tier = match selector {
        ModelSelector::Named(n) => n.clone(),
    };
    let mut es: Vec<(String, Json)> = Vec::new();
    es.push(("args".to_string(), copy_json(&request.args)));
    es.push(("capability".to_string(), Json::String(request.capability.clone())));
    es.push(("instruction".to_string(), Json::String("Classify this action.".to_string())));
    es.push(("tier".to_string(), Json::String(tier)));
    let question = Json::Object(es);
    let user = compact_json(&question);
    assert(judge_question_fits(question, *request, *selector));
    (system, user)
}

/// Whenever a `{` comes before a later `}`, a span is extracted, and it
/// covers both: it starts at or before the `{` and ends at or after the
/// `}`. (With `law_object_span_is_outermost`: the span runs exactly from
/// the first `{` to the last `}`.)
pub proof fn law_object_span_exists_when_braces_pair(t: Seq<char>, i: int, j: int)
    requires
        0 <= i < j < t.len(),
        t[i] == '{',
        t[j] == '}',
    ensures
        object_span(t) is Some,
        exists|a: int, b: int| {
            &&& 0 <= a <= i
            &&& j < b <= t.len()
            &&& object_span(t) == Some(t.subrange(a, b))
        },
{
    lemma_first_of(t, '{');
    lemma_last_of_end(t, '}');
    let a = first_of(t, '{') as int;
    let b = last_of_end(t, '}') as int;
    if a > i {
        assert(t[i] != '{');
    }
    if b <= j {
        assert(t[j] != '}');
    }
    assert(object_span(t) == Some(t.subrange(a, b)));
}

} // verus!
