use hugr::brain::{Decision, ModelSelector, PermissionRequest};
use hugr::json::{Json, JsonNumber};
use hugr::policy::{decision_from_verdict, extract_json_object, judge_messages, judge_outcome, parse_judge_decision, AllowAll, DenyAll, Interactive};

fn s(t: &str) -> String {
    t.to_string()
}

fn request() -> PermissionRequest {
    PermissionRequest { capability: s("shell"), args: Json::Object(vec![(s("cmd"), Json::String(s("ls")))]) }
}

#[test]
fn fixed_policies_decide_alike_for_everything() {
    assert_eq!(AllowAll.decide(&request()), Decision::Allow);
    assert_eq!(DenyAll.decide(&request()), Decision::Deny { reason: s("denied by policy") });
}

#[test]
fn interactive_prompt_shows_capability_and_args() {
    assert_eq!(Interactive.prompt(&request()), "\n⚠  allow `shell` with args {\"cmd\":\"ls\"}? [y/N] ");
}

#[test]
fn interactive_answers() {
    assert_eq!(Interactive.decide_line("y\n"), Decision::Allow);
    assert_eq!(Interactive.decide_line("  YES "), Decision::Allow);
    assert_eq!(Interactive.decide_line("yep"), Decision::Deny { reason: s("denied by user") });
    assert_eq!(Interactive.decide_line(""), Decision::Deny { reason: s("denied by user") });
    assert_eq!(Interactive.normalize_answer(" Yes\n"), "yes");
}

#[test]
fn json_object_is_cut_from_the_first_to_the_last_brace() {
    assert_eq!(extract_json_object("the answer is {\"safe\": true} then more"), Some(s("{\"safe\": true}")));
    assert_eq!(extract_json_object("a {b} c {d} e"), Some(s("{b} c {d}")));
    assert_eq!(extract_json_object("} before {"), None);
    assert_eq!(extract_json_object("no braces"), None);
}

#[test]
fn judge_verdicts_decide() {
    assert_eq!(parse_judge_decision("{\"safe\": true, \"reason\": \"fine\"}"), Decision::Allow);
    assert_eq!(
        parse_judge_decision("Sure! {\"safe\": false, \"reason\": \"deletes files\"} hope that helps"),
        Decision::Deny { reason: s("deletes files") }
    );
    assert_eq!(
        parse_judge_decision("{\"safe\": false}"),
        Decision::Deny { reason: s("auto-approve judge denied the action") }
    );
    assert_eq!(
        parse_judge_decision("{\"safe\": \"yes\"}"),
        Decision::Deny { reason: s("auto-approve judge denied the action") }
    );
    assert_eq!(
        parse_judge_decision("not json at all"),
        Decision::Deny { reason: s("auto-approve judge returned an unparsable verdict") }
    );
}

#[test]
fn verdict_values_decide() {
    let v = Json::Object(vec![(s("reason"), Json::Number(JsonNumber::PosInt(1))), (s("safe"), Json::Bool(false))]);
    assert_eq!(decision_from_verdict(Some(v)), Decision::Deny { reason: s("auto-approve judge denied the action") });
    assert_eq!(
        decision_from_verdict(None),
        Decision::Deny { reason: s("auto-approve judge returned an unparsable verdict") }
    );
}

#[test]
fn judge_failures_deny_with_the_failure() {
    assert_eq!(judge_outcome(Ok("{\"safe\": true}")), Decision::Allow);
    assert_eq!(
        judge_outcome(Err("connection refused")),
        Decision::Deny { reason: s("auto-approve judge failed: connection refused") }
    );
}

#[test]
fn judge_messages_ask_about_the_request() {
    let (system, user) = judge_messages(&request(), &ModelSelector::Named(s("small")));
    assert!(system.starts_with("You are Hugr's permission judge."));
    assert!(system.ends_with("and unclear high-risk commands."));
    assert_eq!(
        user,
        "{\"args\":{\"cmd\":\"ls\"},\"capability\":\"shell\",\"instruction\":\"Classify this action.\",\"tier\":\"small\"}"
    );
}
