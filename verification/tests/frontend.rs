use hugr::brain::{Decision, DoneReason, ModelSelector, OutputEvent, Usage};
use hugr::frontend::{arrow, compact, env_truthy, render_result, truncate, Style, StdoutFrontend, RESULT_HEAD_LINES};
use hugr::json::{Json, JsonNumber};

fn s(t: &str) -> String {
    t.to_string()
}

/// `{"exit_code": 0, "stderr": "", "stdout": body}`, keys in serde_json's order.
fn shell_result(body: &str) -> Json {
    Json::Object(vec![
        (s("exit_code"), Json::Number(JsonNumber::PosInt(0))),
        (s("stderr"), Json::String(s(""))),
        (s("stdout"), Json::String(s(body))),
    ])
}

fn plain(full: bool) -> StdoutFrontend {
    StdoutFrontend::new(false, false, None).with_color(false).with_full_output(full)
}

#[test]
fn tool_result_collapses_by_default() {
    let body: String = (0..1000).map(|i| format!("line {i}\n")).collect::<String>();
    let result = shell_result(&body);
    let fe = plain(false);
    let lines = fe.tool_end_lines("shell", &result, false);
    assert!(lines.len() <= RESULT_HEAD_LINES + 2, "got {} lines", lines.len());
    let joined = lines.join("\n");
    assert!(joined.contains("… +"), "missing collapse note:\n{joined}");
    assert!(joined.contains("lines"), "note should mention lines:\n{joined}");
    assert!(joined.contains("BATON_FULL_OUTPUT"), "note should mention the toggle");
    assert!(joined.contains("line 0"), "head should show first lines:\n{joined}");
    assert!(!joined.contains("line 999"), "tail should be hidden:\n{joined}");
}

#[test]
fn tool_result_full_output_shows_everything() {
    let body: String = (0..1000).map(|i| format!("line {i}\n")).collect::<String>();
    let result = shell_result(&body);
    let fe = plain(true);
    let lines = fe.tool_end_lines("shell", &result, false);
    let joined = lines.join("\n");
    assert!(!joined.contains("… +"), "full output must not collapse:\n{joined}");
    assert!(joined.contains("line 0"), "first line missing");
    assert!(joined.contains("line 999"), "last line missing in full output");
}

#[test]
fn small_result_not_collapsed() {
    let result = shell_result("hello\n");
    let fe = plain(false);
    let joined = fe.tool_end_lines("shell", &result, false).join("\n");
    assert!(!joined.contains("… +"), "small result should not collapse:\n{joined}");
    assert!(joined.contains("hello"));
}

#[test]
fn env_truthy_parsing() {
    for (v, want) in [
        ("1", true),
        ("true", true),
        ("yes", true),
        ("0", false),
        ("false", false),
        ("no", false),
        ("", false),
    ] {
        let got = env_truthy(Some(v));
        assert_eq!(got, want, "value {v:?}");
    }
}

#[test]
fn env_truthy_trims_and_ignores_case() {
    assert!(!env_truthy(None));
    assert!(!env_truthy(Some("  FALSE ")));
    assert!(!env_truthy(Some("No")));
    assert!(!env_truthy(Some("   ")));
    assert!(env_truthy(Some(" on ")));
}

#[test]
fn collapse_note_counts_the_hidden_lines() {
    let body: String = (0..20).map(|i| format!("l{i}\n")).collect::<String>();
    let lines = plain(false).tool_end_lines("shell", &Json::String(body), false);
    // 20 result lines: the header shows the first, 7 more follow, 12 are hidden.
    assert_eq!(lines.len(), RESULT_HEAD_LINES + 1);
    assert_eq!(lines[0], "  ✓ shell → l0");
    assert_eq!(lines[1], "    l1");
    assert_eq!(lines[RESULT_HEAD_LINES], "    … +12 lines (set BATON_FULL_OUTPUT=1 to expand)");
}

#[test]
fn error_results_get_a_cross() {
    let lines = plain(false).tool_end_lines("fs_edit", &Json::String(s("boom")), true);
    assert_eq!(lines, vec![s("  ✗ fs_edit → boom")]);
}

#[test]
fn truncate_keeps_short_text_and_marks_cut_text() {
    assert_eq!(truncate("hello", 5), "hello");
    assert_eq!(truncate("hello", 3), "hel…");
    assert_eq!(truncate("héllo wörld", 4), "héll…");
}

#[test]
fn arrow_flattens_newlines() {
    assert_eq!(arrow("a\nb"), "→ a b");
}

#[test]
fn compact_shows_strings_verbatim() {
    assert_eq!(compact(&Json::String(s("plain"))), "plain");
    assert_eq!(compact(&Json::Bool(true)), "true");
    assert_eq!(compact(&Json::Null), "null");
}

#[test]
fn render_result_lays_out_object_fields() {
    let r = render_result(&shell_result("hi\n"));
    assert_eq!(r, "exit_code: 0\nstderr: \nstdout:\nhi");
    assert_eq!(render_result(&shell_result("hi")), "exit_code: 0\nstderr: \nstdout: hi");
}

#[test]
fn paint_wraps_only_with_color() {
    let colored = StdoutFrontend::new(true, false, None);
    assert_eq!(colored.paint(Style::Red, "x"), "\x1b[31mx\x1b[0m");
    let no_color = StdoutFrontend::new(true, true, None);
    assert_eq!(no_color.paint(Style::Red, "x"), "x");
    let not_tty = StdoutFrontend::new(false, false, None);
    assert_eq!(not_tty.paint(Style::Red, "x"), "x");
}

#[test]
fn activity_lines() {
    let fe = plain(false);
    assert_eq!(fe.model_start_line(&ModelSelector::Named(s("big")), "3"), "● model [big] 3");
    assert_eq!(fe.model_end_line(&Usage { input_tokens: 0, output_tokens: 0 }), None);
    assert_eq!(
        fe.model_end_line(&Usage { input_tokens: 12, output_tokens: 5 }),
        Some(s("  ↳ 12 in / 5 out tokens"))
    );
    assert_eq!(fe.permission_line("shell", &Decision::Allow), "  ↳ allowed `shell`");
    assert_eq!(
        fe.permission_line("shell", &Decision::Deny { reason: s("nope") }),
        "  ↳ denied `shell`: nope"
    );
    assert_eq!(fe.done_line(&DoneReason::EndTurn), None);
    assert_eq!(fe.done_line(&DoneReason::Cancelled), Some((false, s("⚠ cancelled"))));
    assert_eq!(fe.done_line(&DoneReason::Error(s("bad"))), Some((true, s("✗ error: bad"))));
}

#[test]
fn streaming_breaks_before_a_chunk() {
    let mut fe = plain(false);
    let t = fe.on_output(&OutputEvent::ModelText { op: 0, text: s("Hel") });
    assert_eq!(t, "Hel");
    let c = fe.on_output(&OutputEvent::ToolChunk { op: 1, chunk: Json::String(s("out")) });
    assert_eq!(c, "\nout");
    let n = fe.on_output(&OutputEvent::Notice(s("note")));
    assert_eq!(n, "note\n");
    let r = fe.on_output(&OutputEvent::ModelReasoning { op: 0, text: s("hmm") });
    assert_eq!(r, "");
}
