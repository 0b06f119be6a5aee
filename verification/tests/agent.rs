use hugr::agent::{
    answer_header,
    final_answer, meta_from_log, missing_final_answer_message, session_answer, status_wire, AnswerStatus, AskError,
    StoreError, TraceId,
};
use hugr::brain::{LogEntry, ModelOutput, ModelSelector, OpMeta, OpOutcome, Record, StopReason, ToolCall, Usage};
use hugr::json::Json;

fn s(t: &str) -> String {
    t.to_string()
}

fn entry(seq: u64, record: Record) -> LogEntry {
    LogEntry { seq, at: seq, record }
}

fn output(text: &str, calls: usize) -> Record {
    Record::ModelOutput {
        op: 0,
        output: ModelOutput {
            text: s(text),
            reasoning: None,
            tool_calls: (0..calls).map(|i| ToolCall { id: format!("c{i}"), name: s("shell"), args: Json::Null }).collect(),
            stop: StopReason::EndTurn,
        },
    }
}

fn ended(outcome: OpOutcome, model: bool, usage: Option<Usage>) -> Record {
    Record::OpEnded {
        op: 0,
        outcome,
        meta: OpMeta {
            started_at: 0,
            ended_at: 1,
            model: if model { Some(ModelSelector::Named(s("big"))) } else { None },
            usage,
            extra: Json::Null,
        },
    }
}

#[test]
fn wire_strings_of_statuses() {
    assert_eq!(status_wire(AnswerStatus::Success), "success");
    assert_eq!(status_wire(AnswerStatus::OffTopic), "off_topic");
    assert_eq!(status_wire(AnswerStatus::Error), "error");
}

#[test]
fn the_last_tool_free_output_is_the_answer() {
    let log = vec![
        entry(0, Record::UserMessage { text: s("q") }),
        entry(1, output("first", 0)),
        entry(2, output("calling", 1)),
        entry(3, output("second", 0)),
        entry(4, output("more tools", 2)),
    ];
    assert_eq!(final_answer(&log), (AnswerStatus::Success, s("second")));
}

#[test]
fn no_final_answer_is_an_error_answer() {
    let log = vec![entry(0, Record::UserMessage { text: s("q") }), entry(1, output("calling", 1))];
    assert_eq!(final_answer(&log), (AnswerStatus::Error, s("model did not produce a final answer")));
    let with_error = vec![
        entry(0, ended(OpOutcome::Error(Json::String(s("first"))), true, None)),
        entry(1, ended(OpOutcome::Error(Json::String(s("timeout"))), true, None)),
        entry(2, ended(OpOutcome::Succeeded, true, None)),
    ];
    assert_eq!(
        missing_final_answer_message(&with_error),
        "model did not produce a final answer; last error: \"timeout\""
    );
}

#[test]
fn accounting_counts_model_and_tool_calls() {
    let log = vec![
        entry(0, ended(OpOutcome::Succeeded, true, Some(Usage { input_tokens: 100, output_tokens: 20 }))),
        entry(1, ended(OpOutcome::Succeeded, false, None)),
        entry(2, ended(OpOutcome::Error(Json::Null), false, None)),
        entry(3, ended(OpOutcome::Succeeded, true, None)),
        entry(4, ended(OpOutcome::Succeeded, true, Some(Usage { input_tokens: 7, output_tokens: 3 }))),
        entry(5, output("done", 0)),
    ];
    let m = meta_from_log(&log, 1234);
    assert_eq!(m.duration_ms, 1234);
    assert_eq!(m.cost_micro_usd, 0);
    assert_eq!(m.tokens_in, 107);
    assert_eq!(m.tokens_out, 23);
    assert_eq!(m.model_calls, 2);
    assert_eq!(m.tool_calls, 2);
}

#[test]
fn a_resumed_ask_bills_only_its_own_turn() {
    let log = vec![
        entry(0, ended(OpOutcome::Succeeded, true, Some(Usage { input_tokens: 100, output_tokens: 20 }))),
        entry(1, output("old answer", 0)),
        entry(2, ended(OpOutcome::Succeeded, true, Some(Usage { input_tokens: 5, output_tokens: 1 }))),
        entry(3, output("new answer", 0)),
    ];
    let (status, message, meta) = session_answer(&log, 2, 9);
    assert_eq!(status, AnswerStatus::Success);
    assert_eq!(message, "new answer");
    assert_eq!(meta.tokens_in, 5);
    assert_eq!(meta.model_calls, 1);
}

#[test]
fn missing_trace_names_the_unknown_parent() {
    let e = AskError::Store(StoreError::NotFound { id: TraceId(s("t-1")) });
    assert_eq!(e.missing_trace(), Some(&TraceId(s("t-1"))));
    let other = AskError::Store(StoreError::Other { message: s("disk full") });
    assert_eq!(other.missing_trace(), None);
}

#[test]
fn accounting_adds_up_over_a_split_log() {
    let a = vec![entry(0, ended(OpOutcome::Succeeded, true, Some(Usage { input_tokens: 3, output_tokens: 2 })))];
    let b = vec![
        entry(1, ended(OpOutcome::Succeeded, false, None)),
        entry(2, ended(OpOutcome::Succeeded, true, Some(Usage { input_tokens: 4, output_tokens: 1 }))),
    ];
    let mut whole = vec![entry(0, ended(OpOutcome::Succeeded, true, Some(Usage { input_tokens: 3, output_tokens: 2 })))];
    whole.push(entry(1, ended(OpOutcome::Succeeded, false, None)));
    whole.push(entry(2, ended(OpOutcome::Succeeded, true, Some(Usage { input_tokens: 4, output_tokens: 1 }))));
    let (ma, mb, mw) = (meta_from_log(&a, 0), meta_from_log(&b, 0), meta_from_log(&whole, 0));
    assert_eq!(mw.tokens_in, ma.tokens_in + mb.tokens_in);
    assert_eq!(mw.tokens_out, ma.tokens_out + mb.tokens_out);
    assert_eq!(mw.model_calls, ma.model_calls + mb.model_calls);
    assert_eq!(mw.tool_calls, ma.tool_calls + mb.tool_calls);
}

#[test]
fn a_resumed_ask_without_its_own_answer_is_an_error() {
    let log = vec![
        entry(0, output("parent answer", 0)),
        entry(1, ended(OpOutcome::Error(Json::String(s("boom"))), true, None)),
    ];
    let (status, message, _) = session_answer(&log, 1, 0);
    assert_eq!(status, AnswerStatus::Error);
    assert_eq!(message, "model did not produce a final answer; last error: \"boom\"");
}

#[test]
fn trace_headers_carry_lineage() {

    let h = answer_header("docs", "1.0", "where?", AnswerStatus::OffTopic, Some(TraceId(s("p-1"))));
    assert_eq!(h.agent, "docs");
    assert_eq!(h.version, "1.0");
    assert_eq!(h.question, "where?");
    assert_eq!(h.status, "off_topic");
    assert_eq!(h.depends_on, Some(TraceId(s("p-1"))));
    assert_eq!(answer_header("a", "b", "c", AnswerStatus::Success, None).depends_on, None);
}
