//! Answers from a finished session: the final answer extracted from the
//! durable log, the accounting of one ask, and the errors of an ask.
//!
//! Run failures are answers (status `Error`); only failures that prevent a
//! trace from being persisted are `AskError`s.

use vstd::prelude::*;
use crate::brain::{LogEntry, OpOutcome, Record};
use crate::json::{Json, compact_json, serde_compact};
use crate::text::push_str;

verus! {

/// The status of an answer.
#[derive(Clone, Copy, Debug, PartialEq)]
pub enum AnswerStatus {
    Success,
    OffTopic,
    Error,
}

/// The wire string of a status, as stamped into trace headers.
pub open spec fn status_wire_spec(s: AnswerStatus) -> Seq<char> {
    match s {
        AnswerStatus::Success => "success"@,
        AnswerStatus::OffTopic => "off_topic"@,
        AnswerStatus::Error => "error"@,
    }
}

/// The wire string of a status (its `snake_case` serialized form).
pub fn status_wire(status: AnswerStatus) -> (r: &'static str)
    ensures
        r@ == status_wire_spec(status),
{
    match status {
        AnswerStatus::Success => "success",
        AnswerStatus::OffTopic => "off_topic",
        AnswerStatus::Error => "error",
    }
}

/// The identifier of a stored trace.
#[derive(Debug, PartialEq)]
pub struct TraceId(pub String);

/// Trace store failures.
#[derive(Debug, PartialEq)]
pub enum StoreError {
    /// No trace with this id exists.
    NotFound { id: TraceId },
    /// Reading or writing the store failed (the host's message).
    Other { message: String },
}

/// Infrastructure failures of an ask: everything that prevents a trace from
/// being persisted at all.
#[derive(Debug, PartialEq)]
pub enum AskError {
    /// The parent trace could not be loaded, or the new trace not persisted.
    Store(StoreError),
}

impl AskError {
    /// The parent id a not-found store error refers to, if any.
    pub fn missing_trace(&self) -> (r: Option<&TraceId>)
        ensures
            match *self {
                AskError::Store(StoreError::NotFound { id }) => r == Some(&id),
                _ => r is None,
            },
    {
        match self {
            AskError::Store(StoreError::NotFound { id }) => Some(id),
            _ => None,
        }
    }
}

/// Accounting for one ask.
#[derive(Debug, PartialEq)]
pub struct AnswerMeta {
    pub duration_ms: u64,
    /// Stays 0 until per-tier pricing exists.
    pub cost_micro_usd: u64,
    pub tokens_in: u64,
    pub tokens_out: u64,
    pub model_calls: u32,
    pub tool_calls: u32,
}

/// Totals over log entries: input tokens, output tokens, model calls (ops
/// that ended with usage) and tool calls (ops that ended without usage and
/// without a model).
pub struct Tally {
    pub tokens_in: nat,
    pub tokens_out: nat,
    pub model_calls: nat,
    pub tool_calls: nat,
}

/// The tally of one entry.
pub open spec fn entry_tally(e: LogEntry) -> Tally {
    match e.record {
        Record::OpEnded { meta, .. } => match meta.usage {
            Some(u) => Tally {
                tokens_in: u.input_tokens as nat,
                tokens_out: u.output_tokens as nat,
                model_calls: 1,
                tool_calls: 0,
            },
            None => Tally {
                tokens_in: 0,
                tokens_out: 0,
                model_calls: 0,
                tool_calls: if meta.model is None {
                    1
                } else {
                    0
                },
            },
        },
        _ => Tally { tokens_in: 0, tokens_out: 0, model_calls: 0, tool_calls: 0 },
    }
}

/// The sum of two tallies.
pub open spec fn add_tally(a: Tally, b: Tally) -> Tally {
    Tally {
        tokens_in: a.tokens_in + b.tokens_in,
        tokens_out: a.tokens_out + b.tokens_out,
        model_calls: a.model_calls + b.model_calls,
        tool_calls: a.tool_calls + b.tool_calls,
    }
}

/// The tally of a sequence of entries.
pub open spec fn tally(es: Seq<LogEntry>) -> Tally
    decreases es.len(),
{
    if es.len() == 0 {
        Tally { tokens_in: 0, tokens_out: 0, model_calls: 0, tool_calls: 0 }
    } else {
        add_tally(tally(es.drop_last()), entry_tally(es.last()))
    }
}

/// Whether a tally fits the accounting fields.
pub open spec fn tally_fits(t: Tally) -> bool {
    t.tokens_in <= u64::MAX && t.tokens_out <= u64::MAX && t.model_calls <= u32::MAX
        && t.tool_calls <= u32::MAX
}

proof fn lemma_tally_prefix_le(es: Seq<LogEntry>, k: int)
    requires
        0 <= k <= es.len(),
    ensures
        tally(es.take(k)).tokens_in <= tally(es).tokens_in,
        tally(es.take(k)).tokens_out <= tally(es).tokens_out,
        tally(es.take(k)).model_calls <= tally(es).model_calls,
        tally(es.take(k)).tool_calls <= tally(es).tool_calls,
    decreases es.len() - k,
{
    if k < es.len() {
        assert(es.drop_last().take(k) =~= es.take(k));
        lemma_tally_prefix_le(es.drop_last(), k);
    } else {
        assert(es.take(k) =~= es);
    }
}

/// Accounting folded from `new_entries` (a resumed ask passes only the
/// entries of its own turn, so it never re-bills its ancestry). Cost stays 0.
pub fn meta_from_log(new_entries: &[LogEntry], duration_ms: u64) -> (m: AnswerMeta)
    requires
        tally_fits(tally(new_entries@)),
    ensures
        m.duration_ms == duration_ms,
        m.cost_micro_usd == 0,
        m.tokens_in == tally(new_entries@).tokens_in,
        m.tokens_out == tally(new_entries@).tokens_out,
        m.model_calls == tally(new_entries@).model_calls,
        m.tool_calls == tally(new_entries@).tool_calls,
{
    let mut tokens_in: u64 = 0;
    let mut tokens_out: u64 = 0;
    let mut model_calls: u32 = 0;
    let mut tool_calls: u32 = 0;
    let mut i: usize = 0;
    assert(new_entries@.take(0) =~= Seq::<LogEntry>::empty());
    while i < new_entries.len()
        invariant
            i <= new_entries@.len(),
            tally_fits(tally(new_entries@)),
            tally(new_entries@.take(i as int)) == (Tally {
                tokens_in: tokens_in as nat,
                tokens_out: tokens_out as nat,
                model_calls: model_calls as nat,
                tool_calls: tool_calls as nat,
            }),
        decreases new_entries.len() - i,
    {
        assert(new_entries@.take(i + 1).drop_last() =~= new_entries@.take(i as int));
        assert(new_entries@.take(i + 1).last() == new_entries@[i as int]);
        proof {
            lemma_tally_prefix_le(new_entries@, i + 1);
        }
        if let Record::OpEnded { meta, .. } = &new_entries[i].record {
            if let Some(usage) = &meta.usage {
                tokens_in = tokens_in + usage.input_tokens;
                tokens_out = tokens_out + usage.output_tokens;
                model_calls = model_calls + 1;
            } else if meta.model.is_none() {
                tool_calls = tool_calls + 1;
            }
        }
        i = i + 1;
    }
    assert(new_entries@.take(new_entries@.len() as int) =~= new_entries@);
    AnswerMeta { duration_ms, cost_micro_usd: 0, tokens_in, tokens_out, model_calls, tool_calls }
}

/// The text of the last model output without tool calls, if any.
pub open spec fn last_final_text(log: Seq<LogEntry>) -> Option<Seq<char>>
    decreases log.len(),
{
    if log.len() == 0 {
        None
    } else {
        match log.last().record {
            Record::ModelOutput { output, .. } => if output.tool_calls@.len() == 0 {
                Some(output.text@)
            } else {
                last_final_text(log.drop_last())
            },
            _ => last_final_text(log.drop_last()),
        }
    }
}

/// The error of the last op that ended in error, if any.
pub open spec fn last_error(log: Seq<LogEntry>) -> Option<Json>
    decreases log.len(),
{
    if log.len() == 0 {
        None
    } else {
        match log.last().record {
            Record::OpEnded { outcome: OpOutcome::Error(e), .. } => Some(e),
            _ => last_error(log.drop_last()),
        }
    }
}

/// The message of a run that ended without a final answer.
pub open spec fn missing_answer_text(log: Seq<LogEntry>) -> Seq<char> {
    match last_error(log) {
        Some(e) => "model did not produce a final answer; last error: "@ + serde_compact(e),
        None => "model did not produce a final answer"@,
    }
}

/// The message for a run without a final answer, naming the last error.
pub fn missing_final_answer_message(log: &[LogEntry]) -> (r: String)
    ensures
        r@ == missing_answer_text(log@),
{
    let mut i = log.len();
    assert(log@.take(log@.len() as int) =~= log@);
    while i > 0
        invariant
            i <= log@.len(),
            last_error(log@) == last_error(log@.take(i as int)),
        decreases i,
    {
        assert(log@.take(i as int).drop_last() =~= log@.take(i - 1));
        assert(log@.take(i as int).last() == log@[i - 1]);
        if let Record::OpEnded { outcome: OpOutcome::Error(error), .. } = &log[i - 1].record {
            let mut m = String::new();
            push_str(&mut m, "model did not produce a final answer; last error: ");
            let t = compact_json(error);
            push_str(&mut m, t.as_str());
            return m;
        }
        i = i - 1;
    }
    assert(log@.take(0) =~= Seq::<LogEntry>::empty());
    "model did not produce a final answer".to_string()
}

/// The final answer of a session: the last model output with no tool calls
/// is the answer; without one the run failed, an error answer.
pub fn final_answer(log: &[LogEntry]) -> (r: (AnswerStatus, String))
    ensures
        match last_final_text(log@) {
            Some(t) => r.0 is Success && r.1@ == t,
            None => r.0 is Error && r.1@ == missing_answer_text(log@),
        },
{
    let mut i = log.len();
    assert(log@.take(log@.len() as int) =~= log@);
    while i > 0
        invariant
            i <= log@.len(),
            last_final_text(log@) == last_final_text(log@.take(i as int)),
        decreases i,
    {
        assert(log@.take(i as int).drop_last() =~= log@.take(i - 1));
        assert(log@.take(i as int).last() == log@[i - 1]);
        if let Record::ModelOutput { output, .. } = &log[i - 1].record {
            if output.tool_calls.len() == 0 {
                return (AnswerStatus::Success, output.text.clone());
            }
        }
        i = i - 1;
    }
    (AnswerStatus::Error, missing_final_answer_message(log))
}

/// The header a session's trace is stored under.
#[derive(Debug, PartialEq)]
pub struct TraceHeader {
    pub agent: String,
    pub version: String,
    pub question: String,
    /// The answer's status, in its wire form.
    pub status: String,
    /// The parent trace a resumed ask continued; a new trace, never the
    /// parent rewritten.
    pub depends_on: Option<TraceId>,
}

/// The header for the trace of one ask: the agent's name and version, the
/// question, the answer's wire status, and for a resumed ask its parent.
pub fn answer_header(name: &str, version: &str, question: &str, status: AnswerStatus, parent: Option<TraceId>) -> (h: TraceHeader)
    ensures
        h.agent@ == name@,
        h.version@ == version@,
        h.question@ == question@,
        h.status@ == status_wire_spec(status),
        h.depends_on == parent,
{
    let mut agent = String::new();
    push_str(&mut agent, name);
    let mut v = String::new();
    push_str(&mut v, version);
    let mut q = String::new();
    push_str(&mut q, question);
    let mut st = String::new();
    push_str(&mut st, status_wire(status));
    TraceHeader { agent, version: v, question: q, status: st, depends_on: parent }
}

/// The answer of one ask over the session log: everything comes from the
/// entries after `baseline` (the entries a resumed trace already held), so
/// a resumed ask answers with its own turn's output and never re-bills its
/// ancestry.
pub fn session_answer(log: &[LogEntry], baseline: usize, duration_ms: u64) -> (r: (AnswerStatus, String, AnswerMeta))
    requires
        baseline <= log@.len(),
        tally_fits(tally(log@.skip(baseline as int))),
    ensures
        match last_final_text(log@.skip(baseline as int)) {
            Some(t) => r.0 is Success && r.1@ == t,
            None => r.0 is Error && r.1@ == missing_answer_text(log@.skip(baseline as int)),
        },
        r.2.duration_ms == duration_ms,
        r.2.tokens_in == tally(log@.skip(baseline as int)).tokens_in,
        r.2.tokens_out == tally(log@.skip(baseline as int)).tokens_out,
        r.2.model_calls == tally(log@.skip(baseline as int)).model_calls,
        r.2.tool_calls == tally(log@.skip(baseline as int)).tool_calls,
{
    let new_entries = vstd::slice::slice_subrange(log, baseline, log.len());
    assert(new_entries@ =~= log@.skip(baseline as int));
    let (status, message) = final_answer(new_entries);
    let meta = meta_from_log(new_entries, duration_ms);
    (status, message, meta)
}

// ---------------------------------------------------------------------------
// Laws
// ---------------------------------------------------------------------------

/// Accounting is additive: the tally of a log is the tally of any prefix
/// plus the tally of the rest. So the accounting of a resumed ask (the
/// entries after the parent's) plus the parent's is the whole session's.
pub proof fn law_tally_is_additive(a: Seq<LogEntry>, b: Seq<LogEntry>)
    ensures
        tally(a + b) == add_tally(tally(a), tally(b)),
    decreases b.len(),
{
    if b.len() == 0 {
        assert(a + b =~= a);
    } else {
        assert((a + b).drop_last() =~= a + b.drop_last());
        assert((a + b).last() == b.last());
        law_tally_is_additive(a, b.drop_last());
    }
}

/// The wire strings of distinct statuses differ.
pub proof fn law_status_wire_is_injective(a: AnswerStatus, b: AnswerStatus)
    requires
        status_wire_spec(a) == status_wire_spec(b),
    ensures
        a == b,
{
    reveal_strlit("success");
    reveal_strlit("off_topic");
    reveal_strlit("error");
    assert(status_wire_spec(AnswerStatus::Success)[0] == 's');
    assert(status_wire_spec(AnswerStatus::OffTopic)[0] == 'o');
    assert(status_wire_spec(AnswerStatus::Error)[0] == 'e');
    assert(status_wire_spec(a)[0] == status_wire_spec(b)[0]);
}

/// An answer is found exactly when some model output without tool calls is
/// in the log, and it is the text of the last such output.
pub proof fn law_final_answer_is_last_tool_free_output(log: Seq<LogEntry>, i: int)
    requires
        0 <= i < log.len(),
        log[i].record matches Record::ModelOutput { output, .. } && output.tool_calls@.len() == 0,
        forall|j: int| i < j < log.len() ==> !(#[trigger] log[j].record matches Record::ModelOutput { output, .. } && output.tool_calls@.len() == 0),
    ensures
        last_final_text(log) == Some(match log[i].record {
            Record::ModelOutput { output, .. } => output.text@,
            _ => seq![],
        }),
    decreases log.len(),
{
    if i < log.len() - 1 {
        assert(log.drop_last()[i] == log[i]);
        assert forall|j: int| i < j < log.drop_last().len() implies !(#[trigger] log.drop_last()[j].record matches Record::ModelOutput { output, .. } && output.tool_calls@.len() == 0) by {
            assert(log.drop_last()[j] == log[j]);
        }
        law_final_answer_is_last_tool_free_output(log.drop_last(), i);
        assert(!(log[log.len() - 1].record matches Record::ModelOutput { output, .. } && output.tool_calls@.len() == 0));
    }
}

} // verus!
