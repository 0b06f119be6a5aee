//! The brain: a pure reducer over an append-only log. The host feeds it one
//! event at a time (`submit`) and drains the commands it wants performed
//! (`poll`); the brain never does I/O, reads a clock or decides a
//! permission. A pluggable `TurnPolicy` picks models and builds requests.

use vstd::prelude::*;
use crate::json::{Json, compact_json, copy_json, json_same, serde_compact, str_eq};
use crate::text::push_str;

verus! {

/// Identifies one operation (a model call, a capability run, ...).
pub type OpId = u64;

/// Injected time; the brain never reads a clock.
pub type Timestamp = u64;

/// A logical model role; the host resolves it to an endpoint.
#[derive(Debug, PartialEq)]
pub enum ModelSelector {
    Named(String),
}

/// A streaming model delta. Transport only: never logged.
#[derive(Debug, PartialEq)]
pub enum ModelDelta {
    Text(String),
    Reasoning(String),
    ToolCallStart { id: String, name: String },
    ToolCallArgsDelta { id: String, json_fragment: String },
    ToolCallEnd { id: String },
}

/// One tool call requested by a model.
#[derive(Debug, PartialEq)]
pub struct ToolCall {
    pub id: String,
    pub name: String,
    /// Opaque to the brain; forwarded to the capability.
    pub args: Json,
}

/// Why a model stopped.
#[derive(Debug, PartialEq)]
pub enum StopReason {
    EndTurn,
    ToolUse,
    MaxTokens,
    Other(String),
}

/// The consolidated model output the brain reasons about.
#[derive(Debug, PartialEq)]
pub struct ModelOutput {
    pub text: String,
    pub reasoning: Option<String>,
    pub tool_calls: Vec<ToolCall>,
    pub stop: StopReason,
}

/// A permission decision.
#[derive(Debug, PartialEq)]
pub enum Decision {
    Allow,
    Deny { reason: String },
}

/// How a sub-agent is seeded.
#[derive(Debug, PartialEq)]
pub enum AgentSeed {
    Fresh,
    ForkAt { seq: u64 },
    ForkFull,
}

/// How conversational input is handled when it arrives mid-turn.
#[derive(Debug, PartialEq)]
pub enum SteerMode {
    /// Process at the next turn boundary.
    Queue,
    /// Cancel in-flight ops and start a fresh turn now.
    Interrupt,
    /// Add to context; the current op finishes and the next call sees it.
    AppendAndContinue,
}

/// Optimistic-concurrency envelope: a host-canonicalized object identity and
/// its opaque version.
#[derive(Debug, PartialEq)]
pub struct VersionRef {
    pub object: String,
    pub version: String,
}

/// A model request, assembled by the turn policy.
#[derive(Debug, PartialEq)]
pub struct ModelRequest {
    pub messages: Vec<Json>,
}

/// Token usage of one model call.
#[derive(Clone, Copy, Debug, PartialEq)]
pub struct Usage {
    pub input_tokens: u64,
    pub output_tokens: u64,
}

/// A cosmetic output event for front-ends.
#[derive(Debug, PartialEq)]
pub enum OutputEvent {
    ModelText { op: OpId, text: String },
    ModelReasoning { op: OpId, text: String },
    ToolCallStarted { op: OpId, name: String },
    ToolChunk { op: OpId, chunk: Json },
    Notice(String),
}

/// A request for permission to run a gated capability.
#[derive(Debug, PartialEq)]
pub struct PermissionRequest {
    pub capability: String,
    pub args: Json,
}

/// Why a turn reached its terminal state.
#[derive(Debug, PartialEq)]
pub enum DoneReason {
    EndTurn,
    Cancelled,
    Error(String),
}

/// How an op ended.
#[derive(Debug, PartialEq)]
pub enum OpOutcome {
    /// The op finished normally.
    Succeeded,
    Error(Json),
    Cancelled { partial: Json },
}

/// Per-op metadata recorded when an op ends.
#[derive(Debug, PartialEq)]
pub struct OpMeta {
    pub started_at: Timestamp,
    pub ended_at: Timestamp,
    /// Which logical model (for model ops).
    pub model: Option<ModelSelector>,
    /// Tokens, when applicable.
    pub usage: Option<Usage>,
    /// Opaque host data.
    pub extra: Json,
}

/// What the log persists: one record per logical thing, never per delta.
#[derive(Debug, PartialEq)]
pub enum Record {
    UserMessage { text: String },
    ModelOutput { op: OpId, output: ModelOutput },
    ToolResult { op: OpId, name: String, result: Json },
    OpEnded { op: OpId, outcome: OpOutcome, meta: OpMeta },
}

/// One entry of the append-only log.
#[derive(Debug, PartialEq)]
pub struct LogEntry {
    pub seq: u64,
    pub at: Timestamp,
    pub record: Record,
}

// ===========================================================================
// The wire: commands (brain to host) and events (host to brain)
// ===========================================================================

/// What the brain asks the host to perform.
#[derive(Debug, PartialEq)]
#[non_exhaustive]
#[allow(inconsistent_fields)]
pub enum Command {
    /// Call a model; `model` is a logical selector the host resolves.
    StartModelCall { op: OpId, model: ModelSelector, request: ModelRequest },
    /// Invoke a host capability (a tool); `args` is routed, not read.
    StartCapability { op: OpId, name: String, args: Json },
    /// Spawn a sub-agent seeded from the log.
    StartAgent { op: OpId, config: Json, seed: AgentSeed },
    AskUser { op: OpId, prompt: Json },
    RequestPermission { op: OpId, request: PermissionRequest },
    Cancel { op: OpId },
    /// Cosmetic output for front-ends; never affects state.
    Emit(OutputEvent),
    /// Durably persist the log up to now.
    Checkpoint,
    Done { reason: DoneReason },
}

/// What the host reports back.
#[derive(Debug, PartialEq)]
#[non_exhaustive]
pub enum Event {
    /// Conversational input; it may arrive mid-turn, and `mode` says how.
    UserInput { content: Json, mode: SteerMode },
    /// Cancel current activity, with no new content.
    UserAbort,
    /// A streaming delta: transport only, never logged.
    ModelDelta { op: OpId, delta: ModelDelta },
    /// The authoritative, consolidated model result.
    ModelDone { op: OpId, output: ModelOutput, usage: Usage },
    ModelError { op: OpId, error: Json },
    /// A piece of capability output (transport only).
    CapabilityChunk { op: OpId, chunk: Json },
    /// `version`: the object version the op read or refreshed, if any.
    CapabilityDone { op: OpId, result: Json, version: Option<VersionRef> },
    /// `conflict`: the host's current version when it refused a stale write.
    CapabilityError { op: OpId, error: Json, conflict: Option<VersionRef> },
    AgentDone { op: OpId, result: Json },
    AgentError { op: OpId, error: Json },
    UserAnswer { op: OpId, answer: Json },
    PermissionDecision { op: OpId, decision: Decision },
    OpCancelled { op: OpId },
    /// Injected time.
    Tick { now: Timestamp },
}

// ===========================================================================
// State: the log is the truth; the rest is bookkeeping
// ===========================================================================

/// Live, in-flight scratch space of one op.
#[derive(Debug, PartialEq)]
pub enum OpState {
    /// Accumulates model text for live UI; the consolidated result is
    /// authoritative. Holds the selector for attribution.
    Model { selector: ModelSelector, text_so_far: String },
    Capability { name: String },
    Agent,
    AwaitingUser,
    /// A tool call waiting for the host's permission decision.
    AwaitingPermission { name: String, args: Json },
}

/// An in-flight op: its state, when it started, and the usage stashed on it.
#[derive(Debug, PartialEq)]
pub struct Inflight {
    pub op: OpId,
    pub state: OpState,
    pub started_at: Timestamp,
    pub usage: Option<Usage>,
}

/// What the brain does once the ops it cancelled have all drained.
#[derive(Clone, Copy, Debug, PartialEq)]
pub enum AfterDrain {
    Nothing,
    /// The user steered by interrupt: start a fresh turn.
    FreshTurn,
    /// The user aborted: the turn ends, cancelled.
    EndCancelled,
}

/// The brain's state. `inflight` holds each op at most once; `versions` is
/// the optimistic-concurrency read-set (last seen version per object), each
/// object at most once.
pub struct BrainState {
    pub log: Vec<LogEntry>,
    pub next_seq: u64,
    pub next_op: OpId,
    pub inflight: Vec<Inflight>,
    /// Commands waiting to be drained by `poll`.
    pub outbox: Vec<Command>,
    pub now: Timestamp,
    pub versions: Vec<(String, String)>,
    /// What happens once every cancelled op has drained.
    pub after_drain: AfterDrain,
}

/// The mathematical view of the brain's state.
pub struct BrainView {
    pub log: Seq<LogEntry>,
    pub next_seq: u64,
    pub next_op: OpId,
    pub inflight: Seq<Inflight>,
    pub outbox: Seq<Command>,
    pub now: Timestamp,
    pub versions: Map<Seq<char>, Seq<char>>,
    pub after_drain: AfterDrain,
}

/// The read-set as a map; a later entry for an object wins.
pub open spec fn versions_map(s: Seq<(String, String)>) -> Map<Seq<char>, Seq<char>>
    decreases s.len(),
{
    if s.len() == 0 {
        Map::empty()
    } else {
        versions_map(s.drop_last()).insert(s.last().0@, s.last().1@)
    }
}

impl View for BrainState {
    type V = BrainView;

    open spec fn view(&self) -> BrainView {
        BrainView {
            log: self.log@,
            next_seq: self.next_seq,
            next_op: self.next_op,
            inflight: self.inflight@,
            outbox: self.outbox@,
            now: self.now,
            versions: versions_map(self.versions@),
            after_drain: self.after_drain,
        }
    }
}

/// The view's own invariant: in-flight ops are distinct and older than
/// `next_op`; the log's entries are numbered by position and `next_seq`
/// follows the last.
pub open spec fn view_wf(v: BrainView) -> bool {
    &&& forall|i: int, j: int| 0 <= i < j < v.inflight.len() ==> v.inflight[i].op != v.inflight[j].op
    &&& forall|i: int| 0 <= i < v.inflight.len() ==> (#[trigger] v.inflight[i]).op < v.next_op
    &&& v.next_seq == v.log.len()
    &&& forall|i: int| 0 <= i < v.log.len() ==> (#[trigger] v.log[i]).seq == i
}

impl BrainState {
    /// Well-formedness: the view's invariant, and each object at most once
    /// in the read-set.
    pub open spec fn wf(&self) -> bool {
        &&& view_wf(self@)
        &&& forall|i: int, j: int|
            0 <= i < j < self.versions@.len() ==> self.versions@[i].0@ != self.versions@[j].0@
    }
}

// ===========================================================================
// The transition, over views
// ===========================================================================

/// The index of `op` among the in-flight ops (ops are distinct).
pub open spec fn op_index(s: Seq<Inflight>, op: OpId) -> Option<int> {
    if exists|i: int| 0 <= i < s.len() && s[i].op == op {
        Some(choose|i: int| 0 <= i < s.len() && s[i].op == op)
    } else {
        None
    }
}

/// `v` with one record appended, stamped with the next sequence number and
/// the current time.
pub open spec fn append(v: BrainView, record: Record) -> BrainView {
    BrainView {
        log: v.log.push(LogEntry { seq: v.next_seq, at: v.now, record }),
        next_seq: (v.next_seq + 1) as u64,
        ..v
    }
}

/// `v` with one command queued.
pub open spec fn push_cmd(v: BrainView, c: Command) -> BrainView {
    BrainView { outbox: v.outbox.push(c), ..v }
}

/// `v` with a new in-flight op started now.
pub open spec fn mark(v: BrainView, op: OpId, state: OpState) -> BrainView {
    BrainView {
        inflight: v.inflight.push(Inflight { op, state, started_at: v.now, usage: None }),
        ..v
    }
}

/// `v` with one fresh op id taken.
pub open spec fn take_op(v: BrainView) -> BrainView {
    BrainView { next_op: (v.next_op + 1) as u64, ..v }
}

/// `v` without the in-flight op at index `i`.
pub open spec fn remove_at(v: BrainView, i: int) -> BrainView {
    BrainView { inflight: v.inflight.remove(i), ..v }
}

/// The metadata of an op that ends now: its start time, model and stashed
/// usage (an op that is not in flight starts and ends now).
pub open spec fn meta_for(entry: Option<Inflight>, now: Timestamp) -> OpMeta {
    match entry {
        Some(e) => OpMeta {
            started_at: e.started_at,
            ended_at: now,
            model: match e.state {
                OpState::Model { selector, .. } => Some(selector),
                _ => None,
            },
            usage: e.usage,
            extra: Json::Null,
        },
        None => OpMeta { started_at: now, ended_at: now, model: None, usage: None, extra: Json::Null },
    }
}

/// `v` with `op` ended: out of the in-flight table, and an `OpEnded`
/// record carrying its metadata.
pub open spec fn end_op(v: BrainView, op: OpId, outcome: OpOutcome) -> BrainView {
    match op_index(v.inflight, op) {
        Some(i) => append(remove_at(v, i), Record::OpEnded { op, outcome, meta: meta_for(Some(v.inflight[i]), v.now) }),
        None => append(v, Record::OpEnded { op, outcome, meta: meta_for(None, v.now) }),
    }
}

/// The partial work of a cancelled op: a model op's text so far, else null.
pub open spec fn partial_of(e: Inflight) -> Json {
    match e.state {
        OpState::Model { text_so_far, .. } => Json::String(text_so_far),
        _ => Json::Null,
    }
}

/// `v` with in-flight op `op` ended as cancelled, its partial work logged.
pub open spec fn cancel_op(v: BrainView, op: OpId) -> BrainView {
    match op_index(v.inflight, op) {
        Some(i) => append(
            remove_at(v, i),
            Record::OpEnded {
                op,
                outcome: OpOutcome::Cancelled { partial: partial_of(v.inflight[i]) },
                meta: meta_for(Some(v.inflight[i]), v.now),
            },
        ),
        None => v,
    }
}

/// Once the last op has drained after a cancellation: a fresh turn after
/// an interrupt, `Done` (cancelled) after an abort.
pub open spec fn drained(v: BrainView, t: TurnChoice) -> BrainView {
    if v.inflight.len() == 0 {
        match v.after_drain {
            AfterDrain::FreshTurn => start_turn(BrainView { after_drain: AfterDrain::Nothing, ..v }, t),
            AfterDrain::EndCancelled => push_cmd(
                BrainView { after_drain: AfterDrain::Nothing, ..v },
                Command::Done { reason: DoneReason::Cancelled },
            ),
            AfterDrain::Nothing => v,
        }
    } else {
        v
    }
}

/// Whether no tool op (anything but a model call) is in flight.
pub open spec fn no_tool_ops(v: BrainView) -> bool {
    forall|i: int| 0 <= i < v.inflight.len() ==> (#[trigger] v.inflight[i]).state is Model
}

/// What the policy answered when a model turn started, and the empty text
/// buffer the brain built for the new op.
pub struct TurnChoice {
    pub selector: ModelSelector,
    pub request: ModelRequest,
    pub fresh: String,
}

/// `v` with a model turn started: a fresh op in flight and its call queued.
pub open spec fn start_turn(v: BrainView, t: TurnChoice) -> BrainView {
    let op = v.next_op;
    push_cmd(
        mark(take_op(v), op, OpState::Model { selector: t.selector, text_so_far: t.fresh }),
        Command::StartModelCall { op, model: t.selector, request: t.request },
    )
}

/// Resume the turn: once no tool op is in flight, call the model again.
pub open spec fn resume(v: BrainView, t: TurnChoice) -> BrainView {
    if no_tool_ops(v) {
        start_turn(v, t)
    } else {
        v
    }
}

/// `v` with a `Cancel` queued for every in-flight op, in table order.
pub open spec fn cancel_all(v: BrainView) -> BrainView {
    BrainView {
        outbox: v.outbox + Seq::new(v.inflight.len(), |k: int| Command::Cancel { op: v.inflight[k].op }),
        ..v
    }
}

/// One tool call routed: a fresh op, either waiting for permission (the
/// call stashed) or started as a capability. `call` holds the call's name
/// and two copies of its arguments.
pub open spec fn route_one(v: BrainView, call: (String, Json, Json), needs_permission: bool) -> BrainView {
    let op = v.next_op;
    let v1 = take_op(v);
    if needs_permission {
        mark(
            push_cmd(v1, Command::RequestPermission {
                op,
                request: PermissionRequest { capability: call.0, args: call.1 },
            }),
            op,
            OpState::AwaitingPermission { name: call.0, args: call.2 },
        )
    } else {
        push_cmd(mark(v1, op, OpState::Capability { name: call.0 }), Command::StartCapability {
            op,
            name: call.0,
            args: call.1,
        })
    }
}

/// The tool calls routed in order.
pub open spec fn route(v: BrainView, calls: Seq<(String, Json, Json)>, permissions: Seq<bool>) -> BrainView
    decreases calls.len(),
{
    if calls.len() == 0 || permissions.len() != calls.len() {
        v
    } else {
        route_one(route(v, calls.drop_last(), permissions.drop_last()), calls.last(), permissions.last())
    }
}

/// `v` with the read-set updated from a capability's version envelope.
pub open spec fn record_version(v: BrainView, version: Option<VersionRef>) -> BrainView {
    match version {
        Some(r) => BrainView { versions: v.versions.insert(r.object@, r.version@), ..v },
        None => v,
    }
}

/// The in-flight entry of `op`, if it is in flight.
pub open spec fn entry_of(v: BrainView, op: OpId) -> Option<Inflight> {
    match op_index(v.inflight, op) {
        Some(i) => Some(v.inflight[i]),
        None => None,
    }
}

/// The capability name of an in-flight op, if it is a capability op.
pub open spec fn capability_name(v: BrainView, op: OpId) -> Option<String> {
    match entry_of(v, op) {
        Some(Inflight { state: OpState::Capability { name }, .. }) => Some(name),
        _ => None,
    }
}

/// `v` with usage stashed on an in-flight op.
pub open spec fn stash_usage(v: BrainView, op: OpId, usage: Usage) -> BrainView {
    match op_index(v.inflight, op) {
        Some(i) => BrainView {
            inflight: v.inflight.update(i, Inflight { usage: Some(usage), ..v.inflight[i] }),
            ..v
        },
        None => v,
    }
}

/// The front-end event a model delta is forwarded as, if any.
pub open spec fn delta_event(op: OpId, delta: ModelDelta) -> Option<OutputEvent> {
    match delta {
        ModelDelta::Text(t) => Some(OutputEvent::ModelText { op, text: t }),
        ModelDelta::Reasoning(t) => Some(OutputEvent::ModelReasoning { op, text: t }),
        ModelDelta::ToolCallStart { name, .. } => Some(OutputEvent::ToolCallStarted { op, name }),
        _ => None,
    }
}

/// `v` with the live text buffer of model op `op` replaced by `grown`.
pub open spec fn grow(v: BrainView, op: OpId, grown: String) -> BrainView {
    match op_index(v.inflight, op) {
        Some(i) => match v.inflight[i].state {
            OpState::Model { selector, .. } => BrainView {
                inflight: v.inflight.update(i, Inflight {
                    state: OpState::Model { selector, text_so_far: grown },
                    ..v.inflight[i]
                }),
                ..v
            },
            _ => v,
        },
        None => v,
    }
}

/// `v` with a model delta folded in: text grows the op's live buffer (the
/// grown buffer is `grown`), and the delta is forwarded to front-ends.
pub open spec fn fold_delta(v: BrainView, op: OpId, delta: ModelDelta, grown: String) -> BrainView {
    let v1 = if delta is Text {
        grow(v, op, grown)
    } else {
        v
    };
    match delta_event(op, delta) {
        Some(e) => push_cmd(v1, Command::Emit(e)),
        None => v1,
    }
}

/// Whether the in-flight op `op` is waiting for permission.
pub open spec fn awaiting_permission(v: BrainView, op: OpId) -> bool {
    entry_of(v, op) matches Some(Inflight { state: OpState::AwaitingPermission { .. }, .. })
}

/// A permission decision: an allowed call starts as a capability with its
/// stashed arguments; a denied one settles the op and feeds the reason back
/// to the model as a tool result named `label`.
pub open spec fn decide(v: BrainView, op: OpId, decision: Decision, label: String, t: TurnChoice) -> BrainView {
    match decision {
        Decision::Allow => match op_index(v.inflight, op) {
            Some(i) => match v.inflight[i].state {
                OpState::AwaitingPermission { name, args } => push_cmd(
                    mark(remove_at(v, i), op, OpState::Capability { name }),
                    Command::StartCapability { op, name, args },
                ),
                _ => v,
            },
            None => v,
        },
        Decision::Deny { reason } => {
            let v1 = if awaiting_permission(v, op) {
                remove_at(v, op_index(v.inflight, op)->0)
            } else {
                v
            };
            resume(append(v1, Record::ToolResult { op, name: label, result: Json::String(reason) }), t)
        },
    }
}

/// A tool-like result: logged under `name`, the op ended, the turn resumed.
pub open spec fn tool_result(v: BrainView, op: OpId, name: String, result: Json, outcome: OpOutcome, t: TurnChoice) -> BrainView {
    resume(end_op(append(v, Record::ToolResult { op, name, result }), op, outcome), t)
}

/// What the brain cannot fix alone in one step: the strings it builds (their
/// characters are fixed by `choices_fit`), the copies of tool-call
/// arguments it hands out, and the policy's answers.
pub struct StepChoices {
    /// The one string the event builds: the user's text, a tool-result
    /// name, a grown text buffer or an error message.
    pub text: String,
    /// Per tool call: its name and two copies of its arguments.
    pub calls: Seq<(String, Json, Json)>,
    /// Per tool call: whether the policy asks for permission.
    pub permissions: Seq<bool>,
    /// How a model turn started, if one did.
    pub turn: TurnChoice,
}

/// The text recorded for user content: a JSON string's own text, anything
/// else in compact JSON.
pub open spec fn user_text(content: Json) -> Seq<char> {
    match content {
        Json::String(s) => s@,
        _ => serde_compact(content),
    }
}

/// The name a tool result of `op` is logged under: its capability's name,
/// empty for an op that is not a capability in flight.
pub open spec fn name_fits(v: BrainView, op: OpId, text: String) -> bool {
    match capability_name(v, op) {
        Some(n) => text == n,
        None => text@ == Seq::<char>::empty(),
    }
}

/// The constraints on the choices of one step.
pub open spec fn choices_fit(v: BrainView, e: Event, c: StepChoices) -> bool {
    &&& c.turn.fresh@ == Seq::<char>::empty()
    &&& match e {
        Event::UserInput { content, .. } => c.text@ == user_text(content),
        Event::ModelDelta { op, delta } => match (entry_of(v, op), delta) {
            (Some(Inflight { state: OpState::Model { text_so_far, .. }, .. }), ModelDelta::Text(t)) =>
                c.text@ == text_so_far@ + t@,
            _ => true,
        },
        Event::ModelDone { output, .. } => {
            &&& c.calls.len() == output.tool_calls@.len()
            &&& c.permissions.len() == output.tool_calls@.len()
            &&& forall|i: int| 0 <= i < c.calls.len() ==> {
                &&& (#[trigger] c.calls[i]).0 == output.tool_calls@[i].name
                &&& json_same(c.calls[i].1, output.tool_calls@[i].args)
                &&& json_same(c.calls[i].2, output.tool_calls@[i].args)
            }
        },
        Event::ModelError { error, .. } => c.text@ == serde_compact(error),
        Event::CapabilityDone { op, .. } => name_fits(v, op, c.text),
        Event::CapabilityError { op, .. } => name_fits(v, op, c.text),
        Event::AgentDone { .. } => c.text@ == "<agent>"@,
        Event::AgentError { .. } => c.text@ == "<agent>"@,
        Event::UserAnswer { .. } => c.text@ == "<user>"@,
        Event::PermissionDecision { decision: Decision::Deny { .. }, .. } => c.text@ == "<denied>"@,
        _ => true,
    }
}

/// The brain's transition: the state after one event.
///
/// - User input is logged; it resumes the turn when queued or when idle,
///   cancels everything in flight (a fresh turn follows the drain) when it
///   interrupts a busy brain, and is only context when appended mid-turn.
/// - An abort cancels everything in flight; the turn ends cancelled once
///   the last op drains.
/// - Deltas and chunks are forwarded to front-ends, never logged.
/// - A finished model call is logged and its op ended; without tool calls
///   the turn ends (checkpoint, `Done`), otherwise each call becomes an op.
/// - A failed model call ends its op with the error and ends the turn.
/// - Capability, agent and user-answer results are logged as tool results,
///   their ops ended, and the turn resumed; capability results also update
///   the read-set.
/// - A permission decision starts the stashed call, or feeds the denial
///   back and resumes the turn.
/// - A cancellation confirmed for an op in flight logs its partial work;
///   one for an op no longer in flight changes nothing.
/// - A tick sets the time.
pub open spec fn step(v: BrainView, e: Event, c: StepChoices) -> BrainView {
    match e {
        Event::UserInput { mode, .. } => {
            let v1 = append(v, Record::UserMessage { text: c.text });
            if mode is Queue || v.inflight.len() == 0 {
                resume(v1, c.turn)
            } else if mode is Interrupt {
                BrainView { after_drain: AfterDrain::FreshTurn, ..cancel_all(v1) }
            } else {
                v1
            }
        },
        Event::UserAbort => BrainView {
            after_drain: if v.inflight.len() > 0 {
                AfterDrain::EndCancelled
            } else {
                AfterDrain::Nothing
            },
            ..cancel_all(v)
        },
        Event::ModelDelta { op, delta } => fold_delta(v, op, delta, c.text),
        Event::ModelDone { op, output, usage } => {
            let v1 = end_op(append(stash_usage(v, op, usage), Record::ModelOutput { op, output }), op, OpOutcome::Succeeded);
            if output.tool_calls@.len() == 0 {
                push_cmd(push_cmd(v1, Command::Checkpoint), Command::Done { reason: DoneReason::EndTurn })
            } else {
                route(v1, c.calls, c.permissions)
            }
        },
        Event::ModelError { op, error } => push_cmd(
            push_cmd(end_op(v, op, OpOutcome::Error(error)), Command::Checkpoint),
            Command::Done { reason: DoneReason::Error(c.text) },
        ),
        Event::CapabilityChunk { op, chunk } => push_cmd(v, Command::Emit(OutputEvent::ToolChunk { op, chunk })),
        Event::CapabilityDone { op, result, version } =>
            tool_result(record_version(v, version), op, c.text, result, OpOutcome::Succeeded, c.turn),
        Event::CapabilityError { op, error, conflict } =>
            tool_result(record_version(v, conflict), op, c.text, error, OpOutcome::Error(Json::Null), c.turn),
        Event::AgentDone { op, result } => tool_result(v, op, c.text, result, OpOutcome::Succeeded, c.turn),
        Event::AgentError { op, error } => tool_result(v, op, c.text, error, OpOutcome::Error(Json::Null), c.turn),
        Event::UserAnswer { op, answer } => tool_result(v, op, c.text, answer, OpOutcome::Succeeded, c.turn),
        Event::PermissionDecision { op, decision } => decide(v, op, decision, c.text, c.turn),
        Event::OpCancelled { op } => if op_index(v.inflight, op) is Some {
            drained(cancel_op(v, op), c.turn)
        } else {
            v
        },
        Event::Tick { now } => BrainView { now, ..v },
    }
}

/// The op ids and sequence numbers one event may take.
pub open spec fn room(v: BrainView, e: Event) -> bool {
    &&& v.next_seq + 2 <= u64::MAX
    &&& v.next_op + match e {
        Event::ModelDone { output, .. } => output.tool_calls@.len() + 1,
        _ => 1,
    } <= u64::MAX
}

// ===========================================================================
// State helpers
// ===========================================================================

/// With distinct ops, the index of `op` is the one that holds it.
proof fn lemma_op_index(s: Seq<Inflight>, op: OpId, i: int)
    requires
        forall|a: int, b: int| 0 <= a < b < s.len() ==> s[a].op != s[b].op,
        0 <= i < s.len(),
        s[i].op == op,
    ensures
        op_index(s, op) == Some(i),
{
    let c = choose|k: int| 0 <= k < s.len() && s[k].op == op;
    assert(0 <= c < s.len() && s[c].op == op);
    if c < i {
        assert(s[c].op != s[i].op);
    } else if c > i {
        assert(s[i].op != s[c].op);
    }
}

/// Removing one entry keeps the rest distinct and older than `next_op`.
proof fn lemma_remove_keeps_wf(v: BrainView, i: int)
    requires
        view_wf(v),
        0 <= i < v.inflight.len(),
    ensures
        view_wf(remove_at(v, i)),
        forall|k: int| 0 <= k < remove_at(v, i).inflight.len() ==> (#[trigger] remove_at(v, i).inflight[k]).op != v.inflight[i].op,
{
    let r = v.inflight.remove(i);
    assert forall|a: int, b: int| 0 <= a < b < r.len() implies r[a].op != r[b].op by {
        let a0 = if a < i { a } else { a + 1 };
        let b0 = if b < i { b } else { b + 1 };
        assert(r[a] == v.inflight[a0] && r[b] == v.inflight[b0]);
    }
    assert forall|k: int| 0 <= k < r.len() implies (#[trigger] r[k]).op < v.next_op by {
        let k0 = if k < i { k } else { k + 1 };
        assert(r[k] == v.inflight[k0]);
    }
    assert forall|k: int| 0 <= k < r.len() implies (#[trigger] r[k]).op != v.inflight[i].op by {
        let k0 = if k < i { k } else { k + 1 };
        assert(r[k] == v.inflight[k0]);
    }
}

/// Updating the read-set in place at an object's slot is inserting it.
proof fn lemma_versions_update(s: Seq<(String, String)>, i: int, e: (String, String))
    requires
        0 <= i < s.len(),
        s[i].0@ == e.0@,
        forall|a: int, b: int| 0 <= a < b < s.len() ==> s[a].0@ != s[b].0@,
    ensures
        versions_map(s.update(i, e)) == versions_map(s).insert(e.0@, e.1@),
    decreases s.len(),
{
    let u = s.update(i, e);
    if i == s.len() - 1 {
        assert(u.drop_last() =~= s.drop_last());
        assert(versions_map(u) =~= versions_map(s).insert(e.0@, e.1@));
    } else {
        assert(u.drop_last() =~= s.drop_last().update(i, e));
        lemma_versions_update(s.drop_last(), i, e);
        assert(s.last().0@ != e.0@);
        assert(versions_map(u) =~= versions_map(s).insert(e.0@, e.1@));
    }
}

/// The metadata of an op that ends now.
fn meta_of(entry: Option<Inflight>, now: Timestamp) -> (r: OpMeta)
    ensures
        r == meta_for(entry, now),
{
    match entry {
        Some(Inflight { state, started_at, usage, .. }) => OpMeta {
            started_at,
            ended_at: now,
            model: match state {
                OpState::Model { selector, .. } => Some(selector),
                _ => None,
            },
            usage,
            extra: Json::Null,
        },
        None => OpMeta { started_at: now, ended_at: now, model: None, usage: None, extra: Json::Null },
    }
}

/// A copy of a selector.
fn copy_selector(s: &ModelSelector) -> (r: ModelSelector)
    ensures
        r == *s,
{
    match s {
        ModelSelector::Named(n) => ModelSelector::Named(n.clone()),
    }
}

/// Each tool call's name with two copies of its arguments.
fn copy_calls(calls: &Vec<ToolCall>) -> (r: Vec<(String, Json, Json)>)
    ensures
        r@.len() == calls@.len(),
        forall|i: int| 0 <= i < r@.len() ==> {
            &&& (#[trigger] r@[i]).0 == calls@[i].name
            &&& json_same(r@[i].1, calls@[i].args)
            &&& json_same(r@[i].2, calls@[i].args)
        },
{
    let mut r: Vec<(String, Json, Json)> = Vec::new();
    let mut i: usize = 0;
    while i < calls.len()
        invariant
            i <= calls@.len(),
            r@.len() == i,
            forall|k: int| 0 <= k < i ==> {
                &&& (#[trigger] r@[k]).0 == calls@[k].name
                &&& json_same(r@[k].1, calls@[k].args)
                &&& json_same(r@[k].2, calls@[k].args)
            },
        decreases calls.len() - i,
    {
        let a = copy_json(&calls[i].args);
        let b = copy_json(&calls[i].args);
        r.push((calls[i].name.clone(), a, b));
        i = i + 1;
    }
    r
}

impl BrainState {
    /// The state of a brain that has seen nothing.
    pub fn new() -> (s: BrainState)
        ensures
            s.wf(),
            s@.log.len() == 0,
            s@.next_seq == 0,
            s@.next_op == 0,
            s@.inflight.len() == 0,
            s@.outbox.len() == 0,
            s@.now == 0,
            s@.versions == Map::<Seq<char>, Seq<char>>::empty(),
            s@.after_drain == AfterDrain::Nothing,
    {
        BrainState {
            log: Vec::new(),
            next_seq: 0,
            next_op: 0,
            inflight: Vec::new(),
            outbox: Vec::new(),
            now: 0,
            versions: Vec::new(),
            after_drain: AfterDrain::Nothing,
        }
    }

    fn find(&self, op: OpId) -> (r: Option<usize>)
        requires
            view_wf(self@),
        ensures
            match r {
                Some(i) => op_index(self@.inflight, op) == Some(i as int) && i < self@.inflight.len(),
                None => op_index(self@.inflight, op) is None,
            },
    {
        let mut i: usize = 0;
        while i < self.inflight.len()
            invariant
                view_wf(self@),
                i <= self.inflight@.len(),
                forall|k: int| 0 <= k < i ==> (#[trigger] self.inflight@[k]).op != op,
            decreases self.inflight.len() - i,
        {
            if self.inflight[i].op == op {
                proof {
                    lemma_op_index(self.inflight@, op, i as int);
                }
                return Some(i);
            }
            i = i + 1;
        }
        None
    }

    fn append_record(&mut self, record: Record)
        requires
            old(self).wf(),
            old(self).next_seq < u64::MAX,
        ensures
            final(self).wf(),
            final(self)@ == append(old(self)@, record),
    {
        let entry = LogEntry { seq: self.next_seq, at: self.now, record };
        self.log.push(entry);
        self.next_seq = self.next_seq + 1;
        assert(self.versions@ == old(self).versions@);
    }

    fn push_cmd(&mut self, c: Command)
        requires
            old(self).wf(),
        ensures
            final(self).wf(),
            final(self)@ == push_cmd(old(self)@, c),
    {
        self.outbox.push(c);
    }

    fn take_op(&mut self) -> (op: OpId)
        requires
            old(self).wf(),
            old(self).next_op < u64::MAX,
        ensures
            final(self).wf(),
            op == old(self)@.next_op,
            final(self)@ == take_op(old(self)@),
    {
        let op = self.next_op;
        self.next_op = self.next_op + 1;
        op
    }

    /// Starts tracking a new op; `op` must not be in flight yet.
    fn mark(&mut self, op: OpId, state: OpState)
        requires
            old(self).wf(),
            op < old(self)@.next_op,
            forall|k: int| 0 <= k < old(self)@.inflight.len() ==> (#[trigger] old(self)@.inflight[k]).op != op,
        ensures
            final(self).wf(),
            final(self)@ == mark(old(self)@, op, state),
    {
        let e = Inflight { op, state, started_at: self.now, usage: None };
        self.inflight.push(e);
    }

    fn remove_at(&mut self, i: usize) -> (e: Inflight)
        requires
            old(self).wf(),
            i < old(self)@.inflight.len(),
        ensures
            final(self).wf(),
            e == old(self)@.inflight[i as int],
            final(self)@ == remove_at(old(self)@, i as int),
            forall|k: int| 0 <= k < final(self)@.inflight.len() ==> (#[trigger] final(self)@.inflight[k]).op != e.op,
    {
        proof {
            lemma_remove_keeps_wf(self@, i as int);
        }
        self.inflight.remove(i)
    }

    fn end_op(&mut self, op: OpId, outcome: OpOutcome)
        requires
            old(self).wf(),
            old(self).next_seq < u64::MAX,
        ensures
            final(self).wf(),
            final(self)@ == end_op(old(self)@, op, outcome),
    {
        match self.find(op) {
            Some(i) => {
                let e = self.remove_at(i);
                let meta = meta_of(Some(e), self.now);
                self.append_record(Record::OpEnded { op, outcome, meta });
            },
            None => {
                let meta = meta_of(None, self.now);
                self.append_record(Record::OpEnded { op, outcome, meta });
            },
        }
    }

    /// Ends the in-flight op at index `i` (which holds `op`) as cancelled,
    /// logging its partial work.
    fn cancel_at(&mut self, op: OpId, i: usize)
        requires
            old(self).wf(),
            old(self).next_seq < u64::MAX,
            op_index(old(self)@.inflight, op) == Some(i as int),
            i < old(self)@.inflight.len(),
        ensures
            final(self).wf(),
            final(self)@ == cancel_op(old(self)@, op),
    {
        let e = self.remove_at(i);
        let ghost e0 = e;
        let Inflight { op: _, state, started_at, usage } = e;
        let (model, partial) = match state {
            OpState::Model { selector, text_so_far } => (Some(selector), Json::String(text_so_far)),
            _ => (None, Json::Null),
        };
        let meta = OpMeta { started_at, ended_at: self.now, model, usage, extra: Json::Null };
        assert(meta == meta_for(Some(e0), old(self)@.now));
        assert(partial == partial_of(e0));
        self.append_record(Record::OpEnded { op, outcome: OpOutcome::Cancelled { partial }, meta });
    }

    fn no_tool_ops(&self) -> (r: bool)
        ensures
            r == no_tool_ops(self@),
    {
        let mut i: usize = 0;
        while i < self.inflight.len()
            invariant
                i <= self.inflight@.len(),
                forall|k: int| 0 <= k < i ==> (#[trigger] self.inflight@[k]).state is Model,
            decreases self.inflight.len() - i,
        {
            match &self.inflight[i].state {
                OpState::Model { .. } => {},
                _ => {
                    return false;
                },
            }
            i = i + 1;
        }
        true
    }

    fn cancel_all(&mut self)
        requires
            old(self).wf(),
        ensures
            final(self).wf(),
            final(self)@ == cancel_all(old(self)@),
    {
        let ghost v = self@;
        let mut i: usize = 0;
        while i < self.inflight.len()
            invariant
                self.wf(),
                i <= self.inflight@.len(),
                self.inflight@ == v.inflight,
                self@ == (BrainView {
                    outbox: v.outbox + Seq::new(i as nat, |k: int| Command::Cancel { op: v.inflight[k].op }),
                    ..v
                }),
            decreases self.inflight.len() - i,
        {
            let op = self.inflight[i].op;
            self.outbox.push(Command::Cancel { op });
            assert(v.outbox + Seq::new((i + 1) as nat, |k: int| Command::Cancel { op: v.inflight[k].op })
                =~= (v.outbox + Seq::new(i as nat, |k: int| Command::Cancel { op: v.inflight[k].op })).push(Command::Cancel { op }));
            i = i + 1;
        }
    }

    fn record_version(&mut self, version: Option<VersionRef>)
        requires
            old(self).wf(),
        ensures
            final(self).wf(),
            final(self)@ == record_version(old(self)@, version),
    {
        if let Some(VersionRef { object, version: ver }) = version {
            let mut i: usize = 0;
            while i < self.versions.len()
                invariant
                    old(self).wf(),
                    *self == *old(self),
                    version == Some(VersionRef { object, version: ver }),
                    i <= self.versions@.len(),
                    self.versions@ == old(self).versions@,
                    forall|k: int| 0 <= k < i ==> (#[trigger] self.versions@[k]).0@ != object@,
                decreases self.versions.len() - i,
            {
                if str_eq(self.versions[i].0.as_str(), object.as_str()) {
                    proof {
                        lemma_versions_update(self.versions@, i as int, (object, ver));
                    }
                    let _old = self.versions.remove(i);
                    self.versions.insert(i, (object, ver));
                    assert(self.versions@ =~= old(self).versions@.update(i as int, (object, ver)));
                    assert forall|a: int, b: int| 0 <= a < b < self.versions@.len() implies self.versions@[a].0@ != self.versions@[b].0@ by {
                        assert(old(self).versions@[a].0@ != old(self).versions@[b].0@);
                    }
                    assert(versions_map(self.versions@) == versions_map(old(self).versions@).insert(object@, ver@));
                    assert(self@ == record_version(old(self)@, Some(VersionRef { object, version: ver })));
                    return;
                }
                i = i + 1;
            }
            self.versions.push((object, ver));
            assert(self.versions@.drop_last() =~= old(self).versions@);
            assert(versions_map(self.versions@) == versions_map(old(self).versions@).insert(object@, ver@));
            assert(self@ == record_version(old(self)@, Some(VersionRef { object, version: ver })));
        }
    }

    fn stash_usage(&mut self, op: OpId, usage: Usage)
        requires
            old(self).wf(),
        ensures
            final(self).wf(),
            final(self)@ == stash_usage(old(self)@, op, usage),
    {
        if let Some(i) = self.find(op) {
            let e = self.inflight.remove(i);
            let e2 = Inflight { usage: Some(usage), ..e };
            self.inflight.insert(i, e2);
            assert(self.inflight@ =~= old(self).inflight@.update(i as int, e2));
            assert forall|a: int| 0 <= a < self.inflight@.len() implies (#[trigger] self.inflight@[a]).op == old(self).inflight@[a].op by {}
        }
    }

    /// Appends text to the live buffer of model op `op`.
    fn grow_text(&mut self, op: OpId, t: &str) -> (grown: Ghost<String>)
        requires
            old(self).wf(),
        ensures
            final(self).wf(),
            final(self)@ == grow(old(self)@, op, grown@),
            match entry_of(old(self)@, op) {
                Some(Inflight { state: OpState::Model { text_so_far, .. }, .. }) => grown@@ == text_so_far@ + t@,
                _ => true,
            },
    {
        match self.find(op) {
            Some(i) => {
                let e = self.inflight.remove(i);
                let Inflight { op: eop, state, started_at, usage } = e;
                match state {
                    OpState::Model { selector, text_so_far } => {
                        let mut text = text_so_far;
                        push_str(&mut text, t);
                        let ghost g = text;
                        let e2 = Inflight { op: eop, state: OpState::Model { selector, text_so_far: text }, started_at, usage };
                        self.inflight.insert(i, e2);
                        assert(self.inflight@ =~= old(self).inflight@.update(i as int, e2));
                        assert forall|a: int| 0 <= a < self.inflight@.len() implies (#[trigger] self.inflight@[a]).op == old(self).inflight@[a].op by {}
                        Ghost(g)
                    },
                    other => {
                        let e2 = Inflight { op: eop, state: other, started_at, usage };
                        self.inflight.insert(i, e2);
                        assert(self.inflight@ =~= old(self).inflight@);
                        Ghost(arbitrary())
                    },
                }
            },
            None => Ghost(arbitrary()),
        }
    }

    /// The capability name of `op`, empty when it is not a capability op
    /// in flight.
    fn capability_name(&self, op: OpId) -> (r: String)
        requires
            self.wf(),
        ensures
            name_fits(self@, op, r),
    {
        match self.find(op) {
            Some(i) => match &self.inflight[i].state {
                OpState::Capability { name } => name.clone(),
                _ => String::new(),
            },
            None => String::new(),
        }
    }
}

// ===========================================================================
// The pluggable policy and the brain
// ===========================================================================

/// The agent strategy: which model to call, how to project the log into a
/// request, when to compact, which capabilities need permission. Swapping
/// it changes behavior without touching the reducer.
///
/// Each answer is specified by the policy itself: the booleans by spec
/// functions, the models and requests by relations (`chooses_model` says
/// which selectors are a right answer for a state), so a policy may build
/// its answers freshly.
pub trait TurnPolicy {
    /// Whether `model` is a right choice of model for `state`.
    spec fn chooses_model(&self, state: BrainView, model: ModelSelector) -> bool;

    /// Whether `request` is a right projection of `log`.
    spec fn projects_context(&self, log: Seq<LogEntry>, request: ModelRequest) -> bool;

    /// Whether `state` needs compacting before the next turn.
    spec fn needs_compaction_spec(&self, state: BrainView) -> bool;

    /// Whether `request` is a right summarizer request for `log`.
    spec fn builds_compaction(&self, log: Seq<LogEntry>, request: ModelRequest) -> bool;

    /// Whether a capability requires a permission round-trip.
    spec fn needs_permission_spec(&self, capability: Seq<char>) -> bool;

    /// The logical model for the next step.
    fn choose_model(&self, state: &BrainState) -> (r: ModelSelector)
        ensures
            self.chooses_model(state@, r),
    ;

    /// The model context rendered from the log (pure; never calls a model).
    fn project_context(&self, log: &[LogEntry]) -> (r: ModelRequest)
        ensures
            self.projects_context(log@, r),
    ;

    /// Whether the log has grown past the budget and a summarizer op must
    /// run before the real turn.
    fn needs_compaction(&self, state: &BrainState) -> (r: bool)
        ensures
            r == self.needs_compaction_spec(state@),
    ;

    /// The request for the summarizer op.
    fn compaction_request(&self, log: &[LogEntry]) -> (r: ModelRequest)
        ensures
            self.builds_compaction(log@, r),
    ;

    /// Whether a capability requires a permission round-trip.
    fn needs_permission(&self, capability: &str) -> (r: bool)
        ensures
            r == self.needs_permission_spec(capability@),
    ;
}

/// The policy's answers at the start of a turn from state `v`: a
/// summarizer call when the policy asks for compaction, else the model the
/// policy chooses with the context it projects; the live text buffer
/// starts empty.
pub open spec fn turn_fits<P: TurnPolicy>(p: P, v: BrainView, t: TurnChoice) -> bool {
    &&& t.fresh@ == Seq::<char>::empty()
    &&& if p.needs_compaction_spec(v) {
        &&& t.selector matches ModelSelector::Named(n) && n@ == "summarizer"@
        &&& p.builds_compaction(v.log, t.request)
    } else {
        &&& p.chooses_model(take_op(v), t.selector)
        &&& p.projects_context(v.log, t.request)
    }
}

/// The state from which `step` starts a model turn, if it starts one.
pub open spec fn turn_point(v: BrainView, e: Event, c: StepChoices) -> Option<BrainView> {
    let base = match e {
        Event::UserInput { mode, .. } => if mode is Queue || v.inflight.len() == 0 {
            Some(append(v, Record::UserMessage { text: c.text }))
        } else {
            None
        },
        Event::CapabilityDone { op, result, version } => Some(
            end_op(append(record_version(v, version), Record::ToolResult { op, name: c.text, result }), op, OpOutcome::Succeeded),
        ),
        Event::CapabilityError { op, error, conflict } => Some(
            end_op(append(record_version(v, conflict), Record::ToolResult { op, name: c.text, result: error }), op, OpOutcome::Error(Json::Null)),
        ),
        Event::AgentDone { op, result } => Some(
            end_op(append(v, Record::ToolResult { op, name: c.text, result }), op, OpOutcome::Succeeded),
        ),
        Event::AgentError { op, error } => Some(
            end_op(append(v, Record::ToolResult { op, name: c.text, result: error }), op, OpOutcome::Error(Json::Null)),
        ),
        Event::UserAnswer { op, answer } => Some(
            end_op(append(v, Record::ToolResult { op, name: c.text, result: answer }), op, OpOutcome::Succeeded),
        ),
        Event::PermissionDecision { op, decision: Decision::Deny { reason } } => {
            let v1 = if awaiting_permission(v, op) {
                remove_at(v, op_index(v.inflight, op)->0)
            } else {
                v
            };
            Some(append(v1, Record::ToolResult { op, name: c.text, result: Json::String(reason) }))
        },
        _ => None,
    };
    match e {
        Event::OpCancelled { op } => if op_index(v.inflight, op) is Some {
            let v1 = cancel_op(v, op);
            if v1.inflight.len() == 0 && v1.after_drain == AfterDrain::FreshTurn {
                Some(BrainView { after_drain: AfterDrain::Nothing, ..v1 })
            } else {
                None
            }
        } else {
            None
        },
        _ => match base {
            Some(b) => if no_tool_ops(b) {
                Some(b)
            } else {
                None
            },
            None => None,
        },
    }
}

/// The constraints the policy puts on the choices of one step: each tool
/// call waits for permission exactly when the policy gates its capability,
/// and a model turn starts with the policy's answers.
pub open spec fn policy_fits<P: TurnPolicy>(p: P, v: BrainView, e: Event, c: StepChoices) -> bool {
    &&& forall|i: int| 0 <= i < c.permissions.len() ==> #[trigger] c.permissions[i] == p.needs_permission_spec(c.calls[i].0@)
    &&& match turn_point(v, e, c) {
        Some(b) => turn_fits(p, b, c.turn),
        None => true,
    }
}

/// The name a selector resolves by.
pub open spec fn selector_name(s: ModelSelector) -> Seq<char> {
    match s {
        ModelSelector::Named(n) => n@,
    }
}

/// The conversation's texts in log order: user messages and model
/// outputs.
pub open spec fn conversation(log: Seq<LogEntry>) -> Seq<Seq<char>>
    decreases log.len(),
{
    if log.len() == 0 {
        seq![]
    } else {
        let rest = conversation(log.drop_last());
        match log.last().record {
            Record::UserMessage { text } => rest.push(text@),
            Record::ModelOutput { output, .. } => rest.push(output.text@),
            _ => rest,
        }
    }
}

/// Whether `messages` are exactly `texts`, each as a JSON string.
pub open spec fn texts_fit(messages: Seq<Json>, texts: Seq<Seq<char>>) -> bool {
    &&& messages.len() == texts.len()
    &&& forall|i: int| 0 <= i < messages.len() ==> (#[trigger] messages[i] matches Json::String(s) && s@ == texts[i])
}

/// A fixed policy: always the same model, a fixed set of gated
/// capabilities, no compaction; its context is the conversation's texts in
/// order, each as a JSON string.
pub struct StaticPolicy {
    pub model: String,
    pub gated: Vec<String>,
}

impl TurnPolicy for StaticPolicy {
    open spec fn chooses_model(&self, state: BrainView, model: ModelSelector) -> bool {
        model matches ModelSelector::Named(n) && n@ == self.model@
    }

    open spec fn projects_context(&self, log: Seq<LogEntry>, request: ModelRequest) -> bool {
        texts_fit(request.messages@, conversation(log))
    }

    open spec fn needs_compaction_spec(&self, state: BrainView) -> bool {
        false
    }

    open spec fn builds_compaction(&self, log: Seq<LogEntry>, request: ModelRequest) -> bool {
        request.messages@.len() == 0
    }

    open spec fn needs_permission_spec(&self, capability: Seq<char>) -> bool {
        exists|i: int| 0 <= i < self.gated@.len() && #[trigger] self.gated@[i]@ == capability
    }

    fn choose_model(&self, state: &BrainState) -> (r: ModelSelector) {
        ModelSelector::Named(self.model.clone())
    }

    fn project_context(&self, log: &[LogEntry]) -> (r: ModelRequest) {
        let mut messages: Vec<Json> = Vec::new();
        let mut i: usize = 0;
        assert(log@.take(0) =~= Seq::<LogEntry>::empty());
        while i < log.len()
            invariant
                i <= log@.len(),
                texts_fit(messages@, conversation(log@.take(i as int))),
            decreases log.len() - i,
        {
            assert(log@.take(i + 1).drop_last() =~= log@.take(i as int));
            assert(log@.take(i + 1).last() == log@[i as int]);
            match &log[i].record {
                Record::UserMessage { text } => {
                    messages.push(Json::String(text.clone()));
                },
                Record::ModelOutput { output, .. } => {
                    messages.push(Json::String(output.text.clone()));
                },
                _ => {},
            }
            i = i + 1;
        }
        assert(log@.take(log@.len() as int) =~= log@);
        ModelRequest { messages }
    }

    fn needs_compaction(&self, state: &BrainState) -> (r: bool) {
        false
    }

    fn compaction_request(&self, log: &[LogEntry]) -> (r: ModelRequest) {
        ModelRequest { messages: Vec::new() }
    }

    fn needs_permission(&self, capability: &str) -> (r: bool) {
        let mut i: usize = 0;
        while i < self.gated.len()
            invariant
                i <= self.gated@.len(),
                forall|k: int| 0 <= k < i ==> self.gated@[k]@ != capability@,
            decreases self.gated.len() - i,
        {
            if str_eq(self.gated[i].as_str(), capability) {
                assert(self.gated@[i as int]@ == capability@);
                return true;
            }
            i = i + 1;
        }
        assert forall|k: int| 0 <= k < self.gated@.len() implies #[trigger] self.gated@[k]@ != capability@ by {}
        false
    }
}

/// The brain: its state and its policy.
pub struct Brain<P: TurnPolicy> {
    state: BrainState,
    policy: P,
}

impl<P: TurnPolicy> View for Brain<P> {
    type V = BrainView;

    closed spec fn view(&self) -> BrainView {
        self.state@
    }
}

/// A turn choice for a step that starts no turn.
fn no_turn() -> (t: Ghost<TurnChoice>)
    ensures
        t@.fresh@ == Seq::<char>::empty(),
{
    let blank = String::new();
    Ghost(TurnChoice { selector: arbitrary(), request: arbitrary(), fresh: blank })
}

impl<P: TurnPolicy> Brain<P> {
    /// The brain's invariant.
    pub closed spec fn wf(&self) -> bool {
        self.state.wf()
    }

    /// The brain's policy.
    pub closed spec fn policy_spec(&self) -> P {
        self.policy
    }

    /// The brain's policy.
    pub fn policy(&self) -> (p: &P)
        ensures
            *p == self.policy_spec(),
    {
        &self.policy
    }

    /// A brain that has seen nothing, with its policy.
    pub fn new(policy: P) -> (b: Brain<P>)
        ensures
            b.wf(),
            b.policy_spec() == policy,
            b@.log.len() == 0,
            b@.next_seq == 0,
            b@.next_op == 0,
            b@.inflight.len() == 0,
            b@.outbox.len() == 0,
            b@.now == 0,
            b@.versions == Map::<Seq<char>, Seq<char>>::empty(),
            b@.after_drain == AfterDrain::Nothing,
    {
        Brain { state: BrainState::new(), policy }
    }

    /// The brain's state.
    pub fn state(&self) -> (s: &BrainState)
        ensures
            s@ == self@,
    {
        &self.state
    }

    /// The host drains the commands the brain wants performed.
    pub fn poll(&mut self) -> (cmds: Vec<Command>)
        requires
            old(self).wf(),
        ensures
            final(self).wf(),
            cmds@ == old(self)@.outbox,
            final(self)@ == (BrainView { outbox: Seq::empty(), ..old(self)@ }),
    {
        let mut out: Vec<Command> = Vec::new();
        std::mem::swap(&mut out, &mut self.state.outbox);
        out
    }

    /// Begins a model turn: a summarizer op first when the policy asks for
    /// compaction, else the model the policy picks with the context it
    /// projects.
    fn start_model_turn(&mut self) -> (t: Ghost<TurnChoice>)
        requires
            old(self).wf(),
            old(self)@.next_op < u64::MAX,
        ensures
            final(self).wf(),
            final(self)@ == start_turn(old(self)@, t@),
            turn_fits(old(self).policy, old(self)@, t@),
            final(self).policy == old(self).policy,
    {
        if self.policy.needs_compaction(&self.state) {
            let op = self.state.take_op();
            let selector = ModelSelector::Named("summarizer".to_string());
            let request = self.policy.compaction_request(self.state.log.as_slice());
            let fresh = String::new();
            let ghost t = TurnChoice { selector, request, fresh };
            self.state.mark(op, OpState::Model { selector: copy_selector(&selector), text_so_far: fresh });
            self.state.push_cmd(Command::StartModelCall { op, model: selector, request });
            return Ghost(t);
        }
        let op = self.state.take_op();
        let selector = self.policy.choose_model(&self.state);
        let request = self.policy.project_context(self.state.log.as_slice());
        let fresh = String::new();
        let ghost t = TurnChoice { selector, request, fresh };
        self.state.mark(op, OpState::Model { selector: copy_selector(&selector), text_so_far: fresh });
        self.state.push_cmd(Command::StartModelCall { op, model: selector, request });
        Ghost(t)
    }

    /// Once all tool ops of the turn have resolved, calls the model again.
    fn maybe_resume_model_turn(&mut self) -> (t: Ghost<TurnChoice>)
        requires
            old(self).wf(),
            old(self)@.next_op < u64::MAX,
        ensures
            final(self).wf(),
            final(self)@ == resume(old(self)@, t@),
            t@.fresh@ == Seq::<char>::empty(),
            no_tool_ops(old(self)@) ==> turn_fits(old(self).policy, old(self)@, t@),
            final(self).policy == old(self).policy,
    {
        if self.state.no_tool_ops() {
            self.start_model_turn()
        } else {
            no_turn()
        }
    }

    /// Turns each tool call into an op: a permission request when the
    /// policy gates the capability, else the capability itself.
    fn route_calls(&mut self, calls: Vec<(String, Json, Json)>) -> (perms: Ghost<Seq<bool>>)
        requires
            old(self).wf(),
            old(self)@.next_op + calls@.len() <= u64::MAX,
        ensures
            final(self).wf(),
            perms@.len() == calls@.len(),
            final(self)@ == route(old(self)@, calls@, perms@),
            forall|i: int| 0 <= i < perms@.len() ==> #[trigger] perms@[i] == old(self).policy.needs_permission_spec(calls@[i].0@),
            final(self).policy == old(self).policy,
    {
        let ghost v0 = self.state@;
        let ghost all = calls@;
        let ghost mut perms: Seq<bool> = Seq::empty();
        let mut calls = calls;
        let total = calls.len();
        assert(total == all.len());
        let mut i: usize = 0;
        assert(all.take(0) =~= Seq::<(String, Json, Json)>::empty());
        while calls.len() > 0
            invariant
                self.state.wf(),
                i <= all.len(),
                calls@ == all.skip(i as int),
                perms.len() == i,
                self.state@.next_op == v0.next_op + i,
                v0.next_op + all.len() <= u64::MAX,
                all.len() <= usize::MAX,
                self.state@ == route(v0, all.take(i as int), perms),
                self.policy == old(self).policy,
                forall|k: int| 0 <= k < perms.len() ==> #[trigger] perms[k] == self.policy.needs_permission_spec(all[k].0@),
            decreases calls.len(),
        {
            assert(calls@[0] == all[i as int]);
            let (name, a1, a2) = calls.remove(0);
            let ghost before = self.state@;
            let op = self.state.take_op();
            let p = self.policy.needs_permission(name.as_str());
            let n2 = name.clone();
            if p {
                self.state.push_cmd(Command::RequestPermission {
                    op,
                    request: PermissionRequest { capability: n2, args: a1 },
                });
                self.state.mark(op, OpState::AwaitingPermission { name, args: a2 });
            } else {
                self.state.mark(op, OpState::Capability { name });
                self.state.push_cmd(Command::StartCapability { op, name: n2, args: a1 });
            }
            assert(self.state@ == route_one(before, all[i as int], p));
            proof {
                assert(all.take(i + 1).drop_last() =~= all.take(i as int));
                assert(perms.push(p).drop_last() =~= perms);
                perms = perms.push(p);
            }
            assert(all.skip(i as int).drop_first() =~= all.skip(i + 1));
            i = i + 1;
        }
        assert(all.take(i as int) =~= all);
        Ghost(perms)
    }
}

/// The text recorded for user content.
fn user_text_of(content: &Json) -> (r: String)
    ensures
        r@ == user_text(*content),
{
    match content {
        Json::String(t) => t.clone(),
        _ => compact_json(content),
    }
}

impl<P: TurnPolicy> Brain<P> {
    fn on_user_input(&mut self, content: Json, mode: SteerMode) -> (c: Ghost<StepChoices>)
        requires
            old(self).wf(),
            room(old(self)@, Event::UserInput { content, mode }),
        ensures
            final(self).wf(),
            choices_fit(old(self)@, Event::UserInput { content, mode }, c@),
            final(self)@ == step(old(self)@, Event::UserInput { content, mode }, c@),
            policy_fits(old(self).policy, old(self)@, Event::UserInput { content, mode }, c@),
            final(self).policy == old(self).policy,
    {
        let text = user_text_of(&content);
        let ghost t0 = text;
        let idle = self.state.inflight.len() == 0;
        self.state.append_record(Record::UserMessage { text });
        let queued = match mode {
            SteerMode::Queue => true,
            _ => false,
        };
        let turn = if queued || idle {
            self.maybe_resume_model_turn()
        } else {
            match mode {
                SteerMode::Interrupt => {
                    self.state.cancel_all();
                    self.state.after_drain = AfterDrain::FreshTurn;
                    no_turn()
                },
                _ => no_turn(),
            }
        };
        Ghost(StepChoices { text: t0, calls: Seq::empty(), permissions: Seq::empty(), turn: turn@ })
    }

    fn on_model_delta(&mut self, op: OpId, delta: ModelDelta) -> (c: Ghost<StepChoices>)
        requires
            old(self).wf(),
        ensures
            final(self).wf(),
            choices_fit(old(self)@, Event::ModelDelta { op, delta }, c@),
            final(self)@ == step(old(self)@, Event::ModelDelta { op, delta }, c@),
            policy_fits(old(self).policy, old(self)@, Event::ModelDelta { op, delta }, c@),
            final(self).policy == old(self).policy,
    {
        let grown = match &delta {
            ModelDelta::Text(t) => self.state.grow_text(op, t.as_str()),
            _ => Ghost(arbitrary()),
        };
        match delta {
            ModelDelta::Text(t) => self.state.push_cmd(Command::Emit(OutputEvent::ModelText { op, text: t })),
            ModelDelta::Reasoning(t) => self.state.push_cmd(Command::Emit(OutputEvent::ModelReasoning { op, text: t })),
            ModelDelta::ToolCallStart { name, .. } => self.state.push_cmd(Command::Emit(OutputEvent::ToolCallStarted { op, name })),
            _ => {},
        }
        let turn = no_turn();
        Ghost(StepChoices { text: grown@, calls: Seq::empty(), permissions: Seq::empty(), turn: turn@ })
    }

    fn on_model_done(&mut self, op: OpId, output: ModelOutput, usage: Usage) -> (c: Ghost<StepChoices>)
        requires
            old(self).wf(),
            room(old(self)@, Event::ModelDone { op, output, usage }),
        ensures
            final(self).wf(),
            choices_fit(old(self)@, Event::ModelDone { op, output, usage }, c@),
            final(self)@ == step(old(self)@, Event::ModelDone { op, output, usage }, c@),
            policy_fits(old(self).policy, old(self)@, Event::ModelDone { op, output, usage }, c@),
            final(self).policy == old(self).policy,
    {
        self.state.stash_usage(op, usage);
        let calls = copy_calls(&output.tool_calls);
        let ghost copies = calls@;
        let final_answer = output.tool_calls.len() == 0;
        self.state.append_record(Record::ModelOutput { op, output });
        self.state.end_op(op, OpOutcome::Succeeded);
        let turn = no_turn();
        if final_answer {
            self.state.push_cmd(Command::Checkpoint);
            self.state.push_cmd(Command::Done { reason: DoneReason::EndTurn });
            Ghost(StepChoices { text: arbitrary(), calls: copies, permissions: Seq::new(copies.len(), |i: int| false), turn: turn@ })
        } else {
            let perms = self.route_calls(calls);
            Ghost(StepChoices { text: arbitrary(), calls: copies, permissions: perms@, turn: turn@ })
        }
    }

    fn on_model_error(&mut self, op: OpId, error: Json) -> (c: Ghost<StepChoices>)
        requires
            old(self).wf(),
            room(old(self)@, Event::ModelError { op, error }),
        ensures
            final(self).wf(),
            choices_fit(old(self)@, Event::ModelError { op, error }, c@),
            final(self)@ == step(old(self)@, Event::ModelError { op, error }, c@),
            policy_fits(old(self).policy, old(self)@, Event::ModelError { op, error }, c@),
            final(self).policy == old(self).policy,
    {
        let message = compact_json(&error);
        let ghost m = message;
        self.state.end_op(op, OpOutcome::Error(error));
        self.state.push_cmd(Command::Checkpoint);
        self.state.push_cmd(Command::Done { reason: DoneReason::Error(message) });
        let turn = no_turn();
        Ghost(StepChoices { text: m, calls: Seq::empty(), permissions: Seq::empty(), turn: turn@ })
    }

    /// A tool-like result: logged under `name`, the op ended, the turn
    /// resumed.
    fn finish_tool(&mut self, op: OpId, name: String, result: Json, outcome: OpOutcome) -> (t: Ghost<TurnChoice>)
        requires
            old(self).wf(),
            old(self)@.next_seq + 2 <= u64::MAX,
            old(self)@.next_op < u64::MAX,
        ensures
            final(self).wf(),
            final(self)@ == tool_result(old(self)@, op, name, result, outcome, t@),
            t@.fresh@ == Seq::<char>::empty(),
            no_tool_ops(end_op(append(old(self)@, Record::ToolResult { op, name, result }), op, outcome))
                ==> turn_fits(old(self).policy, end_op(append(old(self)@, Record::ToolResult { op, name, result }), op, outcome), t@),
            final(self).policy == old(self).policy,
    {
        self.state.append_record(Record::ToolResult { op, name, result });
        self.state.end_op(op, outcome);
        self.maybe_resume_model_turn()
    }

    fn on_capability(&mut self, op: OpId, result: Json, version: Option<VersionRef>, outcome: OpOutcome) -> (c: Ghost<StepChoices>)
        requires
            old(self).wf(),
            old(self)@.next_seq + 2 <= u64::MAX,
            old(self)@.next_op < u64::MAX,
        ensures
            final(self).wf(),
            name_fits(old(self)@, op, c@.text),
            c@.turn.fresh@ == Seq::<char>::empty(),
            final(self)@ == tool_result(record_version(old(self)@, version), op, c@.text, result, outcome, c@.turn),
            c@.permissions.len() == 0,
            no_tool_ops(end_op(append(record_version(old(self)@, version), Record::ToolResult { op, name: c@.text, result }), op, outcome))
                ==> turn_fits(old(self).policy, end_op(append(record_version(old(self)@, version), Record::ToolResult { op, name: c@.text, result }), op, outcome), c@.turn),
            final(self).policy == old(self).policy,
    {
        self.state.record_version(version);
        let name = self.state.capability_name(op);
        let ghost n = name;
        let turn = self.finish_tool(op, name, result, outcome);
        Ghost(StepChoices { text: n, calls: Seq::empty(), permissions: Seq::empty(), turn: turn@ })
    }

    fn on_labeled(&mut self, op: OpId, label: &str, result: Json, outcome: OpOutcome) -> (c: Ghost<StepChoices>)
        requires
            old(self).wf(),
            old(self)@.next_seq + 2 <= u64::MAX,
            old(self)@.next_op < u64::MAX,
        ensures
            final(self).wf(),
            c@.text@ == label@,
            c@.turn.fresh@ == Seq::<char>::empty(),
            final(self)@ == tool_result(old(self)@, op, c@.text, result, outcome, c@.turn),
            c@.permissions.len() == 0,
            no_tool_ops(end_op(append(old(self)@, Record::ToolResult { op, name: c@.text, result }), op, outcome))
                ==> turn_fits(old(self).policy, end_op(append(old(self)@, Record::ToolResult { op, name: c@.text, result }), op, outcome), c@.turn),
            final(self).policy == old(self).policy,
    {
        let mut name = String::new();
        push_str(&mut name, label);
        let ghost n = name;
        let turn = self.finish_tool(op, name, result, outcome);
        Ghost(StepChoices { text: n, calls: Seq::empty(), permissions: Seq::empty(), turn: turn@ })
    }

    fn on_permission(&mut self, op: OpId, decision: Decision) -> (c: Ghost<StepChoices>)
        requires
            old(self).wf(),
            room(old(self)@, Event::PermissionDecision { op, decision }),
        ensures
            final(self).wf(),
            choices_fit(old(self)@, Event::PermissionDecision { op, decision }, c@),
            final(self)@ == step(old(self)@, Event::PermissionDecision { op, decision }, c@),
            policy_fits(old(self).policy, old(self)@, Event::PermissionDecision { op, decision }, c@),
            final(self).policy == old(self).policy,
    {
        let found = self.state.find(op);
        let waiting = match found {
            Some(i) => match &self.state.inflight[i].state {
                OpState::AwaitingPermission { .. } => true,
                _ => false,
            },
            None => false,
        };
        match decision {
            Decision::Allow => {
                if waiting {
                    let i = found.unwrap();
                    let e = self.state.remove_at(i);
                    match e.state {
                        OpState::AwaitingPermission { name, args } => {
                            let n2 = name.clone();
                            self.state.mark(op, OpState::Capability { name });
                            self.state.push_cmd(Command::StartCapability { op, name: n2, args });
                        },
                        _ => {},
                    }
                }
                let turn = no_turn();
                Ghost(StepChoices { text: arbitrary(), calls: Seq::empty(), permissions: Seq::empty(), turn: turn@ })
            },
            Decision::Deny { reason } => {
                if waiting {
                    let i = found.unwrap();
                    let _e = self.state.remove_at(i);
                }
                let label = "<denied>".to_string();
                let ghost l = label;
                self.state.append_record(Record::ToolResult { op, name: label, result: Json::String(reason) });
                let turn = self.maybe_resume_model_turn();
                Ghost(StepChoices { text: l, calls: Seq::empty(), permissions: Seq::empty(), turn: turn@ })
            },
        }
    }

    fn on_op_cancelled(&mut self, op: OpId) -> (c: Ghost<StepChoices>)
        requires
            old(self).wf(),
            room(old(self)@, Event::OpCancelled { op }),
        ensures
            final(self).wf(),
            choices_fit(old(self)@, Event::OpCancelled { op }, c@),
            final(self)@ == step(old(self)@, Event::OpCancelled { op }, c@),
            policy_fits(old(self).policy, old(self)@, Event::OpCancelled { op }, c@),
            final(self).policy == old(self).policy,
    {
        let turn = match self.state.find(op) {
            Some(i) => {
                self.state.cancel_at(op, i);
                if self.state.inflight.len() == 0 {
                    match self.state.after_drain {
                        AfterDrain::FreshTurn => {
                            self.state.after_drain = AfterDrain::Nothing;
                            self.start_model_turn()
                        },
                        AfterDrain::EndCancelled => {
                            self.state.after_drain = AfterDrain::Nothing;
                            self.state.push_cmd(Command::Done { reason: DoneReason::Cancelled });
                            no_turn()
                        },
                        AfterDrain::Nothing => no_turn(),
                    }
                } else {
                    no_turn()
                }
            },
            None => no_turn(),
        };
        Ghost(StepChoices { text: arbitrary(), calls: Seq::empty(), permissions: Seq::empty(), turn: turn@ })
    }
}

/// Choices for a step that builds nothing and starts no turn.
fn no_choices() -> (c: Ghost<StepChoices>)
    ensures
        c@.turn.fresh@ == Seq::<char>::empty(),
        c@.permissions.len() == 0,
{
    let turn = no_turn();
    Ghost(StepChoices { text: arbitrary(), calls: Seq::empty(), permissions: Seq::empty(), turn: turn@ })
}

impl<P: TurnPolicy> Brain<P> {
    /// Feeds one event: the single entry point of the brain's logic. The
    /// new state is `step` of the old one, for the strings the brain built
    /// and the answers its policy gave.
    pub fn submit(&mut self, event: Event)
        requires
            old(self).wf(),
            room(old(self)@, event),
        ensures
            final(self).wf(),
            final(self).policy_spec() == old(self).policy_spec(),
            exists|c: StepChoices|
                #[trigger] choices_fit(old(self)@, event, c) && policy_fits(old(self).policy_spec(), old(self)@, event, c)
                    && final(self)@ == step(old(self)@, event, c),
    {
        let ghost e0 = event;
        let c = match event {
            Event::UserInput { content, mode } => self.on_user_input(content, mode),
            Event::UserAbort => {
                let busy = self.state.inflight.len() > 0;
                self.state.cancel_all();
                self.state.after_drain = if busy {
                    AfterDrain::EndCancelled
                } else {
                    AfterDrain::Nothing
                };
                no_choices()
            },
            Event::ModelDelta { op, delta } => self.on_model_delta(op, delta),
            Event::ModelDone { op, output, usage } => self.on_model_done(op, output, usage),
            Event::ModelError { op, error } => self.on_model_error(op, error),
            Event::CapabilityChunk { op, chunk } => {
                self.state.push_cmd(Command::Emit(OutputEvent::ToolChunk { op, chunk }));
                no_choices()
            },
            Event::CapabilityDone { op, result, version } => self.on_capability(op, result, version, OpOutcome::Succeeded),
            Event::CapabilityError { op, error, conflict } => self.on_capability(op, error, conflict, OpOutcome::Error(Json::Null)),
            Event::AgentDone { op, result } => self.on_labeled(op, "<agent>", result, OpOutcome::Succeeded),
            Event::AgentError { op, error } => self.on_labeled(op, "<agent>", error, OpOutcome::Error(Json::Null)),
            Event::UserAnswer { op, answer } => self.on_labeled(op, "<user>", answer, OpOutcome::Succeeded),
            Event::PermissionDecision { op, decision } => self.on_permission(op, decision),
            Event::OpCancelled { op } => self.on_op_cancelled(op),
            Event::Tick { now } => {
                self.state.now = now;
                no_choices()
            },
        };
        assert(choices_fit(old(self)@, e0, c@) && policy_fits(old(self).policy, old(self)@, e0, c@) && self@ == step(old(self)@, e0, c@));
    }
}

// ===========================================================================
// Laws
// ===========================================================================

/// Deltas and capability chunks are transport only: they never touch the
/// log, the op counters, the set of in-flight ops or the read-set. (So a
/// replay that feeds only consolidated results behaves identically.)
pub proof fn law_transport_events_leave_the_log(v: BrainView, e: Event, c: StepChoices)
    requires
        e is ModelDelta || e is CapabilityChunk,
    ensures
        step(v, e, c).log == v.log,
        step(v, e, c).next_seq == v.next_seq,
        step(v, e, c).next_op == v.next_op,
        step(v, e, c).versions == v.versions,
        step(v, e, c).inflight.len() == v.inflight.len(),
        forall|i: int| 0 <= i < v.inflight.len() ==> (#[trigger] step(v, e, c).inflight[i]).op == v.inflight[i].op,
{
}

/// The log is append-only: every step keeps the old log as a prefix and
/// numbers each new entry by its position.
pub proof fn law_log_is_append_only(v: BrainView, e: Event, c: StepChoices)
    ensures
        step(v, e, c).log.len() >= v.log.len(),
        step(v, e, c).log.take(v.log.len() as int) == v.log,
{
    lemma_step_log(v, e, c);
}

/// The log grows by appends only, through every building block of `step`.
proof fn lemma_step_log(v: BrainView, e: Event, c: StepChoices)
    ensures
        step(v, e, c).log.len() >= v.log.len(),
        step(v, e, c).log.take(v.log.len() as int) =~= v.log,
{
    reveal_with_fuel(route, 1);
    match e {
        Event::ModelDone { op, output, usage } => {
            let v1 = end_op(append(stash_usage(v, op, usage), Record::ModelOutput { op, output }), op, OpOutcome::Succeeded);
            assert(v1.log.take(v.log.len() as int) =~= v.log);
            if output.tool_calls@.len() != 0 {
                lemma_route_log(v1, c.calls, c.permissions);
            }
        },
        _ => {},
    }
}

/// Routing tool calls never touches the log.
proof fn lemma_route_log(v: BrainView, calls: Seq<(String, Json, Json)>, permissions: Seq<bool>)
    ensures
        route(v, calls, permissions).log == v.log,
        route(v, calls, permissions).next_seq == v.next_seq,
        route(v, calls, permissions).now == v.now,
    decreases calls.len(),
{
    if calls.len() > 0 && permissions.len() == calls.len() {
        lemma_route_log(v, calls.drop_last(), permissions.drop_last());
    }
}

/// The command routing one tool call queues: a permission request or the
/// capability start, for the op it was given.
pub open spec fn route_command(op: OpId, call: (String, Json, Json), needs_permission: bool) -> Command {
    if needs_permission {
        Command::RequestPermission { op, request: PermissionRequest { capability: call.0, args: call.1 } }
    } else {
        Command::StartCapability { op, name: call.0, args: call.1 }
    }
}

/// Every tool call becomes exactly one fresh op, numbered in call order,
/// with exactly one command queued for it.
pub proof fn law_each_tool_call_gets_one_fresh_op(v: BrainView, calls: Seq<(String, Json, Json)>, permissions: Seq<bool>)
    requires
        permissions.len() == calls.len(),
        v.next_op + calls.len() <= u64::MAX,
    ensures
        route(v, calls, permissions).next_op == v.next_op + calls.len(),
        route(v, calls, permissions).outbox == v.outbox + Seq::new(
            calls.len(),
            |i: int| route_command((v.next_op + i) as u64, calls[i], permissions[i]),
        ),
        route(v, calls, permissions).inflight.len() == v.inflight.len() + calls.len(),
        forall|i: int| 0 <= i < calls.len() ==> (#[trigger] route(v, calls, permissions).inflight[v.inflight.len() + i]).op == v.next_op + i,
    decreases calls.len(),
{
    if calls.len() > 0 {
        let n = calls.len() - 1;
        let cs = calls.drop_last();
        let ps = permissions.drop_last();
        law_each_tool_call_gets_one_fresh_op(v, cs, ps);
        let w = route(v, cs, ps);
        assert(w.outbox.push(route_command(w.next_op, calls.last(), permissions.last())) =~= v.outbox + Seq::new(
            calls.len(),
            |i: int| route_command((v.next_op + i) as u64, calls[i], permissions[i]),
        ));
        assert forall|i: int| 0 <= i < calls.len() implies (#[trigger] route(v, calls, permissions).inflight[v.inflight.len() + i]).op == v.next_op + i by {
            if i < n {
                assert(route(v, calls, permissions).inflight[v.inflight.len() + i] == w.inflight[v.inflight.len() + i]);
            }
        }
    }
}

/// A final answer (a model output without tool calls) ends the turn: the
/// output and the op's end are logged, then a checkpoint and `Done` are
/// queued, in that order.
pub proof fn law_final_answer_ends_the_turn(v: BrainView, op: OpId, output: ModelOutput, usage: Usage, c: StepChoices)
    requires
        output.tool_calls@.len() == 0,
    ensures
        ({
            let w = step(v, Event::ModelDone { op, output, usage }, c);
            &&& w.log.len() == v.log.len() + 2
            &&& w.log[v.log.len() as int].record == Record::ModelOutput { op, output }
            &&& w.log[v.log.len() + 1int].record matches Record::OpEnded { op: o, outcome: OpOutcome::Succeeded, .. } && o == op
            &&& w.outbox == v.outbox + seq![Command::Checkpoint, Command::Done { reason: DoneReason::EndTurn }]
        }),
{
    let w = step(v, Event::ModelDone { op, output, usage }, c);
    assert(w.outbox =~= v.outbox + seq![Command::Checkpoint, Command::Done { reason: DoneReason::EndTurn }]);
}

/// Steering by interrupt while busy cancels every in-flight op (one
/// `Cancel` each, nothing else queued) and arms a fresh turn for when they
/// drain; the input itself is logged.
pub proof fn law_interrupt_cancels_every_inflight_op(v: BrainView, content: Json, c: StepChoices)
    requires
        v.inflight.len() > 0,
    ensures
        ({
            let w = step(v, Event::UserInput { content, mode: SteerMode::Interrupt }, c);
            &&& w.outbox == v.outbox + Seq::new(v.inflight.len(), |k: int| Command::Cancel { op: v.inflight[k].op })
            &&& w.inflight == v.inflight
            &&& w.after_drain == AfterDrain::FreshTurn
            &&& w.log == v.log.push(LogEntry { seq: v.next_seq, at: v.now, record: Record::UserMessage { text: c.text } })
        }),
{
}

/// A cancellation confirmed for an op that is no longer in flight (it
/// finished first) changes nothing: no spurious `OpEnded`, no command.
pub proof fn law_stale_cancellation_is_a_no_op(v: BrainView, op: OpId, c: StepChoices)
    requires
        forall|i: int| 0 <= i < v.inflight.len() ==> (#[trigger] v.inflight[i]).op != op,
    ensures
        step(v, Event::OpCancelled { op }, c) == v,
{
}

/// A cancelled op's partial work is logged with its end: a model op's
/// streamed text so far ("N tokens then cancelled"), null for other ops.
pub proof fn law_cancellation_logs_the_partial(v: BrainView, op: OpId, i: int, c: StepChoices)
    requires
        view_wf(v),
        0 <= i < v.inflight.len(),
        v.inflight[i].op == op,
    ensures
        ({
            let w = step(v, Event::OpCancelled { op }, c);
            &&& w.log.len() == v.log.len() + 1
            &&& w.log[v.log.len() as int].record matches Record::OpEnded { op: o, outcome: OpOutcome::Cancelled { partial }, .. }
                && o == op && partial == partial_of(v.inflight[i])
            &&& forall|k: int| 0 <= k < w.inflight.len() ==> (#[trigger] w.inflight[k]).op != op
        }),
{
    lemma_op_index(v.inflight, op, i);
    lemma_remove_keeps_wf(v, i);
    let v1 = cancel_op(v, op);
    assert(v1.log.len() == v.log.len() + 1);
    lemma_drained_log(v1, c.turn);
}

/// Draining never shrinks the log or refills the in-flight table but for
/// a fresh model turn.
proof fn lemma_drained_log(v: BrainView, t: TurnChoice)
    ensures
        drained(v, t).log == v.log,
        drained(v, t).inflight.len() > v.inflight.len() ==> drained(v, t).inflight == v.inflight.push(
            Inflight { op: v.next_op, state: OpState::Model { selector: t.selector, text_so_far: t.fresh }, started_at: v.now, usage: None },
        ),
{
}

/// After an abort, the turn ends as cancelled exactly when the last
/// in-flight op drains.
pub proof fn law_abort_ends_the_turn_when_drained(v: BrainView, op: OpId, c: StepChoices)
    requires
        view_wf(v),
        v.after_drain == AfterDrain::EndCancelled,
        v.inflight.len() == 1,
        v.inflight[0].op == op,
    ensures
        step(v, Event::OpCancelled { op }, c).outbox == v.outbox.push(Command::Done { reason: DoneReason::Cancelled }),
        step(v, Event::OpCancelled { op }, c).after_drain == AfterDrain::Nothing,
{
    lemma_op_index(v.inflight, op, 0);
}

/// The op and sequence counters only grow: an op id or sequence number,
/// once handed out, is never handed out again.
pub proof fn law_counters_only_grow(v: BrainView, e: Event, c: StepChoices)
    requires
        room(v, e),
        choices_fit(v, e, c),
    ensures
        step(v, e, c).next_op >= v.next_op,
        step(v, e, c).next_seq >= v.next_seq,
{
    match e {
        Event::ModelDone { op, output, usage } => {
            let v1 = end_op(append(stash_usage(v, op, usage), Record::ModelOutput { op, output }), op, OpOutcome::Succeeded);
            if output.tool_calls@.len() != 0 {
                law_each_tool_call_gets_one_fresh_op(v1, c.calls, c.permissions);
                lemma_route_log(v1, c.calls, c.permissions);
            }
        },
        _ => {},
    }
}

/// `w`'s log is `v`'s with entries appended, numbered on from `v`'s next
/// sequence number and stamped with `v`'s time, and `w`'s next sequence
/// number follows the last.
pub open spec fn numbered_after(v: BrainView, w: BrainView) -> bool {
    &&& w.log.len() >= v.log.len()
    &&& w.log.take(v.log.len() as int) == v.log
    &&& w.next_seq == v.next_seq + (w.log.len() - v.log.len())
    &&& forall|i: int| v.log.len() <= i < w.log.len() ==> (#[trigger] w.log[i]).seq == v.next_seq + (i - v.log.len())
        && w.log[i].at == v.now
}

proof fn lemma_append_numbered(v: BrainView, w: BrainView, r: Record)
    requires
        numbered_after(v, w),
        w.now == v.now,
        w.next_seq < u64::MAX,
    ensures
        numbered_after(v, append(w, r)),
        append(w, r).now == v.now,
{
    assert(append(w, r).log.take(v.log.len() as int) =~= w.log.take(v.log.len() as int));
}

proof fn lemma_end_op_numbered(v: BrainView, w: BrainView, op: OpId, outcome: OpOutcome)
    requires
        numbered_after(v, w),
        w.now == v.now,
        w.next_seq < u64::MAX,
    ensures
        numbered_after(v, end_op(w, op, outcome)),
        end_op(w, op, outcome).now == v.now,
{
    match op_index(w.inflight, op) {
        Some(i) => lemma_append_numbered(v, remove_at(w, i), Record::OpEnded { op, outcome, meta: meta_for(Some(w.inflight[i]), w.now) }),
        None => lemma_append_numbered(v, w, Record::OpEnded { op, outcome, meta: meta_for(None, w.now) }),
    }
}

/// Every entry a step appends is numbered on from the old next sequence
/// number and stamped with the brain's time, and the next sequence number
/// advances by their count; nothing before them is removed or rewritten.
pub proof fn law_appended_entries_are_numbered(v: BrainView, e: Event, c: StepChoices)
    requires
        room(v, e),
    ensures
        numbered_after(v, step(v, e, c)),
{
    let w = step(v, e, c);
    assert(numbered_after(v, v)) by {
        assert(v.log.take(v.log.len() as int) =~= v.log);
    }
    match e {
        Event::UserInput { mode, .. } => {
            lemma_append_numbered(v, v, Record::UserMessage { text: c.text });
        },
        Event::ModelDone { op, output, usage } => {
            let v0 = stash_usage(v, op, usage);
            assert(numbered_after(v, v0)) by {
                assert(v0.log.take(v.log.len() as int) =~= v.log);
            }
            lemma_append_numbered(v, v0, Record::ModelOutput { op, output });
            let v1 = append(v0, Record::ModelOutput { op, output });
            lemma_end_op_numbered(v, v1, op, OpOutcome::Succeeded);
            let v2 = end_op(v1, op, OpOutcome::Succeeded);
            if output.tool_calls@.len() != 0 {
                lemma_route_log(v2, c.calls, c.permissions);
            }
        },
        Event::ModelError { op, error } => {
            lemma_end_op_numbered(v, v, op, OpOutcome::Error(error));
        },
        Event::CapabilityDone { op, result, version } => {
            let v0 = record_version(v, version);
            assert(numbered_after(v, v0)) by {
                assert(v0.log.take(v.log.len() as int) =~= v.log);
            }
            lemma_append_numbered(v, v0, Record::ToolResult { op, name: c.text, result });
            lemma_end_op_numbered(v, append(v0, Record::ToolResult { op, name: c.text, result }), op, OpOutcome::Succeeded);
        },
        Event::CapabilityError { op, error, conflict } => {
            let v0 = record_version(v, conflict);
            assert(numbered_after(v, v0)) by {
                assert(v0.log.take(v.log.len() as int) =~= v.log);
            }
            lemma_append_numbered(v, v0, Record::ToolResult { op, name: c.text, result: error });
            lemma_end_op_numbered(v, append(v0, Record::ToolResult { op, name: c.text, result: error }), op, OpOutcome::Error(Json::Null));
        },
        Event::AgentDone { op, result } => {
            lemma_append_numbered(v, v, Record::ToolResult { op, name: c.text, result });
            lemma_end_op_numbered(v, append(v, Record::ToolResult { op, name: c.text, result }), op, OpOutcome::Succeeded);
        },
        Event::AgentError { op, error } => {
            lemma_append_numbered(v, v, Record::ToolResult { op, name: c.text, result: error });
            lemma_end_op_numbered(v, append(v, Record::ToolResult { op, name: c.text, result: error }), op, OpOutcome::Error(Json::Null));
        },
        Event::UserAnswer { op, answer } => {
            lemma_append_numbered(v, v, Record::ToolResult { op, name: c.text, result: answer });
            lemma_end_op_numbered(v, append(v, Record::ToolResult { op, name: c.text, result: answer }), op, OpOutcome::Succeeded);
        },
        Event::PermissionDecision { op, decision } => {
            if let Decision::Deny { reason } = decision {
                let v1 = if awaiting_permission(v, op) {
                    remove_at(v, op_index(v.inflight, op)->0)
                } else {
                    v
                };
                assert(numbered_after(v, v1)) by {
                    assert(v1.log.take(v.log.len() as int) =~= v.log);
                }
                lemma_append_numbered(v, v1, Record::ToolResult { op, name: c.text, result: Json::String(reason) });
            }
        },
        Event::OpCancelled { op } => {
            if let Some(i) = op_index(v.inflight, op) {
                lemma_append_numbered(v, remove_at(v, i), Record::OpEnded {
                    op,
                    outcome: OpOutcome::Cancelled { partial: partial_of(v.inflight[i]) },
                    meta: meta_for(Some(v.inflight[i]), v.now),
                });
            }
        },
        _ => {},
    }
}

/// Whether two views agree on everything but the values their records and
/// commands carry: counters, time, read-set, drain state, how many entries
/// and commands there are, and which ops are in flight in which order.
pub open spec fn same_shape(a: BrainView, b: BrainView) -> bool {
    &&& a.next_op == b.next_op
    &&& a.next_seq == b.next_seq
    &&& a.now == b.now
    &&& a.versions == b.versions
    &&& a.after_drain == b.after_drain
    &&& a.log.len() == b.log.len()
    &&& a.outbox.len() == b.outbox.len()
    &&& a.inflight.len() == b.inflight.len()
    &&& forall|i: int| 0 <= i < a.inflight.len() ==> (#[trigger] a.inflight[i]).op == b.inflight[i].op
}

proof fn lemma_shape_start_turn(b1: BrainView, b2: BrainView, t1: TurnChoice, t2: TurnChoice)
    requires
        same_shape(b1, b2),
    ensures
        same_shape(start_turn(b1, t1), start_turn(b2, t2)),
{
    let w1 = start_turn(b1, t1);
    let w2 = start_turn(b2, t2);
    assert forall|i: int| 0 <= i < w1.inflight.len() implies (#[trigger] w1.inflight[i]).op == w2.inflight[i].op by {
        if i < b1.inflight.len() {
            assert(w1.inflight[i] == b1.inflight[i]);
            assert(w2.inflight[i] == b2.inflight[i]);
        }
    }
}

proof fn lemma_shape_resume(b1: BrainView, b2: BrainView, t1: TurnChoice, t2: TurnChoice)
    requires
        same_shape(b1, b2),
        b1.inflight == b2.inflight,
    ensures
        same_shape(resume(b1, t1), resume(b2, t2)),
{
    if no_tool_ops(b1) {
        lemma_shape_start_turn(b1, b2, t1, t2);
    }
}

proof fn lemma_shape_tool_result(v: BrainView, op: OpId, n1: String, n2: String, result: Json, outcome: OpOutcome, t1: TurnChoice, t2: TurnChoice)
    requires
        v.next_seq + 2 <= u64::MAX,
    ensures
        same_shape(tool_result(v, op, n1, result, outcome, t1), tool_result(v, op, n2, result, outcome, t2)),
{
    let b1 = end_op(append(v, Record::ToolResult { op, name: n1, result }), op, outcome);
    let b2 = end_op(append(v, Record::ToolResult { op, name: n2, result }), op, outcome);
    assert(b1.inflight == b2.inflight);
    lemma_shape_resume(b1, b2, t1, t2);
}

proof fn lemma_shape_decide(v: BrainView, op: OpId, decision: Decision, l1: String, l2: String, t1: TurnChoice, t2: TurnChoice)
    ensures
        same_shape(decide(v, op, decision, l1, t1), decide(v, op, decision, l2, t2)),
{
    if let Decision::Deny { reason } = decision {
        let v1 = if awaiting_permission(v, op) {
            remove_at(v, op_index(v.inflight, op)->0)
        } else {
            v
        };
        let b1 = append(v1, Record::ToolResult { op, name: l1, result: Json::String(reason) });
        let b2 = append(v1, Record::ToolResult { op, name: l2, result: Json::String(reason) });
        lemma_shape_resume(b1, b2, t1, t2);
    }
}

proof fn lemma_shape_cancelled(v: BrainView, op: OpId, t1: TurnChoice, t2: TurnChoice)
    ensures
        same_shape(drained(cancel_op(v, op), t1), drained(cancel_op(v, op), t2)),
{
    let v1 = cancel_op(v, op);
    if v1.inflight.len() == 0 && v1.after_drain == AfterDrain::FreshTurn {
        let b = BrainView { after_drain: AfterDrain::Nothing, ..v1 };
        lemma_shape_start_turn(b, b, t1, t2);
    }
}

proof fn lemma_shape_model_done(v: BrainView, op: OpId, output: ModelOutput, usage: Usage, c1: StepChoices, c2: StepChoices)
    requires
        room(v, Event::ModelDone { op, output, usage }),
        choices_fit(v, Event::ModelDone { op, output, usage }, c1),
        choices_fit(v, Event::ModelDone { op, output, usage }, c2),
    ensures
        same_shape(step(v, Event::ModelDone { op, output, usage }, c1), step(v, Event::ModelDone { op, output, usage }, c2)),
{
    let v1 = end_op(append(stash_usage(v, op, usage), Record::ModelOutput { op, output }), op, OpOutcome::Succeeded);
    if output.tool_calls@.len() != 0 {
        law_each_tool_call_gets_one_fresh_op(v1, c1.calls, c1.permissions);
        law_each_tool_call_gets_one_fresh_op(v1, c2.calls, c2.permissions);
        lemma_route_log(v1, c1.calls, c1.permissions);
        lemma_route_log(v1, c2.calls, c2.permissions);
        lemma_route_tables(v1, c1.calls, c1.permissions);
        lemma_route_tables(v1, c2.calls, c2.permissions);
        let w1 = route(v1, c1.calls, c1.permissions);
        let w2 = route(v1, c2.calls, c2.permissions);
        assert forall|i: int| 0 <= i < w1.inflight.len() implies (#[trigger] w1.inflight[i]).op == w2.inflight[i].op by {
            if i >= v1.inflight.len() {
                assert(w1.inflight[v1.inflight.len() + (i - v1.inflight.len())].op == v1.next_op + (i - v1.inflight.len()));
                assert(w2.inflight[v1.inflight.len() + (i - v1.inflight.len())].op == v1.next_op + (i - v1.inflight.len()));
            }
        }
    }
}

/// Replaying an event on the same state gives the same shape whatever
/// strings the brain built and whichever right answers the policy gave:
/// the same ops are started and ended, the same number of entries logged
/// and commands queued.
pub proof fn law_replay_gives_the_same_shape(v: BrainView, e: Event, c1: StepChoices, c2: StepChoices)
    requires
        room(v, e),
        choices_fit(v, e, c1),
        choices_fit(v, e, c2),
    ensures
        same_shape(step(v, e, c1), step(v, e, c2)),
{
    match e {
        Event::UserInput { mode, .. } => {
            let b1 = append(v, Record::UserMessage { text: c1.text });
            let b2 = append(v, Record::UserMessage { text: c2.text });
            if mode is Queue || v.inflight.len() == 0 {
                lemma_shape_resume(b1, b2, c1.turn, c2.turn);
            }
        },
        Event::ModelDelta { op, delta } => {
            let w1 = step(v, e, c1);
            let w2 = step(v, e, c2);
            assert forall|i: int| 0 <= i < w1.inflight.len() implies (#[trigger] w1.inflight[i]).op == w2.inflight[i].op by {
                assert(w1.inflight[i].op == v.inflight[i].op);
                assert(w2.inflight[i].op == v.inflight[i].op);
            }
        },
        Event::ModelDone { op, output, usage } => lemma_shape_model_done(v, op, output, usage, c1, c2),
        Event::CapabilityDone { op, result, version } =>
            lemma_shape_tool_result(record_version(v, version), op, c1.text, c2.text, result, OpOutcome::Succeeded, c1.turn, c2.turn),
        Event::CapabilityError { op, error, conflict } =>
            lemma_shape_tool_result(record_version(v, conflict), op, c1.text, c2.text, error, OpOutcome::Error(Json::Null), c1.turn, c2.turn),
        Event::AgentDone { op, result } =>
            lemma_shape_tool_result(v, op, c1.text, c2.text, result, OpOutcome::Succeeded, c1.turn, c2.turn),
        Event::AgentError { op, error } =>
            lemma_shape_tool_result(v, op, c1.text, c2.text, error, OpOutcome::Error(Json::Null), c1.turn, c2.turn),
        Event::UserAnswer { op, answer } =>
            lemma_shape_tool_result(v, op, c1.text, c2.text, answer, OpOutcome::Succeeded, c1.turn, c2.turn),
        Event::PermissionDecision { op, decision } => lemma_shape_decide(v, op, decision, c1.text, c2.text, c1.turn, c2.turn),
        Event::OpCancelled { op } => {
            if op_index(v.inflight, op) is Some {
                lemma_shape_cancelled(v, op, c1.turn, c2.turn);
            }
        },
        _ => {},
    }
}

/// Routing keeps the earlier in-flight ops, the time, the read-set and the
/// drain state.
proof fn lemma_route_tables(v: BrainView, calls: Seq<(String, Json, Json)>, permissions: Seq<bool>)
    ensures
        route(v, calls, permissions).now == v.now,
        route(v, calls, permissions).versions == v.versions,
        route(v, calls, permissions).after_drain == v.after_drain,
        route(v, calls, permissions).inflight.len() >= v.inflight.len(),
        forall|i: int| 0 <= i < v.inflight.len() ==> (#[trigger] route(v, calls, permissions).inflight[i]) == v.inflight[i],
    decreases calls.len(),
{
    if calls.len() > 0 && permissions.len() == calls.len() {
        lemma_route_tables(v, calls.drop_last(), permissions.drop_last());
    }
}

/// Input that arrives while nothing is in flight starts a model turn, in
/// every steer mode: the input is logged, exactly one `StartModelCall` is
/// queued, for the next op id, and that op is in flight as a model op.
pub proof fn law_idle_input_starts_a_turn(v: BrainView, content: Json, mode: SteerMode, c: StepChoices)
    requires
        v.inflight.len() == 0,
    ensures
        ({
            let w = step(v, Event::UserInput { content, mode }, c);
            &&& w.log == v.log.push(LogEntry { seq: v.next_seq, at: v.now, record: Record::UserMessage { text: c.text } })
            &&& w.outbox.len() == v.outbox.len() + 1
            &&& w.outbox.take(v.outbox.len() as int) == v.outbox
            &&& w.outbox.last() matches Command::StartModelCall { op, .. } && op == v.next_op
            &&& w.inflight.len() == 1
            &&& w.inflight[0].op == v.next_op
            &&& w.inflight[0].state is Model
        }),
{
    let w = step(v, Event::UserInput { content, mode }, c);
    assert(w.outbox.take(v.outbox.len() as int) =~= v.outbox);
}

/// Input appended mid-turn while something is in flight is only logged:
/// nothing is queued and the in-flight ops stay as they are.
pub proof fn law_appended_input_only_logs_while_busy(v: BrainView, content: Json, c: StepChoices)
    requires
        v.inflight.len() > 0,
    ensures
        ({
            let w = step(v, Event::UserInput { content, mode: SteerMode::AppendAndContinue }, c);
            &&& w.log == v.log.push(LogEntry { seq: v.next_seq, at: v.now, record: Record::UserMessage { text: c.text } })
            &&& w.outbox == v.outbox
            &&& w.inflight == v.inflight
            &&& w.next_op == v.next_op
        }),
{
}

/// Queued input while only model ops are in flight starts another model
/// turn; while a tool op is in flight it waits (nothing is queued).
pub proof fn law_queued_input_waits_for_tools(v: BrainView, content: Json, c: StepChoices)
    ensures
        ({
            let w = step(v, Event::UserInput { content, mode: SteerMode::Queue }, c);
            &&& (forall|i: int| 0 <= i < v.inflight.len() ==> (#[trigger] v.inflight[i]).state is Model) ==> (w.outbox.len()
                == v.outbox.len() + 1 && (w.outbox.last() matches Command::StartModelCall { op, .. } && op == v.next_op))
            &&& (exists|i: int| 0 <= i < v.inflight.len() && !((#[trigger] v.inflight[i]).state is Model)) ==> w.outbox
                == v.outbox
        }),
{
}

} // verus!
