//! The agent loop's decisions.
//!
//! The loop alternates outside work (streaming a model response, running a
//! tool) with decisions about the transcript. The outside work is done by
//! the caller; this module holds the transcript and decides what each
//! outcome does to it and which event the frontend sees:
//!
//! ```text
//! begin_turn ──► StreamModel ──► (stream; forward each event) ──► ModelAnswered
//!   ──► step ──► Done                          (an answer without tool calls)
//!            ──► RunTool(call) ──► (run it) ──► ToolDone ──► step ──► ...
//!            ──► StreamModel                   (after the last call's result)
//!            ──► Failed(error)                 (stream error or cancellation)
//! ```

use vstd::prelude::*;

use crate::error::{AgentError, ToolError, agent_error_text, tool_error_text};
use crate::event::{AgentEvent, AgentEventV, ModelEvent, ModelEventV};
use crate::message::{
    AssistantMessage, AssistantV, Message, MessageV, ToolCall, ToolCallV, ToolResult, ToolResultMessage,
    ToolResultMessageV, ToolResultV, UserMessage, duplicate_calls, message_views, tool_call_views,
};
use crate::text::owned;
use crate::tool::ToolRegistry;

verus! {

broadcast use vstd::seq_lib::group_seq_properties;

/// The agent event a model event is forwarded as: text and reasoning deltas
/// pass through, a tool call is announced with its id and name (arguments
/// not yet known), and argument fragments, usage and the finish marker stay
/// internal.
pub open spec fn forwarded(e: ModelEventV) -> Option<AgentEventV> {
    match e {
        ModelEventV::TextDelta(d) => Some(AgentEventV::TextDelta(d)),
        ModelEventV::ReasoningDelta(d) => Some(AgentEventV::ReasoningDelta(d)),
        ModelEventV::ToolCallStarted { id, name, .. } =>
            Some(AgentEventV::ToolCallStarted(ToolCallV { id, name, arguments: "null"@ })),
        _ => None,
    }
}

/// The view of an optional agent event.
pub open spec fn opt_event(o: Option<AgentEvent>) -> Option<AgentEventV> {
    match o {
        Some(e) => Some(e@),
        None => None,
    }
}

/// Translate a model event into the agent event the frontend sees, if any.
pub fn forward(event: &ModelEvent) -> (r: Option<AgentEvent>)
    ensures
        opt_event(r) == forwarded(event@),
{
    match event {
        ModelEvent::TextDelta(delta) => Some(AgentEvent::TextDelta { delta: delta.clone() }),
        ModelEvent::ReasoningDelta(delta) => Some(AgentEvent::ReasoningDelta { delta: delta.clone() }),
        ModelEvent::ToolCallStarted { id, name, .. } => Some(AgentEvent::ToolCallStarted {
            call: ToolCall::new(id.as_str(), name.as_str()),
        }),
        _ => None,
    }
}

/// What a tool's outcome becomes: its result, or for a hard error other
/// than cancellation an error result carrying the error's message.
/// Cancellation aborts the turn.
pub open spec fn tool_outcome(outcome: Result<ToolResult, ToolError>) -> Result<ToolResultV, AgentError> {
    match outcome {
        Ok(r) => Ok(r@),
        Err(ToolError::Cancelled) => Err(AgentError::Cancelled),
        Err(e) => Ok(ToolResultV { content: tool_error_text(e), is_error: true }),
    }
}

/// An outcome of the outside work of a turn, handed to `AgentHarness::step`.
#[derive(Debug)]
pub enum TurnInput {
    /// The model's streamed response, assembled.
    ModelAnswered(AssistantMessage),
    /// Streaming the model failed; the client's message.
    ModelFailed(String),
    /// The pending tool call ran, with this outcome.
    ToolDone(Result<ToolResult, ToolError>),
    /// The user cancelled the turn.
    Cancelled,
}

/// What the caller is to do next.
#[derive(Debug, PartialEq)]
pub enum TurnAction {
    /// Stream a model response for the transcript as it stands.
    StreamModel,
    /// Run this tool call.
    RunTool(ToolCall),
    /// The turn is over: the model answered without tool calls.
    Done,
    /// The turn ended with this error.
    Failed(AgentError),
}

/// The abstract outcome handed to a step: an answer, a tool's result, or
/// the error that ends the turn.
pub enum TurnInputV {
    Answered(AssistantV),
    ToolDone(ToolResultV),
    Failed(AgentError),
}

/// The abstract next action.
pub enum TurnActionV {
    StreamModel,
    RunTool(ToolCallV),
    Done,
    Failed(AgentError),
}

impl View for TurnInput {
    type V = TurnInputV;

    open spec fn view(&self) -> TurnInputV {
        match self {
            TurnInput::ModelAnswered(a) => TurnInputV::Answered(a@),
            TurnInput::ModelFailed(m) => TurnInputV::Failed(AgentError::Client(*m)),
            TurnInput::ToolDone(o) => match tool_outcome(*o) {
                Ok(r) => TurnInputV::ToolDone(r),
                Err(e) => TurnInputV::Failed(e),
            },
            TurnInput::Cancelled => TurnInputV::Failed(AgentError::Cancelled),
        }
    }
}

impl View for TurnAction {
    type V = TurnActionV;

    open spec fn view(&self) -> TurnActionV {
        match self {
            TurnAction::StreamModel => TurnActionV::StreamModel,
            TurnAction::RunTool(c) => TurnActionV::RunTool(c@),
            TurnAction::Done => TurnActionV::Done,
            TurnAction::Failed(e) => TurnActionV::Failed(*e),
        }
    }
}

/// The views of agent events.
pub open spec fn agent_event_views(es: Seq<AgentEvent>) -> Seq<AgentEventV> {
    es.map_values(|e: AgentEvent| e@)
}

/// The transcript message recording a call's result.
pub open spec fn result_message(call: ToolCallV, result: ToolResultV) -> MessageV {
    MessageV::ToolResult(ToolResultMessageV {
        tool_call_id: call.id,
        tool_name: call.name,
        content: result.content,
        is_error: result.is_error,
    })
}

/// The state after a step, the events it shows and the next action.
pub struct TurnStepV {
    pub transcript: Seq<MessageV>,
    pub pending: Seq<ToolCallV>,
    pub events: Seq<AgentEventV>,
    pub action: TurnActionV,
}

/// One step of a turn, from the transcript and the pending calls:
/// - an answer joins the transcript and is shown; without tool calls the
///   turn completes, otherwise its calls become pending and the first is run;
/// - a tool's result joins the transcript as the first pending call's result
///   and is shown; the next pending call is run, or the model is asked again
///   after the last;
/// - an error leaves the transcript as it is, drops the pending calls and is
///   shown, ending the turn.
pub open spec fn turn_step(t: Seq<MessageV>, p: Seq<ToolCallV>, input: TurnInputV) -> TurnStepV {
    match input {
        TurnInputV::Answered(a) => if a.tool_calls.len() == 0 {
            TurnStepV {
                transcript: t.push(MessageV::Assistant(a)),
                pending: Seq::empty(),
                events: seq![AgentEventV::AssistantMessageCompleted(a), AgentEventV::TurnCompleted],
                action: TurnActionV::Done,
            }
        } else {
            TurnStepV {
                transcript: t.push(MessageV::Assistant(a)),
                pending: a.tool_calls,
                events: seq![AgentEventV::AssistantMessageCompleted(a)],
                action: TurnActionV::RunTool(a.tool_calls[0]),
            }
        },
        TurnInputV::ToolDone(res) => TurnStepV {
            transcript: t.push(result_message(p[0], res)),
            pending: p.drop_first(),
            events: seq![AgentEventV::ToolCallFinished { call_id: p[0].id, result: res }],
            action: if p.len() > 1 { TurnActionV::RunTool(p[1]) } else { TurnActionV::StreamModel },
        },
        TurnInputV::Failed(e) => TurnStepV {
            transcript: t,
            pending: Seq::empty(),
            events: seq![AgentEventV::Error(agent_error_text(e))],
            action: TurnActionV::Failed(e),
        },
    }
}

/// The conversation held by the agent: the transcript, the system prompt,
/// the registered tools and the workspace boundary handed to tools.
pub struct AgentHarness {
    messages: Vec<Message>,
    pending: Vec<ToolCall>,
    tools: ToolRegistry,
    system_prompt: String,
    root: String,
}

impl AgentHarness {
    /// The transcript.
    pub closed spec fn transcript(&self) -> Seq<MessageV> {
        message_views(self.messages@)
    }

    /// The tool calls of the last assistant message still to run, the one
    /// being run first.
    pub closed spec fn pending_calls(&self) -> Seq<ToolCallV> {
        tool_call_views(self.pending@)
    }

    /// The system prompt.
    pub closed spec fn system(&self) -> Seq<char> {
        self.system_prompt@
    }

    /// The workspace boundary.
    pub closed spec fn workspace(&self) -> Seq<char> {
        self.root@
    }

    /// A harness with an empty transcript.
    pub fn new(tools: ToolRegistry, system_prompt: &str, root: &str) -> (r: Self)
        ensures
            r.transcript() == Seq::<MessageV>::empty(),
            r.pending_calls() == Seq::<ToolCallV>::empty(),
            r.system() == system_prompt@,
            r.workspace() == root@,
            r.registry() == tools,
    {
        let r = AgentHarness {
            messages: Vec::new(),
            pending: Vec::new(),
            tools,
            system_prompt: owned(system_prompt),
            root: owned(root),
        };
        assert(message_views(r.messages@) =~= Seq::<MessageV>::empty());
        assert(tool_call_views(r.pending@) =~= Seq::<ToolCallV>::empty());
        r
    }

    /// A harness continuing a restored transcript, unchanged.
    pub fn restore(tools: ToolRegistry, system_prompt: &str, root: &str, messages: Vec<Message>) -> (r: Self)
        ensures
            r.transcript() == message_views(messages@),
            r.pending_calls() == Seq::<ToolCallV>::empty(),
            r.system() == system_prompt@,
            r.workspace() == root@,
            r.registry() == tools,
    {
        let r = AgentHarness { messages, pending: Vec::new(), tools, system_prompt: owned(system_prompt), root: owned(root) };
        assert(tool_call_views(r.pending@) =~= Seq::<ToolCallV>::empty());
        r
    }

    /// The conversation transcript so far.
    pub fn messages(&self) -> (r: &Vec<Message>)
        ensures
            message_views(r@) == self.transcript(),
    {
        &self.messages
    }

    /// The system prompt handed to the model.
    pub fn system_prompt(&self) -> (r: &str)
        ensures
            r@ == self.system(),
    {
        self.system_prompt.as_str()
    }

    /// The workspace boundary handed to tools.
    pub fn root(&self) -> (r: &str)
        ensures
            r@ == self.workspace(),
    {
        self.root.as_str()
    }

    /// The registered tools.
    pub closed spec fn registry(&self) -> ToolRegistry {
        self.tools
    }

    /// The registered tools.
    pub fn tools(&self) -> (r: &ToolRegistry)
        ensures
            *r == self.registry(),
    {
        &self.tools
    }

    /// Start a turn: the prompt joins the transcript, the frontend is told a
    /// turn started, and the model is to be asked.
    pub fn begin_turn(&mut self, input: String) -> (r: (AgentEvent, TurnAction))
        ensures
            final(self).transcript() == old(self).transcript().push(MessageV::User(input@)),
            final(self).pending_calls() == Seq::<ToolCallV>::empty(),
            final(self).system() == old(self).system(),
            final(self).workspace() == old(self).workspace(),
            final(self).registry() == old(self).registry(),
            r.0@ == AgentEventV::TurnStarted,
            r.1@ == TurnActionV::StreamModel,
    {
        let ghost prev = self.messages@;
        let m = Message::User(UserMessage { content: input });
        self.messages.push(m);
        self.pending.clear();
        assert(message_views(self.messages@) =~= message_views(prev).push(m@));
        assert(tool_call_views(self.pending@) =~= Seq::<ToolCallV>::empty());
        (AgentEvent::TurnStarted, TurnAction::StreamModel)
    }

    /// Take one outcome of the outside work and decide: the transcript's
    /// change, the events the frontend sees, and what to do next (see
    /// `turn_step`). A tool's outcome is only expected while a call is
    /// pending.
    pub fn step(&mut self, input: TurnInput) -> (r: (Vec<AgentEvent>, TurnAction))
        requires
            input is ToolDone ==> old(self).pending_calls().len() > 0,
        ensures
            final(self).transcript() == turn_step(old(self).transcript(), old(self).pending_calls(), input@).transcript,
            final(self).pending_calls() == turn_step(old(self).transcript(), old(self).pending_calls(), input@).pending,
            agent_event_views(r.0@) == turn_step(old(self).transcript(), old(self).pending_calls(), input@).events,
            r.1@ == turn_step(old(self).transcript(), old(self).pending_calls(), input@).action,
            final(self).system() == old(self).system(),
            final(self).workspace() == old(self).workspace(),
            final(self).registry() == old(self).registry(),
    {
        let ghost prev = self.messages@;
        let ghost pend = tool_call_views(self.pending@);
        match input {
            TurnInput::ModelAnswered(assistant) => {
                let copy = assistant.duplicate();
                let calls = duplicate_calls(&assistant.tool_calls);
                let m = Message::Assistant(assistant);
                self.messages.push(m);
                assert(message_views(self.messages@) =~= message_views(prev).push(m@));
                let mut events: Vec<AgentEvent> = Vec::new();
                events.push(AgentEvent::AssistantMessageCompleted { message: copy });
                if calls.len() == 0 {
                    self.pending.clear();
                    assert(tool_call_views(self.pending@) =~= Seq::<ToolCallV>::empty());
                    events.push(AgentEvent::TurnCompleted);
                    assert(agent_event_views(events@) =~= seq![
                        AgentEventV::AssistantMessageCompleted(m@->Assistant_0),
                        AgentEventV::TurnCompleted,
                    ]);
                    (events, TurnAction::Done)
                } else {
                    let first = calls[0].duplicate();
                    self.pending = calls;
                    assert(agent_event_views(events@) =~= seq![AgentEventV::AssistantMessageCompleted(m@->Assistant_0)]);
                    (events, TurnAction::RunTool(first))
                }
            },
            TurnInput::ToolDone(outcome) => {
                let call = self.pending.remove(0);
                proof {
                    assert(call@ == pend[0]);
                }
                let result = match outcome {
                    Ok(result) => result,
                    Err(ToolError::Cancelled) => {
                        return self.fail(AgentError::Cancelled);
                    },
                    Err(error) => {
                        let text = error.to_string();
                        ToolResult { content: text, is_error: true }
                    },
                };
                proof {
                    assert(tool_call_views(self.pending@) =~= pend.drop_first());
                }
                let mut events: Vec<AgentEvent> = Vec::new();
                events.push(AgentEvent::ToolCallFinished { call_id: call.id.clone(), result: result.duplicate() });
                let m = Message::ToolResult(ToolResultMessage::from_call(&call, result));
                self.messages.push(m);
                assert(message_views(self.messages@) =~= message_views(prev).push(m@));
                assert(agent_event_views(events@) =~= seq![events@[0]@]);
                if self.pending.len() > 0 {
                    let next = self.pending[0].duplicate();
                    (events, TurnAction::RunTool(next))
                } else {
                    (events, TurnAction::StreamModel)
                }
            },
            TurnInput::ModelFailed(message) => self.fail(AgentError::Client(message)),
            TurnInput::Cancelled => self.fail(AgentError::Cancelled),
        }
    }

    /// End the turn on an error: the transcript stays, the pending calls are
    /// dropped, and the frontend sees the error.
    fn fail(&mut self, error: AgentError) -> (r: (Vec<AgentEvent>, TurnAction))
        ensures
            final(self).transcript() == old(self).transcript(),
            final(self).pending_calls() == Seq::<ToolCallV>::empty(),
            agent_event_views(r.0@) == seq![AgentEventV::Error(agent_error_text(error))],
            r.1@ == TurnActionV::Failed(error),
            final(self).system() == old(self).system(),
            final(self).workspace() == old(self).workspace(),
            final(self).registry() == old(self).registry(),
    {
        self.pending.clear();
        assert(tool_call_views(self.pending@) =~= Seq::<ToolCallV>::empty());
        let mut events: Vec<AgentEvent> = Vec::new();
        events.push(AgentEvent::Error { message: error.to_string() });
        assert(agent_event_views(events@) =~= seq![AgentEventV::Error(agent_error_text(error))]);
        (events, TurnAction::Failed(error))
    }

}

// ------------------------------------------------------------------ a whole turn

/// The state and actions after a sequence of steps.
pub struct TurnRunV {
    pub transcript: Seq<MessageV>,
    pub pending: Seq<ToolCallV>,
    pub actions: Seq<TurnActionV>,
}

/// Step through `inputs` in order, from transcript `t` and pending calls
/// `p`, collecting the action each step asks for.
pub open spec fn run_steps(t: Seq<MessageV>, p: Seq<ToolCallV>, inputs: Seq<TurnInputV>) -> TurnRunV
    decreases inputs.len(),
{
    if inputs.len() == 0 {
        TurnRunV { transcript: t, pending: p, actions: Seq::empty() }
    } else {
        let s = turn_step(t, p, inputs[0]);
        let rest = run_steps(s.transcript, s.pending, inputs.drop_first());
        TurnRunV { transcript: rest.transcript, pending: rest.pending, actions: seq![s.action] + rest.actions }
    }
}

/// One model round's outcomes: the answer, then each of its calls' results.
pub open spec fn round_inputs(a: AssistantV, results: Seq<ToolResultV>) -> Seq<TurnInputV> {
    seq![TurnInputV::Answered(a)] + results.map_values(|r: ToolResultV| TurnInputV::ToolDone(r))
}

/// What one round adds to the transcript: the answer, then a result message
/// for each of its calls, in order.
pub open spec fn round_messages(a: AssistantV, results: Seq<ToolResultV>) -> Seq<MessageV> {
    seq![MessageV::Assistant(a)] + Seq::new(results.len(), |j: int| result_message(a.tool_calls[j], results[j]))
}

/// The actions one round asks for: each call in order, then the model
/// again; or, for an answer without calls, the end of the turn.
pub open spec fn round_actions(a: AssistantV) -> Seq<TurnActionV> {
    if a.tool_calls.len() == 0 {
        seq![TurnActionV::Done]
    } else {
        a.tool_calls.map_values(|c: ToolCallV| TurnActionV::RunTool(c)).push(TurnActionV::StreamModel)
    }
}

/// The outcomes of a turn made of these rounds.
pub open spec fn turn_inputs(answers: Seq<AssistantV>, results: Seq<Seq<ToolResultV>>) -> Seq<TurnInputV>
    decreases answers.len(),
{
    if answers.len() == 0 {
        Seq::empty()
    } else {
        turn_inputs(answers.drop_last(), results.drop_last()) + round_inputs(answers.last(), results.last())
    }
}

/// What a turn made of these rounds adds to the transcript.
pub open spec fn turn_messages(answers: Seq<AssistantV>, results: Seq<Seq<ToolResultV>>) -> Seq<MessageV>
    decreases answers.len(),
{
    if answers.len() == 0 {
        Seq::empty()
    } else {
        turn_messages(answers.drop_last(), results.drop_last()) + round_messages(answers.last(), results.last())
    }
}

/// The actions a turn made of these rounds asks for.
pub open spec fn turn_actions(answers: Seq<AssistantV>) -> Seq<TurnActionV>
    decreases answers.len(),
{
    if answers.len() == 0 {
        Seq::empty()
    } else {
        turn_actions(answers.drop_last()) + round_actions(answers.last())
    }
}

/// Stepping through two runs of outcomes is stepping through the first,
/// then the second from where the first left off.
proof fn lemma_run_steps_append(t: Seq<MessageV>, p: Seq<ToolCallV>, xs: Seq<TurnInputV>, ys: Seq<TurnInputV>)
    ensures
        run_steps(t, p, xs + ys).transcript
            == run_steps(run_steps(t, p, xs).transcript, run_steps(t, p, xs).pending, ys).transcript,
        run_steps(t, p, xs + ys).pending
            == run_steps(run_steps(t, p, xs).transcript, run_steps(t, p, xs).pending, ys).pending,
        run_steps(t, p, xs + ys).actions
            == run_steps(t, p, xs).actions + run_steps(run_steps(t, p, xs).transcript, run_steps(t, p, xs).pending, ys).actions,
    decreases xs.len(),
{
    if xs.len() == 0 {
        assert(xs + ys =~= ys);
        assert(Seq::<TurnActionV>::empty() + run_steps(t, p, ys).actions =~= run_steps(t, p, ys).actions);
    } else {
        let s = turn_step(t, p, xs[0]);
        assert((xs + ys)[0] == xs[0]);
        assert((xs + ys).drop_first() =~= xs.drop_first() + ys);
        lemma_run_steps_append(s.transcript, s.pending, xs.drop_first(), ys);
        let a = run_steps(s.transcript, s.pending, xs.drop_first());
        let b = run_steps(a.transcript, a.pending, ys);
        assert(seq![s.action] + (a.actions + b.actions) =~= (seq![s.action] + a.actions) + b.actions);
    }
}

/// The results of calls `j..` of a round, each for the call pending first.
proof fn lemma_results_from(t: Seq<MessageV>, calls: Seq<ToolCallV>, results: Seq<ToolResultV>, j: int)
    requires
        results.len() == calls.len(),
        0 <= j < calls.len(),
    ensures
        run_steps(t, calls.skip(j), results.map_values(|r: ToolResultV| TurnInputV::ToolDone(r)).skip(j)).transcript
            == t + Seq::new((calls.len() - j) as nat, |k: int| result_message(calls[j + k], results[j + k])),
        run_steps(t, calls.skip(j), results.map_values(|r: ToolResultV| TurnInputV::ToolDone(r)).skip(j)).pending
            == Seq::<ToolCallV>::empty(),
        run_steps(t, calls.skip(j), results.map_values(|r: ToolResultV| TurnInputV::ToolDone(r)).skip(j)).actions
            == calls.skip(j + 1).map_values(|c: ToolCallV| TurnActionV::RunTool(c)).push(TurnActionV::StreamModel),
    decreases calls.len() - j,
{
    let n = calls.len();
    let ins = results.map_values(|r: ToolResultV| TurnInputV::ToolDone(r));
    let xs = ins.skip(j);
    let p = calls.skip(j);
    assert(xs[0] == TurnInputV::ToolDone(results[j]));
    assert(p[0] == calls[j]);
    let s = turn_step(t, p, xs[0]);
    assert(s.transcript == t.push(result_message(calls[j], results[j])));
    assert(s.pending =~= calls.skip(j + 1));
    assert(xs.drop_first() =~= ins.skip(j + 1));
    let rest = run_steps(s.transcript, s.pending, xs.drop_first());
    assert(xs.len() > 0);
    assert(run_steps(t, p, xs).transcript == rest.transcript);
    assert(run_steps(t, p, xs).pending == rest.pending);
    assert(run_steps(t, p, xs).actions == seq![s.action] + rest.actions);
    if j + 1 == n {
        assert(xs.drop_first().len() == 0);
        assert(s.pending =~= Seq::<ToolCallV>::empty());
        assert(s.action == TurnActionV::StreamModel);
        assert(t.push(result_message(calls[j], results[j]))
            =~= t + Seq::new((n - j) as nat, |k: int| result_message(calls[j + k], results[j + k])));
        assert(calls.skip(j + 1).map_values(|c: ToolCallV| TurnActionV::RunTool(c)).push(TurnActionV::StreamModel)
            =~= seq![TurnActionV::StreamModel]);
        assert(seq![s.action] + Seq::<TurnActionV>::empty() =~= seq![TurnActionV::StreamModel]);
    } else {
        assert(p[1] == calls[j + 1]);
        assert(s.action == TurnActionV::RunTool(calls[j + 1]));
        lemma_results_from(s.transcript, calls, results, j + 1);
        assert(t.push(result_message(calls[j], results[j]))
            + Seq::new((n - j - 1) as nat, |k: int| result_message(calls[j + 1 + k], results[j + 1 + k]))
            =~= t + Seq::new((n - j) as nat, |k: int| result_message(calls[j + k], results[j + k])));
        assert(seq![TurnActionV::RunTool(calls[j + 1])]
            + calls.skip(j + 2).map_values(|c: ToolCallV| TurnActionV::RunTool(c)).push(TurnActionV::StreamModel)
            =~= calls.skip(j + 1).map_values(|c: ToolCallV| TurnActionV::RunTool(c)).push(TurnActionV::StreamModel));
    }
}

/// One round, from any pending calls.
proof fn lemma_round(t: Seq<MessageV>, p: Seq<ToolCallV>, a: AssistantV, results: Seq<ToolResultV>)
    requires
        results.len() == a.tool_calls.len(),
    ensures
        run_steps(t, p, round_inputs(a, results)).transcript == t + round_messages(a, results),
        run_steps(t, p, round_inputs(a, results)).pending == Seq::<ToolCallV>::empty(),
        run_steps(t, p, round_inputs(a, results)).actions == round_actions(a),
{
    let ins = round_inputs(a, results);
    let dones = results.map_values(|r: ToolResultV| TurnInputV::ToolDone(r));
    assert(ins[0] == TurnInputV::Answered(a));
    assert(ins.drop_first() =~= dones);
    let s = turn_step(t, p, ins[0]);
    let rest = run_steps(s.transcript, s.pending, ins.drop_first());
    assert(ins.len() > 0);
    assert(run_steps(t, p, ins).transcript == rest.transcript);
    assert(run_steps(t, p, ins).pending == rest.pending);
    assert(run_steps(t, p, ins).actions == seq![s.action] + rest.actions);
    if a.tool_calls.len() == 0 {
        assert(dones.len() == 0);
        assert(t.push(MessageV::Assistant(a)) =~= t + round_messages(a, results));
        assert(seq![TurnActionV::Done] + Seq::<TurnActionV>::empty() =~= seq![TurnActionV::Done]);
    } else {
        assert(dones.skip(0) =~= dones);
        assert(a.tool_calls.skip(0) =~= a.tool_calls);
        lemma_results_from(s.transcript, a.tool_calls, results, 0);
        assert(t.push(MessageV::Assistant(a))
            + Seq::new(a.tool_calls.len(), |k: int| result_message(a.tool_calls[0 + k], results[0 + k]))
            =~= t + round_messages(a, results));
        assert(seq![TurnActionV::RunTool(a.tool_calls[0])]
            + a.tool_calls.skip(1).map_values(|c: ToolCallV| TurnActionV::RunTool(c)).push(TurnActionV::StreamModel)
            =~= round_actions(a));
    }
}

/// Rounds that each end in tool calls leave nothing pending and the model
/// to be asked again.
proof fn lemma_rounds(t: Seq<MessageV>, answers: Seq<AssistantV>, results: Seq<Seq<ToolResultV>>)
    requires
        results.len() == answers.len(),
        forall|i: int| 0 <= i < answers.len() ==> (#[trigger] results[i]).len() == answers[i].tool_calls.len(),
    ensures
        run_steps(t, Seq::empty(), turn_inputs(answers, results)).transcript == t + turn_messages(answers, results),
        answers.len() > 0 ==> run_steps(t, Seq::empty(), turn_inputs(answers, results)).pending == Seq::<ToolCallV>::empty(),
        answers.len() == 0 ==> run_steps(t, Seq::empty(), turn_inputs(answers, results)).pending == Seq::<ToolCallV>::empty(),
        run_steps(t, Seq::empty(), turn_inputs(answers, results)).actions == turn_actions(answers),
    decreases answers.len(),
{
    if answers.len() == 0 {
        assert(t + Seq::<MessageV>::empty() =~= t);
    } else {
        let fa = answers.drop_last();
        let fr = results.drop_last();
        assert forall|i: int| 0 <= i < fa.len() implies (#[trigger] fr[i]).len() == fa[i].tool_calls.len() by {
            assert(fr[i] == results[i]);
            assert(fa[i] == answers[i]);
        }
        lemma_rounds(t, fa, fr);
        let front = run_steps(t, Seq::empty(), turn_inputs(fa, fr));
        lemma_run_steps_append(t, Seq::empty(), turn_inputs(fa, fr), round_inputs(answers.last(), results.last()));
        assert(results.last() == results[results.len() - 1]);
        lemma_round(front.transcript, front.pending, answers.last(), results.last());
        assert((t + turn_messages(fa, fr)) + round_messages(answers.last(), results.last())
            =~= t + turn_messages(answers, results));
    }
}

/// The agent loop over a whole turn. A turn begun with a prompt whose model
/// rounds are `answers` (every round but the last with tool calls, the last
/// without) and whose tools returned `results` (one per call, in order)
/// leaves the transcript as it was, then the prompt, then for each round the
/// answer followed by its calls' results; it runs each call in the order the
/// answer gave them, asks the model again after the last result of each
/// round, and ends the turn after the answer without calls.
pub proof fn law_turn_transcript(
    before: Seq<MessageV>,
    prompt: Seq<char>,
    answers: Seq<AssistantV>,
    results: Seq<Seq<ToolResultV>>,
)
    requires
        answers.len() >= 1,
        results.len() == answers.len(),
        forall|i: int| 0 <= i < answers.len() ==> (#[trigger] results[i]).len() == answers[i].tool_calls.len(),
        forall|i: int| 0 <= i < answers.len() - 1 ==> (#[trigger] answers[i]).tool_calls.len() > 0,
        answers.last().tool_calls.len() == 0,
    ensures
        run_steps(before.push(MessageV::User(prompt)), Seq::empty(), turn_inputs(answers, results)).transcript
            == before.push(MessageV::User(prompt)) + turn_messages(answers, results),
        run_steps(before.push(MessageV::User(prompt)), Seq::empty(), turn_inputs(answers, results)).pending
            == Seq::<ToolCallV>::empty(),
        run_steps(before.push(MessageV::User(prompt)), Seq::empty(), turn_inputs(answers, results)).actions
            == turn_actions(answers),
        turn_actions(answers).last() == TurnActionV::Done,
        forall|i: int| 0 <= i < turn_actions(answers).len() - 1 ==>
            !(#[trigger] turn_actions(answers)[i] is Done) && !(turn_actions(answers)[i] is Failed),
{
    let t = before.push(MessageV::User(prompt));
    lemma_rounds(t, answers, results);
    lemma_actions_shape(answers);
}

/// The actions of rounds: only the last round's last action ends the turn.
proof fn lemma_actions_shape(answers: Seq<AssistantV>)
    requires
        answers.len() >= 1,
        forall|i: int| 0 <= i < answers.len() - 1 ==> (#[trigger] answers[i]).tool_calls.len() > 0,
        answers.last().tool_calls.len() == 0,
    ensures
        turn_actions(answers).last() == TurnActionV::Done,
        forall|i: int| 0 <= i < turn_actions(answers).len() - 1 ==>
            !(#[trigger] turn_actions(answers)[i] is Done) && !(turn_actions(answers)[i] is Failed),
{
    let fa = answers.drop_last();
    lemma_actions_open(fa);
    assert forall|i: int| 0 <= i < fa.len() implies (#[trigger] fa[i]).tool_calls.len() > 0 by {
        assert(fa[i] == answers[i]);
    }
    lemma_actions_open(fa);
    assert(turn_actions(answers) == turn_actions(fa) + seq![TurnActionV::Done]);
}

/// Rounds that all have tool calls never end the turn.
proof fn lemma_actions_open(answers: Seq<AssistantV>)
    ensures
        (forall|i: int| 0 <= i < answers.len() ==> (#[trigger] answers[i]).tool_calls.len() > 0) ==>
            forall|i: int| 0 <= i < turn_actions(answers).len() ==>
                !(#[trigger] turn_actions(answers)[i] is Done) && !(turn_actions(answers)[i] is Failed),
    decreases answers.len(),
{
    if answers.len() > 0 && forall|i: int| 0 <= i < answers.len() ==> (#[trigger] answers[i]).tool_calls.len() > 0 {
        let fa = answers.drop_last();
        assert forall|i: int| 0 <= i < fa.len() implies (#[trigger] fa[i]).tool_calls.len() > 0 by {
            assert(fa[i] == answers[i]);
        }
        lemma_actions_open(fa);
        let last = answers.last();
        assert(last == answers[answers.len() - 1]);
        let ra = round_actions(last);
        assert forall|i: int| 0 <= i < ra.len() implies !(#[trigger] ra[i] is Done) && !(ra[i] is Failed) by {
            if i < last.tool_calls.len() {
                assert(ra[i] == TurnActionV::RunTool(last.tool_calls[i]));
            }
        }
        let whole = turn_actions(answers);
        assert(whole == turn_actions(fa) + ra);
        assert forall|i: int| 0 <= i < whole.len() implies !(#[trigger] whole[i] is Done) && !(whole[i] is Failed) by {
            if i < turn_actions(fa).len() {
                assert(whole[i] == turn_actions(fa)[i]);
            } else {
                assert(whole[i] == ra[i - turn_actions(fa).len()]);
            }
        }
    }
}

/// Only text is shown as answer text and only reasoning as reasoning: a
/// model event is forwarded as a text delta exactly when it is a text delta
/// with the same text, and as a reasoning delta exactly when it is a
/// reasoning delta with the same text.
pub proof fn law_forwarding_keeps_text_and_reasoning_apart(e: ModelEventV, d: Seq<char>)
    ensures
        (forwarded(e) == Some(AgentEventV::TextDelta(d))) == (e == ModelEventV::TextDelta(d)),
        (forwarded(e) == Some(AgentEventV::ReasoningDelta(d))) == (e == ModelEventV::ReasoningDelta(d)),
{
}

} // verus!
