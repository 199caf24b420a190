//! Assembling complete assistant messages from streaming model events.

use vstd::prelude::*;

use crate::event::{ModelEvent, ModelEventV, Usage};
use crate::json::{json_reencoded, reencode_json};
use crate::message::{AssistantMessage, AssistantV, ToolCall, ToolCallV, tool_call_views};
use crate::text::{owned, push_str};

verus! {

broadcast use vstd::seq_lib::group_seq_properties;

/// The abstract content of a tool call being assembled.
pub struct PartialV {
    pub id: Seq<char>,
    pub name: Seq<char>,
    /// Raw JSON text, parsed only when the message is complete.
    pub arguments: Seq<char>,
}

/// The abstract state of an [`AssistantBuilder`].
pub struct BuilderV {
    pub content: Seq<char>,
    pub reasoning: Seq<char>,
    pub calls: Seq<PartialV>,
    pub usage: Option<Usage>,
    pub finished: bool,
}

/// A tool call with nothing received yet.
pub open spec fn empty_partial() -> PartialV {
    PartialV { id: Seq::empty(), name: Seq::empty(), arguments: Seq::empty() }
}

/// The calls, extended with empty calls so that `index` exists.
pub open spec fn pad_calls(calls: Seq<PartialV>, index: int) -> Seq<PartialV> {
    if calls.len() <= index {
        calls + Seq::new((index + 1 - calls.len()) as nat, |k: int| empty_partial())
    } else {
        calls
    }
}

/// The builder state after one event.
pub open spec fn builder_step(b: BuilderV, e: ModelEventV) -> BuilderV {
    match e {
        ModelEventV::TextDelta(d) => BuilderV { content: b.content + d, ..b },
        ModelEventV::ReasoningDelta(d) => BuilderV { reasoning: b.reasoning + d, ..b },
        ModelEventV::ToolCallStarted { index, id, name } => {
            let calls = pad_calls(b.calls, index as int);
            BuilderV { calls: calls.update(index as int, PartialV { id, name, arguments: calls[index as int].arguments }), ..b }
        },
        ModelEventV::ToolCallArgumentsDelta { index, delta } => {
            let calls = pad_calls(b.calls, index as int);
            let c = calls[index as int];
            BuilderV { calls: calls.update(index as int, PartialV { arguments: c.arguments + delta, ..c }), ..b }
        },
        ModelEventV::Usage(u) => BuilderV { usage: Some(u), ..b },
        ModelEventV::Finished => BuilderV { finished: true, ..b },
    }
}

/// Whether an event can be fed: tool-call indices must leave room for one
/// more element.
pub open spec fn event_acceptable(e: ModelEventV) -> bool {
    match e {
        ModelEventV::ToolCallStarted { index, .. } => index < usize::MAX,
        ModelEventV::ToolCallArgumentsDelta { index, .. } => index < usize::MAX,
        _ => true,
    }
}

/// The JSON value of accumulated arguments: the compact rendering of the
/// parsed text, or `null` when the text is empty or not JSON.
pub open spec fn parsed_arguments(raw: Seq<char>) -> Seq<char> {
    if raw.len() == 0 {
        "null"@
    } else {
        match json_reencoded(raw) {
            Some(t) => t,
            None => "null"@,
        }
    }
}

/// The calls that received a name, in index order, with parsed arguments.
pub open spec fn named_calls(calls: Seq<PartialV>) -> Seq<ToolCallV>
    decreases calls.len(),
{
    if calls.len() == 0 {
        Seq::empty()
    } else {
        let c = calls.last();
        let earlier = named_calls(calls.drop_last());
        if c.name.len() == 0 {
            earlier
        } else {
            earlier.push(ToolCallV { id: c.id, name: c.name, arguments: parsed_arguments(c.arguments) })
        }
    }
}

/// The assistant message a builder state assembles.
pub open spec fn assembled(b: BuilderV) -> AssistantV {
    AssistantV {
        content: b.content,
        reasoning_content: if b.reasoning.len() == 0 { None } else { Some(b.reasoning) },
        tool_calls: named_calls(b.calls),
    }
}

/// A tool call being assembled from stream fragments.
#[derive(Debug)]
pub struct PartialToolCall {
    pub id: String,
    pub name: String,
    /// Raw JSON text; parsed only when the message is complete.
    pub arguments: String,
}

impl View for PartialToolCall {
    type V = PartialV;

    open spec fn view(&self) -> PartialV {
        PartialV { id: self.id@, name: self.name@, arguments: self.arguments@ }
    }
}

/// The views of a sequence of partial calls.
pub open spec fn partial_views(v: Seq<PartialToolCall>) -> Seq<PartialV> {
    v.map_values(|c: PartialToolCall| c@)
}

/// Accumulates model events into a complete assistant message.
#[derive(Debug)]
pub struct AssistantBuilder {
    content: String,
    reasoning: String,
    tool_calls: Vec<PartialToolCall>,
    usage: Option<Usage>,
    finished: bool,
}

impl View for AssistantBuilder {
    type V = BuilderV;

    closed spec fn view(&self) -> BuilderV {
        BuilderV {
            content: self.content@,
            reasoning: self.reasoning@,
            calls: partial_views(self.tool_calls@),
            usage: self.usage,
            finished: self.finished,
        }
    }
}

/// The builder state before any event.
pub open spec fn initial_builder() -> BuilderV {
    BuilderV { content: Seq::empty(), reasoning: Seq::empty(), calls: Seq::empty(), usage: None, finished: false }
}

/// Parse accumulated tool-call arguments: empty or malformed text becomes
/// `null`.
pub fn parse_arguments(raw: &str) -> (r: String)
    ensures
        r@ == parsed_arguments(raw@),
{
    if raw.is_empty() {
        return owned("null");
    }
    match reencode_json(raw) {
        Some(t) => t,
        None => owned("null"),
    }
}

impl AssistantBuilder {
    /// An empty builder.
    pub fn new() -> (r: Self)
        ensures
            r@ == initial_builder(),
    {
        let r = AssistantBuilder {
            content: String::new(),
            reasoning: String::new(),
            tool_calls: Vec::new(),
            usage: None,
            finished: false,
        };
        assert(partial_views(r.tool_calls@) =~= Seq::<PartialV>::empty());
        r
    }

    /// Feed one model event.
    pub fn push(&mut self, event: ModelEvent)
        requires
            event_acceptable(event@),
        ensures
            final(self)@ == builder_step(old(self)@, event@),
    {
        match event {
            ModelEvent::TextDelta(delta) => push_str(&mut self.content, delta.as_str()),
            ModelEvent::ReasoningDelta(delta) => push_str(&mut self.reasoning, delta.as_str()),
            ModelEvent::ToolCallStarted { index, id, name } => {
                let ghost padded = pad_calls(old(self)@.calls, index as int);
                self.ensure_call(index);
                let ghost before = self.tool_calls@;
                let arguments = self.tool_calls[index].arguments.clone();
                self.tool_calls.set(index, PartialToolCall { id, name, arguments });
                proof {
                    assert(partial_views(self.tool_calls@) =~= padded.update(index as int,
                        PartialV { id: id@, name: name@, arguments: padded[index as int].arguments }));
                }
            },
            ModelEvent::ToolCallArgumentsDelta { index, delta } => {
                let ghost padded = pad_calls(old(self)@.calls, index as int);
                self.ensure_call(index);
                let mut arguments = self.tool_calls[index].arguments.clone();
                let id = self.tool_calls[index].id.clone();
                let name = self.tool_calls[index].name.clone();
                push_str(&mut arguments, delta.as_str());
                self.tool_calls.set(index, PartialToolCall { id, name, arguments });
                proof {
                    let c = padded[index as int];
                    assert(partial_views(self.tool_calls@) =~= padded.update(index as int,
                        PartialV { arguments: c.arguments + delta@, ..c }));
                }
            },
            ModelEvent::Usage(usage) => self.usage = Some(usage),
            ModelEvent::Finished => self.finished = true,
        }
    }

    /// Make sure a call exists at `index`, padding with empty calls.
    fn ensure_call(&mut self, index: usize)
        requires
            index < usize::MAX,
        ensures
            final(self)@ == (BuilderV { calls: pad_calls(old(self)@.calls, index as int), ..old(self)@ }),
            index < final(self).tool_calls@.len(),
    {
        let ghost old_calls = partial_views(self.tool_calls@);
        if self.tool_calls.len() <= index {
            assert(partial_views(self.tool_calls@) =~= old_calls + Seq::new(0, |k: int| empty_partial()));
            while self.tool_calls.len() < index + 1
                invariant
                    index < usize::MAX,
                    self.content == old(self).content,
                    self.reasoning == old(self).reasoning,
                    self.usage == old(self).usage,
                    self.finished == old(self).finished,
                    old_calls == partial_views(old(self).tool_calls@),
                    old_calls.len() <= self.tool_calls@.len() <= index + 1,
                    partial_views(self.tool_calls@) == old_calls + Seq::new(
                        (self.tool_calls@.len() - old_calls.len()) as nat, |k: int| empty_partial()),
                decreases index + 1 - self.tool_calls@.len(),
            {
                let ghost prev = self.tool_calls@;
                self.tool_calls.push(PartialToolCall { id: String::new(), name: String::new(), arguments: String::new() });
                proof {
                    let expected = old_calls + Seq::new(
                        (self.tool_calls@.len() - old_calls.len()) as nat, |k: int| empty_partial());
                    let prev_expected = old_calls + Seq::new(
                        (prev.len() - old_calls.len()) as nat, |k: int| empty_partial());
                    assert forall|k: int| 0 <= k < self.tool_calls@.len() implies
                        #[trigger] partial_views(self.tool_calls@)[k] == expected[k] by {
                        if k < prev.len() {
                            assert(self.tool_calls@[k] == prev[k]);
                            assert(partial_views(prev)[k] == prev_expected[k]);
                        }
                    }
                    assert(partial_views(self.tool_calls@) =~= expected);
                }
            }
        }
    }

    /// Whether the model signaled the end of this response.
    pub fn is_finished(&self) -> (r: bool)
        ensures
            r == self@.finished,
    {
        self.finished
    }

    /// Token usage reported by the model, if any.
    pub fn usage(&self) -> (r: Option<Usage>)
        ensures
            r == self@.usage,
    {
        self.usage
    }

    /// Assemble the complete assistant message. Calls whose name never
    /// arrived are dropped.
    pub fn build(self) -> (r: AssistantMessage)
        ensures
            r@ == assembled(self@),
    {
        let ghost calls = partial_views(self.tool_calls@);
        let mut tool_calls: Vec<ToolCall> = Vec::new();
        let mut i: usize = 0;
        while i < self.tool_calls.len()
            invariant
                0 <= i <= self.tool_calls@.len(),
                calls == partial_views(self.tool_calls@),
                tool_call_views(tool_calls@) == named_calls(calls.take(i as int)),
            decreases self.tool_calls@.len() - i,
        {
            let call = &self.tool_calls[i];
            let ghost prev = tool_calls@;
            proof {
                assert(calls.take(i + 1).drop_last() =~= calls.take(i as int));
                assert(calls.take(i + 1).last() == call@);
            }
            if !call.name.as_str().is_empty() {
                let tc = ToolCall {
                    id: call.id.clone(),
                    name: call.name.clone(),
                    arguments: parse_arguments(call.arguments.as_str()),
                };
                tool_calls.push(tc);
                proof {
                    assert(tool_call_views(tool_calls@) =~= tool_call_views(prev).push(tc@));
                }
            }
            i += 1;
        }
        proof {
            assert(calls.take(calls.len() as int) =~= calls);
        }
        let reasoning_content = if self.reasoning.as_str().is_empty() { None } else { Some(self.reasoning) };
        AssistantMessage { content: self.content, reasoning_content, tool_calls }
    }
}

/// The builder state after feeding a sequence of events in order.
pub open spec fn fold_events(b: BuilderV, es: Seq<ModelEventV>) -> BuilderV
    decreases es.len(),
{
    if es.len() == 0 { b } else { builder_step(fold_events(b, es.drop_last()), es.last()) }
}

/// The concatenated text deltas of a sequence of events.
pub open spec fn text_of(es: Seq<ModelEventV>) -> Seq<char>
    decreases es.len(),
{
    if es.len() == 0 {
        Seq::empty()
    } else {
        match es.last() {
            ModelEventV::TextDelta(d) => text_of(es.drop_last()) + d,
            _ => text_of(es.drop_last()),
        }
    }
}

/// The concatenated reasoning deltas of a sequence of events.
pub open spec fn reasoning_of(es: Seq<ModelEventV>) -> Seq<char>
    decreases es.len(),
{
    if es.len() == 0 {
        Seq::empty()
    } else {
        match es.last() {
            ModelEventV::ReasoningDelta(d) => reasoning_of(es.drop_last()) + d,
            _ => reasoning_of(es.drop_last()),
        }
    }
}

/// Text and reasoning deltas are concatenated in arrival order, whatever
/// else (tool calls, usage, the finish marker) is interleaved with them; the
/// assembled message keeps the reasoning whenever any arrived, tool calls or
/// not.
pub proof fn law_deltas_concatenate(es: Seq<ModelEventV>)
    ensures
        fold_events(initial_builder(), es).content == text_of(es),
        fold_events(initial_builder(), es).reasoning == reasoning_of(es),
        assembled(fold_events(initial_builder(), es)).content == text_of(es),
        reasoning_of(es).len() > 0 ==> assembled(fold_events(initial_builder(), es)).reasoning_content
            == Some(reasoning_of(es)),
    decreases es.len(),
{
    if es.len() > 0 {
        law_deltas_concatenate(es.drop_last());
    }
}

/// Whether the finish marker is among the events.
pub open spec fn saw_finished(es: Seq<ModelEventV>) -> bool {
    exists|i: int| 0 <= i < es.len() && (#[trigger] es[i]) is Finished
}

/// A builder is finished exactly when the finish marker was among the
/// events fed to it: not before, and for good once it came.
pub proof fn law_finished_iff_marker_seen(es: Seq<ModelEventV>)
    ensures
        fold_events(initial_builder(), es).finished == saw_finished(es),
    decreases es.len(),
{
    if es.len() > 0 {
        let front = es.drop_last();
        law_finished_iff_marker_seen(front);
        if saw_finished(front) {
            let i = choose|i: int| 0 <= i < front.len() && (#[trigger] front[i]) is Finished;
            assert(es[i] == front[i]);
        }
        if saw_finished(es) && !(es.last() is Finished) {
            let i = choose|i: int| 0 <= i < es.len() && (#[trigger] es[i]) is Finished;
            assert(i < es.len() - 1);
            assert(front[i] == es[i]);
        }
        if es.last() is Finished {
            assert(es[es.len() - 1] is Finished);
        }
    }
}

/// The argument fragments for call `index`, concatenated in order.
pub open spec fn arguments_of(es: Seq<ModelEventV>, index: usize) -> Seq<char>
    decreases es.len(),
{
    if es.len() == 0 {
        Seq::empty()
    } else {
        match es.last() {
            ModelEventV::ToolCallArgumentsDelta { index: i, delta } =>
                if i == index { arguments_of(es.drop_last(), index) + delta } else { arguments_of(es.drop_last(), index) },
            _ => arguments_of(es.drop_last(), index),
        }
    }
}

/// The name the latest start of call `index` gave it (empty when none did).
pub open spec fn name_of(es: Seq<ModelEventV>, index: usize) -> Seq<char>
    decreases es.len(),
{
    if es.len() == 0 {
        Seq::empty()
    } else {
        match es.last() {
            ModelEventV::ToolCallStarted { index: i, name, .. } =>
                if i == index { name } else { name_of(es.drop_last(), index) },
            _ => name_of(es.drop_last(), index),
        }
    }
}

/// The id the latest start of call `index` gave it (empty when none did).
pub open spec fn id_of(es: Seq<ModelEventV>, index: usize) -> Seq<char>
    decreases es.len(),
{
    if es.len() == 0 {
        Seq::empty()
    } else {
        match es.last() {
            ModelEventV::ToolCallStarted { index: i, id, .. } =>
                if i == index { id } else { id_of(es.drop_last(), index) },
            _ => id_of(es.drop_last(), index),
        }
    }
}

/// Tool calls are assembled by index over the whole stream: the call slot
/// `index` holds the id and name of the latest start of that call and all
/// its argument fragments concatenated in arrival order, whatever else is
/// interleaved; an index no event named has nothing (and, past the slots,
/// no slot at all). The assembled message parses those arguments.
pub proof fn law_call_fragments_concatenate(es: Seq<ModelEventV>)
    requires
        forall|i: int| 0 <= i < es.len() ==> event_acceptable(#[trigger] es[i]),
    ensures
        forall|x: usize| #![trigger fold_events(initial_builder(), es).calls[x as int]]
            (x as int) < fold_events(initial_builder(), es).calls.len() ==> {
                let c = fold_events(initial_builder(), es).calls[x as int];
                &&& c.arguments == arguments_of(es, x)
                &&& c.name == name_of(es, x)
                &&& c.id == id_of(es, x)
            },
        forall|x: usize| (x as int) >= fold_events(initial_builder(), es).calls.len() ==> {
            &&& (#[trigger] arguments_of(es, x)).len() == 0
            &&& name_of(es, x).len() == 0
            &&& id_of(es, x).len() == 0
        },
    decreases es.len(),
{
    if es.len() > 0 {
        let front = es.drop_last();
        assert forall|i: int| 0 <= i < front.len() implies event_acceptable(#[trigger] front[i]) by {
            assert(front[i] == es[i]);
        }
        law_call_fragments_concatenate(front);
        assert(event_acceptable(es[es.len() - 1]));
        let b0 = fold_events(initial_builder(), front);
        let b1 = fold_events(initial_builder(), es);
        assert(b1 == builder_step(b0, es.last()));
        match es.last() {
            ModelEventV::ToolCallStarted { index, id, name } => {
                let calls = pad_calls(b0.calls, index as int);
                assert forall|x: usize| (x as int) < calls.len() implies {
                    let c = #[trigger] calls[x as int];
                    &&& c.arguments == arguments_of(front, x)
                    &&& c.name == name_of(front, x)
                    &&& c.id == id_of(front, x)
                } by {
                    if (x as int) < b0.calls.len() {
                        assert(calls[x as int] == b0.calls[x as int]);
                    } else {
                        assert(calls[x as int] == empty_partial());
                        assert(arguments_of(front, x).len() == 0);
                        assert(arguments_of(front, x) =~= Seq::<char>::empty());
                        assert(name_of(front, x) =~= Seq::<char>::empty());
                        assert(id_of(front, x) =~= Seq::<char>::empty());
                    }
                }
            },
            ModelEventV::ToolCallArgumentsDelta { index, delta } => {
                let calls = pad_calls(b0.calls, index as int);
                assert forall|x: usize| (x as int) < calls.len() implies {
                    let c = #[trigger] calls[x as int];
                    &&& c.arguments == arguments_of(front, x)
                    &&& c.name == name_of(front, x)
                    &&& c.id == id_of(front, x)
                } by {
                    if (x as int) < b0.calls.len() {
                        assert(calls[x as int] == b0.calls[x as int]);
                    } else {
                        assert(calls[x as int] == empty_partial());
                        assert(arguments_of(front, x).len() == 0);
                        assert(arguments_of(front, x) =~= Seq::<char>::empty());
                        assert(name_of(front, x) =~= Seq::<char>::empty());
                        assert(id_of(front, x) =~= Seq::<char>::empty());
                    }
                }
            },
            _ => {},
        }
        assert(b1.calls.len() >= b0.calls.len());
        assert forall|x: usize| (x as int) >= b1.calls.len() implies {
            &&& (#[trigger] arguments_of(es, x)).len() == 0
            &&& name_of(es, x).len() == 0
            &&& id_of(es, x).len() == 0
        } by {
            assert(arguments_of(front, x).len() == 0);
            match es.last() {
                ModelEventV::ToolCallStarted { index, .. } => {
                    assert(b1.calls.len() > index);
                    assert(index != x);
                },
                ModelEventV::ToolCallArgumentsDelta { index, .. } => {
                    assert(b1.calls.len() > index);
                    assert(index != x);
                },
                _ => {},
            }
        }
    }
}

} // verus!
