//! From streaming chunks to model events.
//!
//! Text and reasoning deltas pass through immediately; tool calls are
//! tracked by index so that each call is announced exactly once, while every
//! non-empty argument fragment is forwarded for the agent layer to
//! accumulate.

use std::collections::HashSet;

use vstd::prelude::*;

use crate::event::{ModelEvent, ModelEventV, Usage, model_event_views};
use crate::response::{DeepSeekUsage, DeltaToolCall, StreamChoice, StreamChunk};

verus! {

broadcast use {vstd::std_specs::hash::group_hash_axioms, vstd::seq_lib::group_seq_properties};

/// The view of an optional string, empty when absent.
pub open spec fn str_or_empty(o: Option<String>) -> Seq<char> {
    match o {
        Some(s) => s@,
        None => Seq::empty(),
    }
}

/// The tool name carried by a fragment, empty when absent.
pub open spec fn fragment_name(call: DeltaToolCall) -> Seq<char> {
    match call.function {
        Some(f) => str_or_empty(f.name),
        None => Seq::empty(),
    }
}

/// The non-empty argument text carried by a fragment, if any.
pub open spec fn fragment_arguments(call: DeltaToolCall) -> Option<Seq<char>> {
    match call.function {
        Some(f) => match f.arguments {
            Some(a) => if a@.len() > 0 { Some(a@) } else { None },
            None => None,
        },
        None => None,
    }
}

/// The events of one tool-call fragment, given the indices already
/// announced: a start event the first time an index is seen, then the
/// argument fragment if it is not empty.
pub open spec fn call_events(started: Set<usize>, call: DeltaToolCall) -> Seq<ModelEventV> {
    let start = if started.contains(call.index) {
        Seq::<ModelEventV>::empty()
    } else {
        seq![ModelEventV::ToolCallStarted {
            index: call.index,
            id: str_or_empty(call.id),
            name: fragment_name(call),
        }]
    };
    let args = match fragment_arguments(call) {
        Some(a) => seq![ModelEventV::ToolCallArgumentsDelta { index: call.index, delta: a }],
        None => Seq::<ModelEventV>::empty(),
    };
    start + args
}

/// The indices announced after a run of fragments.
pub open spec fn calls_started(started: Set<usize>, calls: Seq<DeltaToolCall>) -> Set<usize>
    decreases calls.len(),
{
    if calls.len() == 0 {
        started
    } else {
        calls_started(started, calls.drop_last()).insert(calls.last().index)
    }
}

/// The events of a run of fragments, in order.
pub open spec fn calls_events(started: Set<usize>, calls: Seq<DeltaToolCall>) -> Seq<ModelEventV>
    decreases calls.len(),
{
    if calls.len() == 0 {
        Seq::empty()
    } else {
        calls_events(started, calls.drop_last())
            + call_events(calls_started(started, calls.drop_last()), calls.last())
    }
}

/// A delta text as an event, when it is present and not empty.
pub open spec fn nonempty_text(o: Option<String>) -> Option<Seq<char>> {
    match o {
        Some(s) => if s@.len() > 0 { Some(s@) } else { None },
        None => None,
    }
}

/// The events of one choice: text, then reasoning, then its tool calls.
pub open spec fn choice_events(started: Set<usize>, choice: StreamChoice) -> Seq<ModelEventV> {
    let text = match nonempty_text(choice.delta.content) {
        Some(t) => seq![ModelEventV::TextDelta(t)],
        None => Seq::<ModelEventV>::empty(),
    };
    let reasoning = match nonempty_text(choice.delta.reasoning_content) {
        Some(t) => seq![ModelEventV::ReasoningDelta(t)],
        None => Seq::<ModelEventV>::empty(),
    };
    text + reasoning + calls_events(started, choice.delta.tool_calls@)
}

/// The indices announced after a run of choices.
pub open spec fn choices_started(started: Set<usize>, choices: Seq<StreamChoice>) -> Set<usize>
    decreases choices.len(),
{
    if choices.len() == 0 {
        started
    } else {
        calls_started(choices_started(started, choices.drop_last()), choices.last().delta.tool_calls@)
    }
}

/// The events of a run of choices, in order.
pub open spec fn choices_events(started: Set<usize>, choices: Seq<StreamChoice>) -> Seq<ModelEventV>
    decreases choices.len(),
{
    if choices.len() == 0 {
        Seq::empty()
    } else {
        choices_events(started, choices.drop_last())
            + choice_events(choices_started(started, choices.drop_last()), choices.last())
    }
}

/// Whether any choice of the chunk carries a finish reason.
pub open spec fn chunk_finished(chunk: StreamChunk) -> bool {
    exists|i: int| 0 <= i < chunk.choices@.len() && chunk.choices@[i].finish_reason is Some
}

/// The usage event of a DeepSeek usage report.
pub open spec fn usage_of(u: DeepSeekUsage) -> Usage {
    Usage { prompt_tokens: u.prompt_tokens, completion_tokens: u.completion_tokens, total_tokens: u.total_tokens }
}

/// Every event of one chunk: the choices' events, then usage, then the
/// finish marker.
pub open spec fn chunk_events(started: Set<usize>, chunk: StreamChunk) -> Seq<ModelEventV> {
    let usage = match chunk.usage {
        Some(u) => seq![ModelEventV::Usage(usage_of(u))],
        None => Seq::<ModelEventV>::empty(),
    };
    let finished = if chunk_finished(chunk) { seq![ModelEventV::Finished] } else { Seq::<ModelEventV>::empty() };
    choices_events(started, chunk.choices@) + usage + finished
}

/// Translates stream chunks into model events.
pub struct ChunkTranslator {
    /// Indices of tool calls for which `ToolCallStarted` was already emitted.
    started: HashSet<usize>,
}

/// A copy of an optional string, empty when absent.
fn string_or_empty(o: &Option<String>) -> (r: String)
    ensures
        r@ == str_or_empty(*o),
{
    match o {
        Some(s) => s.clone(),
        None => String::new(),
    }
}

/// Convert a DeepSeek usage report into the core usage type.
pub fn translate_usage(usage: DeepSeekUsage) -> (r: Usage)
    ensures
        r == usage_of(usage),
{
    Usage {
        prompt_tokens: usage.prompt_tokens,
        completion_tokens: usage.completion_tokens,
        total_tokens: usage.total_tokens,
    }
}

impl Default for ChunkTranslator {
    /// A translator that has announced nothing.
    fn default() -> (r: Self)
        ensures
            r.announced() == Set::<usize>::empty(),
    {
        ChunkTranslator::new()
    }
}

impl ChunkTranslator {
    /// The indices of the tool calls announced so far.
    pub closed spec fn announced(&self) -> Set<usize> {
        self.started@
    }

    /// A translator that has announced nothing.
    pub fn new() -> (r: Self)
        ensures
            r.announced() == Set::<usize>::empty(),
    {
        ChunkTranslator { started: HashSet::new() }
    }

    /// Translate one chunk into zero or more model events.
    pub fn feed(&mut self, chunk: &StreamChunk) -> (r: Vec<ModelEvent>)
        ensures
            model_event_views(r@) == chunk_events(old(self).announced(), *chunk),
            final(self).announced() == choices_started(old(self).announced(), chunk.choices@),
    {
        let ghost s0 = self.started@;
        let mut events: Vec<ModelEvent> = Vec::new();
        let mut finished = false;
        let mut i: usize = 0;
        assert(model_event_views(events@) =~= Seq::<ModelEventV>::empty());
        while i < chunk.choices.len()
            invariant
                0 <= i <= chunk.choices@.len(),
                self.started@ == choices_started(s0, chunk.choices@.take(i as int)),
                model_event_views(events@) == choices_events(s0, chunk.choices@.take(i as int)),
                finished == exists|k: int| 0 <= k < i && chunk.choices@[k].finish_reason is Some,
            decreases chunk.choices@.len() - i,
        {
            let choice = &chunk.choices[i];
            proof {
                assert(chunk.choices@.take(i + 1).drop_last() =~= chunk.choices@.take(i as int));
                assert(chunk.choices@.take(i + 1).last() == chunk.choices@[i as int]);
            }
            push_choice_events(&mut self.started, choice, &mut events);
            if choice.finish_reason.is_some() {
                finished = true;
            }
            i += 1;
        }
        proof {
            assert(chunk.choices@.take(chunk.choices@.len() as int) =~= chunk.choices@);
        }
        let ghost after_choices = model_event_views(events@);
        if let Some(usage) = chunk.usage {
            let ghost b = events@;
            let e = ModelEvent::Usage(translate_usage(usage));
            events.push(e);
            proof { lemma_views_push(b, e); }
        }
        let ghost after_usage = model_event_views(events@);
        if finished {
            let ghost b = events@;
            events.push(ModelEvent::Finished);
            proof { lemma_views_push(b, ModelEvent::Finished); }
        }
        proof {
            let usage = match chunk.usage {
                Some(u) => seq![ModelEventV::Usage(usage_of(u))],
                None => Seq::<ModelEventV>::empty(),
            };
            let fin = if chunk_finished(*chunk) { seq![ModelEventV::Finished] } else { Seq::<ModelEventV>::empty() };
            assert(after_usage =~= after_choices + usage);
            assert(model_event_views(events@) =~= after_choices + usage + fin);
        }
        events
    }
}

/// Pushing an event pushes its view.
pub proof fn lemma_views_push(es: Seq<ModelEvent>, e: ModelEvent)
    ensures
        model_event_views(es.push(e)) == model_event_views(es).push(e@),
{
    assert(model_event_views(es.push(e)) =~= model_event_views(es).push(e@));
}

/// Append the events of one choice.
fn push_choice_events(started: &mut HashSet<usize>, choice: &StreamChoice, events: &mut Vec<ModelEvent>)
    ensures
        model_event_views(final(events)@) == model_event_views(old(events)@) + choice_events(old(started)@, *choice),
        final(started)@ == calls_started(old(started)@, choice.delta.tool_calls@),
{
    let ghost before = model_event_views(events@);
    if let Some(content) = &choice.delta.content {
        if !content.as_str().is_empty() {
            let ghost b = events@;
            let e = ModelEvent::TextDelta(content.clone());
            events.push(e);
            proof { lemma_views_push(b, e); }
        }
    }
    let ghost after_text = model_event_views(events@);
    if let Some(reasoning) = &choice.delta.reasoning_content {
        if !reasoning.as_str().is_empty() {
            let ghost b = events@;
            let e = ModelEvent::ReasoningDelta(reasoning.clone());
            events.push(e);
            proof { lemma_views_push(b, e); }
        }
    }
    let ghost mid = model_event_views(events@);
    proof {
        let text = match nonempty_text(choice.delta.content) {
            Some(t) => seq![ModelEventV::TextDelta(t)],
            None => Seq::<ModelEventV>::empty(),
        };
        let reasoning = match nonempty_text(choice.delta.reasoning_content) {
            Some(t) => seq![ModelEventV::ReasoningDelta(t)],
            None => Seq::<ModelEventV>::empty(),
        };
        assert(after_text =~= before + text);
        assert(mid =~= before + text + reasoning);
    }
    let ghost s_before = started@;
    let calls = &choice.delta.tool_calls;
    let mut j: usize = 0;
    assert(calls@.take(0) =~= Seq::<DeltaToolCall>::empty());
    assert(mid + calls_events(s_before, calls@.take(0)) =~= mid);
    while j < calls.len()
        invariant
            0 <= j <= calls@.len(),
            started@ == calls_started(s_before, calls@.take(j as int)),
            model_event_views(events@) == mid + calls_events(s_before, calls@.take(j as int)),
        decreases calls@.len() - j,
    {
        proof {
            assert(calls@.take(j + 1).drop_last() =~= calls@.take(j as int));
            assert(calls@.take(j + 1).last() == calls@[j as int]);
        }
        let ghost ev = model_event_views(events@);
        push_call_events(started, &calls[j], events);
        proof {
            assert(mid + calls_events(s_before, calls@.take(j + 1)) =~= ev + call_events(
                calls_started(s_before, calls@.take(j as int)), calls@[j as int]));
        }
        j += 1;
    }
    proof {
        assert(calls@.take(calls@.len() as int) =~= calls@);
        assert(model_event_views(events@) =~= before + choice_events(s_before, *choice));
    }
}

/// Append the events of one tool-call fragment.
fn push_call_events(started: &mut HashSet<usize>, call: &DeltaToolCall, events: &mut Vec<ModelEvent>)
    ensures
        model_event_views(final(events)@) == model_event_views(old(events)@) + call_events(old(started)@, *call),
        final(started)@ == old(started)@.insert(call.index),
{
    let index = call.index;
    let ghost before = model_event_views(events@);
    if started.insert(index) {
        let id = string_or_empty(&call.id);
        let name = match &call.function {
            Some(function) => string_or_empty(&function.name),
            None => String::new(),
        };
        let ghost b = events@;
        let e = ModelEvent::ToolCallStarted { index, id, name };
        events.push(e);
        proof { lemma_views_push(b, e); }
    }
    let ghost mid = model_event_views(events@);
    if let Some(function) = &call.function {
        if let Some(arguments) = &function.arguments {
            if !arguments.as_str().is_empty() {
                let ghost b = events@;
                let e = ModelEvent::ToolCallArgumentsDelta { index, delta: arguments.clone() };
                events.push(e);
                proof { lemma_views_push(b, e); }
            }
        }
    }
    proof {
        let start = if old(started)@.contains(call.index) {
            Seq::<ModelEventV>::empty()
        } else {
            seq![ModelEventV::ToolCallStarted {
                index: call.index,
                id: str_or_empty(call.id),
                name: fragment_name(*call),
            }]
        };
        assert(mid =~= before + start);
        assert(model_event_views(events@) =~= before + call_events(old(started)@, *call));
    }
}

/// Whether `es` announces tool calls only once each: every start event is
/// for an index that was not announced before (`started`) and is announced
/// after (`after`), no two start events share an index, and nothing
/// announced is forgotten.
pub open spec fn starts_once(es: Seq<ModelEventV>, started: Set<usize>, after: Set<usize>) -> bool {
    &&& started.subset_of(after)
    &&& forall|i: int| 0 <= i < es.len() && (#[trigger] es[i]) is ToolCallStarted ==> {
        &&& !started.contains(es[i]->ToolCallStarted_index)
        &&& after.contains(es[i]->ToolCallStarted_index)
    }
    &&& forall|i: int, j: int| 0 <= i < j < es.len() && (#[trigger] es[i]) is ToolCallStarted
        && (#[trigger] es[j]) is ToolCallStarted
        ==> es[i]->ToolCallStarted_index != es[j]->ToolCallStarted_index
}

/// Two runs that each announce once, one after the other, announce once.
proof fn lemma_starts_once_append(
    a: Seq<ModelEventV>,
    b: Seq<ModelEventV>,
    s0: Set<usize>,
    s1: Set<usize>,
    s2: Set<usize>,
)
    requires
        starts_once(a, s0, s1),
        starts_once(b, s1, s2),
    ensures
        starts_once(a + b, s0, s2),
{
    let ab = a + b;
    assert forall|i: int| 0 <= i < ab.len() && (#[trigger] ab[i]) is ToolCallStarted implies {
        &&& !s0.contains(ab[i]->ToolCallStarted_index)
        &&& s2.contains(ab[i]->ToolCallStarted_index)
    } by {
        if i < a.len() {
            assert(ab[i] == a[i]);
        } else {
            assert(ab[i] == b[i - a.len()]);
        }
    }
    assert forall|i: int, j: int| 0 <= i < j < ab.len() && (#[trigger] ab[i]) is ToolCallStarted
        && (#[trigger] ab[j]) is ToolCallStarted
        implies ab[i]->ToolCallStarted_index != ab[j]->ToolCallStarted_index by {
        if j < a.len() {
            assert(ab[i] == a[i] && ab[j] == a[j]);
        } else if i >= a.len() {
            assert(ab[i] == b[i - a.len()] && ab[j] == b[j - a.len()]);
        } else {
            assert(ab[i] == a[i] && ab[j] == b[j - a.len()]);
        }
    }
}

/// Events without a start announce nothing.
proof fn lemma_no_starts(es: Seq<ModelEventV>, s: Set<usize>)
    requires
        forall|i: int| 0 <= i < es.len() ==> !((#[trigger] es[i]) is ToolCallStarted),
    ensures
        starts_once(es, s, s),
{
}

/// A run of tool-call fragments announces each call once.
proof fn lemma_calls_start_once(started: Set<usize>, calls: Seq<DeltaToolCall>)
    ensures
        starts_once(calls_events(started, calls), started, calls_started(started, calls)),
    decreases calls.len(),
{
    if calls.len() > 0 {
        let mid = calls_started(started, calls.drop_last());
        lemma_calls_start_once(started, calls.drop_last());
        let last = calls.last();
        let es = call_events(mid, last);
        let after = mid.insert(last.index);
        assert(starts_once(es, mid, after)) by {
            assert forall|i: int, j: int| 0 <= i < j < es.len() && (#[trigger] es[i]) is ToolCallStarted
                && (#[trigger] es[j]) is ToolCallStarted
                implies es[i]->ToolCallStarted_index != es[j]->ToolCallStarted_index by {
                assert(j >= 1);
                assert(!(es[j] is ToolCallStarted));
            }
        }
        lemma_starts_once_append(calls_events(started, calls.drop_last()), es, started, mid, after);
    }
}

/// A run of choices announces each call once.
proof fn lemma_choices_start_once(started: Set<usize>, choices: Seq<StreamChoice>)
    ensures
        starts_once(choices_events(started, choices), started, choices_started(started, choices)),
    decreases choices.len(),
{
    if choices.len() > 0 {
        let mid = choices_started(started, choices.drop_last());
        lemma_choices_start_once(started, choices.drop_last());
        let choice = choices.last();
        let text = match nonempty_text(choice.delta.content) {
            Some(t) => seq![ModelEventV::TextDelta(t)],
            None => Seq::<ModelEventV>::empty(),
        };
        let reasoning = match nonempty_text(choice.delta.reasoning_content) {
            Some(t) => seq![ModelEventV::ReasoningDelta(t)],
            None => Seq::<ModelEventV>::empty(),
        };
        lemma_no_starts(text + reasoning, mid);
        lemma_calls_start_once(mid, choice.delta.tool_calls@);
        lemma_starts_once_append(text + reasoning, calls_events(mid, choice.delta.tool_calls@), mid, mid,
            calls_started(mid, choice.delta.tool_calls@));
        assert(choice_events(mid, choice) == text + reasoning + calls_events(mid, choice.delta.tool_calls@));
        lemma_starts_once_append(choices_events(started, choices.drop_last()), choice_events(mid, choice),
            started, mid, choices_started(started, choices));
    }
}

/// Each tool call is announced once: feeding a chunk to a translator that
/// has announced `started` emits a start event only for indices not
/// announced before, at most one per index, and every index it announces
/// is remembered for later chunks.
pub proof fn law_tool_calls_start_once(started: Set<usize>, chunk: StreamChunk)
    ensures
        starts_once(chunk_events(started, chunk), started, choices_started(started, chunk.choices@)),
{
    let after = choices_started(started, chunk.choices@);
    lemma_choices_start_once(started, chunk.choices@);
    let usage = match chunk.usage {
        Some(u) => seq![ModelEventV::Usage(usage_of(u))],
        None => Seq::<ModelEventV>::empty(),
    };
    let finished = if chunk_finished(chunk) { seq![ModelEventV::Finished] } else { Seq::<ModelEventV>::empty() };
    lemma_no_starts(usage + finished, after);
    lemma_starts_once_append(choices_events(started, chunk.choices@), usage + finished, started, after, after);
    assert(chunk_events(started, chunk) =~= choices_events(started, chunk.choices@) + (usage + finished));
}

/// Whether every index announced after (`after`) but not before
/// (`started`) has a start event in `es`.
pub open spec fn starts_all(es: Seq<ModelEventV>, started: Set<usize>, after: Set<usize>) -> bool {
    forall|x: usize| #[trigger] after.contains(x) && !started.contains(x) ==>
        exists|i: int| 0 <= i < es.len() && (#[trigger] es[i]) is ToolCallStarted
            && es[i]->ToolCallStarted_index == x
}

/// Two runs that each announce all they add announce all together.
proof fn lemma_starts_all_append(a: Seq<ModelEventV>, b: Seq<ModelEventV>, s0: Set<usize>, s1: Set<usize>, s2: Set<usize>)
    requires
        starts_all(a, s0, s1),
        starts_all(b, s1, s2),
        s0.subset_of(s1),
    ensures
        starts_all(a + b, s0, s2),
{
    let ab = a + b;
    assert forall|x: usize| #[trigger] s2.contains(x) && !s0.contains(x) implies
        exists|i: int| 0 <= i < ab.len() && (#[trigger] ab[i]) is ToolCallStarted && ab[i]->ToolCallStarted_index == x by {
        if s1.contains(x) {
            let i = choose|i: int| 0 <= i < a.len() && (#[trigger] a[i]) is ToolCallStarted && a[i]->ToolCallStarted_index == x;
            assert(ab[i] == a[i]);
        } else {
            let i = choose|i: int| 0 <= i < b.len() && (#[trigger] b[i]) is ToolCallStarted && b[i]->ToolCallStarted_index == x;
            assert(ab[i + a.len()] == b[i]);
        }
    }
}

/// A run of fragments announces every index it adds.
proof fn lemma_calls_start_all(started: Set<usize>, calls: Seq<DeltaToolCall>)
    ensures
        starts_all(calls_events(started, calls), started, calls_started(started, calls)),
        started.subset_of(calls_started(started, calls)),
    decreases calls.len(),
{
    if calls.len() > 0 {
        let mid = calls_started(started, calls.drop_last());
        lemma_calls_start_all(started, calls.drop_last());
        let last = calls.last();
        let es = call_events(mid, last);
        let after = mid.insert(last.index);
        assert(starts_all(es, mid, after)) by {
            assert forall|x: usize| #[trigger] after.contains(x) && !mid.contains(x) implies
                exists|i: int| 0 <= i < es.len() && (#[trigger] es[i]) is ToolCallStarted && es[i]->ToolCallStarted_index == x by {
                assert(x == last.index);
                assert(es[0] is ToolCallStarted && es[0]->ToolCallStarted_index == x);
            }
        }
        lemma_starts_all_append(calls_events(started, calls.drop_last()), es, started, mid, after);
    }
}

/// A run of choices announces every index it adds.
proof fn lemma_choices_start_all(started: Set<usize>, choices: Seq<StreamChoice>)
    ensures
        starts_all(choices_events(started, choices), started, choices_started(started, choices)),
        started.subset_of(choices_started(started, choices)),
    decreases choices.len(),
{
    if choices.len() > 0 {
        let mid = choices_started(started, choices.drop_last());
        lemma_choices_start_all(started, choices.drop_last());
        let choice = choices.last();
        let text = match nonempty_text(choice.delta.content) {
            Some(t) => seq![ModelEventV::TextDelta(t)],
            None => Seq::<ModelEventV>::empty(),
        };
        let reasoning = match nonempty_text(choice.delta.reasoning_content) {
            Some(t) => seq![ModelEventV::ReasoningDelta(t)],
            None => Seq::<ModelEventV>::empty(),
        };
        lemma_calls_start_all(mid, choice.delta.tool_calls@);
        lemma_starts_all_append(text + reasoning, calls_events(mid, choice.delta.tool_calls@), mid, mid,
            calls_started(mid, choice.delta.tool_calls@));
        assert(choice_events(mid, choice) == text + reasoning + calls_events(mid, choice.delta.tool_calls@));
        lemma_starts_all_append(choices_events(started, choices.drop_last()), choice_events(mid, choice),
            started, mid, choices_started(started, choices));
    }
}

/// The events of a stream of chunks fed in order, from the announced set
/// `started`.
pub open spec fn stream_events(started: Set<usize>, chunks: Seq<StreamChunk>) -> Seq<ModelEventV>
    decreases chunks.len(),
{
    if chunks.len() == 0 {
        Seq::empty()
    } else {
        stream_events(started, chunks.drop_last()) + chunk_events(stream_started(started, chunks.drop_last()), chunks.last())
    }
}

/// The announced set after a stream of chunks.
pub open spec fn stream_started(started: Set<usize>, chunks: Seq<StreamChunk>) -> Set<usize>
    decreases chunks.len(),
{
    if chunks.len() == 0 {
        started
    } else {
        choices_started(stream_started(started, chunks.drop_last()), chunks.last().choices@)
    }
}

/// Whether some fragment of `calls` is for call `x`.
pub open spec fn in_calls(calls: Seq<DeltaToolCall>, x: usize) -> bool {
    exists|j: int| 0 <= j < calls.len() && (#[trigger] calls[j]).index == x
}

/// Whether some choice of `choices` has a fragment for call `x`.
pub open spec fn in_choices(choices: Seq<StreamChoice>, x: usize) -> bool {
    exists|c: int| 0 <= c < choices.len() && in_calls((#[trigger] choices[c]).delta.tool_calls@, x)
}

/// Whether some chunk of `chunks` has a fragment for call `x`.
pub open spec fn in_stream(chunks: Seq<StreamChunk>, x: usize) -> bool {
    exists|k: int| 0 <= k < chunks.len() && in_choices((#[trigger] chunks[k]).choices@, x)
}

proof fn lemma_calls_started_members(s: Set<usize>, calls: Seq<DeltaToolCall>, x: usize)
    ensures
        calls_started(s, calls).contains(x) == (s.contains(x) || in_calls(calls, x)),
    decreases calls.len(),
{
    if calls.len() > 0 {
        let front = calls.drop_last();
        lemma_calls_started_members(s, front, x);
        if in_calls(front, x) {
            let j = choose|j: int| 0 <= j < front.len() && (#[trigger] front[j]).index == x;
            assert(calls[j] == front[j]);
        }
        if in_calls(calls, x) && calls.last().index != x {
            let j = choose|j: int| 0 <= j < calls.len() && (#[trigger] calls[j]).index == x;
            assert(front[j] == calls[j]);
        }
        if calls.last().index == x {
            assert(calls[calls.len() - 1].index == x);
        }
    }
}

proof fn lemma_choices_started_members(s: Set<usize>, choices: Seq<StreamChoice>, x: usize)
    ensures
        choices_started(s, choices).contains(x) == (s.contains(x) || in_choices(choices, x)),
    decreases choices.len(),
{
    if choices.len() > 0 {
        let front = choices.drop_last();
        lemma_choices_started_members(s, front, x);
        lemma_calls_started_members(choices_started(s, front), choices.last().delta.tool_calls@, x);
        if in_choices(front, x) {
            let c = choose|c: int| 0 <= c < front.len() && in_calls((#[trigger] front[c]).delta.tool_calls@, x);
            assert(choices[c] == front[c]);
        }
        if in_choices(choices, x) && !in_calls(choices.last().delta.tool_calls@, x) {
            let c = choose|c: int| 0 <= c < choices.len() && in_calls((#[trigger] choices[c]).delta.tool_calls@, x);
            assert(c != choices.len() - 1);
            assert(front[c] == choices[c]);
        }
        if in_calls(choices.last().delta.tool_calls@, x) {
            assert(choices[choices.len() - 1] == choices.last());
        }
    }
}

proof fn lemma_stream_started_members(s: Set<usize>, chunks: Seq<StreamChunk>, x: usize)
    ensures
        stream_started(s, chunks).contains(x) == (s.contains(x) || in_stream(chunks, x)),
    decreases chunks.len(),
{
    if chunks.len() > 0 {
        let front = chunks.drop_last();
        lemma_stream_started_members(s, front, x);
        lemma_choices_started_members(stream_started(s, front), chunks.last().choices@, x);
        if in_stream(front, x) {
            let k = choose|k: int| 0 <= k < front.len() && in_choices((#[trigger] front[k]).choices@, x);
            assert(chunks[k] == front[k]);
        }
        if in_stream(chunks, x) && !in_choices(chunks.last().choices@, x) {
            let k = choose|k: int| 0 <= k < chunks.len() && in_choices((#[trigger] chunks[k]).choices@, x);
            assert(k != chunks.len() - 1);
            assert(front[k] == chunks[k]);
        }
        if in_choices(chunks.last().choices@, x) {
            assert(chunks[chunks.len() - 1] == chunks.last());
        }
    }
}

/// Announce-once and announce-all over a stream.
proof fn lemma_stream_starts(started: Set<usize>, chunks: Seq<StreamChunk>)
    ensures
        starts_once(stream_events(started, chunks), started, stream_started(started, chunks)),
        starts_all(stream_events(started, chunks), started, stream_started(started, chunks)),
    decreases chunks.len(),
{
    if chunks.len() > 0 {
        let front = chunks.drop_last();
        let mid = stream_started(started, front);
        let last = chunks.last();
        lemma_stream_starts(started, front);
        law_tool_calls_start_once(mid, last);
        lemma_choices_start_all(mid, last.choices@);
        let after = choices_started(mid, last.choices@);
        let usage = match last.usage {
            Some(u) => seq![ModelEventV::Usage(usage_of(u))],
            None => Seq::<ModelEventV>::empty(),
        };
        let finished = if chunk_finished(last) { seq![ModelEventV::Finished] } else { Seq::<ModelEventV>::empty() };
        assert(starts_all(usage + finished, after, after));
        lemma_starts_all_append(choices_events(mid, last.choices@), usage + finished, mid, after, after);
        assert(chunk_events(mid, last) =~= choices_events(mid, last.choices@) + (usage + finished));
        lemma_starts_once_append(stream_events(started, front), chunk_events(mid, last), started, mid, after);
        lemma_starts_all_append(stream_events(started, front), chunk_events(mid, last), started, mid, after);
    }
}

/// Over a whole stream fed to a fresh translator, each tool call is
/// announced exactly once: there is a start event for call `x` if and only
/// if some chunk has a fragment for `x`, and never two for the same call.
pub proof fn law_each_call_announced_exactly_once(chunks: Seq<StreamChunk>, x: usize)
    ensures
        (exists|i: int| 0 <= i < stream_events(Set::empty(), chunks).len()
            && (#[trigger] stream_events(Set::empty(), chunks)[i]) is ToolCallStarted
            && stream_events(Set::empty(), chunks)[i]->ToolCallStarted_index == x) == in_stream(chunks, x),
        forall|i: int, j: int| 0 <= i < j < stream_events(Set::empty(), chunks).len()
            && (#[trigger] stream_events(Set::empty(), chunks)[i]) is ToolCallStarted
            && (#[trigger] stream_events(Set::empty(), chunks)[j]) is ToolCallStarted
            ==> stream_events(Set::empty(), chunks)[i]->ToolCallStarted_index
                != stream_events(Set::empty(), chunks)[j]->ToolCallStarted_index,
{
    let es = stream_events(Set::empty(), chunks);
    let after = stream_started(Set::empty(), chunks);
    lemma_stream_starts(Set::empty(), chunks);
    lemma_stream_started_members(Set::empty(), chunks, x);
    if in_stream(chunks, x) {
        assert(after.contains(x) && !Set::<usize>::empty().contains(x));
    }
    if exists|i: int| 0 <= i < es.len() && (#[trigger] es[i]) is ToolCallStarted && es[i]->ToolCallStarted_index == x {
        let i = choose|i: int| 0 <= i < es.len() && (#[trigger] es[i]) is ToolCallStarted && es[i]->ToolCallStarted_index == x;
        assert(after.contains(es[i]->ToolCallStarted_index));
    }
}

} // verus!
