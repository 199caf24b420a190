//! SSE framing: raw bytes in, complete `data:` payloads out.
//!
//! The framing parser is incremental: bytes may be fed split at any
//! boundary (inside a line, inside a multi-byte character) and the payloads
//! that come out do not depend on where the splits were.

use vstd::prelude::*;
use vstd::utf8::*;

use crate::deepseek_error::DeepSeekError;
use crate::event::{ModelEvent, ModelEventV, model_event_views};
use crate::response::StreamChunk;
use crate::text::{bytes_to_string, owned, push_char, push_str, str_eq};
use crate::translate::{ChunkTranslator, chunk_events, choices_started};

verus! {

broadcast use vstd::seq_lib::group_seq_properties;

/// The index of the first `\n` byte in `s`, or `-1` when there is none.
pub open spec fn first_newline(s: Seq<u8>) -> int
    decreases s.len(),
{
    if s.len() == 0 {
        -1
    } else if s[0] == 10u8 {
        0
    } else {
        let r = first_newline(s.drop_first());
        if r < 0 { -1 } else { r + 1 }
    }
}

/// A line without its terminating `\n`, with one trailing `\r` removed.
pub open spec fn strip_cr(line: Seq<u8>) -> Seq<u8> {
    if line.len() > 0 && line.last() == 13u8 { line.drop_last() } else { line }
}

/// The bytes `data:`.
pub open spec fn data_prefix() -> Seq<u8> {
    seq![100u8, 97u8, 116u8, 97u8, 58u8]
}

/// Whether `line` starts with `data:`.
pub open spec fn is_data_line(line: Seq<u8>) -> bool {
    line.len() >= 5 && line.subrange(0, 5) == data_prefix()
}

/// The value of a `data:` line: what follows the prefix, minus one optional
/// leading space.
pub open spec fn data_value(line: Seq<u8>) -> Seq<u8> {
    let rest = line.subrange(5, line.len() as int);
    if rest.len() > 0 && rest[0] == 32u8 { rest.drop_first() } else { rest }
}

/// The effect of one complete line on the event block being assembled.
pub struct LineStep {
    /// The `data:` payload being assembled after the line.
    pub current: Option<Seq<char>>,
    /// Payloads completed by this line (at most one).
    pub emitted: Seq<Seq<char>>,
    /// Whether the line was a `data:` field that is not valid UTF-8.
    pub failed: bool,
}

/// What one line does:
/// - a blank line dispatches the payload being assembled, if any;
/// - a `:` line is a comment;
/// - a `data:` line starts a payload or appends to it after a `\n`;
///   invalid UTF-8 in its value is a failure;
/// - any other field is ignored.
pub open spec fn line_step(current: Option<Seq<char>>, line: Seq<u8>) -> LineStep {
    if line.len() == 0 {
        match current {
            Some(p) => LineStep { current: None, emitted: seq![p], failed: false },
            None => LineStep { current: None, emitted: seq![], failed: false },
        }
    } else if line[0] == 58u8 {
        LineStep { current, emitted: seq![], failed: false }
    } else if is_data_line(line) {
        let v = data_value(line);
        if !valid_utf8(v) {
            LineStep { current, emitted: seq![], failed: true }
        } else {
            let value = decode_utf8(v);
            match current {
                Some(c) => LineStep { current: Some(c + seq!['\n'] + value), emitted: seq![], failed: false },
                None => LineStep { current: Some(value), emitted: seq![], failed: false },
            }
        }
    } else {
        LineStep { current, emitted: seq![], failed: false }
    }
}

/// The outcome of consuming every complete line of a byte buffer.
pub struct Drained {
    /// The payload being assembled afterwards.
    pub current: Option<Seq<char>>,
    /// The bytes left over: everything after the last consumed line.
    pub rest: Seq<u8>,
    /// The payloads completed, in order (empty on failure).
    pub payloads: Seq<Seq<char>>,
    /// Whether a line failed; consumption stops right after that line.
    pub failed: bool,
}

/// Consume complete lines from `buf`, front to back.
pub open spec fn drain(current: Option<Seq<char>>, buf: Seq<u8>) -> Drained
    decreases buf.len(),
{
    let i = first_newline(buf);
    if i < 0 || i >= buf.len() {
        Drained { current, rest: buf, payloads: seq![], failed: false }
    } else {
        let line = strip_cr(buf.subrange(0, i));
        let tail = buf.subrange(i + 1, buf.len() as int);
        let step = line_step(current, line);
        if step.failed {
            Drained { current, rest: tail, payloads: seq![], failed: true }
        } else {
            prepend(step.emitted, drain(step.current, tail))
        }
    }
}

/// Put payloads completed earlier in front of a later outcome.
pub open spec fn prepend(ps: Seq<Seq<char>>, d: Drained) -> Drained {
    if d.failed { d } else { Drained { payloads: ps + d.payloads, ..d } }
}

/// The views of a vector of strings.
pub open spec fn string_views(v: Seq<String>) -> Seq<Seq<char>> {
    v.map_values(|s: String| s@)
}

/// Incremental SSE framing parser.
pub struct SseParser {
    /// Bytes received but not yet assembled into complete lines.
    buffer: Vec<u8>,
    /// The `data:` payload currently being assembled.
    current: Option<String>,
    /// Whether the current event block has seen at least one `data:` line.
    saw_data: bool,
}

/// The view of an optional string.
pub open spec fn opt_view(o: Option<String>) -> Option<Seq<char>> {
    match o {
        Some(s) => Some(s@),
        None => None,
    }
}

impl Default for SseParser {
    /// A parser with nothing buffered.
    fn default() -> (r: Self)
        ensures
            r.wf(),
            r.pending() == Seq::<u8>::empty(),
            r.assembling() is None,
    {
        SseParser::new()
    }
}

impl SseParser {
    /// The bytes held back, waiting for the end of their line.
    pub closed spec fn pending(&self) -> Seq<u8> {
        self.buffer@
    }

    /// The payload being assembled, if any.
    pub closed spec fn assembling(&self) -> Option<Seq<char>> {
        opt_view(self.current)
    }

    /// Internal consistency: a block has seen data exactly when a payload
    /// is being assembled.
    pub closed spec fn wf(&self) -> bool {
        self.saw_data == (self.current is Some)
    }

    /// A parser with nothing buffered.
    pub fn new() -> (r: Self)
        ensures
            r.wf(),
            r.pending() == Seq::<u8>::empty(),
            r.assembling() is None,
    {
        SseParser { buffer: Vec::new(), current: None, saw_data: false }
    }

    /// Feed a chunk of raw bytes, returning the `data:` payloads that it
    /// completes. On a `data:` field that is not valid UTF-8 the parser
    /// stops right after that line and reports an `Sse` error.
    pub fn push(&mut self, bytes: &[u8]) -> (r: Result<Vec<String>, DeepSeekError>)
        requires
            old(self).wf(),
        ensures
            final(self).wf(),
            final(self).pending() == drain(old(self).assembling(), old(self).pending() + bytes@).rest,
            final(self).assembling() == drain(old(self).assembling(), old(self).pending() + bytes@).current,
            r is Ok <==> !drain(old(self).assembling(), old(self).pending() + bytes@).failed,
            r matches Ok(v) ==> string_views(v@) == drain(old(self).assembling(), old(self).pending() + bytes@).payloads,
            r matches Err(e) ==> e is Sse,
    {
        let ghost full = old(self).buffer@ + bytes@;
        let ghost c0 = old(self).assembling();
        self.buffer.extend_from_slice(bytes);
        assert(self.buffer@ =~= full);
        let len = self.buffer.len();
        let mut payloads: Vec<String> = Vec::new();
        let mut start: usize = 0;
        proof {
            assert(full.subrange(0, len as int) =~= full);
            lemma_prepend_empty(drain(c0, full));
            assert(string_views(payloads@) =~= Seq::<Seq<char>>::empty());
        }
        loop
            invariant_except_break
                full == old(self).buffer@ + bytes@,
                c0 == opt_view(old(self).current),
                self.buffer@ == full,
                len == full.len(),
                start <= len,
                self.saw_data == (self.current is Some),
                drain(c0, full) == prepend(string_views(payloads@),
                    drain(opt_view(self.current), full.subrange(start as int, len as int))),
            ensures
                full == old(self).buffer@ + bytes@,
                c0 == opt_view(old(self).current),
                start <= len,
                self.buffer@ == full,
                self.saw_data == (self.current is Some),
                drain(c0, full) == prepend(string_views(payloads@),
                    drain(opt_view(self.current), full.subrange(start as int, len as int))),
                first_newline(full.subrange(start as int, len as int)) < 0,
            decreases len - start,
        {
            let mut end = start;
            while end < len && self.buffer[end] != 10u8
                invariant
                    self.buffer@ == full,
                    len == full.len(),
                    start <= end <= len,
                    forall|k: int| start <= k < end ==> full[k] != 10u8,
                decreases len - end,
            {
                end += 1;
            }
            let ghost suffix = full.subrange(start as int, len as int);
            proof {
                lemma_first_newline_at(suffix, (end - start) as int);
            }
            if end == len {
                break;
            }
            let mut line_end = end;
            if line_end > start && self.buffer[line_end - 1] == 13u8 {
                line_end -= 1;
            }
            let mut line: Vec<u8> = Vec::new();
            let mut k = start;
            while k < line_end
                invariant
                    self.buffer@ == full,
                    len == full.len(),
                    start <= k <= line_end <= end < len,
                    line@ == full.subrange(start as int, k as int),
                decreases line_end - k,
            {
                line.push(self.buffer[k]);
                k += 1;
            }
            let ghost cur = opt_view(self.current);
            let ghost before = payloads@;
            assert(line@ == strip_cr(suffix.subrange(0, (end - start) as int)));
            assert(suffix.subrange((end - start) + 1, suffix.len() as int)
                =~= full.subrange(end + 1, len as int));
            let step = self.process_line(line.as_slice(), &mut payloads);
            start = end + 1;
            match step {
                Ok(()) => {
                    proof {
                        let st = line_step(cur, line@);
                        assert(string_views(payloads@) =~= string_views(before) + st.emitted);
                        lemma_prepend_assoc(string_views(before), st.emitted,
                            drain(st.current, full.subrange(start as int, len as int)));
                    }
                },
                Err(e) => {
                    let mut rest: Vec<u8> = Vec::new();
                    let mut j = start;
                    while j < len
                        invariant
                            self.buffer@ == full,
                            len == full.len(),
                            start <= j <= len,
                            rest@ == full.subrange(start as int, j as int),
                        decreases len - j,
                    {
                        rest.push(self.buffer[j]);
                        j += 1;
                    }
                    proof {
                        let st = line_step(cur, line@);
                        assert(st.failed);
                        let tail = full.subrange(start as int, len as int);
                        assert(drain(cur, suffix) == Drained { current: cur, rest: tail, payloads: seq![], failed: true });
                        assert(rest@ =~= tail);
                        let d = drain(c0, full);
                        assert(d == drain(cur, suffix));
                        assert(d.failed);
                        assert(d.current == opt_view(self.current));
                    }
                    self.buffer = rest;
                    return Err(e);
                },
            }
        }
        let mut rest: Vec<u8> = Vec::new();
        let mut j = start;
        while j < len
            invariant
                self.buffer@ == full,
                len == full.len(),
                start <= j <= len,
                rest@ == full.subrange(start as int, j as int),
            decreases len - j,
        {
            rest.push(self.buffer[j]);
            j += 1;
        }
        self.buffer = rest;
        Ok(payloads)
    }

    /// Deliver any trailing payload not terminated by a blank line. Call
    /// once after the underlying stream ends.
    pub fn finish(&mut self) -> (r: Option<String>)
        requires
            old(self).wf(),
        ensures
            final(self).wf(),
            opt_view(r) == old(self).assembling(),
            final(self).assembling() is None,
            final(self).pending() == old(self).pending(),
    {
        if self.saw_data {
            self.saw_data = false;
            self.current.take()
        } else {
            None
        }
    }

    /// Apply one complete line (without its line ending).
    fn process_line(&mut self, line: &[u8], out: &mut Vec<String>) -> (r: Result<(), DeepSeekError>)
        requires
            old(self).saw_data == (old(self).current is Some),
        ensures
            final(self).buffer == old(self).buffer,
            final(self).saw_data == (final(self).current is Some),
            ({
                let st = line_step(opt_view(old(self).current), line@);
                &&& (r is Ok <==> !st.failed)
                &&& (r matches Err(e) ==> e is Sse)
                &&& (r is Ok ==> opt_view(final(self).current) == st.current
                        && string_views(final(out)@) == string_views(old(out)@) + st.emitted)
                &&& (r is Err ==> final(self).current == old(self).current
                        && final(out)@ == old(out)@)
            }),
    {
        let ghost views0 = string_views(out@);
        if line.len() == 0 {
            if self.saw_data {
                if let Some(payload) = self.current.take() {
                    out.push(payload);
                    assert(string_views(out@) =~= views0 + seq![string_views(out@).last()]);
                }
                self.saw_data = false;
            }
            assert(string_views(out@) =~= views0 + line_step(opt_view(old(self).current), line@).emitted);
            return Ok(());
        }
        if line[0] == 58u8 {
            assert(string_views(out@) =~= views0 + Seq::<Seq<char>>::empty());
            return Ok(());
        }
        let is_data = line.len() >= 5 && line[0] == 100u8 && line[1] == 97u8 && line[2] == 116u8
            && line[3] == 97u8 && line[4] == 58u8;
        proof {
            if line@.len() >= 5 {
                assert(line@.subrange(0, 5) == data_prefix() <==> (line@[0] == 100u8
                    && line@[1] == 97u8 && line@[2] == 116u8 && line@[3] == 97u8 && line@[4] == 58u8)) by {
                    if line@[0] == 100u8 && line@[1] == 97u8 && line@[2] == 116u8 && line@[3] == 97u8
                        && line@[4] == 58u8 {
                        assert(line@.subrange(0, 5) =~= data_prefix());
                    }
                    if line@.subrange(0, 5) == data_prefix() {
                        assert(line@.subrange(0, 5)[0] == data_prefix()[0]);
                        assert(line@.subrange(0, 5)[1] == data_prefix()[1]);
                        assert(line@.subrange(0, 5)[2] == data_prefix()[2]);
                        assert(line@.subrange(0, 5)[3] == data_prefix()[3]);
                        assert(line@.subrange(0, 5)[4] == data_prefix()[4]);
                    }
                }
            }
        }
        if is_data {
            let mut from: usize = 5;
            if line.len() > 5 && line[5] == 32u8 {
                from = 6;
            }
            let mut value_bytes: Vec<u8> = Vec::new();
            let mut k = from;
            while k < line.len()
                invariant
                    from <= k <= line@.len(),
                    value_bytes@ == line@.subrange(from as int, k as int),
                decreases line@.len() - k,
            {
                value_bytes.push(line[k]);
                k += 1;
            }
            assert(value_bytes@ =~= data_value(line@));
            let value = match bytes_to_string(value_bytes) {
                Some(v) => v,
                None => {
                    return Err(DeepSeekError::Sse(owned("data field is not valid UTF-8")));
                },
            };
            proof {
                vstd::utf8::encode_utf8_decode_utf8(value@);
            }
            if self.saw_data {
                if let Some(current) = &mut self.current {
                    push_char(current, '\n');
                    push_str(current, value.as_str());
                }
            } else {
                self.current = Some(value);
            }
            self.saw_data = true;
            assert(string_views(out@) =~= views0 + Seq::<Seq<char>>::empty());
            return Ok(());
        }
        assert(string_views(out@) =~= views0 + Seq::<Seq<char>>::empty());
        Ok(())
    }
}

/// One `data:` payload from the stream, interpreted.
#[derive(Debug, Clone)]
pub enum StreamEvent {
    /// A regular streaming chunk.
    Chunk(StreamChunk),
    /// The end-of-stream marker `[DONE]`.
    Done,
}

/// Interpret one `data:` payload, given the outcome of decoding it as a
/// chunk (the decoded chunk, or the decoder's message): `[DONE]` ends the
/// stream whatever the decoder said; otherwise a decoded chunk is a chunk
/// and a decoding failure is a `Protocol` error.
pub fn parse_payload(payload: &str, decoded: Result<StreamChunk, String>) -> (r: Result<StreamEvent, DeepSeekError>)
    ensures
        payload@ == "[DONE]"@ ==> r matches Ok(StreamEvent::Done),
        payload@ != "[DONE]"@ ==> match decoded {
            Ok(c) => r == Ok::<StreamEvent, DeepSeekError>(StreamEvent::Chunk(c)),
            Err(m) => (r matches Err(DeepSeekError::Protocol(t)) && t@ == "invalid chunk JSON: "@ + m@),
        },
{
    if str_eq(payload, "[DONE]") {
        return Ok(StreamEvent::Done);
    }
    match decoded {
        Ok(chunk) => Ok(StreamEvent::Chunk(chunk)),
        Err(message) => {
            let mut text = owned("invalid chunk JSON: ");
            push_str(&mut text, message.as_str());
            Err(DeepSeekError::Protocol(text))
        },
    }
}

/// Interpret one payload through the translator: a chunk's events, nothing
/// for `[DONE]`, or the decoding error.
pub fn events_for_payload(payload: &str, decoded: Result<StreamChunk, String>, translator: &mut ChunkTranslator)
    -> (r: Result<Vec<ModelEvent>, DeepSeekError>)
    ensures
        payload@ == "[DONE]"@ ==> (r matches Ok(v) && v@.len() == 0),
        payload@ == "[DONE]"@ ==> final(translator).announced() == old(translator).announced(),
        payload@ != "[DONE]"@ ==> match decoded {
            Ok(c) => (r matches Ok(v) && model_event_views(v@) == chunk_events(old(translator).announced(), c))
                && final(translator).announced() == choices_started(old(translator).announced(), c.choices@),
            Err(m) => (r matches Err(DeepSeekError::Protocol(t)) && t@ == "invalid chunk JSON: "@ + m@)
                && final(translator).announced() == old(translator).announced(),
        },
{
    match parse_payload(payload, decoded) {
        Ok(StreamEvent::Chunk(chunk)) => Ok(translator.feed(&chunk)),
        Ok(StreamEvent::Done) => Ok(Vec::new()),
        Err(e) => Err(e),
    }
}

/// Whether a sequence of events holds the finish marker.
pub open spec fn has_finished(es: Seq<ModelEventV>) -> bool {
    exists|i: int| 0 <= i < es.len() && es[i] is Finished
}

/// The end-of-response bookkeeping of a streamed response: whether the
/// finish marker went by, so that one can be added when the connection ends
/// without it.
pub struct StreamClose {
    saw_finished: bool,
}

impl StreamClose {
    /// Whether the finish marker has been seen.
    pub closed spec fn seen(&self) -> bool {
        self.saw_finished
    }

    /// Nothing seen yet.
    pub fn new() -> (r: Self)
        ensures
            !r.seen(),
    {
        StreamClose { saw_finished: false }
    }

    /// Note events that were passed on.
    pub fn observe(&mut self, events: &Vec<ModelEvent>)
        ensures
            final(self).seen() == (old(self).seen() || has_finished(model_event_views(events@))),
    {
        let mut i: usize = 0;
        while i < events.len()
            invariant
                0 <= i <= events@.len(),
                self.saw_finished == (old(self).saw_finished || exists|k: int| 0 <= k < i && events@[k] is Finished),
            decreases events@.len() - i,
        {
            if let ModelEvent::Finished = &events[i] {
                self.saw_finished = true;
            }
            i += 1;
        }
        assert(has_finished(model_event_views(events@)) <==> exists|k: int| 0 <= k < events@.len() && events@[k] is Finished) by {
            if has_finished(model_event_views(events@)) {
                let k = choose|k: int| 0 <= k < events@.len() && model_event_views(events@)[k] is Finished;
                assert(events@[k] is Finished);
            }
            if exists|k: int| 0 <= k < events@.len() && events@[k] is Finished {
                let k = choose|k: int| 0 <= k < events@.len() && events@[k] is Finished;
                assert(model_event_views(events@)[k] is Finished);
            }
        }
    }

    /// The events to add when the connection ends: the finish marker
    /// exactly when none was seen.
    pub fn closing(&self) -> (r: Vec<ModelEvent>)
        ensures
            self.seen() ==> r@.len() == 0,
            !self.seen() ==> model_event_views(r@) == seq![ModelEventV::Finished],
    {
        let mut r = Vec::new();
        if !self.saw_finished {
            r.push(ModelEvent::Finished);
            assert(model_event_views(r@) =~= seq![ModelEventV::Finished]);
        }
        r
    }
}

/// `first_newline` finds the first `\n`.
pub proof fn lemma_first_newline_at(s: Seq<u8>, j: int)
    requires
        0 <= j <= s.len(),
        forall|k: int| 0 <= k < j ==> s[k] != 10u8,
        j < s.len() ==> s[j] == 10u8,
    ensures
        j == s.len() ==> first_newline(s) < 0,
        j < s.len() ==> first_newline(s) == j,
    decreases j,
{
    if j > 0 {
        lemma_first_newline_at(s.drop_first(), j - 1);
    } else if s.len() == 0 {
    }
}

/// A `first_newline` result is either absent or an index of a `\n`, with
/// no `\n` before it.
pub proof fn lemma_first_newline_bounds(s: Seq<u8>)
    ensures
        first_newline(s) < 0 ==> forall|k: int| 0 <= k < s.len() ==> s[k] != 10u8,
        first_newline(s) >= 0 ==> first_newline(s) < s.len() && s[first_newline(s)] == 10u8
            && forall|k: int| 0 <= k < first_newline(s) ==> s[k] != 10u8,
    decreases s.len(),
{
    if s.len() > 0 && s[0] != 10u8 {
        lemma_first_newline_bounds(s.drop_first());
        assert forall|k: int| 1 <= k < s.len() implies s[k] == s.drop_first()[k - 1] by {}
    }
}

/// The bytes left over by a successful `drain` hold no `\n`.
pub proof fn lemma_drain_rest(c: Option<Seq<char>>, s: Seq<u8>)
    ensures
        !drain(c, s).failed ==> first_newline(drain(c, s).rest) < 0,
    decreases s.len(),
{
    let i = first_newline(s);
    lemma_first_newline_bounds(s);
    if i >= 0 && i < s.len() {
        let step = line_step(c, strip_cr(s.subrange(0, i)));
        if !step.failed {
            lemma_drain_rest(step.current, s.subrange(i + 1, s.len() as int));
        }
    }
}

/// A `\n` found in a prefix is found at the same place in any extension.
pub proof fn lemma_first_newline_extend(x: Seq<u8>, y: Seq<u8>)
    requires
        first_newline(x) >= 0,
    ensures
        first_newline(x + y) == first_newline(x),
{
    lemma_first_newline_bounds(x);
    let i = first_newline(x);
    let xy = x + y;
    assert forall|k: int| 0 <= k < i implies xy[k] != 10u8 by {
        assert(xy[k] == x[k]);
    }
    assert(xy[i] == x[i]);
    lemma_first_newline_at(xy, i);
}

/// Draining `x + y` is draining `x` and then draining what `x` left over
/// followed by `y`.
pub proof fn lemma_drain_split(c: Option<Seq<char>>, x: Seq<u8>, y: Seq<u8>)
    requires
        !drain(c, x).failed,
    ensures
        drain(c, x + y) == prepend(drain(c, x).payloads, drain(drain(c, x).current, drain(c, x).rest + y)),
    decreases x.len(),
{
    let i = first_newline(x);
    lemma_first_newline_bounds(x);
    if i < 0 {
        lemma_prepend_empty(drain(c, x + y));
    } else {
        lemma_first_newline_extend(x, y);
        let xy = x + y;
        assert(xy.subrange(0, i) =~= x.subrange(0, i));
        let line = strip_cr(x.subrange(0, i));
        let tx = x.subrange(i + 1, x.len() as int);
        assert(xy.subrange(i + 1, xy.len() as int) =~= tx + y);
        let step = line_step(c, line);
        assert(!step.failed);
        let d2 = drain(step.current, tx);
        assert(!d2.failed);
        lemma_drain_split(step.current, tx, y);
        lemma_prepend_assoc(step.emitted, d2.payloads, drain(d2.current, d2.rest + y));
    }
}

/// Framing does not depend on how the byte stream is split: feeding `a`
/// and then `b` completes the same payloads, in the same order, and leaves
/// the same state behind as feeding `a` followed by `b` at once.
pub proof fn law_framing_ignores_fragmentation(
    current: Option<Seq<char>>,
    pending: Seq<u8>,
    a: Seq<u8>,
    b: Seq<u8>,
)
    requires
        !drain(current, pending + a).failed,
    ensures
        ({
            let first = drain(current, pending + a);
            let second = drain(first.current, first.rest + b);
            let whole = drain(current, pending + (a + b));
            &&& whole.current == second.current
            &&& whole.rest == second.rest
            &&& whole.failed == second.failed
            &&& !second.failed ==> whole.payloads == first.payloads + second.payloads
        }),
{
    assert(pending + (a + b) =~= (pending + a) + b);
    lemma_drain_split(current, pending + a, b);
}

/// Prepending nothing changes nothing.
pub proof fn lemma_prepend_empty(d: Drained)
    ensures
        prepend(Seq::<Seq<char>>::empty(), d) == d,
{
    if !d.failed {
        assert(Seq::<Seq<char>>::empty() + d.payloads =~= d.payloads);
    }
}

/// Prepending in two steps is prepending the concatenation.
pub proof fn lemma_prepend_assoc(a: Seq<Seq<char>>, b: Seq<Seq<char>>, d: Drained)
    ensures
        prepend(a, prepend(b, d)) == prepend(a + b, d),
{
    if !d.failed {
        assert(a + (b + d.payloads) =~= (a + b) + d.payloads);
    }
}

/// A failure met in `x` is met again when more bytes follow.
proof fn lemma_drain_failure_persists(c: Option<Seq<char>>, x: Seq<u8>, y: Seq<u8>)
    requires
        drain(c, x).failed,
    ensures
        drain(c, x + y).failed,
    decreases x.len(),
{
    let i = first_newline(x);
    lemma_first_newline_bounds(x);
    if i >= 0 {
        lemma_first_newline_extend(x, y);
        let xy = x + y;
        assert(xy.subrange(0, i) =~= x.subrange(0, i));
        let tx = x.subrange(i + 1, x.len() as int);
        assert(xy.subrange(i + 1, xy.len() as int) =~= tx + y);
        let step = line_step(c, strip_cr(x.subrange(0, i)));
        if !step.failed {
            lemma_drain_failure_persists(step.current, tx, y);
        }
    }
}

/// A blank line ends every event: when the bytes received so far end with
/// an empty line (two line endings in a row) and framing did not fail,
/// every payload has been dispatched and nothing is held back, so `finish`
/// has nothing left to deliver.
pub proof fn law_blank_line_dispatches_everything(c: Option<Seq<char>>, buf: Seq<u8>)
    requires
        !drain(c, buf + seq![10u8, 10u8]).failed,
    ensures
        drain(c, buf + seq![10u8, 10u8]).current is None,
        drain(c, buf + seq![10u8, 10u8]).rest == Seq::<u8>::empty(),
{
    let nn = seq![10u8, 10u8];
    if drain(c, buf).failed {
        lemma_drain_failure_persists(c, buf, nn);
    }
    let d = drain(c, buf);
    lemma_drain_split(c, buf, nn);
    lemma_drain_rest(c, buf);
    lemma_first_newline_bounds(d.rest);
    let z = d.rest + nn;
    assert forall|k: int| 0 <= k < d.rest.len() implies z[k] != 10u8 by {
        assert(z[k] == d.rest[k]);
    }
    assert(z[d.rest.len() as int] == 10u8);
    lemma_first_newline_at(z, d.rest.len() as int);
    assert(z.subrange(0, d.rest.len() as int) =~= d.rest);
    let tail = z.subrange(d.rest.len() as int + 1, z.len() as int);
    assert(tail =~= seq![10u8]);
    let step = line_step(d.current, strip_cr(d.rest));
    if !step.failed {
        let one = seq![10u8];
        lemma_first_newline_at(one, 0);
        assert(one.subrange(0, 0) =~= Seq::<u8>::empty());
        assert(one.subrange(1, 1) =~= Seq::<u8>::empty());
        lemma_first_newline_at(Seq::<u8>::empty(), 0);
        assert(drain(None, Seq::<u8>::empty()).current is None);
        assert(drain(step.current, one).current is None);
        assert(drain(step.current, one).rest =~= Seq::<u8>::empty());
    }
}

} // verus!
