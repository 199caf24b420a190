//! The command-line frontend's own logic: the effective settings of the
//! arguments, how agent events render as text, REPL commands, and the
//! session picker. Terminal I/O is the caller's part.

use vstd::prelude::*;

use crate::event::{AgentEvent, AgentEventV};
use crate::json::{json_object_members, json_reencoded, json_string_contents, object_members, reencode_json, string_contents};
use crate::message::ToolResult;
use crate::persistence::{matching, resolve_prefix, short_form, PrefixMatch, SessionSummary, Timestamp};
use crate::text::{decimal, owned, push_char, push_str, split_lines, str_eq, text_lines, u64_to_decimal, usize_to_decimal};
use crate::tools::{char_is_white_space, is_white_space};

verus! {

broadcast use vstd::seq_lib::group_seq_properties;

// ------------------------------------------------------------------ arguments

/// The command-line arguments of `vava`.
#[derive(Debug, Clone, PartialEq, Eq)]
pub struct Cli {
    /// The prompt to run; without one the interactive REPL starts.
    pub prompt: Option<String>,
    /// Working directory (defaults to the current directory).
    pub cwd: Option<String>,
    /// The DeepSeek model to use.
    pub model: String,
    /// Enable thinking (reasoning) mode.
    pub thinking: bool,
    /// Disable thinking mode explicitly.
    pub no_thinking: bool,
    /// Show reasoning content in the output.
    pub debug: bool,
}

impl Cli {
    /// The effective thinking setting: `--thinking` wins over
    /// `--no-thinking`, which otherwise leaves thinking off.
    pub fn effective_thinking(&self) -> (r: bool)
        ensures
            r == self.thinking,
    {
        self.thinking
    }
}

/// Whether a REPL line is an exit command.
pub fn is_exit_command(line: &str) -> (r: bool)
    ensures
        r == (line@ == "quit"@ || line@ == "exit"@),
{
    str_eq(line, "quit") || str_eq(line, "exit")
}

/// `text` cut to at most `max` characters, with an ellipsis when something
/// was cut.
pub open spec fn truncated(text: Seq<char>, max: nat) -> Seq<char> {
    if text.len() > max { text.take(max as int).push('…') } else { text }
}

/// Truncate `text` to at most `max` characters, adding an ellipsis when
/// something was cut.
pub fn truncate(text: &str, max: usize) -> (r: String)
    ensures
        r@ == truncated(text@, max as nat),
{
    let n = text.unicode_len();
    if n > max {
        let mut out = owned(text.substring_char(0, max));
        push_char(&mut out, '…');
        out
    } else {
        owned(text)
    }
}

// ------------------------------------------------------------------ rendering

/// How many lines of a tool result are shown in full.
pub const RESULT_PREVIEW_LINES: usize = 8;
/// How many lines are shown when a result is cut.
pub const RESULT_TRUNCATED_LINES: usize = 4;

/// The compact one-line rendering of tool-call arguments: nothing for
/// `null` and for an empty object, otherwise their compact JSON.
pub open spec fn pretty(arguments: Seq<char>) -> Seq<char> {
    if json_object_members(arguments) == Some(Seq::<(Seq<char>, Seq<char>)>::empty()) {
        Seq::empty()
    } else {
        match json_reencoded(arguments) {
            Some(t) => if t == "null"@ { Seq::empty() } else { t },
            None => Seq::empty(),
        }
    }
}

/// The command of a bash-style call: arguments that are an object with a
/// single `command` key holding a string.
pub open spec fn lone_command(arguments: Seq<char>) -> Option<Seq<char>> {
    match json_object_members(arguments) {
        Some(ms) => if ms.len() == 1 && ms[0].0 == "command"@ {
            json_string_contents(ms[0].1)
        } else {
            None
        },
        None => None,
    }
}

/// The line describing a tool call.
pub open spec fn call_line(name: Seq<char>, arguments: Seq<char>) -> Seq<char> {
    match lone_command(arguments) {
        Some(command) => name + "\n  "@ + command,
        None => if pretty(arguments).len() == 0 { name } else { name + " "@ + pretty(arguments) },
    }
}

/// Compact rendering of tool-call arguments.
fn pretty_arguments(arguments: &str) -> (r: String)
    ensures
        r@ == pretty(arguments@),
{
    match object_members(arguments) {
        Some(members) => {
            if members.len() == 0 {
                proof {
                    assert(crate::json::pair_views(members@) =~= Seq::<(Seq<char>, Seq<char>)>::empty());
                }
                return String::new();
            }
            proof {
                assert(crate::json::pair_views(members@).len() > 0);
            }
        },
        None => {},
    }
    match reencode_json(arguments) {
        Some(t) => if str_eq(t.as_str(), "null") { String::new() } else { t },
        None => String::new(),
    }
}

/// One line describing a tool call; bash-style commands get their own
/// indented line.
fn render_call(name: &str, arguments: &str) -> (r: String)
    ensures
        r@ == call_line(name@, arguments@),
{
    match object_members(arguments) {
        Some(members) => {
            if members.len() == 1 && str_eq(members[0].0.as_str(), "command") {
                proof {
                    assert(crate::json::pair_views(members@)[0] == (members@[0].0@, members@[0].1@));
                }
                match string_contents(members[0].1.as_str()) {
                    Some(command) => {
                        let mut s = owned(name);
                        push_str(&mut s, "\n  ");
                        push_str(&mut s, command.as_str());
                        return s;
                    },
                    None => {},
                }
            } else {
                proof {
                    if members@.len() == 1 {
                        assert(crate::json::pair_views(members@)[0] == (members@[0].0@, members@[0].1@));
                    }
                }
            }
        },
        None => {},
    }
    let args = pretty_arguments(arguments);
    if args.unicode_len() == 0 {
        owned(name)
    } else {
        let mut s = owned(name);
        push_str(&mut s, " ");
        push_str(&mut s, args.as_str());
        s
    }
}

/// The first `end` lines of a tool result as they are shown.
pub open spec fn shown_lines(lines: Seq<Seq<char>>, end: int) -> Seq<char>
    decreases end,
{
    if end <= 0 {
        Seq::empty()
    } else {
        shown_lines(lines, end - 1) + if lines[end - 1].len() == 0 {
            "\n"@
        } else {
            "  "@ + lines[end - 1] + "\n"@
        }
    }
}

/// How a tool result renders: its lines indented (an empty line stays
/// empty), cut to four lines with a count of the rest when there are more
/// than eight, then a blank line.
pub open spec fn result_text(content: Seq<char>) -> Seq<char> {
    let lines = text_lines(content);
    if lines.len() == 0 {
        "\n"@
    } else {
        let shown = if lines.len() <= RESULT_PREVIEW_LINES { lines.len() as int } else { RESULT_TRUNCATED_LINES as int };
        shown_lines(lines, shown)
            + (if lines.len() > shown {
                "  … "@ + decimal((lines.len() - shown) as nat) + " more lines\n"@
            } else {
                Seq::empty()
            })
            + "\n"@
    }
}

/// Render a tool result.
pub fn render_result(result: &ToolResult, out: &mut String)
    ensures
        final(out)@ == old(out)@ + result_text(result.content@),
{
    let lines = split_lines(result.content.as_str());
    let ghost lv = lines@.map_values(|l: String| l@);
    let n = lines.len();
    if n == 0 {
        push_str(out, "\n");
        return;
    }
    let shown = if n <= RESULT_PREVIEW_LINES { n } else { RESULT_TRUNCATED_LINES };
    let ghost start = out@;
    let mut i: usize = 0;
    while i < shown
        invariant
            shown <= n == lv.len(),
            lv == lines@.map_values(|l: String| l@),
            0 <= i <= shown,
            out@ == start + shown_lines(lv, i as int),
        decreases shown - i,
    {
        proof {
            assert(lv[i as int] == lines@[i as int]@);
        }
        if lines[i].unicode_len() == 0 {
            push_str(out, "\n");
        } else {
            push_str(out, "  ");
            push_str(out, lines[i].as_str());
            push_str(out, "\n");
        }
        proof {
            assert(out@ =~= start + shown_lines(lv, i + 1));
        }
        i += 1;
    }
    let ghost listed = out@;
    if n > shown {
        push_str(out, "  … ");
        let more = usize_to_decimal(n - shown);
        push_str(out, more.as_str());
        push_str(out, " more lines\n");
    }
    push_str(out, "\n");
    proof {
        let rest = if lv.len() > shown {
            "  … "@ + decimal((lv.len() - shown) as nat) + " more lines\n"@
        } else {
            Seq::<char>::empty()
        };
        assert(out@ =~= start + (shown_lines(lv, shown as int) + rest + "\n"@));
    }
}

/// What one event adds to the output, and the state after it.
pub open spec fn render_step(show_reasoning: bool, announced: bool, event: AgentEventV) -> (bool, Seq<char>) {
    match event {
        AgentEventV::TurnStarted => (false, Seq::empty()),
        AgentEventV::TextDelta(d) => (announced, d),
        AgentEventV::ReasoningDelta(d) => if show_reasoning {
            (announced, d)
        } else if !announced {
            (true, "Thinking...\n\n"@)
        } else {
            (announced, Seq::empty())
        },
        AgentEventV::ToolCallStarted(call) => (false, "● "@ + call_line(call.name, call.arguments) + "\n"@),
        AgentEventV::ToolCallFinished { call_id, result } => (announced, "\n"@ + result_text(result.content)),
        AgentEventV::AssistantMessageCompleted(_) => (announced, Seq::empty()),
        AgentEventV::TurnCompleted => (announced, "\n"@),
        AgentEventV::Error(m) => (announced, "\nerror: "@ + m + "\n\n"@),
    }
}

/// Renders agent events as text.
pub struct Renderer {
    /// Whether reasoning deltas are shown in full (the `--debug` flag).
    show_reasoning: bool,
    /// Whether the "Thinking..." marker was printed for the current stretch.
    thinking_announced: bool,
}

impl Renderer {
    /// Whether reasoning is shown in full.
    pub closed spec fn shows_reasoning(&self) -> bool {
        self.show_reasoning
    }

    /// Whether the "Thinking..." marker was printed.
    pub closed spec fn announced(&self) -> bool {
        self.thinking_announced
    }

    /// A renderer; `show_reasoning` streams reasoning text instead of a
    /// marker.
    pub fn new(show_reasoning: bool) -> (r: Self)
        ensures
            r.shows_reasoning() == show_reasoning,
            !r.announced(),
    {
        Renderer { show_reasoning, thinking_announced: false }
    }

    /// Render the user prompt as a header line.
    pub fn render_prompt(&self, prompt: &str, out: &mut String)
        ensures
            final(out)@ == old(out)@ + "> "@ + prompt@ + "\n\n"@,
    {
        push_str(out, "> ");
        push_str(out, prompt);
        push_str(out, "\n\n");
    }

    /// Render one event.
    pub fn render(&mut self, event: &AgentEvent, out: &mut String)
        ensures
            final(self).shows_reasoning() == old(self).shows_reasoning(),
            (final(self).announced(), final(out)@.skip(old(out)@.len() as int))
                == render_step(old(self).shows_reasoning(), old(self).announced(), event@),
            final(out)@.take(old(out)@.len() as int) == old(out)@,
    {
        let ghost start = out@;
        match event {
            AgentEvent::TurnStarted => {
                self.thinking_announced = false;
            },
            AgentEvent::TextDelta { delta } => {
                push_str(out, delta.as_str());
            },
            AgentEvent::ReasoningDelta { delta } => {
                if self.show_reasoning {
                    push_str(out, delta.as_str());
                } else if !self.thinking_announced {
                    self.thinking_announced = true;
                    push_str(out, "Thinking...\n\n");
                }
            },
            AgentEvent::ToolCallStarted { call } => {
                self.thinking_announced = false;
                push_str(out, "● ");
                let line = render_call(call.name.as_str(), call.arguments.as_str());
                push_str(out, line.as_str());
                push_str(out, "\n");
            },
            AgentEvent::ToolCallFinished { result, .. } => {
                push_str(out, "\n");
                render_result(result, out);
            },
            AgentEvent::AssistantMessageCompleted { .. } => {},
            AgentEvent::TurnCompleted => {
                push_str(out, "\n");
            },
            AgentEvent::Error { message } => {
                push_str(out, "\nerror: ");
                push_str(out, message.as_str());
                push_str(out, "\n\n");
            },
        }
        proof {
            assert(out@.take(start.len() as int) =~= start);
            let added = render_step(old(self).show_reasoning, old(self).thinking_announced, event@).1;
            assert(out@ =~= start + added);
            assert(out@.skip(start.len() as int) =~= added);
        }
    }
}

// ------------------------------------------------------------------ picker

/// `s` without its leading white space.
pub open spec fn strip_front(s: Seq<char>) -> Seq<char>
    decreases s.len(),
{
    if s.len() > 0 && is_white_space(s[0]) { strip_front(s.drop_first()) } else { s }
}

/// `s` without its trailing white space.
pub open spec fn strip_back(s: Seq<char>) -> Seq<char>
    decreases s.len(),
{
    if s.len() > 0 && is_white_space(s.last()) { strip_back(s.drop_last()) } else { s }
}

/// `s` without white space at either end (std's `str::trim`).
pub open spec fn trimmed(s: Seq<char>) -> Seq<char> {
    strip_back(strip_front(s))
}

/// Trim white space from both ends.
pub fn trim(s: &str) -> (r: &str)
    ensures
        r@ == trimmed(s@),
{
    let n = s.unicode_len();
    let mut i: usize = 0;
    while i < n && char_is_white_space(s.get_char(i))
        invariant
            n == s@.len(),
            0 <= i <= n,
            strip_front(s@) == strip_front(s@.subrange(i as int, n as int)),
        decreases n - i,
    {
        proof {
            assert(s@.subrange(i as int, n as int).drop_first() =~= s@.subrange(i + 1, n as int));
        }
        i += 1;
    }
    let mut j: usize = n;
    proof {
        assert(strip_front(s@) == s@.subrange(i as int, n as int));
    }
    while j > i && char_is_white_space(s.get_char(j - 1))
        invariant
            n == s@.len(),
            0 <= i <= j <= n,
            strip_front(s@) == s@.subrange(i as int, n as int),
            trimmed(s@) == strip_back(s@.subrange(i as int, j as int)),
        decreases j,
    {
        proof {
            assert(s@.subrange(i as int, j as int).drop_last() =~= s@.subrange(i as int, j - 1));
        }
        j -= 1;
    }
    s.substring_char(i, j)
}

/// The value of a run of decimal digits.
pub open spec fn digits_value(d: Seq<char>) -> nat
    decreases d.len(),
{
    if d.len() == 0 { 0 } else { digits_value(d.drop_last()) * 10 + ((d.last() as nat) - 48) as nat }
}

/// Whether every character is a decimal digit.
pub open spec fn all_digits(d: Seq<char>) -> bool {
    forall|i: int| 0 <= i < d.len() ==> '0' <= #[trigger] d[i] <= '9'
}

/// What `str::parse::<usize>` accepts: an optional `+`, then one or more
/// decimal digits whose value fits in `usize`.
pub open spec fn parsed_usize(s: Seq<char>) -> Option<nat> {
    let d = if s.len() > 0 && s[0] == '+' { s.drop_first() } else { s };
    if d.len() > 0 && all_digits(d) && digits_value(d) <= usize::MAX {
        Some(digits_value(d))
    } else {
        None
    }
}

/// A longer run of digits is worth at least as much.
proof fn lemma_digits_grow(d: Seq<char>, j: int, k: int)
    requires
        0 <= j <= k <= d.len(),
        all_digits(d),
    ensures
        digits_value(d.take(j)) <= digits_value(d.take(k)),
    decreases k - j,
{
    if j < k {
        assert(d.take(k).drop_last() =~= d.take(k - 1));
        lemma_digits_grow(d, j, k - 1);
    }
}

/// A digit that pushes a run's value past `usize::MAX` leaves the whole run
/// unparsable.
proof fn lemma_overflow(d: Seq<char>, i: int, value: int, digit: int)
    requires
        0 <= i < d.len(),
        all_digits(d.take(i)),
        '0' <= d[i] <= '9',
        digit == (d[i] as int) - 48,
        value == digits_value(d.take(i)),
        value * 10 + digit > usize::MAX,
    ensures
        !(all_digits(d) && digits_value(d) <= usize::MAX),
{
    assert(d.take(i + 1).drop_last() =~= d.take(i));
    if all_digits(d) {
        lemma_digits_grow(d, i + 1, d.len() as int);
        assert(d.take(d.len() as int) =~= d);
    }
}

/// The value of a run of digits, or `None` when it holds something else or
/// does not fit in `usize`.
fn parse_digits(d: &str) -> (r: Option<usize>)
    ensures
        (d@.len() > 0 && all_digits(d@) && digits_value(d@) <= usize::MAX) ==> r == Some(digits_value(d@) as usize),
        !(d@.len() > 0 && all_digits(d@) && digits_value(d@) <= usize::MAX) ==> r is None,
{
    let n = d.unicode_len();
    if n == 0 {
        return None;
    }
    let mut value: usize = 0;
    let mut i: usize = 0;
    while i < n
        invariant
            n == d@.len(),
            0 <= i <= n,
            all_digits(d@.take(i as int)),
            value == digits_value(d@.take(i as int)),
        decreases n - i,
    {
        let c = d.get_char(i);
        if c < '0' || c > '9' {
            return None;
        }
        let digit: usize = (c as u32 - 48) as usize;
        proof {
            assert(d@.take(i + 1).drop_last() =~= d@.take(i as int));
        }
        if value > (usize::MAX - digit) / 10 {
            proof {
                assert(value * 10 + digit > usize::MAX) by (nonlinear_arith)
                    requires
                        value > (usize::MAX - digit) / 10,
                        digit <= 9;
                lemma_overflow(d@, i as int, value as int, digit as int);
            }
            return None;
        }
        value = value * 10 + digit;
        proof {
            assert forall|k: int| 0 <= k < i + 1 implies '0' <= #[trigger] d@.take(i + 1)[k] <= '9' by {
                if k < i {
                    assert(d@.take(i + 1)[k] == d@.take(i as int)[k]);
                }
            }
        }
        i += 1;
    }
    proof {
        assert(d@.take(n as int) =~= d@);
    }
    Some(value)
}

/// Parse a `usize` the way `str::parse` does.
pub fn parse_usize(s: &str) -> (r: Option<usize>)
    ensures
        match parsed_usize(s@) {
            Some(v) => r == Some(v as usize),
            None => r is None,
        },
{
    let n = s.unicode_len();
    if n > 0 && s.get_char(0) == '+' {
        let d = s.substring_char(1, n);
        proof {
            assert(d@ =~= s@.drop_first());
        }
        parse_digits(d)
    } else {
        parse_digits(s)
    }
}

/// The outcome of interpreting one line of picker input.
#[derive(Debug, Clone, PartialEq, Eq)]
pub enum PickResult<'a> {
    /// The line selected one session.
    Picked(&'a SessionSummary),
    /// The line was empty, out of range, or matched nothing.
    Cancelled,
    /// The line was a prefix matching several sessions.
    Ambiguous(Vec<&'a SessionSummary>),
}

/// The abstract outcome of a picker answer.
pub enum PickV {
    Picked(SessionSummary),
    Cancelled,
    Ambiguous(Seq<SessionSummary>),
}

/// The abstract view of a picker outcome.
pub open spec fn pick_view(r: PickResult) -> PickV {
    match r {
        PickResult::Picked(s) => PickV::Picked(*s),
        PickResult::Cancelled => PickV::Cancelled,
        PickResult::Ambiguous(v) => PickV::Ambiguous(v@.map_values(|x: &SessionSummary| *x)),
    }
}

/// How a picker answer is read: trimmed, a number within range picks by
/// position (`0` cancels); anything else, out-of-range numbers included,
/// is matched as a session-id prefix.
pub open spec fn pick_outcome(input: Seq<char>, sessions: Seq<SessionSummary>) -> PickV {
    let t = trimmed(input);
    let by_prefix = if t.len() == 0 {
        PickV::Cancelled
    } else {
        let m = matching(sessions, t);
        if m.len() == 0 {
            PickV::Cancelled
        } else if m.len() == 1 {
            PickV::Picked(m[0])
        } else {
            PickV::Ambiguous(m)
        }
    };
    match parsed_usize(t) {
        Some(n) => if n == 0 {
            PickV::Cancelled
        } else if n <= sessions.len() {
            PickV::Picked(sessions[n - 1])
        } else {
            by_prefix
        },
        None => by_prefix,
    }
}

/// Interpret a picker answer: a 1-based number or a session-id prefix.
pub fn choose_session<'a>(input: &str, sessions: &'a [SessionSummary]) -> (r: PickResult<'a>)
    ensures
        pick_view(r) == pick_outcome(input@, sessions@),
{
    let input = trim(input);
    match parse_usize(input) {
        Some(number) => {
            if number == 0 {
                return PickResult::Cancelled;
            }
            if number <= sessions.len() {
                return PickResult::Picked(&sessions[number - 1]);
            }
        },
        None => {},
    }
    match resolve_prefix(sessions, input) {
        PrefixMatch::Unique(summary) => PickResult::Picked(summary),
        PrefixMatch::NoMatch => PickResult::Cancelled,
        PrefixMatch::Ambiguous(matches) => PickResult::Ambiguous(matches),
    }
}

// ------------------------------------------------------------------ listings

/// What std's `Debug` formatting of a string gives: the text quoted, with
/// quotes, backslashes and unprintable characters escaped.
pub uninterp spec fn debug_quoted_text(s: Seq<char>) -> Seq<char>;

/// Quote a string the way `{:?}` does (std's `Debug` for `str`). Claimed:
/// the result is `debug_quoted_text(s)`.
#[verifier::external_body]
pub(crate) fn debug_quoted(s: &str) -> (r: String)
    ensures
        r@ == debug_quoted_text(s@),
{
    format!("{:?}", s)
}

/// The banner shown when a session is resumed:
/// `Resumed 01KABC — "Fix the failing payment tests"`.
pub open spec fn banner_text(summary: SessionSummary) -> Seq<char> {
    match summary.first_user_message {
        Some(first) => "Resumed "@ + short_form(summary.id@) + " — "@
            + debug_quoted_text(truncated(first@, 60)),
        None => "Resumed "@ + short_form(summary.id@),
    }
}

/// The one-line banner shown when a session is resumed at startup.
pub fn resumed_banner(summary: &SessionSummary) -> (r: String)
    ensures
        r@ == banner_text(*summary),
{
    let mut s = owned("Resumed ");
    push_str(&mut s, summary.id.short());
    match &summary.first_user_message {
        Some(first) => {
            push_str(&mut s, " — ");
            let cut = truncate(first.as_str(), 60);
            let quoted = debug_quoted(cut.as_str());
            push_str(&mut s, quoted.as_str());
        },
        None => {},
    }
    s
}

/// The nanoseconds from `then` to `now` (negative when `then` is later).
pub open spec fn elapsed_nanos(now: Timestamp, then: Timestamp) -> int {
    (now.secs - then.secs) * 1_000_000_000 + (now.nanos - then.nanos)
}

/// A compact relative time for an update at `then`, seen at `now`: under a
/// minute `just now`, then whole minutes, hours, `yesterday`, and days.
pub open spec fn relative_text(now: Timestamp, then: Timestamp) -> Seq<char> {
    let t = elapsed_nanos(now, then);
    if t < 60_000_000_000 {
        "just now"@
    } else {
        let secs = t / 1_000_000_000;
        if secs / 60 < 60 {
            decimal((secs / 60) as nat) + " min ago"@
        } else if secs / 3600 < 24 {
            decimal((secs / 3600) as nat) + " hr ago"@
        } else if secs / 86400 < 2 {
            "yesterday"@
        } else {
            decimal((secs / 86400) as nat) + " days ago"@
        }
    }
}

/// The relative time of an update at `then`, seen at `now`.
pub fn relative_time_at(now: Timestamp, then: Timestamp) -> (r: String)
    ensures
        r@ == relative_text(now, then),
{
    let t: i128 = (now.secs as i128 - then.secs as i128) * 1_000_000_000 + (now.nanos as i128 - then.nanos as i128);
    if t < 60_000_000_000 {
        return owned("just now");
    }
    let secs: i128 = t / 1_000_000_000;
    assert(secs == elapsed_nanos(now, then) / 1_000_000_000);
    if secs / 60 < 60 {
        let mut s = u64_to_decimal((secs / 60) as u64);
        push_str(&mut s, " min ago");
        s
    } else if secs / 3600 < 24 {
        let mut s = u64_to_decimal((secs / 3600) as u64);
        push_str(&mut s, " hr ago");
        s
    } else if secs / 86400 < 2 {
        owned("yesterday")
    } else {
        assert(secs / 86400 < 0x1_0000_0000_0000_0000) by (nonlinear_arith)
            requires
                secs < 0x1_0000_0000_0000_0000 * 2,
                secs >= 0;
        let mut s = u64_to_decimal((secs / 86400) as u64);
        push_str(&mut s, " days ago");
        s
    }
}

/// The current time, from `chrono::Utc::now` (`timestamp`,
/// `timestamp_subsec_nanos`). Nothing is claimed of it.
#[verifier::external_body]
fn now_instant() -> (r: Timestamp)
{
    let now = chrono::Utc::now();
    Timestamp { secs: now.timestamp(), nanos: now.timestamp_subsec_nanos() }
}

/// A compact relative timestamp for an update, seen now.
pub fn relative_time(updated: Timestamp) -> (r: String)
    ensures
        exists|now: Timestamp| r@ == relative_text(now, updated),
{
    let now = now_instant();
    relative_time_at(now, updated)
}

/// One picker line: its 1-based number, the short id, the relative update
/// time and the quoted first prompt (cut to 48 characters).
pub open spec fn listing_line(index: nat, summary: SessionSummary, now: Timestamp) -> Seq<char> {
    decimal(index + 1) + ". "@ + short_form(summary.id@) + "  "@ + relative_text(now, summary.updated_at)
        + "  "@ + debug_quoted_text(truncated(
            match summary.first_user_message { Some(f) => f@, None => Seq::empty() },
            48,
        ))
}

/// Whether `lines` is the numbered picker listing seen at `now`: a title, a
/// blank line, then one line per session.
pub open spec fn is_listing(lines: Seq<String>, sessions: Seq<SessionSummary>, root: Seq<char>, now: Timestamp) -> bool {
    &&& lines.len() == sessions.len() + 2
    &&& lines[0]@ == "Sessions for "@ + root
    &&& lines[1]@ == Seq::<char>::empty()
    &&& forall|i: int| 0 <= i < sessions.len() ==> (#[trigger] lines[i + 2])@ == listing_line(i as nat, sessions[i], now)
}

/// The numbered picker listing, seen at `now`.
pub fn listing_lines_at(sessions: &[SessionSummary], root: &str, now: Timestamp) -> (r: Vec<String>)
    ensures
        is_listing(r@, sessions@, root@, now),
{
    let mut title = owned("Sessions for ");
    push_str(&mut title, root);
    let mut lines: Vec<String> = Vec::new();
    lines.push(title);
    lines.push(String::new());
    let mut i: usize = 0;
    while i < sessions.len()
        invariant
            0 <= i <= sessions@.len(),
            lines@.len() == i + 2,
            lines@[0]@ == "Sessions for "@ + root@,
            lines@[1]@ == Seq::<char>::empty(),
            forall|k: int| 0 <= k < i ==> (#[trigger] lines@[k + 2])@ == listing_line(k as nat, sessions@[k], now),
        decreases sessions@.len() - i,
    {
        let summary = &sessions[i];
        let first = match &summary.first_user_message {
            Some(f) => truncate(f.as_str(), 48),
            None => String::new(),
        };
        let mut line = usize_to_decimal_checked(i);
        push_str(&mut line, ". ");
        push_str(&mut line, summary.id.short());
        push_str(&mut line, "  ");
        let when = relative_time_at(now, summary.updated_at);
        push_str(&mut line, when.as_str());
        push_str(&mut line, "  ");
        let quoted = debug_quoted(first.as_str());
        push_str(&mut line, quoted.as_str());
        proof {
            let f = match sessions@[i as int].first_user_message { Some(f) => f@, None => Seq::<char>::empty() };
            assert(first@ == truncated(f, 48));
            assert(line@ =~= listing_line(i as nat, sessions@[i as int], now));
        }
        lines.push(line);
        i += 1;
    }
    lines
}

/// The decimal form of `i + 1`.
fn usize_to_decimal_checked(i: usize) -> (r: String)
    requires
        i < usize::MAX,
    ensures
        r@ == decimal((i + 1) as nat),
{
    usize_to_decimal(i + 1)
}

/// The numbered picker listing shown by `vava -r` and `/resume`, with
/// update times relative to now.
pub fn listing_lines(sessions: &[SessionSummary], root: &str) -> (r: Vec<String>)
    ensures
        exists|now: Timestamp| is_listing(r@, sessions@, root@, now),
{
    let now = now_instant();
    listing_lines_at(sessions, root, now)
}

// ------------------------------------------------------------------ session info

/// The `YYYY-MM-DD HH:MM` rendering (UTC) `chrono` gives of the instant
/// `secs`, `nanos`, or `None` when it is out of `chrono`'s range.
pub uninterp spec fn utc_minutes_of(secs: i64, nanos: u32) -> Option<Seq<char>>;

/// Render an instant as `%Y-%m-%d %H:%M` in UTC with `chrono`
/// (`DateTime::<Utc>::from_timestamp`, then `format`). Claimed: the result
/// is `utc_minutes_of(secs, nanos)`.
#[verifier::external_body]
fn utc_minutes(t: Timestamp) -> (r: Option<String>)
    ensures
        crate::message::opt_str(r) == utc_minutes_of(t.secs, t.nanos),
{
    match chrono::DateTime::<chrono::Utc>::from_timestamp(t.secs, t.nanos) {
        Some(d) => Some(d.format("%Y-%m-%d %H:%M").to_string()),
        None => None,
    }
}

/// The minute of an instant as text, empty when out of range.
pub open spec fn minutes_text(t: Timestamp) -> Seq<char> {
    match utc_minutes_of(t.secs, t.nanos) {
        Some(s) => s,
        None => Seq::empty(),
    }
}

/// The `/session` information block for a session with `message_count`
/// messages in its transcript.
pub fn info_lines(summary: &SessionSummary, message_count: usize) -> (r: Vec<String>)
    ensures
        r@.len() == 5,
        r@[0]@ == "Session:    "@ + summary.id@,
        r@[1]@ == "Repository: "@ + summary.repository_root@,
        r@[2]@ == "Created:    "@ + minutes_text(summary.created_at),
        r@[3]@ == "Updated:    "@ + minutes_text(summary.updated_at),
        r@[4]@ == "Messages:   "@ + decimal(message_count as nat),
{
    let mut lines: Vec<String> = Vec::new();
    let mut a = owned("Session:    ");
    push_str(&mut a, summary.id.full());
    lines.push(a);
    let mut b = owned("Repository: ");
    push_str(&mut b, summary.repository_root.as_str());
    lines.push(b);
    let mut c = owned("Created:    ");
    match utc_minutes(summary.created_at) {
        Some(t) => push_str(&mut c, t.as_str()),
        None => {},
    }
    lines.push(c);
    let mut d = owned("Updated:    ");
    match utc_minutes(summary.updated_at) {
        Some(t) => push_str(&mut d, t.as_str()),
        None => {},
    }
    lines.push(d);
    let mut e = owned("Messages:   ");
    let digits = usize_to_decimal(message_count);
    push_str(&mut e, digits.as_str());
    lines.push(e);
    proof {
        assert(c@ =~= "Created:    "@ + minutes_text(summary.created_at));
        assert(d@ =~= "Updated:    "@ + minutes_text(summary.updated_at));
    }
    lines
}

// ------------------------------------------------------------------ REPL

/// What the line REPL must do after an input.
#[derive(Debug, Clone, PartialEq, Eq)]
pub enum ReplAction {
    /// Nothing (an empty line at the prompt).
    Nothing,
    /// Leave the REPL.
    Exit,
    /// Print this line.
    Say(String),
    /// Start a new session (`/new`).
    NewSession,
    /// Show the session's information (`/session`).
    ShowSession,
    /// List the repository's sessions (`/resume`).
    ListSessions,
    /// Run a turn with this prompt.
    RunTurn(String),
    /// Resolve this answer against the sessions offered.
    Pick(String, Vec<SessionSummary>),
    /// Print an empty line (a session choice cancelled with Ctrl-C).
    NewLine,
}

/// The REPL's state: waiting for a prompt, or for a session choice after
/// `/resume`.
pub struct ReplState {
    choosing: Option<Vec<SessionSummary>>,
}

impl ReplState {
    /// The sessions offered for a choice, if one is awaited.
    pub closed spec fn offered(&self) -> Option<Seq<SessionSummary>> {
        match self.choosing {
            Some(v) => Some(v@),
            None => None,
        }
    }

    /// Waiting for a prompt.
    pub fn new() -> (r: Self)
        ensures
            r.offered() is None,
    {
        ReplState { choosing: None }
    }

    /// The text shown before reading a line.
    pub fn prompt_text(&self) -> (r: &'static str)
        ensures
            r@ == if self.offered() is Some { "session # or id (empty to cancel): "@ } else { "> "@ },
    {
        if self.choosing.is_some() { "session # or id (empty to cancel): " } else { "> " }
    }

    /// Listed sessions are offered for a choice.
    pub fn offer(&mut self, sessions: Vec<SessionSummary>)
        ensures
            final(self).offered() == Some(sessions@),
    {
        self.choosing = Some(sessions);
    }

    /// One line read: trimmed; an empty line cancels a choice; at the
    /// prompt, `quit`/`exit` leave, `/new`, `/session` and `/resume` manage
    /// sessions, and anything else is a prompt; while choosing, the line is
    /// the answer. Every line ends a choice.
    pub fn on_line(&mut self, line: &str) -> (r: ReplAction)
        ensures
            final(self).offered() is None,
            ({
                let t = trimmed(line@);
                if t.len() == 0 {
                    if old(self).offered() is Some {
                        r matches ReplAction::Say(m) && m@ == "No session selected."@
                    } else {
                        r == ReplAction::Nothing
                    }
                } else if old(self).offered() is Some {
                    r matches ReplAction::Pick(i, v) && i@ == t && Some(v@) == old(self).offered()
                } else if t == "quit"@ || t == "exit"@ {
                    r == ReplAction::Exit
                } else if t == "/new"@ {
                    r == ReplAction::NewSession
                } else if t == "/session"@ {
                    r == ReplAction::ShowSession
                } else if t == "/resume"@ {
                    r == ReplAction::ListSessions
                } else {
                    r matches ReplAction::RunTurn(p) && p@ == t
                }
            }),
    {
        let input = owned(trim(line));
        let mut choosing: Option<Vec<SessionSummary>> = None;
        std::mem::swap(&mut choosing, &mut self.choosing);
        if input.as_str().unicode_len() == 0 {
            return match choosing {
                Some(_) => ReplAction::Say(owned("No session selected.")),
                None => ReplAction::Nothing,
            };
        }
        match choosing {
            Some(sessions) => ReplAction::Pick(input, sessions),
            None => {
                if is_exit_command(input.as_str()) {
                    ReplAction::Exit
                } else if str_eq(input.as_str(), "/new") {
                    ReplAction::NewSession
                } else if str_eq(input.as_str(), "/session") {
                    ReplAction::ShowSession
                } else if str_eq(input.as_str(), "/resume") {
                    ReplAction::ListSessions
                } else {
                    ReplAction::RunTurn(input)
                }
            },
        }
    }

    /// Ctrl-C while idle: it leaves the REPL at the prompt, and cancels a
    /// session choice.
    pub fn on_interrupt(&mut self) -> (r: ReplAction)
        ensures
            final(self).offered() is None,
            r == if old(self).offered() is Some { ReplAction::NewLine } else { ReplAction::Exit },
    {
        if self.choosing.is_some() {
            self.choosing = None;
            ReplAction::NewLine
        } else {
            ReplAction::Exit
        }
    }
}

/// Short results are shown whole: a result of one to eight lines renders
/// every one of its lines, in order, with no count of hidden lines; a
/// longer one renders its first four lines and counts the rest.
pub proof fn law_short_results_are_shown_whole(content: Seq<char>)
    ensures
        1 <= text_lines(content).len() <= 8 ==>
            result_text(content) == shown_lines(text_lines(content), text_lines(content).len() as int) + "\n"@,
        text_lines(content).len() > 8 ==>
            result_text(content) == shown_lines(text_lines(content), 4) + "  … "@
                + decimal((text_lines(content).len() - 4) as nat) + " more lines\n"@ + "\n"@,
{
    let n = text_lines(content).len();
    if 1 <= n <= 8 {
        assert(shown_lines(text_lines(content), n as int) + Seq::<char>::empty() + "\n"@
            =~= shown_lines(text_lines(content), n as int) + "\n"@);
    }
}

/// The rendering of lines `0..end` is that of `0..end - 1` followed by the
/// last one, indented (or an empty line): every line shown appears in
/// order.
pub proof fn law_shown_lines_extend(lines: Seq<Seq<char>>, end: int)
    requires
        1 <= end <= lines.len(),
    ensures
        shown_lines(lines, end) == shown_lines(lines, end - 1)
            + if lines[end - 1].len() == 0 { "\n"@ } else { "  "@ + lines[end - 1] + "\n"@ },
{
}

} // verus!
