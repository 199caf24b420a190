//! The terminal UI's own logic: its view state, how agent events fill the
//! scrollback, how keys are decided, and what each frame shows. Drawing
//! the frame and running turns is the caller's part.

use vstd::prelude::*;

use crate::cli::{choose_session, pick_outcome, render_step, trim, trimmed, PickResult, PickV, Renderer};
use crate::error::AgentError;
use crate::event::AgentEvent;
use crate::persistence::{short_form, SessionSummary};
use crate::text::{nl_pieces, owned, push_char, push_str, str_eq};

verus! {

broadcast use vstd::seq_lib::group_seq_properties;

/// Maximum scrollback lines kept.
pub const MAX_SCROLLBACK: usize = 10000;

/// The pieces of a text between `\n`s (at least one, possibly empty).
pub fn split_pieces(s: &str) -> (r: Vec<String>)
    ensures
        r@.map_values(|p: String| p@) == nl_pieces(s@),
{
    let n = s.unicode_len();
    let mut pieces: Vec<String> = Vec::new();
    let mut cur = String::new();
    let mut i: usize = 0;
    proof {
        assert(s@.take(0) =~= Seq::<char>::empty());
    }
    while i < n
        invariant
            n == s@.len(),
            0 <= i <= n,
            pieces@.map_values(|p: String| p@).push(cur@) == nl_pieces(s@.take(i as int)),
        decreases n - i,
    {
        let c = s.get_char(i);
        let ghost before = pieces@.map_values(|p: String| p@).push(cur@);
        proof {
            assert(s@.take(i + 1).drop_last() =~= s@.take(i as int));
        }
        if c == '\n' {
            let done = cur;
            pieces.push(done);
            cur = String::new();
            proof {
                assert(pieces@.map_values(|p: String| p@).push(cur@) =~= before.push(Seq::<char>::empty()));
            }
        } else {
            push_char(&mut cur, c);
            proof {
                assert(pieces@.map_values(|p: String| p@).push(cur@)
                    =~= before.update(before.len() - 1, before.last().push(c)));
            }
        }
        i += 1;
    }
    proof {
        assert(s@.take(n as int) =~= s@);
    }
    pieces.push(cur);
    pieces
}

/// One rendered line added to the scrollback: when that makes it longer
/// than `MAX_SCROLLBACK`, the oldest line is dropped.
pub open spec fn push_capped(lines: Seq<Seq<char>>, line: Seq<char>) -> Seq<Seq<char>> {
    let all = lines.push(line);
    if all.len() > MAX_SCROLLBACK { all.drop_first() } else { all }
}

/// Rendered lines added to the scrollback one by one.
pub open spec fn capped(lines: Seq<Seq<char>>, added: Seq<Seq<char>>) -> Seq<Seq<char>>
    decreases added.len(),
{
    if added.len() == 0 {
        lines
    } else {
        push_capped(capped(lines, added.drop_last()), added.last())
    }
}

/// A key, as the terminal UI tells them apart.
#[derive(Debug, Clone, Copy, PartialEq, Eq)]
pub enum Key {
    /// Ctrl-C.
    Interrupt,
    Enter,
    Char(char),
    Backspace,
    Up,
    Down,
    PageUp,
    PageDown,
    /// Any other key.
    Other,
}

/// What the caller must do after a key.
#[derive(Debug, Clone, PartialEq, Eq)]
pub enum KeyAction {
    /// Nothing more.
    Nothing,
    /// Leave the terminal UI.
    Exit,
    /// Cancel the running turn.
    CancelTurn,
    /// Start a new session (`/new`).
    NewSession,
    /// Show the session's information (`/session`).
    ShowSession,
    /// List the repository's sessions for picking (`/resume`).
    ListSessions,
    /// Run a turn with this prompt.
    StartTurn(String),
    /// Resolve this picker answer against these sessions.
    Pick(String, Vec<SessionSummary>),
}

/// The terminal UI's view state.
pub struct TuiState {
    model: String,
    renderer: Renderer,
    /// Complete lines of the conversation.
    lines: Vec<String>,
    /// A partial line still being streamed.
    pending: String,
    input: String,
    /// Whether the view is pinned to the newest lines.
    follow_bottom: bool,
    /// Scroll offset (in lines) when not following the bottom.
    scroll_top: usize,
    /// Status message.
    status: String,
    /// Whether a turn is in flight.
    busy: bool,
    /// The listed sessions while a picker answer is awaited.
    pick: Option<Vec<SessionSummary>>,
}

/// What one frame shows.
#[derive(Debug, Clone, PartialEq, Eq)]
pub struct Frame {
    /// The title bar: name, busy marker and model.
    pub title: String,
    /// The conversation text.
    pub conversation: String,
    /// The conversation panel's title.
    pub panel_title: String,
    /// The first conversation line shown.
    pub scroll: usize,
    /// The input line.
    pub input: String,
    /// Whether the input line is dimmed (a turn is running).
    pub dim_input: bool,
}

/// Lines joined with `\n`.
pub open spec fn joined_lines(lines: Seq<Seq<char>>) -> Seq<char>
    decreases lines.len(),
{
    if lines.len() == 0 {
        Seq::empty()
    } else if lines.len() == 1 {
        lines[0]
    } else {
        joined_lines(lines.drop_last()) + "\n"@ + lines.last()
    }
}

/// The views of lines.
pub open spec fn line_views(v: Seq<String>) -> Seq<Seq<char>> {
    v.map_values(|l: String| l@)
}

impl TuiState {
    /// The conversation's complete lines.
    pub closed spec fn conversation(&self) -> Seq<Seq<char>> {
        line_views(self.lines@)
    }

    /// The partial line being streamed.
    pub closed spec fn partial(&self) -> Seq<char> {
        self.pending@
    }

    /// The input line's text.
    pub closed spec fn typed(&self) -> Seq<char> {
        self.input@
    }

    /// The status message.
    pub closed spec fn status_text(&self) -> Seq<char> {
        self.status@
    }

    /// Whether a turn is in flight.
    pub closed spec fn working(&self) -> bool {
        self.busy
    }

    /// Whether the view follows the newest lines.
    pub closed spec fn following(&self) -> bool {
        self.follow_bottom
    }

    /// The scroll offset.
    pub closed spec fn offset(&self) -> nat {
        self.scroll_top as nat
    }

    /// The sessions awaiting a picker answer.
    pub closed spec fn picking(&self) -> Option<Seq<SessionSummary>> {
        match self.pick {
            Some(v) => Some(v@),
            None => None,
        }
    }

    /// The model's name.
    pub closed spec fn model_name(&self) -> Seq<char> {
        self.model@
    }

    /// A fresh state for `model`.
    pub fn new(model: &str, show_reasoning: bool) -> (r: Self)
        ensures
            r.model_name() == model@,
            r.conversation() == Seq::<Seq<char>>::empty(),
            r.partial() == Seq::<char>::empty(),
            r.typed() == Seq::<char>::empty(),
            r.status_text() == Seq::<char>::empty(),
            !r.working(),
            r.following(),
            r.offset() == 0,
            r.picking() is None,
    {
        let r = TuiState {
            model: owned(model),
            renderer: Renderer::new(show_reasoning),
            lines: Vec::new(),
            pending: String::new(),
            input: String::new(),
            follow_bottom: true,
            scroll_top: 0,
            status: String::new(),
            busy: false,
            pick: None,
        };
        proof {
            assert(line_views(r.lines@) =~= Seq::<Seq<char>>::empty());
        }
        r
    }

    /// A turn starts: busy, no status, no partial line, following the end.
    pub fn begin_turn(&mut self)
        ensures
            final(self).working(),
            final(self).status_text() == Seq::<char>::empty(),
            final(self).partial() == Seq::<char>::empty(),
            final(self).following(),
            final(self).conversation() == old(self).conversation(),
            final(self).typed() == old(self).typed(),
    {
        self.busy = true;
        self.status = String::new();
        self.pending = String::new();
        self.follow_bottom = true;
    }

    /// A turn ended: the partial line is kept as a line, and the status
    /// tells how the turn ended (`(cancelled)`, or the error).
    pub fn finish_turn(&mut self, result: Result<(), AgentError>)
        ensures
            !final(self).working(),
            final(self).partial() == Seq::<char>::empty(),
            final(self).conversation() == if old(self).partial().len() > 0 {
                old(self).conversation().push(old(self).partial())
            } else {
                old(self).conversation()
            },
            final(self).status_text() == match result {
                Ok(()) => Seq::<char>::empty(),
                Err(AgentError::Cancelled) => "(cancelled)"@,
                Err(e) => "error: "@ + crate::error::agent_error_text(e),
            },
    {
        self.busy = false;
        if self.pending.as_str().unicode_len() > 0 {
            let mut line = String::new();
            std::mem::swap(&mut line, &mut self.pending);
            let ghost before = line_views(self.lines@);
            self.lines.push(line);
            proof {
                assert(line_views(self.lines@) =~= before.push(old(self).pending@));
            }
        }
        self.status = match result {
            Ok(()) => String::new(),
            Err(AgentError::Cancelled) => owned("(cancelled)"),
            Err(e) => {
                let mut s = owned("error: ");
                let text = e.to_string();
                push_str(&mut s, text.as_str());
                s
            },
        };
    }

    /// Add rendered lines to the scrollback one by one, each dropping the
    /// oldest line when the scrollback grows past its cap.
    fn push_lines_capped(&mut self, added: Vec<String>)
        ensures
            final(self).conversation() == capped(old(self).conversation(), line_views(added@)),
            final(self).partial() == old(self).partial(),
            final(self).typed() == old(self).typed(),
            final(self).status_text() == old(self).status_text(),
            final(self).working() == old(self).working(),
            final(self).following() == old(self).following(),
            final(self).offset() == old(self).offset(),
            final(self).picking() == old(self).picking(),
            final(self).model_name() == old(self).model_name(),
            final(self).renderer == old(self).renderer,
    {
        let ghost start = line_views(self.lines@);
        let ghost av = line_views(added@);
        let n = added.len();
        let mut k: usize = 0;
        while k < n
            invariant
                n == added@.len(),
                av == line_views(added@),
                0 <= k <= n,
                line_views(self.lines@) == capped(start, av.take(k as int)),
                self.pending == old(self).pending,
                self.input == old(self).input,
                self.status == old(self).status,
                self.busy == old(self).busy,
                self.follow_bottom == old(self).follow_bottom,
                self.scroll_top == old(self).scroll_top,
                self.pick == old(self).pick,
                self.model == old(self).model,
                self.renderer == old(self).renderer,
            decreases n - k,
        {
            let line = added[k].clone();
            let ghost before = line_views(self.lines@);
            self.lines.push(line);
            proof {
                assert(av[k as int] == added@[k as int]@);
                assert(line_views(self.lines@) =~= before.push(av[k as int]));
                assert(av.take(k + 1).drop_last() =~= av.take(k as int));
            }
            if self.lines.len() > MAX_SCROLLBACK {
                let ghost pushed = line_views(self.lines@);
                self.lines.remove(0);
                proof {
                    assert(line_views(self.lines@) =~= pushed.drop_first());
                }
            }
            k += 1;
        }
        proof {
            assert(av.take(n as int) =~= av);
        }
    }

    /// Whether the renderer shows reasoning in full.
    pub closed spec fn shows_reasoning(&self) -> bool {
        self.renderer.shows_reasoning()
    }

    /// Whether the renderer printed its "Thinking..." marker.
    pub closed spec fn announced(&self) -> bool {
        self.renderer.announced()
    }

    /// Render one agent event into the scrollback with the print
    /// renderer: its text is added to the partial line, and every line it
    /// completes moves to the scrollback.
    pub fn render_event(&mut self, event: &AgentEvent)
        ensures
            ({
                let step = render_step(old(self).shows_reasoning(), old(self).announced(), event@);
                let pieces = nl_pieces(old(self).partial() + step.1);
                &&& final(self).conversation() == capped(old(self).conversation(), pieces.drop_last())
                &&& final(self).partial() == pieces.last()
                &&& final(self).announced() == step.0
            }),
            final(self).shows_reasoning() == old(self).shows_reasoning(),
            final(self).typed() == old(self).typed(),
            final(self).status_text() == old(self).status_text(),
            final(self).working() == old(self).working(),
            final(self).following() == old(self).following(),
            final(self).offset() == old(self).offset(),
            final(self).picking() == old(self).picking(),
    {
        let mut text = String::new();
        self.renderer.render(event, &mut text);
        let mut combined = String::new();
        std::mem::swap(&mut combined, &mut self.pending);
        push_str(&mut combined, text.as_str());
        let mut pieces = split_pieces(combined.as_str());
        proof {
            crate::text::lemma_nl_pieces_nonempty(combined@);
        }
        let ghost pv = pieces@.map_values(|p: String| p@);
        let last = pieces.pop().unwrap();
        proof {
            assert(line_views(pieces@) =~= pv.drop_last());
            assert(last@ == pv.last());
        }
        self.pending = last;
        self.push_lines_capped(pieces);
    }

    /// The scroll offset.
    pub fn scroll_offset(&self) -> (r: usize)
        ensures
            r == self.offset(),
    {
        self.scroll_top
    }

    /// Whether `other` differs from this state only in what `typed`,
    /// `following` and `offset` say.
    pub open spec fn same_but_view(&self, other: &TuiState) -> bool {
        &&& other.conversation() == self.conversation()
        &&& other.partial() == self.partial()
        &&& other.status_text() == self.status_text()
        &&& other.working() == self.working()
        &&& other.picking() == self.picking()
        &&& other.model_name() == self.model_name()
        &&& other.shows_reasoning() == self.shows_reasoning()
        &&& other.announced() == self.announced()
    }

    /// Handle one key. `turn_active` is whether a turn is running;
    /// `has_session` whether the session is at hand (not lent to a turn).
    /// The state changes as the key says, and the result tells the caller
    /// what to do next.
    pub fn handle_key(&mut self, key: Key, turn_active: bool, has_session: bool) -> (r: KeyAction)
        requires
            key == Key::Down ==> old(self).offset() < usize::MAX,
            key == Key::PageDown ==> old(self).offset() + 10 <= usize::MAX,
        ensures
            match key {
                Key::Interrupt => {
                    &&& r == (if turn_active { KeyAction::CancelTurn } else { KeyAction::Exit })
                    &&& old(self).same_but_view(final(self))
                    &&& final(self).typed() == old(self).typed()
                    &&& final(self).following() == old(self).following()
                    &&& final(self).offset() == old(self).offset()
                },
                Key::Enter => if turn_active {
                    &&& r == KeyAction::Nothing
                    &&& old(self).same_but_view(final(self))
                    &&& final(self).typed() == old(self).typed()
                    &&& final(self).following() == old(self).following()
                    &&& final(self).offset() == old(self).offset()
                } else {
                    enter_outcome(*old(self), *final(self), r, has_session)
                },
                Key::Char(c) => {
                    &&& r == KeyAction::Nothing
                    &&& old(self).same_but_view(final(self))
                    &&& final(self).typed() == old(self).typed().push(c)
                    &&& final(self).following() == old(self).following()
                    &&& final(self).offset() == old(self).offset()
                },
                Key::Backspace => {
                    &&& r == KeyAction::Nothing
                    &&& old(self).same_but_view(final(self))
                    &&& final(self).typed() == if old(self).typed().len() > 0 {
                        old(self).typed().drop_last()
                    } else {
                        old(self).typed()
                    }
                    &&& final(self).following() == old(self).following()
                    &&& final(self).offset() == old(self).offset()
                },
                Key::Up | Key::PageUp => {
                    let step: int = if key == Key::Up { 1 } else { 10 };
                    &&& r == KeyAction::Nothing
                    &&& old(self).same_but_view(final(self))
                    &&& final(self).typed() == old(self).typed()
                    &&& !final(self).following()
                    &&& final(self).offset() == if old(self).offset() >= step { old(self).offset() - step } else { 0 }
                },
                Key::Down | Key::PageDown => {
                    let step: int = if key == Key::Down { 1 } else { 10 };
                    &&& r == KeyAction::Nothing
                    &&& old(self).same_but_view(final(self))
                    &&& final(self).typed() == old(self).typed()
                    &&& final(self).following() == old(self).following()
                    &&& final(self).offset() == old(self).offset() + step
                },
                Key::Other => {
                    &&& r == KeyAction::Nothing
                    &&& old(self).same_but_view(final(self))
                    &&& final(self).typed() == old(self).typed()
                    &&& final(self).following() == old(self).following()
                    &&& final(self).offset() == old(self).offset()
                },
            },
    {
        match key {
            Key::Interrupt => {
                if turn_active { KeyAction::CancelTurn } else { KeyAction::Exit }
            },
            Key::Enter => {
                if turn_active {
                    return KeyAction::Nothing;
                }
                let input = owned(trim(self.input.as_str()));
                self.input = String::new();
                if input.as_str().unicode_len() == 0 {
                    return KeyAction::Nothing;
                }
                if self.pick.is_some() {
                    let mut taken: Option<Vec<SessionSummary>> = None;
                    std::mem::swap(&mut taken, &mut self.pick);
                    match taken {
                        Some(sessions) => {
                            return KeyAction::Pick(input, sessions);
                        },
                        None => {
                            return KeyAction::Nothing;
                        },
                    }
                }
                if str_eq(input.as_str(), "/new") {
                    return if has_session { KeyAction::NewSession } else { KeyAction::Nothing };
                }
                if str_eq(input.as_str(), "/session") {
                    return if has_session { KeyAction::ShowSession } else { KeyAction::Nothing };
                }
                if str_eq(input.as_str(), "/resume") {
                    return if has_session { KeyAction::ListSessions } else { KeyAction::Nothing };
                }
                if str_eq(input.as_str(), "quit") || str_eq(input.as_str(), "exit") {
                    return KeyAction::Exit;
                }
                if !has_session {
                    return KeyAction::Nothing;
                }
                self.busy = true;
                self.status = String::new();
                self.pending = String::new();
                self.follow_bottom = true;
                KeyAction::StartTurn(input)
            },
            Key::Char(c) => {
                push_char(&mut self.input, c);
                KeyAction::Nothing
            },
            Key::Backspace => {
                let n = self.input.as_str().unicode_len();
                if n > 0 {
                    let kept = owned(self.input.as_str().substring_char(0, n - 1));
                    self.input = kept;
                }
                KeyAction::Nothing
            },
            Key::Up => {
                self.follow_bottom = false;
                self.scroll_top = if self.scroll_top >= 1 { self.scroll_top - 1 } else { 0 };
                KeyAction::Nothing
            },
            Key::Down => {
                self.scroll_top = self.scroll_top + 1;
                KeyAction::Nothing
            },
            Key::PageUp => {
                self.follow_bottom = false;
                self.scroll_top = if self.scroll_top >= 10 { self.scroll_top - 10 } else { 0 };
                KeyAction::Nothing
            },
            Key::PageDown => {
                self.scroll_top = self.scroll_top + 10;
                KeyAction::Nothing
            },
            Key::Other => KeyAction::Nothing,
        }
    }

    /// A new session was started (`/new`): the conversation is cleared and
    /// the status names the session by its short id.
    pub fn new_session_started(&mut self, short_id: &str)
        ensures
            final(self).status_text() == "Started new session "@ + short_id@,
            final(self).conversation() == Seq::<Seq<char>>::empty(),
            final(self).partial() == Seq::<char>::empty(),
            final(self).offset() == 0,
            final(self).following(),
            final(self).typed() == old(self).typed(),
            final(self).working() == old(self).working(),
            final(self).picking() == old(self).picking(),
    {
        let mut status = owned("Started new session ");
        push_str(&mut status, short_id);
        self.status = status;
        self.lines = Vec::new();
        self.pending = String::new();
        self.scroll_top = 0;
        self.follow_bottom = true;
        proof {
            assert(line_views(self.lines@) =~= Seq::<Seq<char>>::empty());
        }
    }

    /// An operation failed: the status shows the error.
    pub fn report_error(&mut self, message: &str)
        ensures
            final(self).status_text() == "error: "@ + message@,
            final(self).conversation() == old(self).conversation(),
            final(self).typed() == old(self).typed(),
            final(self).picking() == old(self).picking(),
    {
        let mut status = owned("error: ");
        push_str(&mut status, message);
        self.status = status;
    }

    /// The session was switched to the one with this short id.
    pub fn switched_to(&mut self, short_id: &str)
        ensures
            final(self).status_text() == "Switched to "@ + short_id@,
            final(self).conversation() == old(self).conversation(),
            final(self).typed() == old(self).typed(),
            final(self).picking() == old(self).picking(),
    {
        let mut status = owned("Switched to ");
        push_str(&mut status, short_id);
        self.status = status;
    }

    /// Lines shown in the conversation as they are (no cap).
    pub fn show_lines(&mut self, lines: Vec<String>)
        ensures
            final(self).conversation() == old(self).conversation() + line_views(lines@),
            final(self).status_text() == old(self).status_text(),
            final(self).typed() == old(self).typed(),
            final(self).picking() == old(self).picking(),
    {
        let ghost start = line_views(self.lines@);
        let ghost lv = line_views(lines@);
        let mut i: usize = 0;
        while i < lines.len()
            invariant
                0 <= i <= lines@.len(),
                lv == line_views(lines@),
                line_views(self.lines@) == start + lv.take(i as int),
                self.status == old(self).status,
                self.input == old(self).input,
                self.pick == old(self).pick,
            decreases lines@.len() - i,
        {
            let line = lines[i].clone();
            let ghost before = line_views(self.lines@);
            self.lines.push(line);
            proof {
                assert(line_views(self.lines@) =~= before.push(lv[i as int]));
                assert(lv.take(i + 1) =~= lv.take(i as int).push(lv[i as int]));
            }
            i += 1;
        }
        proof {
            assert(lv.take(lines@.len() as int) =~= lv);
        }
    }

    /// The repository's sessions were listed for `/resume`: with none the
    /// status says so; otherwise the listing is shown and the picker waits
    /// for an answer.
    pub fn offer_sessions(&mut self, sessions: Vec<SessionSummary>, listing: Vec<String>)
        ensures
            sessions@.len() == 0 ==> {
                &&& final(self).status_text() == "No sessions found for this repository."@
                &&& final(self).conversation() == old(self).conversation()
                &&& final(self).picking() == old(self).picking()
            },
            sessions@.len() > 0 ==> {
                &&& final(self).status_text() == "Select session (number or id):"@
                &&& final(self).conversation() == old(self).conversation() + line_views(listing@)
                &&& final(self).picking() == Some(sessions@)
            },
            final(self).typed() == old(self).typed(),
    {
        if sessions.len() == 0 {
            self.status = owned("No sessions found for this repository.");
        } else {
            self.show_lines(listing);
            self.status = owned("Select session (number or id):");
            self.pick = Some(sessions);
        }
    }

    /// Resolve a picker answer: a picked session is handed back for the
    /// caller to load; otherwise the status tells why nothing was picked,
    /// and an ambiguous prefix lists its candidates.
    pub fn handle_pick<'a>(&mut self, input: &str, sessions: &'a [SessionSummary]) -> (r: Option<&'a SessionSummary>)
        ensures
            match pick_outcome(input@, sessions@) {
                PickV::Picked(s) => {
                    &&& r matches Some(x) && *x == s
                    &&& final(self).status_text() == old(self).status_text()
                    &&& final(self).conversation() == old(self).conversation()
                },
                PickV::Cancelled => {
                    &&& r is None
                    &&& final(self).status_text() == "No session selected."@
                    &&& final(self).conversation() == old(self).conversation()
                },
                PickV::Ambiguous(ms) => {
                    &&& r is None
                    &&& final(self).status_text() == "Session prefix is ambiguous."@
                    &&& final(self).conversation() == old(self).conversation()
                        + ms.map_values(|s: SessionSummary| candidate_line(s))
                },
            },
            final(self).typed() == old(self).typed(),
            final(self).picking() == old(self).picking(),
    {
        match choose_session(input, sessions) {
            PickResult::Picked(summary) => Some(summary),
            PickResult::Cancelled => {
                self.status = owned("No session selected.");
                None
            },
            PickResult::Ambiguous(matches) => {
                self.status = owned("Session prefix is ambiguous.");
                let ghost mv = matches@.map_values(|x: &SessionSummary| *x);
                let mut lines: Vec<String> = Vec::new();
                let mut i: usize = 0;
                while i < matches.len()
                    invariant
                        0 <= i <= matches@.len(),
                        mv == matches@.map_values(|x: &SessionSummary| *x),
                        line_views(lines@) == mv.take(i as int).map_values(|s: SessionSummary| candidate_line(s)),
                    decreases matches@.len() - i,
                {
                    let line = candidate(matches[i]);
                    let ghost before = line_views(lines@);
                    lines.push(line);
                    proof {
                        assert(line_views(lines@) =~= before.push(candidate_line(mv[i as int])));
                        assert(mv.take(i + 1).map_values(|s: SessionSummary| candidate_line(s))
                            =~= mv.take(i as int).map_values(|s: SessionSummary| candidate_line(s)).push(candidate_line(mv[i as int])));
                    }
                    i += 1;
                }
                proof {
                    assert(mv.take(matches@.len() as int) =~= mv);
                }
                self.show_lines(lines);
                None
            },
        }
    }

    /// What the next frame shows, for a conversation panel `panel_height`
    /// rows tall (two of them borders).
    pub fn frame(&self, panel_height: u16) -> (r: Frame)
        ensures
            r.title@ == "vava"@ + (if self.working() { " (working…)"@ } else { Seq::<char>::empty() })
                + " — "@ + self.model_name(),
            r.conversation@ == joined_lines(self.conversation()),
            r.panel_title@ == " "@ + (if self.status_text().len() == 0 { "conversation"@ } else { self.status_text() }) + " "@,
            r.scroll == if self.following() {
                let height: int = if panel_height >= 2 { panel_height - 2 } else { 0 };
                if self.conversation().len() >= height { self.conversation().len() - height } else { 0 }
            } else {
                self.offset() as int
            },
            r.input@ == "> "@ + self.typed(),
            r.dim_input == self.working(),
    {
        let mut title = owned("vava");
        if self.busy {
            push_str(&mut title, " (working…)");
        }
        push_str(&mut title, " — ");
        push_str(&mut title, self.model.as_str());
        let height: usize = if panel_height >= 2 { (panel_height - 2) as usize } else { 0 };
        let n = self.lines.len();
        let scroll = if self.follow_bottom {
            if n >= height { n - height } else { 0 }
        } else {
            self.scroll_top
        };
        let conversation = join_lines(&self.lines);
        let mut panel_title = owned(" ");
        if self.status.as_str().unicode_len() == 0 {
            push_str(&mut panel_title, "conversation");
        } else {
            push_str(&mut panel_title, self.status.as_str());
        }
        push_str(&mut panel_title, " ");
        let mut input = owned("> ");
        push_str(&mut input, self.input.as_str());
        proof {
            assert(line_views(self.lines@).len() == n);
        }
        Frame { title, conversation, panel_title, scroll, input, dim_input: self.busy }
    }
}

/// What a key that submits the input line does, when no turn is running.
pub open spec fn enter_outcome(before: TuiState, after: TuiState, r: KeyAction, has_session: bool) -> bool {
    let t = trimmed(before.typed());
    &&& after.typed() == Seq::<char>::empty()
    &&& after.conversation() == before.conversation()
    &&& after.model_name() == before.model_name()
    &&& if t.len() == 0 {
        &&& r == KeyAction::Nothing
        &&& before.same_but_view(&after)
        &&& after.following() == before.following()
    } else if before.picking() is Some {
        &&& r matches KeyAction::Pick(i, v) && i@ == t && Some(v@) == before.picking()
        &&& after.picking() is None
        &&& after.status_text() == before.status_text()
    } else if t == "/new"@ || t == "/session"@ || t == "/resume"@ {
        &&& r == if !has_session {
            KeyAction::Nothing
        } else if t == "/new"@ {
            KeyAction::NewSession
        } else if t == "/session"@ {
            KeyAction::ShowSession
        } else {
            KeyAction::ListSessions
        }
        &&& before.same_but_view(&after)
        &&& after.following() == before.following()
    } else if t == "quit"@ || t == "exit"@ {
        &&& r == KeyAction::Exit
        &&& before.same_but_view(&after)
    } else if !has_session {
        &&& r == KeyAction::Nothing
        &&& before.same_but_view(&after)
    } else {
        &&& r matches KeyAction::StartTurn(p) && p@ == t
        &&& after.working()
        &&& after.status_text() == Seq::<char>::empty()
        &&& after.partial() == Seq::<char>::empty()
        &&& after.following()
        &&& after.picking() == before.picking()
    }
}

/// The line listing one candidate of an ambiguous prefix.
pub open spec fn candidate_line(s: SessionSummary) -> Seq<char> {
    "  "@ + short_form(s.id@) + "  "@ + crate::cli::debug_quoted_text(
        match s.first_user_message { Some(f) => f@, None => Seq::empty() },
    )
}

/// The line listing one candidate of an ambiguous prefix.
fn candidate(s: &SessionSummary) -> (r: String)
    ensures
        r@ == candidate_line(*s),
{
    let mut line = owned("  ");
    push_str(&mut line, s.id.short());
    push_str(&mut line, "  ");
    proof {
        reveal_strlit("");
    }
    let first: &str = match &s.first_user_message {
        Some(f) => f.as_str(),
        None => "",
    };
    proof {
        assert(first@ =~= match s.first_user_message { Some(f) => f@, None => Seq::<char>::empty() });
    }
    let quoted = crate::cli::debug_quoted(first);
    push_str(&mut line, quoted.as_str());
    line
}

/// Lines joined with `\n`.
fn join_lines(lines: &Vec<String>) -> (r: String)
    ensures
        r@ == joined_lines(line_views(lines@)),
{
    let mut out = String::new();
    let mut i: usize = 0;
    while i < lines.len()
        invariant
            0 <= i <= lines@.len(),
            out@ == joined_lines(line_views(lines@).take(i as int)),
        decreases lines@.len() - i,
    {
        let ghost lv = line_views(lines@);
        proof {
            assert(lv.take(i + 1).drop_last() =~= lv.take(i as int));
            assert(lv.take(i + 1).last() == lines@[i as int]@);
        }
        if i > 0 {
            push_str(&mut out, "\n");
        } else {
            proof {
                assert(lv.take(0) =~= Seq::<Seq<char>>::empty());
            }
        }
        push_str(&mut out, lines[i].as_str());
        proof {
            if i == 0 {
                assert(out@ =~= lv.take(1)[0]);
            }
        }
        i += 1;
    }
    proof {
        assert(line_views(lines@).take(lines@.len() as int) =~= line_views(lines@));
    }
    out
}

/// The scrollback keeps the newest lines: from a scrollback within its
/// cap, adding rendered lines leaves it within its cap, and what it holds
/// is the end of the old lines followed by the new ones.
pub proof fn law_scrollback_keeps_newest(lines: Seq<Seq<char>>, added: Seq<Seq<char>>)
    requires
        lines.len() <= MAX_SCROLLBACK,
    ensures
        capped(lines, added).len() <= MAX_SCROLLBACK,
        capped(lines, added) == (lines + added).skip((lines + added).len() - capped(lines, added).len()),
        capped(lines, added).len() == if lines.len() + added.len() <= MAX_SCROLLBACK {
            (lines.len() + added.len()) as int
        } else {
            MAX_SCROLLBACK as int
        },
    decreases added.len(),
{
    if added.len() > 0 {
        law_scrollback_keeps_newest(lines, added.drop_last());
        let prev = capped(lines, added.drop_last());
        let all = lines + added;
        assert(lines + added.drop_last() =~= all.drop_last());
        let pushed = prev.push(added.last());
        if pushed.len() > MAX_SCROLLBACK {
            assert(pushed.drop_first() =~= all.skip(all.len() - (pushed.len() - 1)));
        } else {
            assert(pushed =~= all.skip(all.len() - pushed.len()));
        }
    } else {
        assert(lines + added =~= lines);
        assert(lines.skip(0) =~= lines);
    }
}

} // verus!
