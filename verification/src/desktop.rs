//! The desktop backend's own logic: structured errors for the frontend, the
//! frontend events made from agent events, the views of
//! repositories and sessions, and the recent-repository list. Windows,
//! IPC and files are the caller's part.

use vstd::prelude::*;

use crate::event::{AgentEvent, AgentEventV};
use crate::message::{opt_str, AssistantMessage, AssistantV, ToolResult, ToolResultV};
use crate::paths::{path_parts, path_starts_with, starts_with_path};
use crate::persistence::{fnv1a, hex16, now_rfc3339, repository_key, SessionSummary, Timestamp};
use crate::text::{owned, push_str};

verus! {

broadcast use vstd::seq_lib::group_seq_properties;

/// The version of the desktop backend.
pub fn app_version() -> (r: String)
    ensures
        r@ == "0.1.0"@,
{
    owned("0.1.0")
}

// ------------------------------------------------------------------ errors

/// A user-facing error from the desktop backend; each variant is a stage of
/// the desktop workflow.
#[derive(Debug, Clone, PartialEq, Eq)]
pub enum DesktopError {
    /// Opening or resolving a repository failed.
    Repository(String),
    /// Session listing, creation, or resume failed.
    Session(String),
    /// Desktop configuration is invalid.
    Configuration(String),
    /// Storing or reading credentials failed.
    Credential(String),
    /// The agent turn failed.
    Agent(String),
    /// A filesystem operation failed.
    Io(String),
    /// An operation requires an open repository.
    NoRepository,
    /// An operation requires an active session.
    NoSession,
}

/// The stable variant name the frontend branches on.
pub open spec fn error_kind(e: DesktopError) -> Seq<char> {
    match e {
        DesktopError::Repository(_) => "repository"@,
        DesktopError::Session(_) => "session"@,
        DesktopError::Configuration(_) => "configuration"@,
        DesktopError::Credential(_) => "credential"@,
        DesktopError::Agent(_) => "agent"@,
        DesktopError::Io(_) => "io"@,
        DesktopError::NoRepository => "no_repository"@,
        DesktopError::NoSession => "no_session"@,
    }
}

/// The concise message the frontend shows.
pub open spec fn error_message(e: DesktopError) -> Seq<char> {
    match e {
        DesktopError::Repository(m) => "unable to open repository: "@ + m@,
        DesktopError::Session(m) => "session error: "@ + m@,
        DesktopError::Configuration(m) => "configuration error: "@ + m@,
        DesktopError::Credential(m) => "credential error: "@ + m@,
        DesktopError::Agent(m) => "agent error: "@ + m@,
        DesktopError::Io(m) => "I/O error: "@ + m@,
        DesktopError::NoRepository => "no repository is open"@,
        DesktopError::NoSession => "no active session"@,
    }
}

/// The serialized form sent to the frontend.
#[derive(Debug, Clone, PartialEq, Eq)]
pub struct DesktopErrorPayload {
    /// A stable machine-readable variant name.
    pub kind: String,
    /// A concise, user-facing message.
    pub message: String,
}

/// `prefix` followed by `detail`.
fn prefixed(prefix: &str, detail: &str) -> (r: String)
    ensures
        r@ == prefix@ + detail@,
{
    let mut s = owned(prefix);
    push_str(&mut s, detail);
    s
}

impl DesktopError {
    /// The stable variant name used by the frontend for branching.
    pub fn kind(&self) -> (r: &'static str)
        ensures
            r@ == error_kind(*self),
    {
        match self {
            DesktopError::Repository(_) => "repository",
            DesktopError::Session(_) => "session",
            DesktopError::Configuration(_) => "configuration",
            DesktopError::Credential(_) => "credential",
            DesktopError::Agent(_) => "agent",
            DesktopError::Io(_) => "io",
            DesktopError::NoRepository => "no_repository",
            DesktopError::NoSession => "no_session",
        }
    }

    /// The human-readable message for this error.
    pub fn to_string(&self) -> (r: String)
        ensures
            r@ == error_message(*self),
    {
        match self {
            DesktopError::Repository(m) => prefixed("unable to open repository: ", m.as_str()),
            DesktopError::Session(m) => prefixed("session error: ", m.as_str()),
            DesktopError::Configuration(m) => prefixed("configuration error: ", m.as_str()),
            DesktopError::Credential(m) => prefixed("credential error: ", m.as_str()),
            DesktopError::Agent(m) => prefixed("agent error: ", m.as_str()),
            DesktopError::Io(m) => prefixed("I/O error: ", m.as_str()),
            DesktopError::NoRepository => owned("no repository is open"),
            DesktopError::NoSession => owned("no active session"),
        }
    }

    /// The payload for the frontend: the variant name and the message.
    pub fn into_payload(self) -> (r: DesktopErrorPayload)
        ensures
            r.kind@ == error_kind(self),
            r.message@ == error_message(self),
    {
        let kind = owned(self.kind());
        let message = self.to_string();
        DesktopErrorPayload { kind, message }
    }
}

// ------------------------------------------------------------------ events

/// The outcome of one tool call, as streamed to the frontend.
#[derive(Debug, Clone, PartialEq, Eq)]
pub struct DesktopToolResult {
    pub content: String,
    pub is_error: bool,
}

impl DesktopToolResult {
    /// The frontend's view of a tool result.
    pub fn from_result(result: &ToolResult) -> (r: Self)
        ensures
            r.content@ == result.content@,
            r.is_error == result.is_error,
    {
        DesktopToolResult { content: result.content.clone(), is_error: result.is_error }
    }
}

/// One event streamed to the frontend during a turn. A tool call's `input`
/// is its arguments as JSON text.
#[derive(Debug, Clone, PartialEq)]
pub enum DesktopAgentEvent {
    TurnStarted,
    TextDelta { delta: String },
    ReasoningDelta { delta: String },
    ToolCallStarted { call_id: String, tool: String, input: String },
    ToolCallFinished { call_id: String, result: DesktopToolResult },
    AssistantMessageCompleted { message: AssistantMessage },
    TurnCompleted,
    Error { message: String },
}

/// The abstract content of a frontend event.
pub enum DesktopEventV {
    TurnStarted,
    TextDelta(Seq<char>),
    ReasoningDelta(Seq<char>),
    ToolCallStarted { call_id: Seq<char>, tool: Seq<char>, input: Seq<char> },
    ToolCallFinished { call_id: Seq<char>, result: ToolResultV },
    AssistantMessageCompleted(AssistantV),
    TurnCompleted,
    Error(Seq<char>),
}

impl View for DesktopAgentEvent {
    type V = DesktopEventV;

    open spec fn view(&self) -> DesktopEventV {
        match self {
            DesktopAgentEvent::TurnStarted => DesktopEventV::TurnStarted,
            DesktopAgentEvent::TextDelta { delta } => DesktopEventV::TextDelta(delta@),
            DesktopAgentEvent::ReasoningDelta { delta } => DesktopEventV::ReasoningDelta(delta@),
            DesktopAgentEvent::ToolCallStarted { call_id, tool, input } =>
                DesktopEventV::ToolCallStarted { call_id: call_id@, tool: tool@, input: input@ },
            DesktopAgentEvent::ToolCallFinished { call_id, result } => DesktopEventV::ToolCallFinished {
                call_id: call_id@,
                result: ToolResultV { content: result.content@, is_error: result.is_error },
            },
            DesktopAgentEvent::AssistantMessageCompleted { message } =>
                DesktopEventV::AssistantMessageCompleted(message@),
            DesktopAgentEvent::TurnCompleted => DesktopEventV::TurnCompleted,
            DesktopAgentEvent::Error { message } => DesktopEventV::Error(message@),
        }
    }
}

/// The frontend event for an agent event: the same event, a tool call
/// reduced to its id, tool name and input.
pub open spec fn desktop_event(e: AgentEventV) -> DesktopEventV {
    match e {
        AgentEventV::TurnStarted => DesktopEventV::TurnStarted,
        AgentEventV::TextDelta(d) => DesktopEventV::TextDelta(d),
        AgentEventV::ReasoningDelta(d) => DesktopEventV::ReasoningDelta(d),
        AgentEventV::ToolCallStarted(call) =>
            DesktopEventV::ToolCallStarted { call_id: call.id, tool: call.name, input: call.arguments },
        AgentEventV::ToolCallFinished { call_id, result } => DesktopEventV::ToolCallFinished { call_id, result },
        AgentEventV::AssistantMessageCompleted(m) => DesktopEventV::AssistantMessageCompleted(m),
        AgentEventV::TurnCompleted => DesktopEventV::TurnCompleted,
        AgentEventV::Error(m) => DesktopEventV::Error(m),
    }
}

impl DesktopAgentEvent {
    /// The frontend event for a harness event, field by field.
    pub fn from_event(event: &AgentEvent) -> (r: Self)
        ensures
            r@ == desktop_event(event@),
    {
        match event {
            AgentEvent::TurnStarted => DesktopAgentEvent::TurnStarted,
            AgentEvent::TextDelta { delta } => DesktopAgentEvent::TextDelta { delta: delta.clone() },
            AgentEvent::ReasoningDelta { delta } => DesktopAgentEvent::ReasoningDelta { delta: delta.clone() },
            AgentEvent::ToolCallStarted { call } => DesktopAgentEvent::ToolCallStarted {
                call_id: call.id.clone(),
                tool: call.name.clone(),
                input: call.arguments.clone(),
            },
            AgentEvent::ToolCallFinished { call_id, result } => DesktopAgentEvent::ToolCallFinished {
                call_id: call_id.clone(),
                result: DesktopToolResult::from_result(result),
            },
            AgentEvent::AssistantMessageCompleted { message } =>
                DesktopAgentEvent::AssistantMessageCompleted { message: message.duplicate() },
            AgentEvent::TurnCompleted => DesktopAgentEvent::TurnCompleted,
            AgentEvent::Error { message } => DesktopAgentEvent::Error { message: message.clone() },
        }
    }
}

// ------------------------------------------------------------------ views

/// The display name of a repository: its last path component, or the path
/// itself when it has none (the root, or one ending in `..`).
pub open spec fn repository_display_name(root: Seq<char>) -> Seq<char> {
    let parts = path_parts(root);
    if parts.len() > 0 && parts.last() != seq!['.', '.'] { parts.last() } else { root }
}

/// The repository's display name.
pub fn repository_name(root: &str) -> (r: String)
    ensures
        r@ == repository_display_name(root@),
{
    let parts = crate::paths::split_parts(root);
    let n = parts.len();
    proof {
        assert(parts@.map_values(|p: String| p@).len() == n);
    }
    if n > 0 {
        proof {
            assert(parts@.map_values(|p: String| p@)[n - 1] == parts@[n - 1]@);
        }
        proof {
            reveal_strlit("..");
            assert(".."@ =~= seq!['.', '.']);
        }
        if !crate::text::str_eq(parts[n - 1].as_str(), "..") {
            return parts[n - 1].clone();
        }
    }
    owned(root)
}

/// The RFC 3339 rendering `chrono` gives of the instant `secs`, `nanos`
/// (`DateTime::<Utc>::from_timestamp`, then `to_rfc3339`), or `None` when
/// the instant is out of `chrono`'s range.
pub uninterp spec fn rfc3339_of(secs: i64, nanos: u32) -> Option<Seq<char>>;

/// Render an instant as RFC 3339 text with `chrono`. Claimed: the result is
/// `rfc3339_of(secs, nanos)`.
#[verifier::external_body]
fn rfc3339_text(t: Timestamp) -> (r: Option<String>)
    ensures
        opt_str(r) == rfc3339_of(t.secs, t.nanos),
{
    match chrono::DateTime::<chrono::Utc>::from_timestamp(t.secs, t.nanos) {
        Some(d) => Some(d.to_rfc3339()),
        None => None,
    }
}

/// The RFC 3339 text of an instant, empty when out of range.
pub open spec fn stamp_text(t: Timestamp) -> Seq<char> {
    match rfc3339_of(t.secs, t.nanos) {
        Some(s) => s,
        None => Seq::empty(),
    }
}

/// The text of an instant.
fn stamp(t: Timestamp) -> (r: String)
    ensures
        r@ == stamp_text(t),
{
    match rfc3339_text(t) {
        Some(s) => s,
        None => String::new(),
    }
}

/// One saved session, as shown in the session sidebar.
#[derive(Debug, Clone, PartialEq, Eq)]
pub struct SessionInfo {
    pub id: String,
    /// RFC 3339 timestamp.
    pub created_at: String,
    /// RFC 3339 timestamp.
    pub updated_at: String,
    /// The first user prompt, if the log contains one.
    pub first_user_message: Option<String>,
}

/// Whether `info` is the sidebar view of `summary`.
pub open spec fn is_session_info(info: SessionInfo, summary: SessionSummary) -> bool {
    &&& info.id@ == summary.id@
    &&& info.created_at@ == stamp_text(summary.created_at)
    &&& info.updated_at@ == stamp_text(summary.updated_at)
    &&& opt_str(info.first_user_message) == opt_str(summary.first_user_message)
}

/// The sidebar view of one session summary.
pub fn session_info(summary: &SessionSummary) -> (r: SessionInfo)
    ensures
        is_session_info(r, *summary),
{
    SessionInfo {
        id: summary.id.to_string(),
        created_at: stamp(summary.created_at),
        updated_at: stamp(summary.updated_at),
        first_user_message: crate::message::duplicate_opt(&summary.first_user_message),
    }
}

/// The information the frontend needs after opening a repository.
#[derive(Debug, Clone, PartialEq, Eq)]
pub struct RepositoryInfo {
    /// A stable id for the repository (the session-scoping key).
    pub id: String,
    /// The repository directory's name.
    pub name: String,
    /// The canonical workspace root path.
    pub root: String,
    /// The active session's id, if a session is initialized.
    pub active_session_id: Option<String>,
    /// The repository's saved sessions, newest first.
    pub sessions: Vec<SessionInfo>,
}

/// The frontend's view of a repository whose canonical root is `root`, its
/// sessions and the active session.
pub fn build_repository_info(root: &str, sessions: &[SessionSummary], active_session_id: Option<&str>) -> (r: RepositoryInfo)
    ensures
        r.id@ == hex16(fnv1a(vstd::utf8::encode_utf8(root@))),
        r.name@ == repository_display_name(root@),
        r.root@ == root@,
        opt_str(r.active_session_id) == match active_session_id { Some(a) => Some(a@), None => None },
        r.sessions@.len() == sessions@.len(),
        forall|i: int| 0 <= i < sessions@.len() ==> is_session_info(#[trigger] r.sessions@[i], sessions@[i]),
{
    let mut infos: Vec<SessionInfo> = Vec::new();
    let mut i: usize = 0;
    while i < sessions.len()
        invariant
            0 <= i <= sessions@.len(),
            infos@.len() == i,
            forall|k: int| 0 <= k < i ==> is_session_info(#[trigger] infos@[k], sessions@[k]),
        decreases sessions@.len() - i,
    {
        infos.push(session_info(&sessions[i]));
        i += 1;
    }
    RepositoryInfo {
        id: repository_key(root),
        name: repository_name(root),
        root: owned(root),
        active_session_id: match active_session_id { Some(a) => Some(owned(a)), None => None },
        sessions: infos,
    }
}

/// Whether an API key from the environment can be used: present and not
/// only white space.
pub fn api_key_usable(key: Option<&str>) -> (r: bool)
    ensures
        r == match key { Some(k) => !crate::tools::blank(k@), None => false },
{
    match key {
        Some(k) => !crate::tools::is_blank(k),
        None => false,
    }
}

// ------------------------------------------------------------------ recents

/// How many recent repositories are kept.
pub const MAX_RECENTS: usize = 10;

/// One recent repository, as stored.
#[derive(Debug, Clone, PartialEq, Eq)]
pub struct RecentEntry {
    pub path: String,
    /// RFC 3339 timestamp of the last open.
    pub last_opened_at: String,
}

impl RecentEntry {
    /// A copy of this entry.
    pub fn duplicate(&self) -> (r: Self)
        ensures
            r == *self,
    {
        RecentEntry { path: self.path.clone(), last_opened_at: self.last_opened_at.clone() }
    }
}

/// One recent repository, as shown on the launcher screen.
#[derive(Debug, Clone, PartialEq, Eq)]
pub struct RecentRepository {
    /// The canonical repository root path.
    pub path: String,
    /// The repository directory's name.
    pub name: String,
    /// RFC 3339 timestamp of the last open.
    pub last_opened_at: String,
    /// Whether the directory still exists on disk.
    pub exists: bool,
}

/// The launcher's view of a recent entry; `exists` is whether its
/// directory is still on disk.
pub fn recent_repository(entry: &RecentEntry, exists: bool) -> (r: RecentRepository)
    ensures
        r.path@ == entry.path@,
        r.name@ == repository_display_name(entry.path@),
        r.last_opened_at@ == entry.last_opened_at@,
        r.exists == exists,
{
    RecentRepository {
        path: entry.path.clone(),
        name: repository_name(entry.path.as_str()),
        last_opened_at: entry.last_opened_at.clone(),
        exists,
    }
}

/// Whether two paths name the same place component by component.
pub open spec fn same_path(a: Seq<char>, b: Seq<char>) -> bool {
    path_starts_with(a, b) && path_starts_with(b, a)
}

/// Whether two paths are equal component by component.
pub fn paths_equal(a: &str, b: &str) -> (r: bool)
    ensures
        r == same_path(a@, b@),
{
    starts_with_path(a, b) && starts_with_path(b, a)
}

/// The entries whose canonical path (given alongside, in order) is not
/// `canonical`.
pub open spec fn others(entries: Seq<RecentEntry>, canonicals: Seq<Seq<char>>, canonical: Seq<char>) -> Seq<RecentEntry>
    decreases entries.len(),
{
    if entries.len() == 0 {
        Seq::empty()
    } else {
        let rest = others(entries.drop_last(), canonicals.drop_last(), canonical);
        if canonicals.last() == canonical { rest } else { rest.push(entries.last()) }
    }
}

/// The canonical paths of the entries `others` keeps, in order.
pub open spec fn others_keys(canonicals: Seq<Seq<char>>, canonical: Seq<char>) -> Seq<Seq<char>>
    decreases canonicals.len(),
{
    if canonicals.len() == 0 {
        Seq::empty()
    } else {
        let rest = others_keys(canonicals.drop_last(), canonical);
        if canonicals.last() == canonical { rest } else { rest.push(canonicals.last()) }
    }
}

/// `others` keeps exactly the entries whose keys `others_keys` keeps.
proof fn lemma_others_keys(entries: Seq<RecentEntry>, canonicals: Seq<Seq<char>>, canonical: Seq<char>)
    requires
        entries.len() == canonicals.len(),
    ensures
        others(entries, canonicals, canonical).len() == others_keys(canonicals, canonical).len(),
        forall|x: Seq<char>| #[trigger] others_keys(canonicals, canonical).contains(x)
            ==> canonicals.contains(x) && x != canonical,
        canonicals.no_duplicates() ==> others_keys(canonicals, canonical).no_duplicates(),
    decreases entries.len(),
{
    if entries.len() > 0 {
        let fc = canonicals.drop_last();
        lemma_others_keys(entries.drop_last(), fc, canonical);
        let rest = others_keys(fc, canonical);
        assert forall|x: Seq<char>| #[trigger] others_keys(canonicals, canonical).contains(x)
            implies canonicals.contains(x) && x != canonical by {
            if rest.contains(x) {
                let j = choose|j: int| 0 <= j < fc.len() && fc[j] == x;
                assert(canonicals[j] == x);
            } else {
                assert(x == canonicals.last());
                assert(canonicals[canonicals.len() - 1] == x);
            }
        }
        if canonicals.no_duplicates() && canonicals.last() != canonical {
            assert(fc.no_duplicates()) by {
                assert forall|i: int, j: int| 0 <= i < j < fc.len() implies fc[i] != fc[j] by {
                    assert(fc[i] == canonicals[i] && fc[j] == canonicals[j]);
                }
            }
            assert(!rest.contains(canonicals.last())) by {
                if rest.contains(canonicals.last()) {
                    let j = choose|j: int| 0 <= j < fc.len() && fc[j] == canonicals.last();
                    assert(canonicals[j] == canonicals[canonicals.len() - 1]);
                }
            }
            let whole = rest.push(canonicals.last());
            assert forall|i: int, j: int| 0 <= i < j < whole.len() implies whole[i] != whole[j] by {
                if j == whole.len() - 1 {
                    assert(rest.contains(whole[i]) ==> whole[i] != canonicals.last());
                    assert(whole[i] == rest[i]);
                }
            }
        } else if canonicals.no_duplicates() {
            assert(fc.no_duplicates()) by {
                assert forall|i: int, j: int| 0 <= i < j < fc.len() implies fc[i] != fc[j] by {
                    assert(fc[i] == canonicals[i] && fc[j] == canonicals[j]);
                }
            }
        }
    }
}

/// Recent repositories stay distinct: when the listed entries' canonical
/// paths are pairwise distinct, after a touch the canonical paths of the
/// new list (the touched root's, then those of the entries kept, as far as
/// the cut to `MAX_RECENTS` reaches) are pairwise distinct too.
pub proof fn law_touch_keeps_paths_distinct(entries: Seq<RecentEntry>, canonicals: Seq<Seq<char>>, canonical: Seq<char>)
    requires
        entries.len() == canonicals.len(),
        canonicals.no_duplicates(),
    ensures
        others(entries, canonicals, canonical).len() == others_keys(canonicals, canonical).len(),
        (seq![canonical] + others_keys(canonicals, canonical)).no_duplicates(),
        forall|n: int| 0 <= n <= 1 + others_keys(canonicals, canonical).len() ==>
            (#[trigger] (seq![canonical] + others_keys(canonicals, canonical)).take(n)).no_duplicates(),
{
    lemma_others_keys(entries, canonicals, canonical);
    let rest = others_keys(canonicals, canonical);
    let keys = seq![canonical] + rest;
    assert forall|i: int, j: int| 0 <= i < j < keys.len() implies keys[i] != keys[j] by {
        assert(keys[j] == rest[j - 1]);
        assert(rest.contains(rest[j - 1]));
        if i > 0 {
            assert(keys[i] == rest[i - 1]);
        }
    }
    assert forall|n: int| 0 <= n <= keys.len() implies (#[trigger] keys.take(n)).no_duplicates() by {
        assert forall|i: int, j: int| 0 <= i < j < keys.take(n).len() implies keys.take(n)[i] != keys.take(n)[j] by {
            assert(keys.take(n)[i] == keys[i] && keys.take(n)[j] == keys[j]);
        }
    }
}

/// The entries not naming `root`.
pub open spec fn without(entries: Seq<RecentEntry>, root: Seq<char>) -> Seq<RecentEntry>
    decreases entries.len(),
{
    if entries.len() == 0 {
        Seq::empty()
    } else {
        let rest = without(entries.drop_last(), root);
        if same_path(entries.last().path@, root) { rest } else { rest.push(entries.last()) }
    }
}

/// The recent-repository list, newest first, with the file it is kept in
/// (none for a list that is never stored).
pub struct Recents {
    path: Option<String>,
    entries: Vec<RecentEntry>,
}

impl Recents {
    /// The entries, newest first.
    pub closed spec fn listed(&self) -> Seq<RecentEntry> {
        self.entries@
    }

    /// The file the list is kept in.
    pub closed spec fn file(&self) -> Option<Seq<char>> {
        opt_str(self.path)
    }

    /// A list kept in the file at `path`, starting from what the file held
    /// (`None` when it was missing or unreadable: the list starts empty).
    pub fn open_at(path: String, stored: Option<Vec<RecentEntry>>) -> (r: Self)
        ensures
            r.file() == Some(path@),
            r.listed() == match stored { Some(v) => v@, None => Seq::<RecentEntry>::empty() },
    {
        let entries = match stored {
            Some(v) => v,
            None => Vec::new(),
        };
        Recents { path: Some(path), entries }
    }

    /// A list that is never stored.
    pub fn in_memory() -> (r: Self)
        ensures
            r.file() is None,
            r.listed() == Seq::<RecentEntry>::empty(),
    {
        Recents { path: None, entries: Vec::new() }
    }

    /// The file the list is kept in, if any.
    pub fn path(&self) -> (r: Option<&str>)
        ensures
            match r { Some(p) => self.file() == Some(p@), None => self.file() is None },
    {
        match &self.path {
            Some(p) => Some(p.as_str()),
            None => None,
        }
    }

    /// All entries, newest first.
    pub fn list(&self) -> (r: &[RecentEntry])
        ensures
            r@ == self.listed(),
    {
        self.entries.as_slice()
    }

    /// Record that the repository whose canonical root is `canonical` was
    /// just opened, stamped with the current time (RFC 3339, from the
    /// clock): as `touch_at` with that stamp.
    pub fn touch(&mut self, canonical: &str, canonicals: &Vec<String>)
        requires
            canonicals@.len() == old(self).listed().len(),
        ensures
            final(self).file() == old(self).file(),
            ({
                let kept = seq![final(self).listed()[0]] + others(
                    old(self).listed(),
                    canonicals@.map_values(|c: String| c@),
                    canonical@,
                );
                final(self).listed() == kept.take(
                    if kept.len() < MAX_RECENTS { kept.len() as int } else { MAX_RECENTS as int },
                )
            }),
            final(self).listed().len() > 0,
            final(self).listed()[0].path@ == canonical@,
    {
        let stamp = now_rfc3339();
        self.touch_at(canonical, canonicals, stamp.as_str());
    }

    /// Record that the repository whose canonical root is `canonical` was
    /// opened at `opened_at`: every entry whose canonical path (in
    /// `canonicals`, one per entry) is the same is dropped, a new entry for
    /// it stamped `opened_at` goes first, and the list is cut to
    /// `MAX_RECENTS`.
    pub fn touch_at(&mut self, canonical: &str, canonicals: &Vec<String>, opened_at: &str)
        requires
            canonicals@.len() == old(self).listed().len(),
        ensures
            final(self).file() == old(self).file(),
            final(self).listed()[0].last_opened_at@ == opened_at@,
            ({
                let kept = seq![final(self).listed()[0]] + others(
                    old(self).listed(),
                    canonicals@.map_values(|c: String| c@),
                    canonical@,
                );
                final(self).listed() == kept.take(
                    if kept.len() < MAX_RECENTS { kept.len() as int } else { MAX_RECENTS as int },
                )
            }),
            final(self).listed().len() > 0,
            final(self).listed()[0].path@ == canonical@,
    {
        let ghost cv = canonicals@.map_values(|c: String| c@);
        let ghost old_entries = self.entries@;
        let mut kept: Vec<RecentEntry> = Vec::new();
        let mut i: usize = 0;
        while i < self.entries.len()
            invariant
                self.entries@ == old_entries,
                cv == canonicals@.map_values(|c: String| c@),
                cv.len() == old_entries.len(),
                0 <= i <= old_entries.len(),
                kept@ == others(old_entries.take(i as int), cv.take(i as int), canonical@),
            decreases old_entries.len() - i,
        {
            proof {
                assert(old_entries.take(i + 1).drop_last() =~= old_entries.take(i as int));
                assert(cv.take(i + 1).drop_last() =~= cv.take(i as int));
                assert(cv[i as int] == canonicals@[i as int]@);
            }
            if !crate::text::str_eq(canonicals[i].as_str(), canonical) {
                kept.push(self.entries[i].duplicate());
            }
            i += 1;
        }
        proof {
            assert(old_entries.take(old_entries.len() as int) =~= old_entries);
            assert(cv.take(cv.len() as int) =~= cv);
        }
        let entry = RecentEntry { path: owned(canonical), last_opened_at: owned(opened_at) };
        kept.insert(0, entry);
        let ghost all = kept@;
        kept.truncate(MAX_RECENTS);
        proof {
            assert(all =~= seq![all[0]] + others(old_entries, cv, canonical@));
        }
        self.entries = kept;
    }

    /// Remove a repository from the list: every entry whose path names the
    /// same place as `root`.
    pub fn remove(&mut self, root: &str)
        ensures
            final(self).file() == old(self).file(),
            final(self).listed() == without(old(self).listed(), root@),
    {
        let ghost old_entries = self.entries@;
        let mut kept: Vec<RecentEntry> = Vec::new();
        let mut i: usize = 0;
        while i < self.entries.len()
            invariant
                self.entries@ == old_entries,
                0 <= i <= old_entries.len(),
                kept@ == without(old_entries.take(i as int), root@),
            decreases old_entries.len() - i,
        {
            proof {
                assert(old_entries.take(i + 1).drop_last() =~= old_entries.take(i as int));
            }
            if !paths_equal(self.entries[i].path.as_str(), root) {
                kept.push(self.entries[i].duplicate());
            }
            i += 1;
        }
        proof {
            assert(old_entries.take(old_entries.len() as int) =~= old_entries);
        }
        self.entries = kept;
    }
}

} // verus!
