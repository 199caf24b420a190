//! Session persistence: session identifiers, the records of an append-only
//! JSONL session log, and the rules for replaying, summarizing, listing and
//! finding sessions. Reading and writing the files is the caller's part.

use vstd::prelude::*;
use vstd::string::*;
use vstd::utf8::*;

use crate::json::{json_string_literal, quote};
use crate::message::{opt_str, Message, MessageV};
use crate::text::{
    decimal, has_prefix, nl_pieces, owned, push_char, push_str, split_lines, starts_with,
    strip_trailing_cr, text_lines, usize_to_decimal,
};

verus! {

broadcast use vstd::seq_lib::group_seq_properties;

// ------------------------------------------------------------------ ids

/// The number of bytes in the UTF-8 encoding of `c`.
pub open spec fn utf8_width(c: char) -> nat {
    if (c as u32) < 0x80 {
        1
    } else if (c as u32) < 0x800 {
        2
    } else if (c as u32) < 0x10000 {
        3
    } else {
        4
    }
}

/// The number of bytes in the UTF-8 encoding of `s`.
pub open spec fn utf8_len(s: Seq<char>) -> nat
    decreases s.len(),
{
    if s.len() == 0 {
        0
    } else {
        utf8_len(s.drop_last()) + utf8_width(s.last())
    }
}

/// The byte length of a prefix grows with the prefix.
pub proof fn lemma_utf8_len_grows(s: Seq<char>, j: int, k: int)
    requires
        0 <= j < k <= s.len(),
    ensures
        utf8_len(s.take(j)) < utf8_len(s.take(k)),
    decreases k - j,
{
    assert(s.take(k).drop_last() =~= s.take(k - 1));
    if j < k - 1 {
        lemma_utf8_len_grows(s, j, k - 1);
    }
}

/// The short display form of an id: its first six bytes when they end on a
/// character boundary, otherwise the whole id.
pub open spec fn short_form(s: Seq<char>) -> Seq<char> {
    if exists|k: int| 0 <= k <= s.len() && utf8_len(#[trigger] s.take(k)) == 6 {
        s.take(choose|k: int| 0 <= k <= s.len() && utf8_len(#[trigger] s.take(k)) == 6)
    } else {
        s
    }
}

/// The UTF-8 width of one character.
fn char_width(c: char) -> (r: usize)
    ensures
        r == utf8_width(c),
{
    let v = c as u32;
    if v < 0x80 {
        1
    } else if v < 0x800 {
        2
    } else if v < 0x10000 {
        3
    } else {
        4
    }
}

/// A session identifier. Ids are opaque strings (UUIDs); every display and
/// matching rule lives here.
#[derive(Debug, Clone, PartialEq, Eq, Hash, PartialOrd, Ord)]
pub struct SessionId(String);

impl View for SessionId {
    type V = Seq<char>;

    closed spec fn view(&self) -> Seq<char> {
        self.0@
    }
}

impl SessionId {
    /// An id from its text.
    pub fn new(id: &str) -> (r: Self)
        ensures
            r@ == id@,
    {
        SessionId(owned(id))
    }

    /// The full id, as stored on disk.
    pub fn as_str(&self) -> (r: &str)
        ensures
            r@ == self@,
    {
        self.0.as_str()
    }

    /// The full id (the same as `as_str`, for callers that show it whole).
    pub fn full(&self) -> (r: &str)
        ensures
            r@ == self@,
    {
        self.0.as_str()
    }

    /// The full id as an owned string.
    pub fn to_string(&self) -> (r: String)
        ensures
            r@ == self@,
    {
        self.0.clone()
    }

    /// A short display form: the first six bytes of the id when they end on
    /// a character boundary, otherwise the whole id.
    pub fn short(&self) -> (r: &str)
        ensures
            r@ == short_form(self@),
    {
        let s = self.0.as_str();
        let n = s.unicode_len();
        let ghost v = s@;
        let mut bytes: usize = 0;
        let mut i: usize = 0;
        while i < n && bytes < 6
            invariant
                v == s@,
                n == v.len(),
                0 <= i <= n,
                bytes == utf8_len(v.take(i as int)),
                forall|j: int| 0 <= j < i ==> utf8_len(#[trigger] v.take(j)) < 6,
            decreases n - i,
        {
            let w = char_width(s.get_char(i));
            proof {
                assert(v.take(i + 1).drop_last() =~= v.take(i as int));
            }
            bytes = bytes + w;
            i += 1;
        }
        if bytes == 6 {
            proof {
                let k = choose|k: int| 0 <= k <= v.len() && utf8_len(#[trigger] v.take(k)) == 6;
                if k < i {
                    lemma_utf8_len_grows(v, k, i as int);
                } else if k > i {
                    lemma_utf8_len_grows(v, i as int, k);
                }
                assert(k == i);
            }
            s.substring_char(0, i)
        } else {
            proof {
                assert forall|k: int| 0 <= k <= v.len() implies utf8_len(#[trigger] v.take(k)) != 6 by {
                    if k < i {
                    } else if k > i {
                        lemma_utf8_len_grows(v, i as int, k);
                        if bytes < 6 {
                            assert(i == n);
                        }
                    }
                }
                assert(v.take(n as int) =~= v);
            }
            s
        }
    }

    /// Whether this id starts with `prefix`.
    pub fn matches_prefix(&self, prefix: &str) -> (r: bool)
        ensures
            r == has_prefix(self@, prefix@),
    {
        starts_with(self.0.as_str(), prefix)
    }
}

// ------------------------------------------------------------------ records

/// The first record of a session log.
#[derive(Debug, Clone, PartialEq, Eq)]
pub struct SessionHeader {
    pub id: String,
    pub cwd: String,
    /// When the session was created, as an RFC 3339 string. Older logs lack
    /// it; readers fall back to the file's modification time.
    pub created_at: Option<String>,
}

/// The header record's JSON text: an object with its keys in sorted order,
/// `created_at` written as `null` when absent.
pub open spec fn header_record(id: Seq<char>, cwd: Seq<char>, created_at: Option<Seq<char>>) -> Seq<char> {
    "{\"created_at\":"@
        + match created_at { Some(c) => json_string_literal(c), None => "null"@ }
        + ",\"cwd\":"@ + json_string_literal(cwd)
        + ",\"id\":"@ + json_string_literal(id)
        + ",\"type\":\"session\"}"@
}

impl SessionHeader {
    /// The header as the JSON record that opens a log.
    pub fn to_record(&self) -> (r: String)
        ensures
            r@ == header_record(self.id@, self.cwd@, opt_str(self.created_at)),
    {
        let mut s = owned("{\"created_at\":");
        match &self.created_at {
            Some(c) => {
                let q = quote(c.as_str());
                push_str(&mut s, q.as_str());
            },
            None => push_str(&mut s, "null"),
        }
        push_str(&mut s, ",\"cwd\":");
        let cwd = quote(self.cwd.as_str());
        push_str(&mut s, cwd.as_str());
        push_str(&mut s, ",\"id\":");
        let id = quote(self.id.as_str());
        push_str(&mut s, id.as_str());
        push_str(&mut s, ",\"type\":\"session\"}");
        s
    }
}

/// The first user prompt in a transcript, if any.
pub open spec fn first_user(ms: Seq<MessageV>) -> Option<Seq<char>>
    decreases ms.len(),
{
    if ms.len() == 0 {
        None
    } else {
        match ms[0] {
            MessageV::User(c) => Some(c),
            _ => first_user(ms.drop_first()),
        }
    }
}

/// The first user prompt in a transcript, if any.
pub fn first_user_message(messages: &Vec<Message>) -> (r: Option<String>)
    ensures
        opt_str(r) == first_user(messages@.map_values(|m: Message| m@)),
{
    let ghost ms = messages@.map_values(|m: Message| m@);
    let mut i: usize = 0;
    while i < messages.len()
        invariant
            0 <= i <= messages@.len(),
            ms == messages@.map_values(|m: Message| m@),
            first_user(ms) == first_user(ms.skip(i as int)),
        decreases messages@.len() - i,
    {
        proof {
            assert(ms.skip(i as int).drop_first() =~= ms.skip(i + 1));
        }
        match &messages[i] {
            Message::User(user) => {
                return Some(user.content.clone());
            },
            _ => {},
        }
        i += 1;
    }
    proof {
        assert(ms.skip(i as int).len() == 0);
    }
    None
}

// ------------------------------------------------------------------ errors

/// Errors from session persistence.
#[derive(Debug, Clone, PartialEq, Eq)]
pub enum PersistError {
    /// No platform data directory could be determined.
    NoDataDir,
    /// A filesystem operation on the session directory or log failed.
    Io(String),
    /// A record could not be serialized.
    Serialize(String),
    /// No log exists for the requested session id.
    NotFound { id: String },
    /// The log exists but cannot be replayed.
    Corrupt { id: String, message: String },
}

/// The display text of a [`PersistError`].
pub open spec fn persist_error_text(e: PersistError) -> Seq<char> {
    match e {
        PersistError::NoDataDir => "no platform data directory available"@,
        PersistError::Io(m) => "session file error: "@ + m@,
        PersistError::Serialize(m) => "could not serialize session record: "@ + m@,
        PersistError::NotFound { id } => "session `"@ + id@ + "` not found"@,
        PersistError::Corrupt { id, message } => "session `"@ + id@ + "` is corrupt: "@ + message@,
    }
}

impl PersistError {
    /// The human-readable message for this error.
    pub fn to_string(&self) -> (r: String)
        ensures
            r@ == persist_error_text(*self),
    {
        match self {
            PersistError::NoDataDir => owned("no platform data directory available"),
            PersistError::Io(m) => {
                let mut s = owned("session file error: ");
                push_str(&mut s, m.as_str());
                s
            },
            PersistError::Serialize(m) => {
                let mut s = owned("could not serialize session record: ");
                push_str(&mut s, m.as_str());
                s
            },
            PersistError::NotFound { id } => {
                let mut s = owned("session `");
                push_str(&mut s, id.as_str());
                push_str(&mut s, "` not found");
                s
            },
            PersistError::Corrupt { id, message } => {
                let mut s = owned("session `");
                push_str(&mut s, id.as_str());
                push_str(&mut s, "` is corrupt: ");
                push_str(&mut s, message.as_str());
                s
            },
        }
    }
}

// ------------------------------------------------------------------ keys

/// One FNV-1a step: fold a byte into the hash.
pub open spec fn fnv_step(hash: u64, byte: u8) -> u64 {
    (hash ^ (byte as u64)).wrapping_mul(0x0000_0100_0000_01b3u64)
}

/// The 64-bit FNV-1a hash of `bytes`.
pub open spec fn fnv1a(bytes: Seq<u8>) -> u64
    decreases bytes.len(),
{
    if bytes.len() == 0 {
        0xcbf2_9ce4_8422_2325u64
    } else {
        fnv_step(fnv1a(bytes.drop_last()), bytes.last())
    }
}

/// The lowercase hexadecimal digit for a value below 16.
pub open spec fn hex_digit(d: u64) -> char {
    if d < 10 { ((d + 48) as u8) as char } else { ((d + 87) as u8) as char }
}

/// `h` as sixteen lowercase hexadecimal digits, most significant first.
pub open spec fn hex16(h: u64) -> Seq<char> {
    Seq::new(16, |i: int| hex_digit((h >> (((15 - i) * 4) as u64)) & 0xf))
}

/// The hex digit for a nibble.
fn nibble_char(d: u64) -> (r: char)
    requires
        d < 16,
    ensures
        r == hex_digit(d),
{
    if d < 10 { ((d + 48) as u8) as char } else { ((d + 87) as u8) as char }
}

/// A stable identity for a repository: the FNV-1a hash of the UTF-8 bytes
/// of its canonical path, as sixteen lowercase hex digits. Computed by hand
/// so it never changes across Rust releases.
pub fn repository_key(canonical_root: &str) -> (r: String)
    ensures
        r@ == hex16(fnv1a(encode_utf8(canonical_root@))),
{
    let bytes = canonical_root.as_bytes();
    let ghost b = bytes@;
    let mut hash: u64 = 0xcbf2_9ce4_8422_2325;
    let mut i: usize = 0;
    while i < bytes.len()
        invariant
            b == bytes@,
            0 <= i <= b.len(),
            hash == fnv1a(b.take(i as int)),
        decreases b.len() - i,
    {
        proof {
            assert(b.take(i + 1).drop_last() =~= b.take(i as int));
        }
        hash = (hash ^ (bytes[i] as u64)).wrapping_mul(0x0000_0100_0000_01b3);
        i += 1;
    }
    proof {
        assert(b.take(b.len() as int) =~= b);
    }
    let mut out = String::new();
    let mut k: usize = 0;
    while k < 16
        invariant
            0 <= k <= 16,
            hash == fnv1a(b),
            b == encode_utf8(canonical_root@),
            out@ == hex16(hash).take(k as int),
        decreases 16 - k,
    {
        let shift: u64 = ((15 - k) * 4) as u64;
        let d = (hash >> shift) & 0xf;
        assert(((hash >> shift) & 0xf) < 16) by (bit_vector);
        let c = nibble_char(d);
        push_char(&mut out, c);
        proof {
            assert(hex16(hash)[k as int] == hex_digit((hash >> (((15 - k) * 4) as u64)) & 0xf));
            assert(out@ =~= hex16(hash).take(k + 1));
        }
        k += 1;
    }
    proof {
        assert(hex16(hash).take(16) =~= hex16(hash));
    }
    out
}

// ------------------------------------------------------------------ store

/// `base` joined with a relative path, the way `Path::join` does it: a
/// separator in between unless `base` is empty or already ends with one.
pub open spec fn join_path(base: Seq<char>, rel: Seq<char>) -> Seq<char> {
    if base.len() == 0 || base.last() == '/' { base + rel } else { base + "/"@ + rel }
}

/// Join a relative path onto a base path.
pub fn join(base: &str, rel: &str) -> (r: String)
    ensures
        r@ == join_path(base@, rel@),
{
    let n = base.unicode_len();
    let mut out = owned(base);
    if n > 0 && base.get_char(n - 1) != '/' {
        push_str(&mut out, "/");
    }
    push_str(&mut out, rel);
    out
}

/// The log file name of a session.
pub open spec fn log_file_name(id: Seq<char>) -> Seq<char> {
    id + ".jsonl"@
}

/// Where session logs live: `<data_dir>/vava/sessions/`, one subdirectory
/// per repository.
#[derive(Debug, Clone)]
pub struct SessionStore {
    dir: String,
}

/// A single session's log: its id and file.
#[derive(Debug, Clone)]
pub struct SessionLog {
    id: SessionId,
    path: String,
}

impl SessionLog {
    /// The session's id.
    pub closed spec fn log_id(&self) -> Seq<char> {
        self.id@
    }

    /// The log file's path.
    pub closed spec fn log_path(&self) -> Seq<char> {
        self.path@
    }

    /// A log handle for the session `id` stored at `path`.
    pub fn at(id: SessionId, path: String) -> (r: Self)
        ensures
            r.log_id() == id@,
            r.log_path() == path@,
    {
        SessionLog { id, path }
    }

    /// The session's id.
    pub fn id(&self) -> (r: &SessionId)
        ensures
            r@ == self.log_id(),
    {
        &self.id
    }

    /// The log file's path.
    pub fn path(&self) -> (r: &str)
        ensures
            r@ == self.log_path(),
    {
        self.path.as_str()
    }
}

/// The text of a version-4 UUID in hyphenated lowercase form: 36
/// characters, hyphens at 8, 13, 18 and 23, lowercase hexadecimal digits
/// elsewhere, and the version digit `4` at 14.
pub open spec fn uuid_v4_text(s: Seq<char>) -> bool {
    &&& s.len() == 36
    &&& forall|i: int| 0 <= i < 36 ==> {
        let c = #[trigger] s[i];
        if i == 8 || i == 13 || i == 18 || i == 23 {
            c == '-'
        } else {
            ('0' <= c <= '9') || ('a' <= c <= 'f')
        }
    }
    &&& s[14] == '4'
}

/// A fresh session id: a random (version 4) UUID in its hyphenated form,
/// from `uuid::Uuid::new_v4` and its `Display` (lowercase hyphenated).
/// Claimed: the text has that shape; which UUID it is, is chance.
#[verifier::external_body]
fn new_session_id() -> (r: String)
    ensures
        uuid_v4_text(r@),
{
    uuid::Uuid::new_v4().to_string()
}

/// The current time as RFC 3339 text, from `chrono::Utc::now` and
/// `DateTime::to_rfc3339`. Nothing is claimed of the text.
#[verifier::external_body]
pub(crate) fn now_rfc3339() -> (r: String)
{
    chrono::Utc::now().to_rfc3339()
}

impl SessionStore {
    /// The directory holding the store.
    pub closed spec fn root_dir(&self) -> Seq<char> {
        self.dir@
    }

    /// A store rooted at a directory (which the caller has created).
    pub fn at(dir: String) -> (r: Self)
        ensures
            r.root_dir() == dir@,
    {
        SessionStore { dir }
    }

    /// The directory holding the store.
    pub fn dir(&self) -> (r: &str)
        ensures
            r@ == self.root_dir(),
    {
        self.dir.as_str()
    }

    /// The directory holding the sessions of the repository whose canonical
    /// root is `canonical_root`.
    pub fn repository_dir(&self, canonical_root: &str) -> (r: String)
        ensures
            r@ == join_path(self.root_dir(), hex16(fnv1a(encode_utf8(canonical_root@)))),
    {
        let key = repository_key(canonical_root);
        join(self.dir.as_str(), key.as_str())
    }

    /// Where the log of session `id` of a repository lives.
    pub fn scoped_log(&self, canonical_root: &str, id: &str) -> (r: SessionLog)
        ensures
            r.log_id() == id@,
            r.log_path() == join_path(
                join_path(self.root_dir(), hex16(fnv1a(encode_utf8(canonical_root@)))),
                log_file_name(id@),
            ),
    {
        let dir = self.repository_dir(canonical_root);
        let mut name = owned(id);
        push_str(&mut name, ".jsonl");
        let path = join(dir.as_str(), name.as_str());
        SessionLog { id: SessionId::new(id), path }
    }

    /// Where a log written before repository scoping lives: directly in the
    /// store's directory.
    pub fn flat_log(&self, id: &str) -> (r: SessionLog)
        ensures
            r.log_id() == id@,
            r.log_path() == join_path(self.root_dir(), log_file_name(id@)),
    {
        let mut name = owned(id);
        push_str(&mut name, ".jsonl");
        let path = join(self.dir.as_str(), name.as_str());
        SessionLog { id: SessionId::new(id), path }
    }

    /// A new session for the repository whose canonical root is
    /// `canonical_root`: a fresh random id, its log location in the
    /// repository's directory, and the header record to write first (the
    /// root as `cwd`, the creation time now).
    pub fn create(&self, canonical_root: &str) -> (r: (SessionLog, SessionHeader))
        ensures
            r.0.log_id() == r.1.id@,
            r.0.log_path() == join_path(
                join_path(self.root_dir(), hex16(fnv1a(encode_utf8(canonical_root@)))),
                log_file_name(r.1.id@),
            ),
            r.1.cwd@ == canonical_root@,
            uuid_v4_text(r.1.id@),
            r.1.created_at is Some,
    {
        let id = new_session_id();
        let log = self.scoped_log(canonical_root, id.as_str());
        let header = SessionHeader { id, cwd: owned(canonical_root), created_at: Some(now_rfc3339()) };
        (log, header)
    }
}

// ------------------------------------------------------------------ summaries

/// An instant: whole seconds since the Unix epoch and the nanoseconds past
/// them (beyond 999,999,999 only during a leap second).
#[derive(Debug, Clone, Copy, PartialEq, Eq)]
pub struct Timestamp {
    pub secs: i64,
    pub nanos: u32,
}

/// Whether `a` is strictly later than `b`.
pub open spec fn later(a: Timestamp, b: Timestamp) -> bool {
    a.secs > b.secs || (a.secs == b.secs && a.nanos > b.nanos)
}

/// What `chrono::DateTime::parse_from_rfc3339` makes of `stamp`, as seconds
/// and nanoseconds of the instant in UTC, or `None` when it does not parse.
pub uninterp spec fn rfc3339_instant(stamp: Seq<char>) -> Option<(i64, u32)>;

/// Parse an RFC 3339 time stamp with `chrono::DateTime::parse_from_rfc3339`
/// and take its instant (`timestamp`, `timestamp_subsec_nanos`). Claimed:
/// the result is `rfc3339_instant(stamp)`.
#[verifier::external_body]
fn parse_rfc3339(stamp: &str) -> (r: Option<Timestamp>)
    ensures
        match r {
            Some(t) => rfc3339_instant(stamp@) == Some((t.secs, t.nanos)),
            None => rfc3339_instant(stamp@) is None,
        },
{
    match chrono::DateTime::parse_from_rfc3339(stamp) {
        Ok(t) => Some(Timestamp { secs: t.timestamp(), nanos: t.timestamp_subsec_nanos() }),
        Err(_) => None,
    }
}

/// What a frontend needs to display one session in a list.
#[derive(Debug, Clone, PartialEq, Eq)]
pub struct SessionSummary {
    pub id: SessionId,
    pub repository_root: String,
    pub created_at: Timestamp,
    /// When the session was last appended to: the log file's modification
    /// time.
    pub updated_at: Timestamp,
    /// The first user prompt, if the log contains one.
    pub first_user_message: Option<String>,
}

/// The creation time of a session: the header's time stamp when it parses,
/// otherwise the log's modification time.
pub open spec fn created_instant(created_at: Option<Seq<char>>, modified: Timestamp) -> Timestamp {
    match created_at {
        Some(stamp) => match rfc3339_instant(stamp) {
            Some(p) => Timestamp { secs: p.0, nanos: p.1 },
            None => modified,
        },
        None => modified,
    }
}

/// The summary of one log, from its header, the log file's modification
/// time and its first user prompt.
pub fn summarize(header: &SessionHeader, modified: Timestamp, first_user_message: Option<String>) -> (r: SessionSummary)
    ensures
        r.id@ == header.id@,
        r.repository_root@ == header.cwd@,
        r.created_at == created_instant(opt_str(header.created_at), modified),
        r.updated_at == modified,
        r.first_user_message == first_user_message,
{
    let created_at = match &header.created_at {
        Some(stamp) => match parse_rfc3339(stamp.as_str()) {
            Some(t) => t,
            None => modified,
        },
        None => modified,
    };
    SessionSummary {
        id: SessionId::new(header.id.as_str()),
        repository_root: header.cwd.clone(),
        created_at,
        updated_at: modified,
        first_user_message,
    }
}

/// Whether `a` sorts before `b` when texts are compared character by
/// character (by code point; the same order as their UTF-8 bytes).
pub open spec fn text_less(a: Seq<char>, b: Seq<char>) -> bool
    decreases a.len(),
{
    if a.len() == 0 {
        b.len() > 0
    } else if b.len() == 0 {
        false
    } else if a[0] != b[0] {
        (a[0] as u32) < (b[0] as u32)
    } else {
        text_less(a.drop_first(), b.drop_first())
    }
}

/// The order of texts is a strict order.
pub proof fn lemma_text_less_order(a: Seq<char>, b: Seq<char>, c: Seq<char>)
    ensures
        !(text_less(a, b) && text_less(b, a)),
        text_less(a, b) && text_less(b, c) ==> text_less(a, c),
        !text_less(a, b) && !text_less(b, a) ==> a == b,
    decreases a.len(),
{
    if a.len() > 0 && b.len() > 0 && c.len() > 0 {
        lemma_text_less_order(a.drop_first(), b.drop_first(), c.drop_first());
    }
    if a.len() > 0 && b.len() > 0 && a[0] == b[0] {
        lemma_text_less_order(a.drop_first(), b.drop_first(), b.drop_first());
        if a.drop_first() == b.drop_first() {
            assert(a =~= seq![a[0]] + a.drop_first());
            assert(b =~= seq![b[0]] + b.drop_first());
        }
    }
    if a.len() > 0 && b.len() > 0 && a[0] != b[0] {
        let x = a[0] as u32;
        let y = b[0] as u32;
        char_u32_cast(a[0], x);
        char_u32_cast(b[0], y);
        assert(x != y);
    }
}

/// Whether `a` is strictly less than `b` as text.
pub fn text_lt(a: &str, b: &str) -> (r: bool)
    ensures
        r == text_less(a@, b@),
{
    let n = a.unicode_len();
    let m = b.unicode_len();
    let mut i: usize = 0;
    while i < n && i < m
        invariant
            n == a@.len(),
            m == b@.len(),
            0 <= i <= n,
            i <= m,
            a@.take(i as int) == b@.take(i as int),
            text_less(a@, b@) == text_less(a@.skip(i as int), b@.skip(i as int)),
        decreases n - i,
    {
        let x = a.get_char(i);
        let y = b.get_char(i);
        if x != y {
            return (x as u32) < (y as u32);
        }
        proof {
            assert(a@.skip(i as int).drop_first() =~= a@.skip(i + 1));
            assert(b@.skip(i as int).drop_first() =~= b@.skip(i + 1));
            assert(a@.take(i + 1) =~= a@.take(i as int).push(x));
            assert(b@.take(i + 1) =~= b@.take(i as int).push(y));
        }
        i += 1;
    }
    i < m
}

/// Whether summary `a` is listed before summary `b`: it was updated later,
/// or at the same instant with a greater id.
pub open spec fn listed_before(a: SessionSummary, b: SessionSummary) -> bool {
    later(a.updated_at, b.updated_at)
        || (a.updated_at == b.updated_at && text_less(b.id@, a.id@))
}

/// A list with no summary listed before one that precedes it.
pub open spec fn newest_first_order(s: Seq<SessionSummary>) -> bool {
    forall|i: int, j: int| 0 <= i < j < s.len() ==> !listed_before(#[trigger] s[j], #[trigger] s[i])
}

/// Listing order is a strict order.
pub proof fn lemma_listed_before_order(a: SessionSummary, b: SessionSummary, c: SessionSummary)
    ensures
        !(listed_before(a, b) && listed_before(b, a)),
        listed_before(a, b) && listed_before(b, c) ==> listed_before(a, c),
{
    lemma_text_less_order(a.id@, b.id@, c.id@);
    lemma_text_less_order(c.id@, b.id@, a.id@);
    lemma_text_less_order(b.id@, a.id@, c.id@);
}

/// Whether `a` is listed before `b`.
fn is_listed_before(a: &SessionSummary, b: &SessionSummary) -> (r: bool)
    ensures
        r == listed_before(*a, *b),
{
    if a.updated_at.secs != b.updated_at.secs {
        a.updated_at.secs > b.updated_at.secs
    } else if a.updated_at.nanos != b.updated_at.nanos {
        a.updated_at.nanos > b.updated_at.nanos
    } else {
        text_lt(b.id.as_str(), a.id.as_str())
    }
}

/// Order summaries newest first: by last update, latest first, and by id,
/// greatest first, among those updated at the same instant. The result
/// holds exactly the given summaries.
pub fn newest_first(summaries: Vec<SessionSummary>) -> (r: Vec<SessionSummary>)
    ensures
        r@.to_multiset() == summaries@.to_multiset(),
        newest_first_order(r@),
{
    broadcast use vstd::seq_lib::to_multiset_insert, vstd::seq_lib::to_multiset_remove;
    broadcast use vstd::multiset::group_multiset_axioms;
    let mut out: Vec<SessionSummary> = Vec::new();
    let mut rest = summaries;
    let ghost given = rest@;
    while rest.len() > 0
        invariant
            out@.to_multiset().add(rest@.to_multiset()) == given.to_multiset(),
            newest_first_order(out@),
        decreases rest@.len(),
    {
        let ghost rest_before = rest@;
        let x = rest.remove(0);
        proof {
            assert(rest_before.to_multiset() == rest@.to_multiset().insert(x)) by {
                assert(rest_before.remove(0) == rest@);
            }
        }
        let mut p: usize = 0;
        while p < out.len() && !is_listed_before(&x, &out[p])
            invariant
                0 <= p <= out@.len(),
                forall|i: int| 0 <= i < p ==> !listed_before(x, #[trigger] out@[i]),
            decreases out@.len() - p,
        {
            p += 1;
        }
        let ghost before = out@;
        proof {
            assert forall|j: int| p <= j < before.len() implies !listed_before(#[trigger] before[j], x) by {
                lemma_listed_before_order(before[j], x, before[p as int]);
                if j > p {
                    assert(!listed_before(before[j], before[p as int]));
                }
            }
        }
        out.insert(p, x);
        proof {
            assert(out@ == before.insert(p as int, x));
            assert(out@.to_multiset() == before.to_multiset().insert(x));
            assert(out@.to_multiset().add(rest@.to_multiset()) =~= before.to_multiset().add(rest_before.to_multiset()));
            assert forall|i: int, j: int| 0 <= i < j < out@.len() implies !listed_before(#[trigger] out@[j], #[trigger] out@[i]) by {
                if j < p {
                    assert(out@[i] == before[i] && out@[j] == before[j]);
                } else if j == p {
                    assert(out@[i] == before[i]);
                } else if i == p {
                    assert(out@[j] == before[j - 1]);
                } else if i < p {
                    assert(out@[i] == before[i] && out@[j] == before[j - 1]);
                } else {
                    assert(out@[i] == before[i - 1] && out@[j] == before[j - 1]);
                }
            }
        }
    }
    proof {
        assert(rest@.to_multiset() =~= vstd::multiset::Multiset::empty());
        assert(out@.to_multiset().add(vstd::multiset::Multiset::empty()) =~= out@.to_multiset());
    }
    out
}

/// A list of headers with no header whose id sorts before that of one that
/// precedes it.
pub open spec fn ids_ascending(s: Seq<SessionHeader>) -> bool {
    forall|i: int, j: int| 0 <= i < j < s.len() ==> !text_less(#[trigger] s[j].id@, #[trigger] s[i].id@)
}

/// Order session headers by id, smallest first. The result holds exactly
/// the given headers.
pub fn headers_by_id(headers: Vec<SessionHeader>) -> (r: Vec<SessionHeader>)
    ensures
        r@.to_multiset() == headers@.to_multiset(),
        ids_ascending(r@),
{
    broadcast use vstd::seq_lib::to_multiset_insert, vstd::seq_lib::to_multiset_remove;
    broadcast use vstd::multiset::group_multiset_axioms;
    let mut out: Vec<SessionHeader> = Vec::new();
    let mut rest = headers;
    let ghost given = rest@;
    while rest.len() > 0
        invariant
            out@.to_multiset().add(rest@.to_multiset()) == given.to_multiset(),
            ids_ascending(out@),
        decreases rest@.len(),
    {
        let ghost rest_before = rest@;
        let x = rest.remove(0);
        proof {
            assert(rest_before.to_multiset() == rest@.to_multiset().insert(x)) by {
                assert(rest_before.remove(0) == rest@);
            }
        }
        let mut p: usize = 0;
        while p < out.len() && !text_lt(x.id.as_str(), out[p].id.as_str())
            invariant
                0 <= p <= out@.len(),
                forall|i: int| 0 <= i < p ==> !text_less(x.id@, #[trigger] out@[i].id@),
            decreases out@.len() - p,
        {
            p += 1;
        }
        let ghost before = out@;
        proof {
            assert forall|j: int| p <= j < before.len() implies !text_less(#[trigger] before[j].id@, x.id@) by {
                lemma_text_less_order(before[j].id@, x.id@, before[p as int].id@);
                if j > p {
                    assert(!text_less(before[j].id@, before[p as int].id@));
                }
            }
        }
        out.insert(p, x);
        proof {
            assert(out@ == before.insert(p as int, x));
            assert(out@.to_multiset() == before.to_multiset().insert(x));
            assert(out@.to_multiset().add(rest@.to_multiset()) =~= before.to_multiset().add(rest_before.to_multiset()));
            assert forall|i: int, j: int| 0 <= i < j < out@.len() implies !text_less(#[trigger] out@[j].id@, #[trigger] out@[i].id@) by {
                if j < p {
                    assert(out@[i] == before[i] && out@[j] == before[j]);
                } else if j == p {
                    assert(out@[i] == before[i]);
                } else if i == p {
                    assert(out@[j] == before[j - 1]);
                } else if i < p {
                    assert(out@[i] == before[i] && out@[j] == before[j - 1]);
                } else {
                    assert(out@[i] == before[i - 1] && out@[j] == before[j - 1]);
                }
            }
        }
    }
    proof {
        assert(rest@.to_multiset() =~= vstd::multiset::Multiset::empty());
        assert(out@.to_multiset().add(vstd::multiset::Multiset::empty()) =~= out@.to_multiset());
    }
    out
}

// ------------------------------------------------------------------ prefixes

/// The summaries whose id starts with `prefix`, in their order.
pub open spec fn matching(ss: Seq<SessionSummary>, prefix: Seq<char>) -> Seq<SessionSummary>
    decreases ss.len(),
{
    if ss.len() == 0 {
        Seq::empty()
    } else if has_prefix(ss.last().id@, prefix) {
        matching(ss.drop_last(), prefix).push(ss.last())
    } else {
        matching(ss.drop_last(), prefix)
    }
}

/// The outcome of resolving a session-id prefix against a list.
#[derive(Debug, Clone, PartialEq, Eq)]
pub enum PrefixMatch<'a> {
    /// No session matched the prefix.
    NoMatch,
    /// Exactly one session matched.
    Unique(&'a SessionSummary),
    /// Several sessions matched; the caller should ask for more input.
    Ambiguous(Vec<&'a SessionSummary>),
}

/// Resolve a session-id prefix against `sessions` (already scoped to one
/// repository). An empty prefix matches nothing.
pub fn resolve_prefix<'a>(sessions: &'a [SessionSummary], prefix: &str) -> (r: PrefixMatch<'a>)
    ensures
        prefix@.len() == 0 ==> r is NoMatch,
        prefix@.len() > 0 ==> {
            let m = matching(sessions@, prefix@);
            &&& m.len() == 0 ==> r is NoMatch
            &&& m.len() == 1 ==> (r matches PrefixMatch::Unique(s) && *s == m[0])
            &&& m.len() > 1 ==> (r matches PrefixMatch::Ambiguous(v)
                && v@.map_values(|x: &SessionSummary| *x) == m)
        },
{
    if prefix.unicode_len() == 0 {
        return PrefixMatch::NoMatch;
    }
    let mut found: Vec<&'a SessionSummary> = Vec::new();
    let mut i: usize = 0;
    while i < sessions.len()
        invariant
            0 <= i <= sessions@.len(),
            found@.map_values(|x: &SessionSummary| *x) == matching(sessions@.take(i as int), prefix@),
        decreases sessions@.len() - i,
    {
        let ghost before = found@;
        proof {
            assert(sessions@.take(i + 1).drop_last() =~= sessions@.take(i as int));
        }
        if sessions[i].id.matches_prefix(prefix) {
            found.push(&sessions[i]);
            proof {
                assert(found@.map_values(|x: &SessionSummary| *x)
                    =~= before.map_values(|x: &SessionSummary| *x).push(sessions@[i as int]));
            }
        } else {
            proof {
                assert(found@ == before);
            }
        }
        i += 1;
    }
    proof {
        assert(sessions@.take(sessions@.len() as int) =~= sessions@);
    }
    let n = found.len();
    if n == 0 {
        PrefixMatch::NoMatch
    } else if n == 1 {
        proof {
            assert(found@.map_values(|x: &SessionSummary| *x)[0] == *found@[0]);
        }
        PrefixMatch::Unique(found[0])
    } else {
        PrefixMatch::Ambiguous(found)
    }
}

// ------------------------------------------------------------------ replay

/// How the message records of a log replay, from record `k` on: each record
/// is the decoding of one line after the header. A record that does not
/// decode ends the replay quietly when it is the log's last line (a write
/// cut short by a crash); anywhere else it is the error, with the record's
/// line number.
pub open spec fn replay_from(
    lines: Seq<Seq<char>>,
    decoded: Seq<Result<MessageV, Seq<char>>>,
    k: int,
) -> Result<Seq<MessageV>, (nat, Seq<char>)>
    decreases decoded.len() - k,
{
    if k < 0 || k >= decoded.len() {
        Ok(Seq::empty())
    } else {
        match decoded[k] {
            Ok(m) => match replay_from(lines, decoded, k + 1) {
                Ok(rest) => Ok(seq![m] + rest),
                Err(e) => Err(e),
            },
            Err(e) => if k + 2 == lines.len() {
                Ok(Seq::empty())
            } else {
                Err(((k + 2) as nat, e))
            },
        }
    }
}

/// The views of decoded records.
pub open spec fn decoded_views(v: Seq<Result<Message, String>>) -> Seq<Result<MessageV, Seq<char>>> {
    v.map_values(|r: Result<Message, String>| match r {
        Ok(m) => Ok(m@),
        Err(e) => Err(e@),
    })
}

/// The outcome of replaying a log from its lines: the header must decode
/// (its failure, and an empty log, are errors named after the file), then
/// the records as `replay_from` says.
pub open spec fn replay_outcome(
    stem: Seq<char>,
    lines: Seq<Seq<char>>,
    header: Result<SessionHeader, Seq<char>>,
    decoded: Seq<Result<MessageV, Seq<char>>>,
) -> Result<(SessionHeader, Seq<MessageV>), (Seq<char>, Seq<char>)> {
    if lines.len() == 0 {
        Err((stem, "session log is empty"@))
    } else {
        match header {
            Err(e) => Err((stem, "bad header: "@ + e)),
            Ok(h) => match replay_from(lines, decoded, 0) {
                Ok(ms) => Ok((h, ms)),
                Err((n, e)) => Err((h.id@, "record "@ + decimal(n) + ": "@ + e)),
            },
        }
    }
}

/// The lines of a log, in order; the first is the header record.
pub fn log_lines(content: &str) -> (r: Vec<String>)
    ensures
        r@.map_values(|l: String| l@) == text_lines(content@),
{
    split_lines(content)
}

/// Replay a session log. `header` is the decoding of its first line and
/// `records` that of each following line, in order. The log's lines are
/// never changed.
pub fn replay_log(
    stem: &str,
    content: &str,
    header: Result<SessionHeader, String>,
    records: Vec<Result<Message, String>>,
) -> (r: Result<(SessionHeader, Vec<Message>), PersistError>)
    requires
        text_lines(content@).len() == 0 || records@.len() + 1 == text_lines(content@).len(),
    ensures
        match replay_outcome(
            stem@,
            text_lines(content@),
            match header { Ok(h) => Ok(h), Err(e) => Err(e@) },
            decoded_views(records@),
        ) {
            Ok((h, ms)) => (r matches Ok((h2, v)) && h2 == h && v@.map_values(|m: Message| m@) == ms),
            Err((id, message)) => (r matches Err(PersistError::Corrupt { id: i, message: m })
                && i@ == id && m@ == message),
        },
{
    let lines = log_lines(content);
    let ghost lv = lines@.map_values(|l: String| l@);
    if lines.len() == 0 {
        return Err(PersistError::Corrupt { id: owned(stem), message: owned("session log is empty") });
    }
    let header = match header {
        Ok(h) => h,
        Err(e) => {
            let mut message = owned("bad header: ");
            push_str(&mut message, e.as_str());
            return Err(PersistError::Corrupt { id: owned(stem), message });
        },
    };
    let n = lines.len();
    let ghost dv = decoded_views(records@);
    let mut messages: Vec<Message> = Vec::new();
    let mut records = records;
    let ghost all = records@;
    let mut k: usize = 0;
    let mut done = false;
    let mut failure: Option<(usize, String)> = None;
    proof {
        assert(lv[n - 1] == lines@[n - 1]@);
    }
    while !done && k < n - 1
        invariant
            n == lv.len(),
            n >= 1,
            lv == lines@.map_values(|l: String| l@),
            lv == text_lines(content@),
            all.len() + 1 == n,
            dv == decoded_views(all),
            !done ==> records@.len() == all.len() - k,
            !done ==> forall|j: int| 0 <= j < records@.len() ==> records@[j] == all[j + k],
            0 <= k <= n - 1,
            match failure { Some((j, _)) => j + 1 < n, None => true },
            !done ==> replay_from(lv, dv, 0) == match replay_from(lv, dv, k as int) {
                Ok(rest) => Ok(messages@.map_values(|m: Message| m@) + rest),
                Err(e) => Err::<Seq<MessageV>, (nat, Seq<char>)>(e),
            },
            done && failure is None ==> replay_from(lv, dv, 0)
                == Ok::<Seq<MessageV>, (nat, Seq<char>)>(messages@.map_values(|m: Message| m@)),
            done ==> match failure {
                Some((j, e)) => replay_from(lv, dv, 0) == Err::<Seq<MessageV>, (nat, Seq<char>)>(((j + 2) as nat, e@)),
                None => true,
            },
            !done ==> failure is None,
        decreases (n - 1 - k) * 2 + (if done { 0int } else { 1int }),
    {
        let record = records.remove(0);
        proof {
            assert(record == all[k as int]);
        }
        match record {
            Ok(m) => {
                let ghost before = messages@;
                messages.push(m);
                proof {
                    assert(messages@.map_values(|x: Message| x@)
                        =~= before.map_values(|x: Message| x@).push(m@));
                    match replay_from(lv, dv, k + 1) {
                        Ok(rest) => {
                            assert(before.map_values(|x: Message| x@) + (seq![m@] + rest)
                                =~= messages@.map_values(|x: Message| x@) + rest);
                        },
                        Err(_) => {},
                    }
                }
                k += 1;
            },
            Err(e) => {
                proof {
                    assert(lines@[k + 1]@ == lv[k + 1]);
                    assert(dv[k as int] == Err::<MessageV, Seq<char>>(e@));
                }
                if k + 2 == n {
                    proof {
                        assert(messages@.map_values(|x: Message| x@) + Seq::<MessageV>::empty()
                            =~= messages@.map_values(|x: Message| x@));
                    }
                } else {
                    failure = Some((k, e));
                }
                done = true;
            },
        }
    }
    match failure {
        Some((j, e)) => {
            let mut message = owned("record ");
            let digits = usize_to_decimal(j + 2);
            push_str(&mut message, digits.as_str());
            push_str(&mut message, ": ");
            push_str(&mut message, e.as_str());
            Err(PersistError::Corrupt { id: header.id.clone(), message })
        },
        None => {
            proof {
                if !done {
                    assert(messages@.map_values(|x: Message| x@) + Seq::<MessageV>::empty()
                        =~= messages@.map_values(|x: Message| x@));
                }
            }
            Ok((header, messages))
        },
    }
}

// ------------------------------------------------------------------ laws

/// The messages of records that all decoded.
pub open spec fn decoded_messages(decoded: Seq<Result<MessageV, Seq<char>>>) -> Seq<MessageV> {
    decoded.map_values(|r: Result<MessageV, Seq<char>>| match r {
        Ok(m) => m,
        Err(_) => MessageV::User(Seq::empty()),
    })
}

/// Whether every record decoded.
pub open spec fn all_decoded(decoded: Seq<Result<MessageV, Seq<char>>>) -> bool {
    forall|i: int| 0 <= i < decoded.len() ==> (#[trigger] decoded[i]) is Ok
}

/// Replay from record `k` of records that all decoded.
proof fn lemma_replay_clean(lines: Seq<Seq<char>>, decoded: Seq<Result<MessageV, Seq<char>>>, k: int)
    requires
        all_decoded(decoded),
        0 <= k <= decoded.len(),
    ensures
        replay_from(lines, decoded, k) == Ok::<Seq<MessageV>, (nat, Seq<char>)>(decoded_messages(decoded).skip(k)),
    decreases decoded.len() - k,
{
    if k < decoded.len() {
        lemma_replay_clean(lines, decoded, k + 1);
        assert(decoded[k] is Ok);
        assert(seq![decoded_messages(decoded)[k]] + decoded_messages(decoded).skip(k + 1)
            =~= decoded_messages(decoded).skip(k));
    } else {
        assert(decoded_messages(decoded).skip(k) =~= Seq::<MessageV>::empty());
    }
}

/// What is appended is what replays: when every record of a log decodes,
/// replaying it gives back every message, in order.
pub proof fn law_replay_returns_every_record(lines: Seq<Seq<char>>, decoded: Seq<Result<MessageV, Seq<char>>>)
    requires
        all_decoded(decoded),
    ensures
        replay_from(lines, decoded, 0) == Ok::<Seq<MessageV>, (nat, Seq<char>)>(decoded_messages(decoded)),
{
    lemma_replay_clean(lines, decoded, 0);
    assert(decoded_messages(decoded).skip(0) =~= decoded_messages(decoded));
}

/// Replay up to a failing record `f`, all records before it decoded.
proof fn lemma_replay_until(
    lines: Seq<Seq<char>>,
    decoded: Seq<Result<MessageV, Seq<char>>>,
    f: int,
    k: int,
)
    requires
        0 <= k <= f < decoded.len(),
        forall|i: int| 0 <= i < f ==> (#[trigger] decoded[i]) is Ok,
    ensures
        replay_from(lines, decoded, k) == match replay_from(lines, decoded, f) {
            Ok(rest) => Ok(decoded_messages(decoded).subrange(k, f) + rest),
            Err(e) => Err::<Seq<MessageV>, (nat, Seq<char>)>(e),
        },
    decreases f - k,
{
    if k < f {
        lemma_replay_until(lines, decoded, f, k + 1);
        assert(decoded[k] is Ok);
        match replay_from(lines, decoded, f) {
            Ok(rest) => {
                assert(seq![decoded_messages(decoded)[k]] + (decoded_messages(decoded).subrange(k + 1, f) + rest)
                    =~= decoded_messages(decoded).subrange(k, f) + rest);
            },
            Err(_) => {},
        }
    } else {
        match replay_from(lines, decoded, f) {
            Ok(rest) => {
                assert(decoded_messages(decoded).subrange(k, f) + rest =~= rest);
            },
            Err(_) => {},
        }
    }
}

/// A write cut short by a crash is tolerated: when only the final record
/// fails to decode, replay gives back every message before it.
pub proof fn law_truncated_final_record_is_dropped(lines: Seq<Seq<char>>, decoded: Seq<Result<MessageV, Seq<char>>>)
    requires
        decoded.len() >= 1,
        lines.len() == decoded.len() + 1,
        forall|i: int| 0 <= i < decoded.len() - 1 ==> (#[trigger] decoded[i]) is Ok,
        decoded.last() is Err,
    ensures
        replay_from(lines, decoded, 0)
            == Ok::<Seq<MessageV>, (nat, Seq<char>)>(decoded_messages(decoded).take(decoded.len() - 1)),
{
    let f = decoded.len() - 1;
    lemma_replay_until(lines, decoded, f, 0);
    assert(decoded_messages(decoded).subrange(0, f) + Seq::<MessageV>::empty()
        =~= decoded_messages(decoded).take(f));
}

/// A corrupt record before the last line is an error: when record `f`
/// fails, every record before it decoded and it is not the log's last
/// line, replay fails naming that record's line number.
pub proof fn law_corrupt_record_is_an_error(
    lines: Seq<Seq<char>>,
    decoded: Seq<Result<MessageV, Seq<char>>>,
    f: int,
)
    requires
        0 <= f < decoded.len(),
        lines.len() == decoded.len() + 1,
        forall|i: int| 0 <= i < f ==> (#[trigger] decoded[i]) is Ok,
        decoded[f] is Err,
        f + 1 < decoded.len(),
    ensures
        replay_from(lines, decoded, 0)
            == Err::<Seq<MessageV>, (nat, Seq<char>)>(((f + 2) as nat, decoded[f]->Err_0)),
{
    lemma_replay_until(lines, decoded, f, 0);
}

/// A log as written: each record followed by a line ending.
pub open spec fn framed(records: Seq<Seq<char>>) -> Seq<char>
    decreases records.len(),
{
    if records.len() == 0 {
        Seq::<char>::empty()
    } else {
        framed(records.drop_last()) + records.last() + seq!['\n']
    }
}

/// A record fit for a line of its own: no line ending inside, and no
/// carriage return at its end (compact JSON has neither).
pub open spec fn single_line(record: Seq<char>) -> bool {
    &&& !record.contains('\n')
    &&& strip_trailing_cr(record) == record
}

/// Text without a line ending extends the last piece.
proof fn lemma_pieces_extend(s: Seq<char>, t: Seq<char>)
    requires
        !t.contains('\n'),
    ensures
        nl_pieces(s + t) == nl_pieces(s).update(nl_pieces(s).len() - 1, nl_pieces(s).last() + t),
    decreases t.len(),
{
    crate::text::lemma_nl_pieces_nonempty(s);
    if t.len() == 0 {
        assert(s + t =~= s);
        assert(nl_pieces(s).last() + t =~= nl_pieces(s).last());
        assert(nl_pieces(s).update(nl_pieces(s).len() - 1, nl_pieces(s).last()) =~= nl_pieces(s));
    } else {
        let u = t.drop_last();
        assert(!u.contains('\n')) by {
            if u.contains('\n') {
                let i = choose|i: int| 0 <= i < u.len() && u[i] == '\n';
                assert(t[i] == '\n');
            }
        }
        lemma_pieces_extend(s, u);
        assert((s + t).drop_last() =~= s + u);
        assert((s + t).last() == t.last());
        assert(t.last() != '\n') by {
            assert(t[t.len() - 1] == t.last());
        }
        let big = nl_pieces(s);
        let n = big.len() - 1;
        let q = nl_pieces(s + u);
        assert(q == big.update(n, big.last() + u));
        assert(q.len() == big.len());
        assert(q.last() == big.last() + u);
        assert(nl_pieces(s + t) == q.update(n, q.last().push(t.last())));
        assert((big.last() + u).push(t.last()) =~= big.last() + t);
        assert(q.update(n, q.last().push(t.last())) =~= big.update(n, big.last() + t));
    }
}

/// The pieces of a written log: its records, then the empty rest.
proof fn lemma_framed_pieces(records: Seq<Seq<char>>)
    requires
        forall|i: int| 0 <= i < records.len() ==> single_line(#[trigger] records[i]),
    ensures
        nl_pieces(framed(records)) == records.push(Seq::<char>::empty()),
    decreases records.len(),
{
    if records.len() == 0 {
        assert(nl_pieces(Seq::<char>::empty()) =~= seq![Seq::<char>::empty()]);
        assert(records.push(Seq::<char>::empty()) =~= seq![Seq::<char>::empty()]);
    } else {
        let front = records.drop_last();
        let last = records.last();
        assert(single_line(records[records.len() - 1]));
        lemma_framed_pieces(front);
        let body = framed(front) + last;
        lemma_pieces_extend(framed(front), last);
        assert(Seq::<char>::empty() + last =~= last);
        assert(nl_pieces(body) =~= records);
        let whole = body + seq!['\n'];
        assert(framed(records) == whole);
        assert(whole.drop_last() =~= body);
        assert(whole.last() == '\n');
    }
}

/// What is written is what is read back: a log written one record per
/// line reads back, line by line, as exactly those records.
pub proof fn law_records_read_back_as_lines(records: Seq<Seq<char>>)
    requires
        forall|i: int| 0 <= i < records.len() ==> single_line(#[trigger] records[i]),
    ensures
        text_lines(framed(records)) == records,
{
    lemma_framed_pieces(records);
    let p = nl_pieces(framed(records));
    assert(p.drop_last() =~= records);
    assert(p.drop_last().map_values(|l: Seq<char>| strip_trailing_cr(l)) =~= records) by {
        assert forall|i: int| 0 <= i < records.len() implies
            strip_trailing_cr(#[trigger] records[i]) == records[i] by {
            assert(single_line(records[i]));
        }
    }
}

/// Session keys have a fixed shape: sixteen lowercase hexadecimal digits,
/// whatever the repository's path.
pub proof fn law_repository_key_shape(canonical_root: Seq<char>)
    ensures
        hex16(fnv1a(encode_utf8(canonical_root))).len() == 16,
        forall|i: int| 0 <= i < 16 ==> {
            let c = #[trigger] hex16(fnv1a(encode_utf8(canonical_root)))[i];
            ('0' <= c <= '9') || ('a' <= c <= 'f')
        },
{
    let h = fnv1a(encode_utf8(canonical_root));
    assert forall|i: int| 0 <= i < 16 implies {
        let c = #[trigger] hex16(h)[i];
        ('0' <= c <= '9') || ('a' <= c <= 'f')
    } by {
        lemma_nibble(h, ((15 - i) * 4) as u64);
    }
}

/// A nibble is below 16.
proof fn lemma_nibble(x: u64, shift: u64)
    ensures
        (x >> shift) & 0xf < 16,
{
    assert((x >> shift) & 0xf < 16) by (bit_vector);
}

/// The summary shows the first prompt: when message `i` is a user prompt
/// and none comes before it, that prompt is the first user message; a
/// transcript without user prompts has none.
pub proof fn law_first_user_is_the_earliest_prompt(ms: Seq<MessageV>, i: int)
    requires
        0 <= i < ms.len(),
        ms[i] is User,
        forall|j: int| 0 <= j < i ==> !(#[trigger] ms[j] is User),
    ensures
        first_user(ms) == Some(ms[i]->User_0),
    decreases i,
{
    if i > 0 {
        assert(!(ms[0] is User));
        let rest = ms.drop_first();
        assert forall|j: int| 0 <= j < i - 1 implies !(#[trigger] rest[j] is User) by {
            assert(rest[j] == ms[j + 1]);
        }
        law_first_user_is_the_earliest_prompt(rest, i - 1);
    }
}

/// A transcript without user prompts has no first user message.
pub proof fn law_no_prompt_no_first_user(ms: Seq<MessageV>)
    requires
        forall|j: int| 0 <= j < ms.len() ==> !(#[trigger] ms[j] is User),
    ensures
        first_user(ms) is None,
    decreases ms.len(),
{
    if ms.len() > 0 {
        assert(!(ms[0] is User));
        let rest = ms.drop_first();
        assert forall|j: int| 0 <= j < rest.len() implies !(#[trigger] rest[j] is User) by {
            assert(rest[j] == ms[j + 1]);
        }
        law_no_prompt_no_first_user(rest);
    }
}

} // verus!
