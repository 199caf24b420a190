//! The coding tools' own logic: what `read` returns for a file's text, how
//! `edit` plans a replacement, what `write` reports, and how `bash` reports
//! a finished command. Reading and writing files and running processes is
//! the caller's part.

use vstd::prelude::*;

use crate::error::ToolError;
use crate::message::{ToolDefinition, ToolResult, ToolResultV};
use crate::text::{
    bytes_to_string_lossy, decimal, i64_to_decimal, owned, pad_left, pad_left_exec, push_char,
    push_str, signed_decimal, split_lines, text_lines, u64_to_decimal, usize_to_decimal, utf8_lossy,
};
use crate::tool::ToolRegistry;

verus! {

broadcast use vstd::seq_lib::group_seq_properties;

// ------------------------------------------------------------------ read

/// Lines returned when no limit is asked for.
pub const DEFAULT_LIMIT: usize = 500;
/// Hard cap on lines returned in one call.
pub const MAX_LIMIT: usize = 2000;

/// One numbered line of a `read` listing: the 1-based number right-aligned
/// to `width`, ` | `, the line, `\n`.
pub open spec fn numbered_line(number: nat, width: nat, line: Seq<char>) -> Seq<char> {
    pad_left(decimal(number), width) + " | "@ + line + seq!['\n']
}

/// The numbered lines `start..end` (0-based) of a file.
pub open spec fn listing(lines: Seq<Seq<char>>, start: int, end: int, width: nat) -> Seq<char>
    decreases end - start,
{
    if end <= start {
        Seq::empty()
    } else {
        listing(lines, start, end - 1, width) + numbered_line(end as nat, width, lines[end - 1])
    }
}

/// The number of lines a `read` returns at most.
pub open spec fn effective_limit(limit: Option<u32>) -> int {
    let l = match limit { Some(l) => l as int, None => DEFAULT_LIMIT as int };
    if l < MAX_LIMIT { l } else { MAX_LIMIT as int }
}

/// The 0-based first line a `read` returns.
pub open spec fn effective_start(offset: Option<u32>) -> int {
    let o = match offset { Some(o) => o as int, None => 1 };
    if o >= 1 { o - 1 } else { 0 }
}

/// What `read` returns for a file's text: `(file is empty)` for a file
/// without lines; an error when the offset is past the end; otherwise the
/// selected lines numbered, followed by a count of the lines not shown.
pub open spec fn read_result(content: Seq<char>, offset: Option<u32>, limit: Option<u32>) -> ToolResultV {
    let lines = text_lines(content);
    let total = lines.len();
    let start = effective_start(offset);
    if total == 0 {
        ToolResultV { content: "(file is empty)"@, is_error: false }
    } else if start >= total {
        ToolResultV {
            content: "offset "@ + decimal((start + 1) as nat) + " is past the end of the file ("@
                + decimal(total) + " lines)"@,
            is_error: true,
        }
    } else {
        let end = if start + effective_limit(limit) < total { start + effective_limit(limit) } else { total as int };
        let more = if end < total {
            "... "@ + decimal((total - end) as nat) + " more lines\n"@
        } else {
            Seq::<char>::empty()
        };
        ToolResultV { content: listing(lines, start, end, decimal(total).len()) + more, is_error: false }
    }
}

/// Format a file's text the way `read` returns it.
pub fn read_output(content: &str, offset: Option<u32>, limit: Option<u32>) -> (r: ToolResult)
    ensures
        r@ == read_result(content@, offset, limit),
{
    let lines = split_lines(content);
    let ghost lv = lines@.map_values(|l: String| l@);
    let total = lines.len();
    if total == 0 {
        return ToolResult::ok("(file is empty)");
    }
    let limit_arg = limit;
    let limit: usize = match limit { Some(l) => l as usize, None => DEFAULT_LIMIT };
    let limit = if limit < MAX_LIMIT { limit } else { MAX_LIMIT };
    let first: u32 = match offset { Some(o) => o, None => 1 };
    let start: usize = if first >= 1 { (first - 1) as usize } else { 0 };
    if start >= total {
        let mut text = owned("offset ");
        let a = u64_to_decimal(start as u64 + 1);
        push_str(&mut text, a.as_str());
        push_str(&mut text, " is past the end of the file (");
        let b = usize_to_decimal(total);
        push_str(&mut text, b.as_str());
        push_str(&mut text, " lines)");
        return ToolResult { content: text, is_error: true };
    }
    let end = if limit < total - start { start + limit } else { total };
    let total_digits = usize_to_decimal(total);
    let width = total_digits.as_str().unicode_len();
    let mut out = String::new();
    let mut k = start;
    while k < end
        invariant
            start <= k <= end <= total,
            total == lines@.len(),
            lv == lines@.map_values(|l: String| l@),
            width as nat == decimal(total as nat).len(),
            out@ == listing(lv, start as int, k as int, width as nat),
        decreases end - k,
    {
        let number = usize_to_decimal(k + 1);
        let padded = pad_left_exec(number.as_str(), width);
        push_str(&mut out, padded.as_str());
        push_str(&mut out, " | ");
        push_str(&mut out, lines[k].as_str());
        push_char(&mut out, '\n');
        proof {
            assert(lv[k as int] == lines@[k as int]@);
            assert(out@ =~= listing(lv, start as int, k as int, width as nat)
                + numbered_line((k + 1) as nat, width as nat, lv[k as int]));
        }
        k += 1;
    }
    let ghost listed = out@;
    if end < total {
        push_str(&mut out, "... ");
        let more = usize_to_decimal(total - end);
        push_str(&mut out, more.as_str());
        push_str(&mut out, " more lines\n");
    }
    proof {
        assert(lv == text_lines(content@));
        assert(start as int == effective_start(offset));
        assert(limit as int == effective_limit(limit_arg));
        assert(listed == listing(text_lines(content@), start as int, end as int, decimal(total as nat).len()));
        let l = effective_limit(limit_arg);
        let spec_end = if start + l < total { start + l } else { total as int };
        assert(spec_end == end as int);
        if end < total {
            assert(out@ =~= listed + ("... "@ + decimal((total - end) as nat) + " more lines\n"@));
        } else {
            assert(out@ =~= listed + Seq::<char>::empty());
        }
    }
    ToolResult { content: out, is_error: false }
}

/// The refusal for a directory.
pub fn directory_refusal(path: &str) -> (r: ToolResult)
    ensures
        r@ == (ToolResultV {
            content: "`"@ + path@ + "` is a directory, not a file; use the `bash` tool with `ls` to inspect directories"@,
            is_error: true,
        }),
{
    let mut s = owned("`");
    push_str(&mut s, path);
    push_str(&mut s, "` is a directory, not a file; use the `bash` tool with `ls` to inspect directories");
    ToolResult { content: s, is_error: true }
}

/// The error result for a failed filesystem step: `could not <verb>
/// `<path>`: <error>`.
pub fn io_failure(verb: &str, path: &str, error: &str) -> (r: ToolResult)
    ensures
        r@ == (ToolResultV { content: "could not "@ + verb@ + " `"@ + path@ + "`: "@ + error@, is_error: true }),
{
    let mut s = owned("could not ");
    push_str(&mut s, verb);
    push_str(&mut s, " `");
    push_str(&mut s, path);
    push_str(&mut s, "`: ");
    push_str(&mut s, error);
    ToolResult { content: s, is_error: true }
}

// ------------------------------------------------------------------ edit

/// Whether `pat` occurs in `s` at position `i`.
pub open spec fn occurs_at(s: Seq<char>, pat: Seq<char>, i: int) -> bool {
    0 <= i && i + pat.len() <= s.len() && s.subrange(i, i + pat.len()) == pat
}

/// The number of positions from `i` on at which `pat` occurs in `s`
/// (overlapping occurrences each count).
pub open spec fn count_from(s: Seq<char>, pat: Seq<char>, i: int) -> nat
    decreases s.len() - i,
{
    if pat.len() == 0 || i < 0 || i + pat.len() > s.len() {
        0
    } else if occurs_at(s, pat, i) {
        1 + count_from(s, pat, i + 1)
    } else {
        count_from(s, pat, i + 1)
    }
}

/// The number of positions at which `pat` occurs in `s`.
pub open spec fn count_matches(s: Seq<char>, pat: Seq<char>) -> nat {
    count_from(s, pat, 0)
}

/// `s` with its first occurrence of `pat`, at `i`, replaced by `rep`.
pub open spec fn replace_at(s: Seq<char>, pat: Seq<char>, rep: Seq<char>, i: int) -> Seq<char> {
    s.subrange(0, i) + rep + s.subrange(i + pat.len(), s.len() as int)
}

/// The position of the first occurrence of `pat` in `s`.
pub open spec fn first_occurrence(s: Seq<char>, pat: Seq<char>) -> int {
    choose|i: int| occurs_at(s, pat, i) && forall|k: int| 0 <= k < i ==> !occurs_at(s, pat, k)
}

/// What `edit` does to a file's text: an error when `old_text` does not
/// occur or occurs more than once; otherwise the text with that one
/// occurrence replaced.
pub open spec fn edit_plan(content: Seq<char>, old_text: Seq<char>, new_text: Seq<char>, path: Seq<char>)
    -> Result<Seq<char>, ToolResultV>
{
    let n = count_matches(content, old_text);
    if n == 0 {
        Err(ToolResultV {
            content: "`old_text` was not found in `"@ + path + "`; read the file and use text that exists there"@,
            is_error: true,
        })
    } else if n > 1 {
        Err(ToolResultV {
            content: "`old_text` occurs "@ + decimal(n) + " times in `"@ + path
                + "`; include more surrounding context (read the file first) so it matches exactly once"@,
            is_error: true,
        })
    } else {
        Ok(replace_at(content, old_text, new_text, first_occurrence(content, old_text)))
    }
}

/// An empty `old_text` is refused before anything else.
pub fn check_old_text(old_text: &str) -> (r: Option<ToolResult>)
    ensures
        old_text@.len() == 0 ==> (r matches Some(t) && t@ == (ToolResultV {
            content: "`old_text` must not be empty; include the exact text to replace"@,
            is_error: true,
        })),
        old_text@.len() > 0 ==> r is None,
{
    if old_text.is_empty() {
        Some(ToolResult::error("`old_text` must not be empty; include the exact text to replace"))
    } else {
        None
    }
}

/// Whether `pat` occurs in `s` at `i` (characters `s_chars`).
fn matches_at(s: &str, n: usize, pat: &str, m: usize, i: usize) -> (r: bool)
    requires
        n == s@.len(),
        m == pat@.len(),
        i + m <= n,
    ensures
        r == occurs_at(s@, pat@, i as int),
{
    let mut k: usize = 0;
    while k < m
        invariant
            n == s@.len(),
            m == pat@.len(),
            i + m <= n,
            0 <= k <= m,
            forall|j: int| 0 <= j < k ==> s@[i + j] == pat@[j],
        decreases m - k,
    {
        if s.get_char(i + k) != pat.get_char(k) {
            assert(s@.subrange(i as int, i + m)[k as int] != pat@[k as int]);
            return false;
        }
        k += 1;
    }
    assert(s@.subrange(i as int, i + m) =~= pat@);
    true
}

/// Once no occurrence is left, counting yields nothing; the first
/// occurrence from `i` on is the one counting finds.
proof fn lemma_count_from_first(s: Seq<char>, pat: Seq<char>, i: int, j: int)
    requires
        pat.len() > 0,
        0 <= i <= j,
        forall|k: int| i <= k < j ==> !occurs_at(s, pat, k),
    ensures
        count_from(s, pat, i) == count_from(s, pat, j),
    decreases j - i,
{
    if i < j {
        lemma_count_from_first(s, pat, i + 1, j);
    }
}

/// Plan an edit of a file's text.
pub fn plan_edit(content: &str, old_text: &str, new_text: &str, path: &str) -> (r: Result<String, ToolResult>)
    requires
        old_text@.len() > 0,
    ensures
        match edit_plan(content@, old_text@, new_text@, path@) {
            Ok(t) => (r matches Ok(u) && u@ == t),
            Err(e) => (r matches Err(x) && x@ == e),
        },
{
    let n = content.unicode_len();
    let m = old_text.unicode_len();
    let ghost s = content@;
    let ghost pat = old_text@;
    let mut count: usize = 0;
    let mut first: usize = 0;
    let mut i: usize = 0;
    while m <= n && i <= n - m
        invariant
            n == s.len(),
            m == pat.len(),
            m > 0,
            s == content@,
            pat == old_text@,
            i <= n,
            count <= i,
            count as nat + count_from(s, pat, i as int) == count_from(s, pat, 0),
            count > 0 ==> occurs_at(s, pat, first as int),
            count > 0 ==> forall|k: int| 0 <= k < first ==> !occurs_at(s, pat, k),
            count == 0 ==> forall|k: int| 0 <= k < i ==> !occurs_at(s, pat, k),
        decreases n - i,
    {
        if matches_at(content, n, old_text, m, i) {
            if count == 0 {
                first = i;
            }
            count += 1;
            i += 1;
        } else {
            i += 1;
        }
    }
    proof {
        assert(count_from(s, pat, i as int) == 0);
    }
    if count == 0 {
        let mut text = owned("`old_text` was not found in `");
        push_str(&mut text, path);
        push_str(&mut text, "`; read the file and use text that exists there");
        return Err(ToolResult { content: text, is_error: true });
    }
    if count > 1 {
        let mut text = owned("`old_text` occurs ");
        let digits = usize_to_decimal(count);
        push_str(&mut text, digits.as_str());
        push_str(&mut text, " times in `");
        push_str(&mut text, path);
        push_str(&mut text, "`; include more surrounding context (read the file first) so it matches exactly once");
        return Err(ToolResult { content: text, is_error: true });
    }
    proof {
        let c = first_occurrence(s, pat);
        assert(occurs_at(s, pat, first as int) && forall|k: int| 0 <= k < first ==> !occurs_at(s, pat, k));
        assert(occurs_at(s, pat, c) && forall|k: int| 0 <= k < c ==> !occurs_at(s, pat, k));
        if c < first {
            assert(!occurs_at(s, pat, c));
        }
        if c > first {
            assert(!occurs_at(s, pat, first as int));
        }
        assert(c == first);
    }
    let before = content.substring_char(0, first);
    let after = content.substring_char(first + m, n);
    let mut updated = owned(before);
    push_str(&mut updated, new_text);
    push_str(&mut updated, after);
    Ok(updated)
}

// ------------------------------------------------------------------ write

/// The report of a successful write: the byte count and the path.
pub fn wrote_message(byte_len: usize, path: &str) -> (r: ToolResult)
    ensures
        r@ == (ToolResultV {
            content: "wrote "@ + decimal(byte_len as nat) + " bytes to `"@ + path@ + "`"@,
            is_error: false,
        }),
{
    let mut s = owned("wrote ");
    let digits = usize_to_decimal(byte_len);
    push_str(&mut s, digits.as_str());
    push_str(&mut s, " bytes to `");
    push_str(&mut s, path);
    push_str(&mut s, "`");
    ToolResult { content: s, is_error: false }
}

/// The report of a successful edit.
pub fn edited_message(path: &str) -> (r: ToolResult)
    ensures
        r@ == (ToolResultV { content: "edited `"@ + path@ + "`"@, is_error: false }),
{
    let mut s = owned("edited `");
    push_str(&mut s, path);
    push_str(&mut s, "`");
    ToolResult { content: s, is_error: false }
}

// ------------------------------------------------------------------ bash

/// Whether `c` is white space in Unicode's sense (std's `char::is_whitespace`).
pub open spec fn is_white_space(c: char) -> bool {
    ||| ('\u{9}' <= c && c <= '\u{d}')
    ||| c == ' '
    ||| c == '\u{85}'
    ||| c == '\u{a0}'
    ||| c == '\u{1680}'
    ||| ('\u{2000}' <= c && c <= '\u{200a}')
    ||| c == '\u{2028}'
    ||| c == '\u{2029}'
    ||| c == '\u{202f}'
    ||| c == '\u{205f}'
    ||| c == '\u{3000}'
}

/// Whether a text holds nothing but white space.
pub open spec fn blank(s: Seq<char>) -> bool {
    forall|i: int| 0 <= i < s.len() ==> is_white_space(#[trigger] s[i])
}

/// Whether `c` is white space.
pub fn char_is_white_space(c: char) -> (r: bool)
    ensures
        r == is_white_space(c),
{
    ('\u{9}' <= c && c <= '\u{d}') || c == ' ' || c == '\u{85}' || c == '\u{a0}' || c == '\u{1680}'
        || ('\u{2000}' <= c && c <= '\u{200a}') || c == '\u{2028}' || c == '\u{2029}'
        || c == '\u{202f}' || c == '\u{205f}' || c == '\u{3000}'
}

/// Whether a command is empty once white space is trimmed.
pub fn is_blank(s: &str) -> (r: bool)
    ensures
        r == blank(s@),
{
    let n = s.unicode_len();
    let mut i: usize = 0;
    while i < n
        invariant
            n == s@.len(),
            0 <= i <= n,
            forall|j: int| 0 <= j < i ==> is_white_space(#[trigger] s@[j]),
        decreases n - i,
    {
        if !char_is_white_space(s.get_char(i)) {
            return false;
        }
        i += 1;
    }
    true
}

/// A `bash` command must hold more than white space.
pub fn check_command(command: &str) -> (r: Result<(), ToolError>)
    ensures
        blank(command@) ==> (r matches Err(ToolError::InvalidArguments { tool, message })
            && tool@ == "bash"@ && message@ == "command must not be empty"@),
        !blank(command@) ==> r is Ok,
{
    if is_blank(command) {
        Err(ToolError::InvalidArguments { tool: owned("bash"), message: owned("command must not be empty") })
    } else {
        Ok(())
    }
}

/// One captured stream in a `bash` report: nothing when it is empty,
/// otherwise its label, its text, and a newline unless the text ends with one.
pub open spec fn stream_section(label: Seq<char>, text: Seq<char>) -> Seq<char> {
    if text.len() == 0 {
        Seq::empty()
    } else if text.last() == '\n' {
        label + text
    } else {
        label + text + seq!['\n']
    }
}

/// The text of a `bash` report.
pub open spec fn bash_report_text(
    stdout: Seq<char>,
    stderr: Seq<char>,
    exit_code: Option<i32>,
    duration: Seq<char>,
    timed_out: bool,
    truncated: bool,
) -> Seq<char> {
    stream_section("[stdout]\n"@, stdout) + stream_section("[stderr]\n"@, stderr)
        + match exit_code {
            Some(code) => "exit code: "@ + signed_decimal(code as int) + "\n"@,
            None => "exit code: killed\n"@,
        }
        + "duration: "@ + duration + "s\n"@
        + (if timed_out { "timeout: true\n"@ } else { Seq::empty() })
        + (if truncated { "(output truncated)\n"@ } else { Seq::empty() })
}

/// Append one captured stream to a report.
fn push_section(out: &mut String, label: &str, text: &str)
    ensures
        final(out)@ == old(out)@ + stream_section(label@, text@),
{
    let n = text.unicode_len();
    if n > 0 {
        push_str(out, label);
        push_str(out, text);
        if text.get_char(n - 1) != '\n' {
            push_char(out, '\n');
        }
    }
}

/// The result `bash` gives for a command that ended, was killed or timed
/// out: the captured streams, the exit code (`killed` when there is none),
/// the duration text (seconds), and notes on a timeout and on truncated
/// output. It is an error unless the command exited with code 0 in time.
pub fn bash_report(
    stdout: &str,
    stderr: &str,
    exit_code: Option<i32>,
    duration: &str,
    timed_out: bool,
    truncated: bool,
) -> (r: ToolResult)
    ensures
        r@ == (ToolResultV {
            content: bash_report_text(stdout@, stderr@, exit_code, duration@, timed_out, truncated),
            is_error: timed_out || exit_code != Some(0i32),
        }),
{
    let mut content = String::new();
    push_section(&mut content, "[stdout]\n", stdout);
    push_section(&mut content, "[stderr]\n", stderr);
    match exit_code {
        Some(code) => {
            push_str(&mut content, "exit code: ");
            let digits = i64_to_decimal(code as i64);
            push_str(&mut content, digits.as_str());
            push_str(&mut content, "\n");
        },
        None => push_str(&mut content, "exit code: killed\n"),
    }
    push_str(&mut content, "duration: ");
    push_str(&mut content, duration);
    push_str(&mut content, "s\n");
    if timed_out {
        push_str(&mut content, "timeout: true\n");
    }
    if truncated {
        push_str(&mut content, "(output truncated)\n");
    }
    proof {
        let code_text = match exit_code {
            Some(code) => "exit code: "@ + signed_decimal(code as int) + "\n"@,
            None => "exit code: killed\n"@,
        };
        let t = if timed_out { "timeout: true\n"@ } else { Seq::<char>::empty() };
        let u = if truncated { "(output truncated)\n"@ } else { Seq::<char>::empty() };
        assert(content@ =~= stream_section("[stdout]\n"@, stdout@) + stream_section("[stderr]\n"@, stderr@)
            + code_text + "duration: "@ + duration@ + "s\n"@ + t + u);
    }
    let failed = match exit_code {
        Some(code) => code != 0,
        None => true,
    };
    ToolResult { content, is_error: timed_out || failed }
}

/// Capture of one output stream, capped at a number of bytes.
pub struct CappedOutput {
    bytes: Vec<u8>,
    max: usize,
    truncated: bool,
}

impl CappedOutput {
    /// The bytes kept so far.
    pub closed spec fn kept(&self) -> Seq<u8> {
        self.bytes@
    }

    /// The cap.
    pub closed spec fn cap(&self) -> nat {
        self.max as nat
    }

    /// Whether output was cut off at the cap.
    pub closed spec fn cut(&self) -> bool {
        self.truncated
    }

    /// Never more than the cap is kept.
    pub closed spec fn wf(&self) -> bool {
        self.bytes@.len() <= self.max
    }

    /// An empty capture with the given cap.
    pub fn new(max: usize) -> (r: Self)
        ensures
            r.wf(),
            r.kept() == Seq::<u8>::empty(),
            r.cap() == max,
            !r.cut(),
    {
        CappedOutput { bytes: Vec::new(), max, truncated: false }
    }

    /// Take one chunk read from the stream. While the cap is not passed
    /// the whole chunk is kept; the chunk that would pass it is kept up to
    /// the cap and the capture is marked truncated. Returns whether more
    /// should be read.
    pub fn accept(&mut self, chunk: &[u8]) -> (more: bool)
        requires
            old(self).wf(),
            !old(self).cut(),
        ensures
            final(self).wf(),
            final(self).cap() == old(self).cap(),
            more == !final(self).cut(),
            final(self).cut() == (old(self).kept().len() + chunk@.len() > old(self).cap()),
            final(self).kept() == old(self).kept() + (if final(self).cut() {
                chunk@.take(old(self).cap() - old(self).kept().len())
            } else {
                chunk@
            }),
    {
        let len = self.bytes.len();
        let n = chunk.len();
        let take: usize = if n > self.max - len { self.max - len } else { n };
        let ghost before = self.bytes@;
        let mut i: usize = 0;
        while i < take
            invariant
                take <= n == chunk@.len(),
                0 <= i <= take,
                self.bytes@ == before + chunk@.take(i as int),
                self.max == old(self).max,
                self.truncated == old(self).truncated,
                before == old(self).bytes@,
            decreases take - i,
        {
            self.bytes.push(chunk[i]);
            i += 1;
            assert(self.bytes@ =~= before + chunk@.take(i as int));
        }
        if n > self.max - len {
            self.truncated = true;
            false
        } else {
            assert(chunk@.take(n as int) =~= chunk@);
            true
        }
    }

    /// The captured text (invalid UTF-8 replaced) and whether it was cut off.
    pub fn finish(&self) -> (r: (String, bool))
        ensures
            r.0@ == utf8_lossy(self.kept()),
            r.1 == self.cut(),
    {
        (bytes_to_string_lossy(self.bytes.as_slice()), self.truncated)
    }
}

/// Default captured output cap, per stream (stdout, stderr), in bytes.
pub const DEFAULT_MAX_OUTPUT: usize = 32768;
/// Default command timeout, in milliseconds (two minutes).
pub const DEFAULT_TIMEOUT_MILLIS: u64 = 120000;

/// `bash`: run a shell command from the repository root, with a timeout
/// (in milliseconds) and a cap on captured output.
pub struct BashTool {
    pub timeout_millis: u64,
    pub max_output: usize,
}

impl Default for BashTool {
    /// The default `bash` tool: a 120-second timeout and a 32 KiB cap per
    /// stream.
    fn default() -> (r: Self)
        ensures
            r.timeout_millis == DEFAULT_TIMEOUT_MILLIS,
            r.max_output == DEFAULT_MAX_OUTPUT,
    {
        BashTool::new(DEFAULT_TIMEOUT_MILLIS, DEFAULT_MAX_OUTPUT)
    }
}

impl BashTool {
    /// A `bash` tool with the given timeout (milliseconds) and output cap.
    pub fn new(timeout_millis: u64, max_output: usize) -> (r: Self)
        ensures
            r.timeout_millis == timeout_millis,
            r.max_output == max_output,
    {
        BashTool { timeout_millis, max_output }
    }

    /// The definition advertised to the model.
    pub fn definition(&self) -> (r: ToolDefinition)
        ensures
            r.name@ == "bash"@,
            r.description@ == bash_description(),
            r.parameters@ == bash_schema(),
    {
        ToolDefinition::new("bash", BASH_DESCRIPTION, BASH_SCHEMA)
    }
}

/// The `bash` tool's description.
pub const BASH_DESCRIPTION: &'static str = "Run a shell command from the repository root and return its output, exit code, duration, and whether it timed out. Use this for builds, tests, git, ls, grep, and anything else the other tools do not cover.";
/// The `bash` tool's argument schema.
pub const BASH_SCHEMA: &'static str = "{\"properties\":{\"command\":{\"description\":\"The command to run, as you would type it in a terminal\",\"type\":\"string\"}},\"required\":[\"command\"],\"type\":\"object\"}";

/// The `bash` tool's description text.
pub open spec fn bash_description() -> Seq<char> {
    BASH_DESCRIPTION@
}

/// The `bash` tool's schema text.
pub open spec fn bash_schema() -> Seq<char> {
    BASH_SCHEMA@
}

// ------------------------------------------------------------------ definitions

/// `read`: read a file inside the repository and return it numbered.
pub struct ReadTool;

/// `write`: create or overwrite a UTF-8 text file.
pub struct WriteTool;

/// `edit`: replace one exact occurrence of `old_text` with `new_text`.
pub struct EditTool;

/// The `read` tool's description.
pub const READ_DESCRIPTION: &'static str = "Read a text file inside the repository and return it with line numbers. Use `offset` (1-based first line) and `limit` to read a section of a large file.";
/// The `read` tool's argument schema.
pub const READ_SCHEMA: &'static str = "{\"properties\":{\"limit\":{\"description\":\"Maximum number of lines to read (default: 500, capped at 2000)\",\"minimum\":1,\"type\":\"integer\"},\"offset\":{\"description\":\"First line to read, 1-based (default: 1)\",\"minimum\":1,\"type\":\"integer\"},\"path\":{\"description\":\"Path to the file, relative to the repository root\",\"type\":\"string\"}},\"required\":[\"path\"],\"type\":\"object\"}";
/// The `write` tool's description.
pub const WRITE_DESCRIPTION: &'static str = "Create a new file or overwrite an existing one inside the repository with the given UTF-8 text content. Parent directories are created as needed. For small changes to an existing file, prefer `edit`.";
/// The `write` tool's argument schema.
pub const WRITE_SCHEMA: &'static str = "{\"properties\":{\"content\":{\"description\":\"The full text content to write\",\"type\":\"string\"},\"path\":{\"description\":\"Path to the file, relative to the repository root\",\"type\":\"string\"}},\"required\":[\"path\",\"content\"],\"type\":\"object\"}";
/// The `edit` tool's description.
pub const EDIT_DESCRIPTION: &'static str = "Replace one exact occurrence of `old_text` with `new_text` in a file inside the repository. `old_text` must appear exactly once; include enough surrounding context to make it unique.";
/// The `edit` tool's argument schema.
pub const EDIT_SCHEMA: &'static str = "{\"properties\":{\"new_text\":{\"description\":\"The replacement text\",\"type\":\"string\"},\"old_text\":{\"description\":\"The exact text to replace (must appear exactly once)\",\"type\":\"string\"},\"path\":{\"description\":\"Path to the file, relative to the repository root\",\"type\":\"string\"}},\"required\":[\"path\",\"old_text\",\"new_text\"],\"type\":\"object\"}";

impl ReadTool {
    /// The definition advertised to the model.
    pub fn definition(&self) -> (r: ToolDefinition)
        ensures
            r.name@ == "read"@,
            r.description@ == READ_DESCRIPTION@,
            r.parameters@ == READ_SCHEMA@,
    {
        ToolDefinition::new("read", READ_DESCRIPTION, READ_SCHEMA)
    }
}

impl WriteTool {
    /// The definition advertised to the model.
    pub fn definition(&self) -> (r: ToolDefinition)
        ensures
            r.name@ == "write"@,
            r.description@ == WRITE_DESCRIPTION@,
            r.parameters@ == WRITE_SCHEMA@,
    {
        ToolDefinition::new("write", WRITE_DESCRIPTION, WRITE_SCHEMA)
    }
}

impl EditTool {
    /// The definition advertised to the model.
    pub fn definition(&self) -> (r: ToolDefinition)
        ensures
            r.name@ == "edit"@,
            r.description@ == EDIT_DESCRIPTION@,
            r.parameters@ == EDIT_SCHEMA@,
    {
        ToolDefinition::new("edit", EDIT_DESCRIPTION, EDIT_SCHEMA)
    }
}

/// Register the coding tools into a registry: at this stage, `read`.
pub fn register_coding_tools(registry: &mut ToolRegistry)
    ensures
        final(registry).registered().len() == old(registry).registered().len() + 1,
        final(registry).registered().drop_last() == old(registry).registered(),
        final(registry).registered().last().name@ == "read"@,
        final(registry).registered().last().description@ == READ_DESCRIPTION@,
        final(registry).registered().last().parameters@ == READ_SCHEMA@,
{
    let tool = ReadTool;
    registry.register(tool.definition());
}

/// Without a limit, `read` shows 500 lines: when more than 500 lines
/// remain from the starting line, the listing holds exactly the 500 lines
/// from there, numbered, followed by the count of the rest.
pub proof fn law_read_default_limit(content: Seq<char>, offset: Option<u32>)
    requires
        effective_start(offset) + 500 < text_lines(content).len(),
    ensures
        read_result(content, offset, None) == (ToolResultV {
            content: listing(text_lines(content), effective_start(offset), effective_start(offset) + 500,
                decimal(text_lines(content).len()).len())
                + ("... "@ + decimal((text_lines(content).len() - effective_start(offset) - 500) as nat)
                + " more lines\n"@),
            is_error: false,
        }),
{
}

/// A limit asked for is honoured up to 2000 lines.
pub proof fn law_read_limit_honoured(content: Seq<char>, offset: Option<u32>, limit: u32)
    requires
        effective_start(offset) + limit < text_lines(content).len(),
        limit <= 2000,
    ensures
        read_result(content, offset, Some(limit)) == (ToolResultV {
            content: listing(text_lines(content), effective_start(offset), effective_start(offset) + limit,
                decimal(text_lines(content).len()).len())
                + ("... "@ + decimal((text_lines(content).len() - effective_start(offset) - limit) as nat)
                + " more lines\n"@),
            is_error: false,
        }),
{
}

} // verus!
