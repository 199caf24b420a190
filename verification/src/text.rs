//! Text building blocks shared by the rest of the crate: pushing characters,
//! decoding UTF-8, decimal rendering, and line splitting.

use vstd::prelude::*;
use vstd::string::*;
use vstd::utf8::*;

verus! {

broadcast use vstd::seq_lib::group_seq_properties;

/// Append one character to a `String` (std's `String::push`).
#[verifier::external_body]
pub(crate) fn push_char(s: &mut String, c: char)
    ensures
        final(s)@ == old(s)@.push(c),
{
    s.push(c);
}

/// Append a string slice to a `String`.
pub fn push_str(s: &mut String, t: &str)
    ensures
        final(s)@ == old(s)@ + t@,
{
    s.append(t);
}

/// Decode a byte vector as UTF-8 (std's `String::from_utf8`): `None` exactly
/// when the bytes are not valid UTF-8; otherwise a string whose UTF-8
/// encoding is exactly those bytes.
#[verifier::external_body]
pub(crate) fn bytes_to_string(bytes: Vec<u8>) -> (r: Option<String>)
    ensures
        r is Some <==> valid_utf8(bytes@),
        r matches Some(s) ==> encode_utf8(s@) == bytes@,
{
    match String::from_utf8(bytes) {
        Ok(s) => Some(s),
        Err(_) => None,
    }
}

/// What std's `String::from_utf8_lossy` makes of `bytes`.
pub uninterp spec fn utf8_lossy(bytes: Seq<u8>) -> Seq<char>;

/// Decode bytes as UTF-8, each invalid sequence replaced by U+FFFD (std's
/// `String::from_utf8_lossy`); valid UTF-8 decodes to exactly the string it
/// encodes.
#[verifier::external_body]
pub(crate) fn bytes_to_string_lossy(bytes: &[u8]) -> (r: String)
    ensures
        r@ == utf8_lossy(bytes@),
        valid_utf8(bytes@) ==> encode_utf8(r@) == bytes@,
{
    String::from_utf8_lossy(bytes).into_owned()
}

/// A copy of a string slice as an owned `String`.
pub fn owned(s: &str) -> (r: String)
    ensures
        r@ == s@,
{
    s.to_owned()
}

/// The character for a decimal digit.
pub open spec fn digit_char(d: nat) -> char {
    if d == 0 { '0' }
    else if d == 1 { '1' }
    else if d == 2 { '2' }
    else if d == 3 { '3' }
    else if d == 4 { '4' }
    else if d == 5 { '5' }
    else if d == 6 { '6' }
    else if d == 7 { '7' }
    else if d == 8 { '8' }
    else { '9' }
}

/// The decimal rendering of a natural number, without leading zeros.
pub open spec fn decimal(n: nat) -> Seq<char>
    decreases n,
{
    if n < 10 {
        seq![digit_char(n)]
    } else {
        decimal(n / 10).push(digit_char(n % 10))
    }
}

fn digit_to_char(d: u64) -> (c: char)
    requires
        d < 10,
    ensures
        c == digit_char(d as nat),
{
    if d == 0 { '0' }
    else if d == 1 { '1' }
    else if d == 2 { '2' }
    else if d == 3 { '3' }
    else if d == 4 { '4' }
    else if d == 5 { '5' }
    else if d == 6 { '6' }
    else if d == 7 { '7' }
    else if d == 8 { '8' }
    else { '9' }
}

/// Render a `u64` in decimal.
pub fn u64_to_decimal(n: u64) -> (r: String)
    ensures
        r@ == decimal(n as nat),
    decreases n,
{
    if n < 10 {
        let mut s = String::new();
        push_char(&mut s, digit_to_char(n));
        s
    } else {
        let mut s = u64_to_decimal(n / 10);
        push_char(&mut s, digit_to_char(n % 10));
        s
    }
}

/// Render a `usize` in decimal.
pub fn usize_to_decimal(n: usize) -> (r: String)
    ensures
        r@ == decimal(n as nat),
{
    u64_to_decimal(n as u64)
}

/// The decimal rendering of a signed integer (a leading `-` when negative).
pub open spec fn signed_decimal(n: int) -> Seq<char> {
    if n < 0 { seq!['-'] + decimal((-n) as nat) } else { decimal(n as nat) }
}

/// Render an `i64` in decimal.
pub fn i64_to_decimal(n: i64) -> (r: String)
    ensures
        r@ == signed_decimal(n as int),
{
    if n < 0 {
        let magnitude: u64 = if n == i64::MIN { 9223372036854775808u64 } else { (-n) as u64 };
        let mut s = String::new();
        push_char(&mut s, '-');
        let digits = u64_to_decimal(magnitude);
        push_str(&mut s, digits.as_str());
        s
    } else {
        u64_to_decimal(n as u64)
    }
}

/// The number of characters in `decimal(n)`.
pub proof fn lemma_decimal_len(n: nat)
    ensures
        decimal(n).len() >= 1,
        n < 10 <==> decimal(n).len() == 1,
    decreases n,
{
    if n >= 10 {
        lemma_decimal_len(n / 10);
    }
}

/// Whether `pre` is a prefix of `s`.
pub open spec fn has_prefix<A>(s: Seq<A>, pre: Seq<A>) -> bool {
    pre.len() <= s.len() && s.subrange(0, pre.len() as int) == pre
}

/// Whether the string `s` starts with `pre` (std's `str::starts_with` with a
/// `&str` pattern).
pub fn starts_with(s: &str, pre: &str) -> (r: bool)
    ensures
        r == has_prefix(s@, pre@),
{
    let n = s.unicode_len();
    let m = pre.unicode_len();
    if m > n {
        return false;
    }
    let mut i: usize = 0;
    while i < m
        invariant
            m <= n,
            n == s@.len(),
            m == pre@.len(),
            0 <= i <= m,
            forall|j: int| 0 <= j < i ==> s@[j] == pre@[j],
        decreases m - i,
    {
        if s.get_char(i) != pre.get_char(i) {
            assert(s@.subrange(0, m as int)[i as int] != pre@[i as int]);
            return false;
        }
        i += 1;
    }
    assert(s@.subrange(0, m as int) =~= pre@);
    true
}

/// The `\n`-separated pieces of `s` (at least one, possibly empty).
pub open spec fn nl_pieces(s: Seq<char>) -> Seq<Seq<char>>
    decreases s.len(),
{
    if s.len() == 0 {
        seq![Seq::<char>::empty()]
    } else {
        let p = nl_pieces(s.drop_last());
        if s.last() == '\n' {
            p.push(Seq::<char>::empty())
        } else {
            p.update(p.len() - 1, p.last().push(s.last()))
        }
    }
}

/// A line that was ended by `\n`, without one trailing `\r`.
pub open spec fn strip_trailing_cr(line: Seq<char>) -> Seq<char> {
    if line.len() > 0 && line.last() == '\r' { line.drop_last() } else { line }
}

/// The lines of a text (std's `str::lines`): split at `\n`, a `\r` right
/// before a `\n` removed, and no empty line after a final line ending.
pub open spec fn text_lines(s: Seq<char>) -> Seq<Seq<char>> {
    let p = nl_pieces(s);
    let complete = p.drop_last().map_values(|l: Seq<char>| strip_trailing_cr(l));
    if p.last().len() > 0 { complete.push(p.last()) } else { complete }
}

/// Pieces always exist.
pub proof fn lemma_nl_pieces_nonempty(s: Seq<char>)
    ensures
        nl_pieces(s).len() >= 1,
    decreases s.len(),
{
    if s.len() > 0 {
        lemma_nl_pieces_nonempty(s.drop_last());
    }
}

/// Remove one trailing `\r`.
fn without_trailing_cr(line: String) -> (r: String)
    ensures
        r@ == strip_trailing_cr(line@),
{
    let n = line.as_str().unicode_len();
    if n > 0 && line.as_str().get_char(n - 1) == '\r' {
        let s = line.as_str().substring_char(0, n - 1);
        let r = owned(s);
        assert(r@ =~= line@.drop_last());
        r
    } else {
        line
    }
}

/// The lines of a text, computed (std's `str::lines`).
pub fn split_lines(s: &str) -> (r: Vec<String>)
    ensures
        r@.map_values(|l: String| l@) == text_lines(s@),
{
    let n = s.unicode_len();
    let mut lines: Vec<String> = Vec::new();
    let mut cur = String::new();
    let mut i: usize = 0;
    proof {
        assert(s@.take(0) =~= Seq::<char>::empty());
    }
    while i < n
        invariant
            n == s@.len(),
            0 <= i <= n,
            nl_pieces(s@.take(i as int)).len() >= 1,
            cur@ == nl_pieces(s@.take(i as int)).last(),
            lines@.map_values(|l: String| l@) == nl_pieces(s@.take(i as int)).drop_last().map_values(
                |l: Seq<char>| strip_trailing_cr(l)),
        decreases n - i,
    {
        let c = s.get_char(i);
        proof {
            assert(s@.take(i + 1).drop_last() =~= s@.take(i as int));
            assert(s@.take(i + 1).last() == c);
            lemma_nl_pieces_nonempty(s@.take(i as int));
        }
        let ghost pieces = nl_pieces(s@.take(i as int));
        if c == '\n' {
            let ghost prev = lines@;
            let ghost last = cur@;
            let line = without_trailing_cr(cur);
            lines.push(line);
            cur = String::new();
            proof {
                let p2 = nl_pieces(s@.take(i + 1));
                assert(p2 == pieces.push(Seq::<char>::empty()));
                assert(p2.drop_last() =~= pieces);
                assert(pieces.drop_last().push(pieces.last()) =~= pieces);
                assert(lines@.map_values(|l: String| l@) =~= prev.map_values(|l: String| l@).push(strip_trailing_cr(last)));
                assert(p2.drop_last().map_values(|l: Seq<char>| strip_trailing_cr(l)) =~=
                    pieces.drop_last().map_values(|l: Seq<char>| strip_trailing_cr(l)).push(strip_trailing_cr(last)));
            }
        } else {
            push_char(&mut cur, c);
            proof {
                let p2 = nl_pieces(s@.take(i + 1));
                assert(p2.drop_last() =~= pieces.drop_last());
            }
        }
        i += 1;
    }
    proof {
        assert(s@.take(n as int) =~= s@);
    }
    if !cur.as_str().is_empty() {
        let ghost prev = lines@;
        let ghost last = cur@;
        lines.push(cur);
        proof {
            assert(lines@.map_values(|l: String| l@) =~= prev.map_values(|l: String| l@).push(last));
        }
    }
    lines
}

/// `s` right-aligned in a field of `width` characters (spaces in front).
pub open spec fn pad_left(s: Seq<char>, width: nat) -> Seq<char> {
    if s.len() < width { Seq::new((width - s.len()) as nat, |i: int| ' ') + s } else { s }
}

/// Right-align a string in a field of `width` characters.
pub fn pad_left_exec(s: &str, width: usize) -> (r: String)
    ensures
        r@ == pad_left(s@, width as nat),
{
    let n = s.unicode_len();
    let mut r = String::new();
    if n < width {
        let mut k: usize = 0;
        while k < width - n
            invariant
                n < width,
                0 <= k <= width - n,
                r@ == Seq::new(k as nat, |i: int| ' '),
            decreases width - n - k,
        {
            push_char(&mut r, ' ');
            k += 1;
            assert(r@ =~= Seq::new(k as nat, |i: int| ' '));
        }
    }
    push_str(&mut r, s);
    assert(n < width ==> r@ =~= Seq::new((width - n) as nat, |i: int| ' ') + s@);
    assert(n >= width ==> r@ =~= s@);
    r
}

/// Whether two strings are equal.
pub fn str_eq(a: &str, b: &str) -> (r: bool)
    ensures
        r == (a@ == b@),
{
    let n = a.unicode_len();
    let m = b.unicode_len();
    if n != m {
        return false;
    }
    let mut i: usize = 0;
    while i < n
        invariant
            n == a@.len(),
            m == b@.len(),
            n == m,
            0 <= i <= n,
            forall|j: int| 0 <= j < i ==> a@[j] == b@[j],
        decreases n - i,
    {
        if a.get_char(i) != b.get_char(i) {
            return false;
        }
        i += 1;
    }
    assert(a@ =~= b@);
    true
}

} // verus!
