//! Workspace paths: lexical normalization and the check that a path stays
//! inside the workspace root.
//!
//! Paths are `/`-separated text. A path's parts are its `/`-separated
//! segments without the empty ones and without `.`; whether it is absolute
//! is whether it starts with `/`. One path starts with another when both are
//! absolute or both relative and the other's parts are a prefix of its
//! parts.

use vstd::prelude::*;

use crate::text::{owned, push_char, push_str, str_eq};

verus! {

broadcast use vstd::seq_lib::group_seq_properties;

/// The `/`-separated segments of `p` (at least one, possibly empty).
pub open spec fn segments(p: Seq<char>) -> Seq<Seq<char>>
    decreases p.len(),
{
    if p.len() == 0 {
        seq![Seq::<char>::empty()]
    } else {
        let s = segments(p.drop_last());
        if p.last() == '/' {
            s.push(Seq::<char>::empty())
        } else {
            s.update(s.len() - 1, s.last().push(p.last()))
        }
    }
}

/// Whether a segment names something: not empty and not `.`.
pub open spec fn is_part(s: Seq<char>) -> bool {
    s.len() > 0 && s != seq!['.']
}

/// The segments that name something, in order.
pub open spec fn keep_parts(ss: Seq<Seq<char>>) -> Seq<Seq<char>>
    decreases ss.len(),
{
    if ss.len() == 0 {
        Seq::empty()
    } else {
        let r = keep_parts(ss.drop_last());
        if is_part(ss.last()) { r.push(ss.last()) } else { r }
    }
}

/// The parts of a path.
pub open spec fn path_parts(p: Seq<char>) -> Seq<Seq<char>> {
    keep_parts(segments(p))
}

/// Whether a path is absolute.
pub open spec fn is_absolute(p: Seq<char>) -> bool {
    p.len() > 0 && p[0] == '/'
}

/// Apply `..` lexically: it removes the part before it (nothing at the
/// top); every other part is kept.
pub open spec fn resolve_dots(parts: Seq<Seq<char>>) -> Seq<Seq<char>>
    decreases parts.len(),
{
    if parts.len() == 0 {
        Seq::empty()
    } else {
        let r = resolve_dots(parts.drop_last());
        if parts.last() == seq!['.', '.'] {
            if r.len() > 0 { r.drop_last() } else { r }
        } else {
            r.push(parts.last())
        }
    }
}

/// Parts joined with `/`.
pub open spec fn join_parts(parts: Seq<Seq<char>>) -> Seq<char>
    decreases parts.len(),
{
    if parts.len() == 0 {
        Seq::empty()
    } else if parts.len() == 1 {
        parts[0]
    } else {
        join_parts(parts.drop_last()) + seq!['/'] + parts.last()
    }
}

/// A path written from its parts.
pub open spec fn render_path(absolute: bool, parts: Seq<Seq<char>>) -> Seq<char> {
    if absolute { seq!['/'] + join_parts(parts) } else { join_parts(parts) }
}

/// The lexical normal form of a path: `.` and empty segments removed, `..`
/// applied.
pub open spec fn normalized(p: Seq<char>) -> Seq<char> {
    render_path(is_absolute(p), resolve_dots(path_parts(p)))
}

/// Whether the path `p` starts with the path `base`.
pub open spec fn path_starts_with(p: Seq<char>, base: Seq<char>) -> bool {
    &&& is_absolute(p) == is_absolute(base)
    &&& path_parts(base).len() <= path_parts(p).len()
    &&& path_parts(p).subrange(0, path_parts(base).len() as int) == path_parts(base)
}

/// The parts of a path, computed.
pub fn split_parts(p: &str) -> (r: Vec<String>)
    ensures
        r@.map_values(|s: String| s@) == path_parts(p@),
{
    let n = p.unicode_len();
    let mut parts: Vec<String> = Vec::new();
    let mut cur = String::new();
    let mut i: usize = 0;
    proof {
        assert(p@.take(0) =~= Seq::<char>::empty());
    }
    while i < n
        invariant
            n == p@.len(),
            0 <= i <= n,
            segments(p@.take(i as int)).len() >= 1,
            cur@ == segments(p@.take(i as int)).last(),
            parts@.map_values(|s: String| s@) == keep_parts(segments(p@.take(i as int)).drop_last()),
        decreases n - i,
    {
        let c = p.get_char(i);
        proof {
            assert(p@.take(i + 1).drop_last() =~= p@.take(i as int));
            assert(p@.take(i + 1).last() == c);
            lemma_segments_nonempty(p@.take(i as int));
        }
        if c == '/' {
            let ghost prev = parts@;
            let ghost ss = segments(p@.take(i as int));
            if is_part_exec(cur.as_str()) {
                parts.push(cur);
                proof {
                    assert(parts@.map_values(|s: String| s@) =~= prev.map_values(|s: String| s@).push(ss.last()));
                }
            }
            cur = String::new();
            proof {
                let ss2 = segments(p@.take(i + 1));
                assert(ss2 == ss.push(Seq::<char>::empty()));
                assert(ss2.drop_last() =~= ss);
                assert(ss.drop_last().push(ss.last()) =~= ss);
            }
        } else {
            push_char(&mut cur, c);
            proof {
                let ss = segments(p@.take(i as int));
                let ss2 = segments(p@.take(i + 1));
                assert(ss2.drop_last() =~= ss.drop_last());
            }
        }
        i += 1;
    }
    proof {
        assert(p@.take(n as int) =~= p@);
        lemma_segments_nonempty(p@);
        let ss = segments(p@);
        assert(ss.drop_last().push(ss.last()) =~= ss);
    }
    if is_part_exec(cur.as_str()) {
        let ghost prev = parts@;
        let ghost last = cur@;
        parts.push(cur);
        proof {
            assert(parts@.map_values(|s: String| s@) =~= prev.map_values(|s: String| s@).push(last));
        }
    }
    parts
}

/// Segments always exist.
pub proof fn lemma_segments_nonempty(p: Seq<char>)
    ensures
        segments(p).len() >= 1,
    decreases p.len(),
{
    if p.len() > 0 {
        lemma_segments_nonempty(p.drop_last());
    }
}

fn is_part_exec(s: &str) -> (r: bool)
    ensures
        r == is_part(s@),
{
    if s.is_empty() {
        return false;
    }
    let dot = str_eq(s, ".");
    proof {
        reveal_strlit(".");
        assert("."@ =~= seq!['.']);
    }
    !dot
}

/// Whether a path is absolute, computed.
pub fn path_is_absolute(p: &str) -> (r: bool)
    ensures
        r == is_absolute(p@),
{
    !p.is_empty() && p.get_char(0) == '/'
}

/// Remove `.` components and apply `..` lexically.
pub fn normalize_path(path: &str) -> (r: String)
    ensures
        r@ == normalized(path@),
{
    let parts = split_parts(path);
    let ghost pv = parts@.map_values(|s: String| s@);
    let mut out: Vec<String> = Vec::new();
    let mut i: usize = 0;
    while i < parts.len()
        invariant
            0 <= i <= parts@.len(),
            pv == parts@.map_values(|s: String| s@),
            out@.map_values(|s: String| s@) == resolve_dots(pv.take(i as int)),
        decreases parts@.len() - i,
    {
        proof {
            assert(pv.take(i + 1).drop_last() =~= pv.take(i as int));
            assert(pv.take(i + 1).last() == parts@[i as int]@);
        }
        let ghost prev = out@;
        let is_parent = str_eq(parts[i].as_str(), "..");
        proof {
            reveal_strlit("..");
            assert(".."@ =~= seq!['.', '.']);
        }
        if is_parent {
            if out.len() > 0 {
                out.pop();
                proof {
                    assert(out@.map_values(|s: String| s@) =~= prev.map_values(|s: String| s@).drop_last());
                }
            }
        } else {
            out.push(parts[i].clone());
            proof {
                assert(out@.map_values(|s: String| s@) =~= prev.map_values(|s: String| s@).push(parts@[i as int]@));
            }
        }
        i += 1;
    }
    proof {
        assert(pv.take(pv.len() as int) =~= pv);
    }
    let mut r = String::new();
    if path_is_absolute(path) {
        push_char(&mut r, '/');
    }
    let ghost prefix = r@;
    let ghost ov = out@.map_values(|s: String| s@);
    let mut j: usize = 0;
    while j < out.len()
        invariant
            0 <= j <= out@.len(),
            ov == out@.map_values(|s: String| s@),
            r@ == prefix + join_parts(ov.take(j as int)),
        decreases out@.len() - j,
    {
        proof {
            assert(ov.take(j + 1).drop_last() =~= ov.take(j as int));
            assert(ov.take(j + 1).last() == out@[j as int]@);
        }
        if j > 0 {
            push_char(&mut r, '/');
        } else {
            assert(join_parts(ov.take(j as int)) =~= Seq::<char>::empty());
        }
        push_str(&mut r, out[j].as_str());
        proof {
            if j > 0 {
                assert(r@ =~= prefix + join_parts(ov.take(j + 1)));
            } else {
                assert(ov.take(1).len() == 1);
                assert(r@ =~= prefix + join_parts(ov.take(1)));
            }
        }
        j += 1;
    }
    proof {
        assert(ov.take(ov.len() as int) =~= ov);
        if is_absolute(path@) {
            assert(r@ =~= seq!['/'] + join_parts(ov));
        } else {
            assert(r@ =~= join_parts(ov));
        }
    }
    r
}

/// Whether `p` starts with `base`, component by component.
pub fn starts_with_path(p: &str, base: &str) -> (r: bool)
    ensures
        r == path_starts_with(p@, base@),
{
    if path_is_absolute(p) != path_is_absolute(base) {
        return false;
    }
    let pp = split_parts(p);
    let bp = split_parts(base);
    let ghost ppv = pp@.map_values(|s: String| s@);
    let ghost bpv = bp@.map_values(|s: String| s@);
    if bp.len() > pp.len() {
        assert(bpv.len() > ppv.len());
        return false;
    }
    let mut i: usize = 0;
    while i < bp.len()
        invariant
            bp@.len() <= pp@.len(),
            0 <= i <= bp@.len(),
            ppv == pp@.map_values(|s: String| s@),
            bpv == bp@.map_values(|s: String| s@),
            ppv == path_parts(p@),
            bpv == path_parts(base@),
            is_absolute(p@) == is_absolute(base@),
            forall|k: int| 0 <= k < i ==> ppv[k] == bpv[k],
        decreases bp@.len() - i,
    {
        assert(ppv[i as int] == pp@[i as int]@);
        assert(bpv[i as int] == bp@[i as int]@);
        if !str_eq(pp[i].as_str(), bp[i].as_str()) {
            assert(ppv.subrange(0, bpv.len() as int)[i as int] != bpv[i as int]);
            return false;
        }
        i += 1;
    }
    assert(ppv.subrange(0, bpv.len() as int) =~= bpv);
    true
}

/// Errors from resolving a tool path against the workspace root.
#[derive(Debug, Clone, PartialEq, Eq)]
pub enum PathError {
    /// The resolved path escapes the workspace root.
    OutsideRoot(String),
    /// The path is not usable: the path and the reason.
    Invalid(String, String),
}

/// The display text of a [`PathError`].
pub open spec fn path_error_text(e: PathError) -> Seq<char> {
    match e {
        PathError::OutsideRoot(p) => "path `"@ + p@ + "` is outside the workspace root"@,
        PathError::Invalid(p, why) => "path `"@ + p@ + "` is invalid: "@ + why@,
    }
}

impl PathError {
    /// The human-readable message for this error.
    pub fn to_string(&self) -> (r: String)
        ensures
            r@ == path_error_text(*self),
    {
        match self {
            PathError::OutsideRoot(p) => {
                let mut s = owned("path `");
                push_str(&mut s, p.as_str());
                push_str(&mut s, "` is outside the workspace root");
                s
            },
            PathError::Invalid(p, why) => {
                let mut s = owned("path `");
                push_str(&mut s, p.as_str());
                push_str(&mut s, "` is invalid: ");
                push_str(&mut s, why.as_str());
                s
            },
        }
    }
}

/// The path `requested` names: itself when absolute, otherwise joined onto
/// `root`.
pub open spec fn joined(root: Seq<char>, requested: Seq<char>) -> Seq<char> {
    if is_absolute(requested) || root.len() == 0 { requested } else { root + seq!['/'] + requested }
}

/// The lexical step of resolving a tool path: an empty path is invalid;
/// otherwise the requested path is joined onto the (canonical) root and
/// normalized, and must start with the normalized root. Returns the
/// normalized candidate.
pub fn lexical_candidate(root: &str, requested: &str) -> (r: Result<String, PathError>)
    ensures
        requested@.len() == 0 ==> (r matches Err(PathError::Invalid(p, why))
            && p@ == "path must not be empty"@ && why@ == "pass a relative or absolute path"@),
        requested@.len() > 0 ==> {
            let candidate = normalized(joined(root@, requested@));
            if path_starts_with(candidate, normalized(root@)) {
                r matches Ok(c) && c@ == candidate
            } else {
                r matches Err(PathError::OutsideRoot(p)) && p@ == requested@
            }
        },
{
    if requested.is_empty() {
        return Err(PathError::Invalid(owned("path must not be empty"), owned("pass a relative or absolute path")));
    }
    let root_normalized = normalize_path(root);
    let joined_path = if path_is_absolute(requested) || root.is_empty() {
        owned(requested)
    } else {
        let mut j = owned(root);
        push_char(&mut j, '/');
        push_str(&mut j, requested);
        j
    };
    assert(joined_path@ =~= joined(root@, requested@));
    let candidate = normalize_path(joined_path.as_str());
    assert(candidate@ == normalized(joined(root@, requested@)));
    assert(root_normalized@ == normalized(root@));
    if !starts_with_path(candidate.as_str(), root_normalized.as_str()) {
        return Err(PathError::OutsideRoot(owned(requested)));
    }
    Ok(candidate)
}

/// The final step of resolving a tool path: the candidate with symlinks
/// resolved must still start with the normalized root.
pub fn confirm_within_root(root: &str, requested: &str, resolved: String) -> (r: Result<String, PathError>)
    ensures
        path_starts_with(resolved@, normalized(root@)) ==> r == Ok::<String, PathError>(resolved),
        !path_starts_with(resolved@, normalized(root@)) ==> (r matches Err(PathError::OutsideRoot(p)) && p@ == requested@),
{
    let root_normalized = normalize_path(root);
    if !starts_with_path(resolved.as_str(), root_normalized.as_str()) {
        return Err(PathError::OutsideRoot(owned(requested)));
    }
    Ok(resolved)
}

/// A path accepted by the resolution steps never escapes the root: it
/// starts with the normalized root, lexically and after symlink resolution.
pub proof fn law_resolved_paths_stay_inside(root: Seq<char>, requested: Seq<char>, resolved: Seq<char>)
    requires
        requested.len() > 0,
        path_starts_with(normalized(joined(root, requested)), normalized(root)),
        path_starts_with(resolved, normalized(root)),
    ensures
        path_parts(normalized(root)).len() <= path_parts(resolved).len(),
        path_parts(resolved).subrange(0, path_parts(normalized(root)).len() as int) == path_parts(normalized(root)),
        is_absolute(resolved) == is_absolute(normalized(root)),
{
}

/// The directories a search for the repository root visits from `start`:
/// `start` itself, then each parent in turn up to the top (`/` for an
/// absolute path, the empty path for a relative one).
pub open spec fn ancestor_paths(start: Seq<char>) -> Seq<Seq<char>> {
    let parts = path_parts(start);
    Seq::new(parts.len() + 1, |i: int| render_path(is_absolute(start), parts.take(parts.len() - i)))
}

/// The directories searched for a `.git` entry, nearest first.
pub fn ancestors(start: &str) -> (r: Vec<String>)
    ensures
        r@.map_values(|s: String| s@) == ancestor_paths(start@),
{
    let parts = split_parts(start);
    let ghost pv = parts@.map_values(|s: String| s@);
    let absolute = path_is_absolute(start);
    let n = parts.len();
    let mut out: Vec<String> = Vec::new();
    let mut cur = if absolute { owned("/") } else { String::new() };
    proof {
        reveal_strlit("/");
        assert(pv.take(0) =~= Seq::<Seq<char>>::empty());
        assert(cur@ =~= render_path(absolute, pv.take(0)));
    }
    let mut k: usize = 0;
    while k < n
        invariant
            n == pv.len(),
            pv == parts@.map_values(|s: String| s@),
            absolute == is_absolute(start@),
            0 <= k <= n,
            cur@ == render_path(absolute, pv.take(k as int)),
            out@.len() == k,
            forall|i: int| 0 <= i < k ==> (#[trigger] out@[i])@ == render_path(absolute, pv.take(k - 1 - i)),
        decreases n - k,
    {
        let ghost before = out@;
        out.insert(0, cur.clone());
        proof {
            assert forall|i: int| 0 <= i < k + 1 implies (#[trigger] out@[i])@ == render_path(absolute, pv.take(k - i)) by {
                if i > 0 {
                    assert(out@[i] == before[i - 1]);
                }
            }
        }
        if k > 0 {
            push_char(&mut cur, '/');
        }
        push_str(&mut cur, parts[k].as_str());
        proof {
            assert(pv.take(k + 1).drop_last() =~= pv.take(k as int));
            assert(pv[k as int] == parts@[k as int]@);
            if k == 0 {
                assert(pv.take(1) =~= seq![pv[0]]);
                assert(cur@ =~= render_path(absolute, pv.take(1)));
            } else {
                assert(join_parts(pv.take(k + 1)) =~= join_parts(pv.take(k as int)) + seq!['/'] + pv[k as int]);
                assert(cur@ =~= render_path(absolute, pv.take(k + 1)));
            }
        }
        k += 1;
    }
    let ghost before = out@;
    out.insert(0, cur);
    proof {
        assert forall|i: int| 0 <= i < n + 1 implies (#[trigger] out@[i])@ == render_path(absolute, pv.take(n - i)) by {
            if i > 0 {
                assert(out@[i] == before[i - 1]);
            }
        }
    }
    proof {
        assert(out@.map_values(|s: String| s@) =~= ancestor_paths(start@));
    }
    out
}

} // verus!
