//! Route paths: splitting them into segments, writing them back, joining a
//! base with a segment, and reading a `<name>` parameter segment.

use vstd::prelude::*;
use vstd::string::StringExecFns;
use crate::text::{trim_of, trim, chars_of, string_of};

verus! {

/// The maximal non-empty runs of characters other than `/`, in order.
pub open spec fn segments_of(s: Seq<char>) -> Seq<Seq<char>>
    decreases s.len(),
{
    if s.len() == 0 {
        Seq::empty()
    } else {
        let rest = segments_of(s.drop_last());
        if s.last() == '/' {
            rest
        } else if s.len() >= 2 && s[s.len() - 2] != '/' {
            rest.update(rest.len() - 1, rest.last().push(s.last()))
        } else {
            rest.push(seq![s.last()])
        }
    }
}

/// The segments of a path: those of the path with surrounding whitespace trimmed.
pub open spec fn path_segments(path: Seq<char>) -> Seq<Seq<char>> {
    segments_of(trim_of(path))
}

/// The segments separated by `/`.
pub open spec fn join_slash(parts: Seq<Seq<char>>) -> Seq<char>
    decreases parts.len(),
{
    if parts.len() == 0 {
        Seq::empty()
    } else if parts.len() == 1 {
        parts[0]
    } else {
        join_slash(parts.drop_last()) + seq!['/'] + parts.last()
    }
}

/// The canonical form of a path: `/` for the empty path, else `/` followed by
/// its segments separated by `/`.
pub open spec fn canonical_path(path: Seq<char>) -> Seq<char> {
    if path.len() == 0 {
        seq!['/']
    } else {
        seq!['/'] + join_slash(path_segments(path))
    }
}

/// The segments of a path: the non-empty pieces between slashes, after
/// trimming surrounding whitespace.
pub fn normalize_path(path: &String) -> (r: Vec<String>)
    ensures
        r@.map_values(|x: String| x@) == path_segments(path@),
{
    let cleaned = trim(path);
    let c = chars_of(&cleaned);
    let mut out: Vec<String> = Vec::new();
    let mut cur: Vec<char> = Vec::new();
    let mut i: usize = 0;
    while i < c.len()
        invariant
            c@ == trim_of(path@),
            i <= c@.len(),
            cur@.len() > 0 <==> (i > 0 && c@[i - 1] != '/'),
            segments_of(c@.subrange(0, i as int)) == if cur@.len() == 0 {
                out@.map_values(|x: String| x@)
            } else {
                out@.map_values(|x: String| x@).push(cur@)
            },
        decreases c@.len() - i,
    {
        let ch = c[i];
        let ghost prefix = c@.subrange(0, i + 1);
        let ghost before_out = out@.map_values(|x: String| x@);
        let ghost before_cur = cur@;
        proof {
            assert(prefix.drop_last() =~= c@.subrange(0, i as int));
            assert(prefix.last() == ch);
            if i > 0 {
                assert(prefix[prefix.len() - 2] == c@[i - 1]);
            }
        }
        if ch == '/' {
            if cur.len() > 0 {
                out.push(string_of(cur.as_slice()));
                cur = Vec::new();
                proof {
                    assert(out@.map_values(|x: String| x@) =~= before_out.push(before_cur));
                }
            }
        } else {
            cur.push(ch);
            proof {
                if before_cur.len() > 0 {
                    let r = before_out.push(before_cur);
                    assert(r.update(r.len() - 1, r.last().push(ch)) =~= before_out.push(cur@));
                } else {
                    assert(cur@ =~= seq![ch]);
                }
            }
        }
        i = i + 1;
    }
    if cur.len() > 0 {
        let ghost before_out = out@.map_values(|x: String| x@);
        out.push(string_of(cur.as_slice()));
        assert(out@.map_values(|x: String| x@) =~= before_out.push(cur@));
    }
    assert(c@.subrange(0, c@.len() as int) =~= c@);
    out
}

/// The canonical form of a path (see [`canonical_path`]).
pub fn normalize_path_string(path: &String) -> (r: String)
    ensures
        r@ == canonical_path(path@),
{
    proof {
        reveal_strlit("/");
        assert("/"@ =~= seq!['/']);
    }
    let mut out = String::from_str("/");
    if path.as_str().is_empty() {
        assert(out@ =~= seq!['/']);
        return out;
    }
    let segments = normalize_path(path);
    let ghost parts = segments@.map_values(|x: String| x@);
    let mut k: usize = 0;
    while k < segments.len()
        invariant
            parts == segments@.map_values(|x: String| x@),
            "/"@ == seq!['/'],
            k <= segments@.len(),
            out@ == seq!['/'] + join_slash(parts.subrange(0, k as int)),
        decreases segments@.len() - k,
    {
        let ghost before = out@;
        if k > 0 {
            out.append("/");
        }
        let ghost middle = out@;
        out.append(segments[k].as_str());
        assert(out@ == middle + segments@[k as int]@);
        assert(k > 0 ==> middle == before + seq!['/']);
        proof {
            let sub = parts.subrange(0, k + 1);
            assert(sub.drop_last() =~= parts.subrange(0, k as int));
            assert(sub.last() == segments@[k as int]@);
            if k == 0 {
                assert(join_slash(sub) == sub[0]);
            } else {
                assert(join_slash(sub) == join_slash(parts.subrange(0, k as int)) + seq!['/'] + sub.last());
            }
            assert(out@ =~= seq!['/'] + join_slash(sub));
        }
        k = k + 1;
    }
    assert(parts.subrange(0, parts.len() as int) =~= parts);
    out
}

/// The name of a parameter segment: the text between `<` and `>` of a
/// segment that is more than the two brackets.
pub open spec fn parameter_of(segment: Seq<char>) -> Option<Seq<char>> {
    if segment.len() > 2 && segment[0] == '<' && segment.last() == '>' {
        Some(segment.subrange(1, segment.len() - 1))
    } else {
        None
    }
}

/// Whether a segment is a parameter, and its name if so.
pub fn parse_segment(segment: &String) -> (r: (bool, Option<String>))
    ensures
        r.0 == parameter_of(segment@) is Some,
        match r.1 {
            Some(name) => parameter_of(segment@) == Some(name@),
            None => parameter_of(segment@) is None,
        },
{
    let c = chars_of(segment);
    let n = c.len();
    if n > 2 && c[0] == '<' && c[n - 1] == '>' {
        let name = string_of(vstd::slice::slice_subrange(c.as_slice(), 1, n - 1));
        (true, Some(name))
    } else {
        (false, None)
    }
}

/// The text without its trailing slashes.
pub open spec fn without_trailing_slashes(s: Seq<char>) -> Seq<char>
    decreases s.len(),
{
    if s.len() > 0 && s.last() == '/' {
        without_trailing_slashes(s.drop_last())
    } else {
        s
    }
}

/// A base path joined with a segment: a segment that starts with `/` stands
/// for itself, in canonical form; otherwise it goes after the base, its
/// trailing slashes removed, and one `/`.
pub open spec fn joined_path(base: Seq<char>, segment: Seq<char>) -> Seq<char> {
    let b = without_trailing_slashes(base);
    if segment.len() > 0 && segment[0] == '/' {
        canonical_path(segment)
    } else if b.len() == 0 {
        seq!['/'] + segment
    } else {
        b + seq!['/'] + segment
    }
}

/// Joins a base path and a segment (see [`joined_path`]).
pub fn join_paths(base: &String, segment: &String) -> (r: String)
    ensures
        r@ == joined_path(base@, segment@),
{
    proof {
        reveal_strlit("/");
        assert("/"@ =~= seq!['/']);
    }
    let s = chars_of(segment);
    if s.len() > 0 && s[0] == '/' {
        return normalize_path_string(segment);
    }
    let b = chars_of(base);
    let mut end: usize = b.len();
    assert(b@.subrange(0, end as int) =~= b@);
    while end > 0 && b[end - 1] == '/'
        invariant
            end <= b@.len(),
            without_trailing_slashes(b@) == without_trailing_slashes(b@.subrange(0, end as int)),
        decreases end,
    {
        proof {
            let sub = b@.subrange(0, end as int);
            assert(sub.drop_last() =~= b@.subrange(0, end - 1));
        }
        end = end - 1;
    }
    let trimmed = vstd::slice::slice_subrange(b.as_slice(), 0, end);
    let mut out = string_of(trimmed);
    assert(without_trailing_slashes(b@) == out@);
    if end == 0 {
        let mut root = String::from_str("/");
        root.append(segment.as_str());
        return root;
    }
    out.append("/");
    out.append(segment.as_str());
    out
}

} // verus!
