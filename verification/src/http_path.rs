//! Canonical HTTP paths and the path patterns that persistent HTTP rules use.
//!
//! A path is canonical when it is an absolute ASCII path whose percent escapes
//! are written in upper case, decode to no separator, dot, NUL or control
//! byte, and whose segments are neither empty nor `.` / `..`.
//! Patterns match whole segments: `*` stands for one segment and a final `**`
//! for any (possibly empty) remainder.
use vstd::prelude::*;
use crate::error::AgentBrokerError;
use crate::json::JsonValue;
use crate::text::{chars_eq, from_chars, to_chars, str_eq};

verus! {

broadcast use vstd::string::group_string_axioms;

/// The revision of the path matcher that persistent path rules are bound to.
pub const HTTP_PATH_MATCHER_REVISION: &'static str = "http-path-v1";

/// The risk tier of an Agent action, from read-only (`R0`) to destructive (`R4`).
#[derive(Clone, Copy, Debug, PartialEq, Eq)]
pub enum AgentRiskTier {
    R0,
    R1,
    R2,
    R3,
    R4,
}

// ----------------------------------------------------------------------------
// Specification
// ----------------------------------------------------------------------------

/// An ASCII control character (`0x00..=0x1f` or `0x7f`).
pub open spec fn is_ascii_control(c: char) -> bool {
    (c as u32) < 32 || (c as u32) == 127
}

/// An ASCII character.
pub open spec fn is_ascii_char(c: char) -> bool {
    (c as u32) < 128
}

/// Every character is ASCII.
pub open spec fn is_ascii_text(p: Seq<char>) -> bool {
    forall|i: int| 0 <= i < p.len() ==> is_ascii_char(#[trigger] p[i])
}

/// An ASCII hexadecimal digit byte.
pub open spec fn is_hex_byte(b: u32) -> bool {
    (48 <= b && b <= 57) || (97 <= b && b <= 102) || (65 <= b && b <= 70)
}

/// The value of a hexadecimal digit byte.
pub open spec fn hex_byte_value(b: u32) -> int {
    if 48 <= b && b <= 57 {
        b - 48
    } else if 97 <= b && b <= 102 {
        b - 97 + 10
    } else {
        b - 65 + 10
    }
}

/// An ASCII hexadecimal digit.
pub open spec fn is_hex_digit(c: char) -> bool {
    is_hex_byte(c as u32)
}

/// The value of a hexadecimal digit.
pub open spec fn hex_digit_value(c: char) -> int {
    hex_byte_value(c as u32)
}

/// The upper-case hexadecimal digit for a value below 16.
pub open spec fn hex_upper_digit(v: int) -> char {
    if v < 10 {
        (48 + v) as char
    } else {
        (65 + v - 10) as char
    }
}

/// A decoded escape that would smuggle a separator, a dot, NUL or a control byte.
pub open spec fn forbidden_decoded_byte(d: int) -> bool {
    d == 47 || d == 92 || d == 46 || d == 0 || d < 32 || d == 127
}

/// A character that may not appear in an exact request path.
pub open spec fn forbidden_path_char(c: char) -> bool {
    c == '\\' || c == '?' || c == '#' || c == '*' || is_ascii_control(c)
}

/// A character that may not appear in a path pattern.
pub open spec fn forbidden_pattern_char(c: char) -> bool {
    c == '\\' || c == '?' || c == '#' || c == '%' || c == '{' || c == '}' || is_ascii_control(c)
}

/// The shape shared by paths and patterns: non-empty, at most 2048 ASCII
/// characters, absolute, not starting with `//`, and free of `forbidden`.
pub open spec fn absolute_ascii_shape(p: Seq<char>) -> bool {
    &&& 0 < p.len() <= 2048
    &&& p[0] == '/'
    &&& !(p.len() >= 2 && p[1] == '/')
    &&& is_ascii_text(p)
}

/// The character-level conditions on an exact request path.
pub open spec fn exact_path_shape(p: Seq<char>) -> bool {
    &&& absolute_ascii_shape(p)
    &&& forall|i: int| 0 <= i < p.len() ==> !forbidden_path_char(#[trigger] p[i])
}

/// The character-level conditions on a path pattern.
pub open spec fn pattern_shape(p: Seq<char>) -> bool {
    &&& absolute_ascii_shape(p)
    &&& forall|i: int| 0 <= i < p.len() ==> !forbidden_pattern_char(#[trigger] p[i])
}

/// Percent escapes rewritten in upper case, or `None` when an escape is
/// truncated, not hexadecimal, or decodes to a forbidden byte.
pub open spec fn normalize_escapes(p: Seq<char>) -> Option<Seq<char>>
    decreases p.len(),
{
    if p.len() == 0 {
        Some(Seq::empty())
    } else if p[0] != '%' {
        match normalize_escapes(p.drop_first()) {
            Some(rest) => Some(seq![p[0]] + rest),
            None => None,
        }
    } else if p.len() < 3 || !is_hex_digit(p[1]) || !is_hex_digit(p[2]) {
        None
    } else if forbidden_decoded_byte(hex_digit_value(p[1]) * 16 + hex_digit_value(p[2])) {
        None
    } else {
        match normalize_escapes(p.subrange(3, p.len() as int)) {
            Some(rest) => Some(
                seq!['%', hex_upper_digit(hex_digit_value(p[1])), hex_upper_digit(hex_digit_value(p[2]))]
                    + rest,
            ),
            None => None,
        }
    }
}

/// `s` split at every `/` (`str::split('/')`); never empty.
pub open spec fn split_on_slash(s: Seq<char>) -> Seq<Seq<char>>
    decreases s.len(),
{
    if s.len() == 0 {
        seq![Seq::empty()]
    } else {
        let init = split_on_slash(s.drop_last());
        if s.last() == '/' {
            init.push(Seq::empty())
        } else {
            init.update(init.len() - 1, init.last().push(s.last()))
        }
    }
}

/// The segments of an absolute path: what follows each `/`.
pub open spec fn path_segments(p: Seq<char>) -> Seq<Seq<char>> {
    split_on_slash(p.drop_first())
}

/// An empty, `.` or `..` segment.
pub open spec fn dot_or_empty_segment(s: Seq<char>) -> bool {
    s.len() == 0 || s == seq!['.'] || s == seq!['.', '.']
}

/// Some segment of `p` is empty, `.` or `..`.
pub open spec fn has_dot_or_empty_segment(p: Seq<char>) -> bool {
    exists|k: int| 0 <= k < path_segments(p).len() && dot_or_empty_segment(#[trigger] path_segments(p)[k])
}

/// The canonical form of an exact request path, or `None` when it is refused.
pub open spec fn canonical_exact_path(p: Seq<char>) -> Option<Seq<char>> {
    if !exact_path_shape(p) {
        None
    } else {
        match normalize_escapes(p) {
            None => None,
            Some(c) => if c != seq!['/'] && has_dot_or_empty_segment(c) {
                None
            } else {
                Some(c)
            },
        }
    }
}

/// A path that is its own canonical form.
pub open spec fn is_canonical_exact_path(p: Seq<char>) -> bool {
    canonical_exact_path(p) == Some(p)
}

/// A pattern segment that is not empty, not a dot segment, and uses `*` only as
/// `*` or `**`.
pub open spec fn valid_pattern_segment(s: Seq<char>) -> bool {
    &&& !dot_or_empty_segment(s)
    &&& (s.contains('*') ==> s == seq!['*'] || s == seq!['*', '*'])
}

/// A valid path pattern: `/`, or a well-shaped pattern whose segments are valid
/// and where `**` can only be the last segment.
pub open spec fn valid_path_pattern(p: Seq<char>) -> bool {
    ||| p == seq!['/']
    ||| {
        &&& pattern_shape(p)
        &&& forall|k: int| 0 <= k < path_segments(p).len() ==> valid_pattern_segment(#[trigger] path_segments(p)[k])
        &&& forall|k: int| 0 <= k < path_segments(p).len() && #[trigger] path_segments(p)[k] == seq!['*', '*'] ==> k + 1 == path_segments(p).len()
    }
}

/// Pattern segments `ps` from index `i` on match path segments `xs`.
pub open spec fn segments_match_from(ps: Seq<Seq<char>>, xs: Seq<Seq<char>>, i: int) -> bool
    decreases ps.len() - i,
{
    if i < 0 || i >= ps.len() {
        ps.len() == xs.len()
    } else if ps[i] == seq!['*', '*'] {
        true
    } else if i >= xs.len() {
        false
    } else if ps[i] != seq!['*'] && ps[i] != xs[i] {
        false
    } else {
        segments_match_from(ps, xs, i + 1)
    }
}

/// `pattern` is valid, `path` is canonical, and the pattern covers the path.
pub open spec fn spec_path_matches(pattern: Seq<char>, path: Seq<char>) -> bool {
    &&& valid_path_pattern(pattern)
    &&& is_canonical_exact_path(path)
    &&& segments_match_from(path_segments(pattern), path_segments(path), 0)
}

/// `s` without its trailing `/` characters.
pub open spec fn trim_trailing_slashes(s: Seq<char>) -> Seq<char>
    decreases s.len(),
{
    if s.len() > 0 && s.last() == '/' {
        trim_trailing_slashes(s.drop_last())
    } else {
        s
    }
}

/// The request path resolved below an account's base path.
pub open spec fn spec_join_base_path(base: Seq<char>, requested: Seq<char>) -> Option<Seq<char>> {
    let base_input = if base.len() == 0 { seq!['/'] } else { base };
    match (canonical_exact_path(base_input), canonical_exact_path(requested)) {
        (Some(b), Some(r)) => if b == seq!['/'] {
            Some(r)
        } else if r == seq!['/'] {
            Some(b)
        } else {
            Some(trim_trailing_slashes(b) + r)
        },
        _ => None,
    }
}

/// The risk floor of an HTTP method, or `None` for an unsupported method.
pub open spec fn spec_method_risk(method: Seq<char>) -> Option<AgentRiskTier> {
    if method == "GET"@ || method == "HEAD"@ {
        Some(AgentRiskTier::R1)
    } else if method == "POST"@ {
        Some(AgentRiskTier::R2)
    } else if method == "PUT"@ || method == "PATCH"@ {
        Some(AgentRiskTier::R3)
    } else if method == "DELETE"@ {
        Some(AgentRiskTier::R4)
    } else {
        None
    }
}

/// The error for a refused exact path.
pub open spec fn is_invalid_path_error(e: AgentBrokerError) -> bool {
    e.code@ == "invalid-http-path"@ && !e.retryable && e.details is None
}

/// The error for a refused path pattern.
pub open spec fn is_invalid_pattern_error(e: AgentBrokerError) -> bool {
    e.code@ == "invalid-http-path-pattern"@ && !e.retryable && e.details is None
}

// ----------------------------------------------------------------------------
// Lemmas about the specification
// ----------------------------------------------------------------------------

proof fn lemma_split_nonempty(s: Seq<char>)
    ensures
        split_on_slash(s).len() >= 1,
    decreases s.len(),
{
    if s.len() > 0 {
        lemma_split_nonempty(s.drop_last());
    }
}

proof fn lemma_normalize_step_plain(p: Seq<char>, i: int, out: Seq<char>)
    requires
        0 <= i < p.len(),
        p[i] != '%',
    ensures
        normalize_escapes(p.subrange(i, p.len() as int)) == match normalize_escapes(p.subrange(i + 1, p.len() as int)) {
            Some(rest) => Some(seq![p[i]] + rest),
            None => None,
        },
{
    let s = p.subrange(i, p.len() as int);
    assert(s.drop_first() =~= p.subrange(i + 1, p.len() as int));
    assert(s[0] == p[i]);
}

proof fn lemma_normalize_step_escape(p: Seq<char>, i: int)
    requires
        0 <= i,
        i + 3 <= p.len(),
        p[i] == '%',
    ensures
        normalize_escapes(p.subrange(i, p.len() as int)) == if !is_hex_digit(p[i + 1]) || !is_hex_digit(p[i + 2]) {
            None
        } else if forbidden_decoded_byte(hex_digit_value(p[i + 1]) * 16 + hex_digit_value(p[i + 2])) {
            None
        } else {
            match normalize_escapes(p.subrange(i + 3, p.len() as int)) {
                Some(rest) => Some(
                    seq!['%', hex_upper_digit(hex_digit_value(p[i + 1])), hex_upper_digit(hex_digit_value(p[i + 2]))]
                        + rest,
                ),
                None => None,
            }
        },
{
    let s = p.subrange(i, p.len() as int);
    assert(s.subrange(3, s.len() as int) =~= p.subrange(i + 3, p.len() as int));
    assert(s[0] == p[i] && s[1] == p[i + 1] && s[2] == p[i + 2]);
}

/// A character that `normalize_escapes` can write for an escape: `%` or an
/// upper-case hexadecimal digit.
pub open spec fn escape_output_char(c: char) -> bool {
    c == '%' || (48 <= (c as u32) && (c as u32) <= 57) || (65 <= (c as u32) && (c as u32) <= 70)
}

proof fn lemma_hex_upper_roundtrip(v: int)
    requires
        0 <= v < 16,
    ensures
        is_hex_digit(hex_upper_digit(v)),
        hex_digit_value(hex_upper_digit(v)) == v,
        escape_output_char(hex_upper_digit(v)),
{
}

/// Normalizing keeps the length and writes, at each position, either the input
/// character or an escape character.
proof fn lemma_normalize_positions(p: Seq<char>)
    requires
        normalize_escapes(p) is Some,
    ensures
        normalize_escapes(p)->0.len() == p.len(),
        forall|i: int|
            0 <= i < p.len() ==> #[trigger] normalize_escapes(p)->0[i] == p[i] || escape_output_char(
                normalize_escapes(p)->0[i],
            ),
    decreases p.len(),
{
    if p.len() == 0 {
    } else if p[0] != '%' {
        lemma_normalize_positions(p.drop_first());
        let c = normalize_escapes(p)->0;
        let rest = normalize_escapes(p.drop_first())->0;
        assert forall|i: int| 0 <= i < p.len() implies #[trigger] c[i] == p[i] || escape_output_char(c[i]) by {
            if i > 0 {
                assert(c[i] == rest[i - 1]);
                assert(p[i] == p.drop_first()[i - 1]);
            }
        }
    } else {
        let tail = p.subrange(3, p.len() as int);
        lemma_normalize_positions(tail);
        lemma_hex_upper_roundtrip(hex_digit_value(p[1]));
        lemma_hex_upper_roundtrip(hex_digit_value(p[2]));
        let c = normalize_escapes(p)->0;
        let rest = normalize_escapes(tail)->0;
        assert forall|i: int| 0 <= i < p.len() implies #[trigger] c[i] == p[i] || escape_output_char(c[i]) by {
            if i >= 3 {
                assert(c[i] == rest[i - 3]);
                assert(p[i] == tail[i - 3]);
            }
        }
    }
}

/// Normalizing changes a character only where it is a hexadecimal digit of
/// an escape (one of the two after a `%`), which it writes in upper case.
proof fn lemma_normalize_changes(p: Seq<char>)
    requires
        normalize_escapes(p) is Some,
    ensures
        normalize_escapes(p)->0.len() == p.len(),
        forall|i: int| 0 <= i < p.len() && #[trigger] normalize_escapes(p)->0[i] != p[i] ==> {
            &&& is_hex_digit(p[i])
            &&& normalize_escapes(p)->0[i] == hex_upper_digit(hex_digit_value(p[i]))
            &&& (i >= 1 && p[i - 1] == '%') || (i >= 2 && p[i - 2] == '%')
        },
    decreases p.len(),
{
    lemma_normalize_positions(p);
    if p.len() == 0 {
    } else if p[0] != '%' {
        lemma_normalize_changes(p.drop_first());
        let c = normalize_escapes(p)->0;
        let rest = normalize_escapes(p.drop_first())->0;
        assert forall|i: int| 0 <= i < p.len() && #[trigger] c[i] != p[i] implies {
            &&& is_hex_digit(p[i])
            &&& c[i] == hex_upper_digit(hex_digit_value(p[i]))
            &&& (i >= 1 && p[i - 1] == '%') || (i >= 2 && p[i - 2] == '%')
        } by {
            assert(i > 0);
            assert(c[i] == rest[i - 1]);
            assert(p[i] == p.drop_first()[i - 1]);
            assert(rest[i - 1] != p.drop_first()[i - 1]);
            if i >= 2 {
                assert(p[i - 1] == p.drop_first()[i - 2]);
            }
            if i >= 3 {
                assert(p[i - 2] == p.drop_first()[i - 3]);
            }
        }
    } else {
        let tail = p.subrange(3, p.len() as int);
        lemma_normalize_changes(tail);
        let c = normalize_escapes(p)->0;
        let rest = normalize_escapes(tail)->0;
        assert forall|i: int| 0 <= i < p.len() && #[trigger] c[i] != p[i] implies {
            &&& is_hex_digit(p[i])
            &&& c[i] == hex_upper_digit(hex_digit_value(p[i]))
            &&& (i >= 1 && p[i - 1] == '%') || (i >= 2 && p[i - 2] == '%')
        } by {
            if i >= 3 {
                assert(c[i] == rest[i - 3]);
                assert(p[i] == tail[i - 3]);
                assert(rest[i - 3] != tail[i - 3]);
                assert(p[i - 1] == tail[i - 4] || i == 3);
                if i >= 4 {
                    assert(p[i - 1] == tail[i - 4]);
                }
                if i >= 5 {
                    assert(p[i - 2] == tail[i - 5]);
                }
            }
        }
    }
}

/// Normalized escapes are already normal.
proof fn lemma_normalize_fixed_point(p: Seq<char>)
    requires
        normalize_escapes(p) is Some,
    ensures
        normalize_escapes(normalize_escapes(p)->0) == normalize_escapes(p),
    decreases p.len(),
{
    let c = normalize_escapes(p)->0;
    if p.len() == 0 {
    } else if p[0] != '%' {
        lemma_normalize_fixed_point(p.drop_first());
        let rest = normalize_escapes(p.drop_first())->0;
        assert(c.drop_first() =~= rest);
        assert(c[0] == p[0]);
    } else {
        let tail = p.subrange(3, p.len() as int);
        lemma_normalize_fixed_point(tail);
        lemma_hex_upper_roundtrip(hex_digit_value(p[1]));
        lemma_hex_upper_roundtrip(hex_digit_value(p[2]));
        let rest = normalize_escapes(tail)->0;
        assert(c.subrange(3, c.len() as int) =~= rest);
        assert(c[0] == '%');
        assert(c[1] == hex_upper_digit(hex_digit_value(p[1])));
        assert(c[2] == hex_upper_digit(hex_digit_value(p[2])));
    }
}

/// Canonicalization is idempotent: a canonical path is its own canonical form,
/// so a path is decoded and checked exactly once.
pub proof fn law_canonical_path_is_fixed_point(path: Seq<char>)
    requires
        canonical_exact_path(path) is Some,
    ensures
        is_canonical_exact_path(canonical_exact_path(path)->0),
{
    let c = canonical_exact_path(path)->0;
    lemma_normalize_positions(path);
    lemma_normalize_fixed_point(path);
    assert(c[0] == path[0]) by {
        assert(c.len() > 0);
    }
    assert forall|i: int| 0 <= i < c.len() implies !forbidden_path_char(#[trigger] c[i]) && is_ascii_char(c[i]) by {
        assert(c[i] == path[i] || escape_output_char(c[i]));
    }
    if c.len() >= 2 {
        assert(c[1] == path[1] || escape_output_char(c[1]));
    }
}

/// A path pattern only ever matches canonical paths, and only when the pattern
/// itself is valid.
pub proof fn law_match_implies_valid_pattern_and_canonical_path(pattern: Seq<char>, path: Seq<char>)
    requires
        spec_path_matches(pattern, path),
    ensures
        valid_path_pattern(pattern),
        canonical_exact_path(path) == Some(path),
{
}

/// A canonical exact path keeps the length of the path it came from, is
/// ASCII, changes it only where one of the two hexadecimal digits after a
/// `%` is written in upper case (escapes are never decoded), starts with
/// `/`, has no empty, `.` or `..` segment (unless it is `/`), and is its own
/// canonical form.
pub proof fn law_canonical_path_shape(path: Seq<char>)
    requires
        canonical_exact_path(path) is Some,
    ensures
        ({
            let c = canonical_exact_path(path)->0;
            &&& c.len() == path.len()
            &&& forall|i: int| 0 <= i < c.len() ==> c[i] == path[i] || escape_output_char(#[trigger] c[i])
            &&& forall|i: int| 0 <= i < c.len() && #[trigger] c[i] != path[i] ==> {
                &&& is_hex_digit(path[i])
                &&& c[i] == hex_upper_digit(hex_digit_value(path[i]))
                &&& (i >= 1 && path[i - 1] == '%') || (i >= 2 && path[i - 2] == '%')
            }
            &&& is_ascii_text(c)
            &&& c[0] == '/'
            &&& (c == seq!['/'] || !has_dot_or_empty_segment(c))
            &&& is_canonical_exact_path(c)
        }),
{
    let c = canonical_exact_path(path)->0;
    lemma_normalize_positions(path);
    lemma_normalize_changes(path);
    law_canonical_path_is_fixed_point(path);
    lemma_normalize_first(path);
}

/// No segment of the pattern is a wildcard.
pub open spec fn literal_segments(ps: Seq<Seq<char>>) -> bool {
    forall|k: int| 0 <= k < ps.len() ==> #[trigger] ps[k] != seq!['*'] && ps[k] != seq!['*', '*']
}

proof fn lemma_literal_match_from(ps: Seq<Seq<char>>, xs: Seq<Seq<char>>, i: int)
    requires
        literal_segments(ps),
        0 <= i <= ps.len(),
    ensures
        segments_match_from(ps, xs, i) <==> (ps.len() == xs.len() && forall|j: int| i <= j < ps.len() ==> #[trigger] ps[j] == xs[j]),
    decreases ps.len() - i,
{
    if i < ps.len() {
        lemma_literal_match_from(ps, xs, i + 1);
        assert(ps[i] != seq!['*'] && ps[i] != seq!['*', '*']);
    }
}

/// Path matching goes segment by segment: a pattern without wildcards
/// matches exactly the canonical paths with the same segments.
pub proof fn law_literal_pattern_matches_same_segments(pattern: Seq<char>, path: Seq<char>)
    requires
        literal_segments(path_segments(pattern)),
    ensures
        spec_path_matches(pattern, path) <==> (valid_path_pattern(pattern) && is_canonical_exact_path(path)
            && path_segments(pattern) == path_segments(path)),
{
    let ps = path_segments(pattern);
    let xs = path_segments(path);
    lemma_literal_match_from(ps, xs, 0);
    if ps.len() == xs.len() && (forall|j: int| 0 <= j < ps.len() ==> #[trigger] ps[j] == xs[j]) {
        assert(ps =~= xs);
    }
}

/// Segments joined back with `/` between them.
pub open spec fn join_on_slash(segs: Seq<Seq<char>>) -> Seq<char>
    decreases segs.len(),
{
    if segs.len() <= 1 {
        if segs.len() == 1 { segs[0] } else { Seq::empty() }
    } else {
        join_on_slash(segs.drop_last()) + seq!['/'] + segs.last()
    }
}

proof fn lemma_join_split(s: Seq<char>)
    ensures
        join_on_slash(split_on_slash(s)) == s,
    decreases s.len(),
{
    if s.len() > 0 {
        let init = s.drop_last();
        lemma_join_split(init);
        lemma_split_nonempty(init);
        let parts = split_on_slash(init);
        if s.last() == '/' {
            let out = parts.push(Seq::<char>::empty());
            assert(out.drop_last() =~= parts);
            assert(join_on_slash(out) == join_on_slash(parts) + seq!['/'] + Seq::<char>::empty());
            assert(s =~= init + seq!['/'] + Seq::<char>::empty());
        } else {
            let out = parts.update(parts.len() - 1, parts.last().push(s.last()));
            if parts.len() == 1 {
                assert(join_on_slash(out) == parts[0].push(s.last()));
            } else {
                assert(out.drop_last() =~= parts.drop_last());
                assert(join_on_slash(out) =~= join_on_slash(parts.drop_last()) + seq!['/'] + parts.last().push(s.last()));
                assert(join_on_slash(parts) == join_on_slash(parts.drop_last()) + seq!['/'] + parts.last());
            }
            assert(s =~= init.push(s.last()));
        }
    }
}

/// A pattern without wildcards matches exactly the equal canonical path.
pub proof fn law_literal_pattern_matches_equal_path(pattern: Seq<char>, path: Seq<char>)
    requires
        literal_segments(path_segments(pattern)),
    ensures
        spec_path_matches(pattern, path) <==> (valid_path_pattern(pattern) && is_canonical_exact_path(path) && pattern == path),
{
    law_literal_pattern_matches_same_segments(pattern, path);
    if valid_path_pattern(pattern) && is_canonical_exact_path(path) && path_segments(pattern) == path_segments(path) {
        lemma_join_split(pattern.drop_first());
        lemma_join_split(path.drop_first());
        assert(pattern.len() > 0 && pattern[0] == '/');
        assert(path.len() > 0 && path[0] == '/');
        assert(pattern =~= seq!['/'] + pattern.drop_first());
        assert(path =~= seq!['/'] + path.drop_first());
    }
}

// ----------------------------------------------------------------------------
// Executable functions
// ----------------------------------------------------------------------------

/// The value of a hexadecimal digit byte.
pub fn hex_value(value: u8) -> (r: Option<u8>)
    ensures
        r is Some <==> is_hex_byte(value as u32),
        r matches Some(v) ==> v as int == hex_byte_value(value as u32) && v < 16,
{
    if value >= 48 && value <= 57 {
        Some(value - 48)
    } else if value >= 97 && value <= 102 {
        Some(value - 97 + 10)
    } else if value >= 65 && value <= 70 {
        Some(value - 65 + 10)
    } else {
        None
    }
}

/// The upper-case hexadecimal digit for a value below 16.
pub fn hex_upper(value: u8) -> (c: char)
    requires
        value < 16,
    ensures
        c == hex_upper_digit(value as int),
{
    if value < 10 {
        (48u8 + value) as char
    } else {
        (65u8 + value - 10) as char
    }
}

fn hex_value_char(c: char) -> (r: Option<u8>)
    ensures
        r is Some <==> is_hex_digit(c),
        r matches Some(v) ==> v as int == hex_digit_value(c) && v < 16,
{
    let b = c as u32;
    if b >= 48 && b <= 57 {
        Some((b - 48) as u8)
    } else if b >= 97 && b <= 102 {
        Some((b - 97 + 10) as u8)
    } else if b >= 65 && b <= 70 {
        Some((b - 65 + 10) as u8)
    } else {
        None
    }
}

fn invalid_path() -> (e: AgentBrokerError)
    ensures
        is_invalid_path_error(e),
{
    AgentBrokerError::new(
        "invalid-http-path",
        "The HTTP path is not canonical or escapes the approved base path.",
        false,
    )
}

fn invalid_pattern() -> (e: AgentBrokerError)
    ensures
        is_invalid_pattern_error(e),
{
    AgentBrokerError::new(
        "invalid-http-path-pattern",
        "The HTTP path permission pattern is invalid.",
        false,
    )
}

/// Checks the shape shared by paths and patterns, with `pattern` choosing the
/// forbidden character set.
fn check_shape(p: &Vec<char>, pattern: bool) -> (r: bool)
    ensures
        r == if pattern { pattern_shape(p@) } else { exact_path_shape(p@) },
{
    let n = p.len();
    if n == 0 || n > 2048 || p[0] != '/' || (n >= 2 && p[1] == '/') {
        return false;
    }
    let mut i: usize = 0;
    while i < n
        invariant
            n == p@.len(),
            i <= n,
            forall|k: int| 0 <= k < i ==> is_ascii_char(#[trigger] p@[k]),
            forall|k: int|
                0 <= k < i ==> if pattern {
                    !forbidden_pattern_char(#[trigger] p@[k])
                } else {
                    !forbidden_path_char(p@[k])
                },
        decreases n - i,
    {
        let c = p[i];
        let code = c as u32;
        if code > 127 || code < 32 || code == 127 || c == '\\' || c == '?' || c == '#' {
            return false;
        }
        if pattern {
            if c == '%' || c == '{' || c == '}' {
                return false;
            }
        } else {
            if c == '*' {
                return false;
            }
        }
        i += 1;
    }
    true
}

/// Splits `v[start..]` at every `/`.
pub(crate) fn split_segments(v: &Vec<char>, start: usize) -> (segs: Vec<Vec<char>>)
    requires
        start <= v.len(),
    ensures
        segs.deep_view() == split_on_slash(v@.subrange(start as int, v@.len() as int)),
        segs.len() >= 1,
{
    let mut segs: Vec<Vec<char>> = Vec::new();
    let mut cur: Vec<char> = Vec::new();
    let mut i: usize = start;
    assert(v@.subrange(start as int, start as int) =~= Seq::<char>::empty());
    assert(segs.deep_view().push(cur@) =~= seq![Seq::<char>::empty()]);
    while i < v.len()
        invariant
            start <= i <= v.len(),
            segs.deep_view().push(cur@) == split_on_slash(v@.subrange(start as int, i as int)),
        decreases v.len() - i,
    {
        let ghost prev = v@.subrange(start as int, i as int);
        let ghost next = v@.subrange(start as int, i + 1);
        let ghost old_segs = segs.deep_view();
        let ghost old_cur = cur@;
        assert(next.drop_last() =~= prev);
        assert(next.last() == v@[i as int]);
        assert(split_on_slash(prev) == old_segs.push(old_cur));
        if v[i] == '/' {
            let finished = cur;
            segs.push(finished);
            cur = Vec::new();
            proof {
                lemma_deep_chars(finished);
                assert(segs.deep_view() =~= old_segs.push(old_cur));
                assert(segs.deep_view().push(cur@) =~= split_on_slash(prev).push(Seq::empty()));
            }
        } else {
            cur.push(v[i]);
            proof {
                assert(segs.deep_view().push(cur@) =~= split_on_slash(prev).update(
                    split_on_slash(prev).len() - 1,
                    split_on_slash(prev).last().push(v@[i as int]),
                ));
            }
        }
        i += 1;
    }
    let ghost before = segs.deep_view();
    let last = cur;
    segs.push(last);
    proof {
        lemma_deep_chars(last);
        assert(segs.deep_view() =~= before.push(last@));
    }
    segs
}

proof fn lemma_deep_chars(v: Vec<char>)
    ensures
        v.deep_view() == v@,
{
    assert(v.deep_view() =~= v@);
}

/// `s` is empty, `.` or `..`.
fn is_dot_or_empty(s: &Vec<char>) -> (r: bool)
    ensures
        r == dot_or_empty_segment(s@),
{
    if s.len() == 0 {
        return true;
    }
    if s.len() == 1 && s[0] == '.' {
        assert(s@ =~= seq!['.']);
        return true;
    }
    if s.len() == 2 && s[0] == '.' && s[1] == '.' {
        assert(s@ =~= seq!['.', '.']);
        return true;
    }
    assert(s@.len() == 1 ==> s@[0] != '.');
    assert(s@ != seq!['.']) by {
        if s@ == seq!['.'] {
            assert(s@[0] == '.');
        }
    }
    assert(s@ != seq!['.', '.']) by {
        if s@ == seq!['.', '.'] {
            assert(s@[0] == '.' && s@[1] == '.');
        }
    }
    false
}

/// `v` is exactly `/`.
fn is_root(v: &Vec<char>) -> (r: bool)
    ensures
        r == (v@ == seq!['/']),
{
    if v.len() == 1 && v[0] == '/' {
        assert(v@ =~= seq!['/']);
        true
    } else {
        assert(v@ != seq!['/']) by {
            if v@ == seq!['/'] {
                assert(v@[0] == '/');
            }
        }
        false
    }
}

/// Some segment of `segs` is empty, `.` or `..`.
fn any_dot_or_empty(segs: &Vec<Vec<char>>) -> (r: bool)
    ensures
        r == exists|k: int| 0 <= k < segs.deep_view().len() && dot_or_empty_segment(#[trigger] segs.deep_view()[k]),
{
    let mut i: usize = 0;
    while i < segs.len()
        invariant
            i <= segs.len(),
            forall|k: int| 0 <= k < i ==> !dot_or_empty_segment(#[trigger] segs.deep_view()[k]),
        decreases segs.len() - i,
    {
        if is_dot_or_empty(&segs[i]) {
            assert(segs.deep_view()[i as int] == segs[i as int]@);
            return true;
        }
        assert(segs.deep_view()[i as int] == segs[i as int]@);
        i += 1;
    }
    false
}

/// Canonicalizes an exact request path once: percent escapes are upper-cased
/// and the path is refused when it could be read as a different path.
pub fn canonicalize_exact_path(path: &str) -> (r: Result<String, AgentBrokerError>)
    ensures
        r is Ok <==> canonical_exact_path(path@) is Some,
        r matches Ok(c) ==> canonical_exact_path(path@) == Some(c@),
        r matches Err(e) ==> is_invalid_path_error(e),
{
    let p = to_chars(path);
    if !check_shape(&p, false) {
        return Err(invalid_path());
    }
    let n = p.len();
    let mut out: Vec<char> = Vec::new();
    let mut index: usize = 0;
    assert(p@.subrange(0, n as int) =~= p@);
    while index < n
        invariant
            n == p@.len(),
            p@ == path@,
            exact_path_shape(p@),
            index <= n,
            match normalize_escapes(p@.subrange(index as int, n as int)) {
                Some(rest) => normalize_escapes(p@) == Some(out@ + rest),
                None => normalize_escapes(p@) is None,
            },
        decreases n - index,
    {
        if p[index] != '%' {
            proof {
                lemma_normalize_step_plain(p@, index as int, out@);
                let rest = normalize_escapes(p@.subrange(index + 1, n as int));
                if rest is Some {
                    assert(out@ + (seq![p@[index as int]] + rest->0) =~= out@.push(p@[index as int]) + rest->0);
                }
            }
            out.push(p[index]);
            index += 1;
            continue;
        }
        if index + 2 >= n {
            proof {
                let s = p@.subrange(index as int, n as int);
                assert(s[0] == '%');
                assert(s.len() < 3);
            }
            return Err(invalid_path());
        }
        proof {
            lemma_normalize_step_escape(p@, index as int);
        }
        let high = match hex_value_char(p[index + 1]) {
            Some(v) => v,
            None => return Err(invalid_path()),
        };
        let low = match hex_value_char(p[index + 2]) {
            Some(v) => v,
            None => return Err(invalid_path()),
        };
        let decoded: u8 = high * 16 + low;
        if decoded == 47 || decoded == 92 || decoded == 46 || decoded == 0 || decoded < 32 || decoded == 127 {
            return Err(invalid_path());
        }
        let hu = hex_upper(high);
        let lu = hex_upper(low);
        proof {
            let rest = normalize_escapes(p@.subrange(index + 3, n as int));
            if rest is Some {
                assert(out@ + (seq!['%', hu, lu] + rest->0) =~= out@.push('%').push(hu).push(lu) + rest->0);
            }
        }
        out.push('%');
        out.push(hu);
        out.push(lu);
        index += 3;
    }
    proof {
        assert(p@.subrange(n as int, n as int) =~= Seq::<char>::empty());
        assert(out@ + Seq::<char>::empty() =~= out@);
    }
    let segs = split_segments(&out, 1);
    proof {
        assert(out@.len() >= 1) by {
            lemma_normalize_first(p@);
        }
        assert(out@.subrange(1, out@.len() as int) =~= out@.drop_first());
        assert(normalize_escapes(p@) == Some(out@));
        assert(path_segments(out@) == segs.deep_view());
    }
    if !is_root(&out) && any_dot_or_empty(&segs) {
        proof {
            let k = choose|k: int| 0 <= k < segs.deep_view().len() && dot_or_empty_segment(#[trigger] segs.deep_view()[k]);
            assert(dot_or_empty_segment(path_segments(out@)[k]));
            assert(has_dot_or_empty_segment(out@));
        }
        return Err(invalid_path());
    }
    Ok(from_chars(&out))
}

proof fn lemma_normalize_first(p: Seq<char>)
    requires
        p.len() > 0,
        p[0] == '/',
        normalize_escapes(p) is Some,
    ensures
        normalize_escapes(p)->0.len() >= 1,
        normalize_escapes(p)->0[0] == '/',
{
}

/// Resolves a requested path below an account's base path; both are
/// canonicalized first and an empty base means `/`.
pub fn join_base_path(base_path: &str, requested_path: &str) -> (r: Result<String, AgentBrokerError>)
    ensures
        r is Ok <==> spec_join_base_path(base_path@, requested_path@) is Some,
        r matches Ok(j) ==> spec_join_base_path(base_path@, requested_path@) == Some(j@),
        r matches Err(e) ==> is_invalid_path_error(e),
{
    let base_input: &str = if base_path.is_empty() { "/" } else { base_path };
    proof {
        reveal_strlit("/");
        assert(base_input@ == if base_path@.len() == 0 { seq!['/'] } else { base_path@ });
    }
    let base = match canonicalize_exact_path(base_input) {
        Ok(b) => b,
        Err(e) => return Err(e),
    };
    let requested = match canonicalize_exact_path(requested_path) {
        Ok(r) => r,
        Err(e) => return Err(e),
    };
    let b = to_chars(base.as_str());
    let q = to_chars(requested.as_str());
    if is_root(&b) {
        return Ok(requested);
    }
    if is_root(&q) {
        return Ok(base);
    }
    let mut end = b.len();
    assert(b@.subrange(0, b@.len() as int) =~= b@);
    while end > 0 && b[end - 1] == '/'
        invariant
            end <= b.len(),
            trim_trailing_slashes(b@) == trim_trailing_slashes(b@.subrange(0, end as int)),
        decreases end,
    {
        assert(b@.subrange(0, end as int).drop_last() =~= b@.subrange(0, end - 1));
        end -= 1;
    }
    let mut joined: Vec<char> = Vec::new();
    let mut i: usize = 0;
    while i < end
        invariant
            end <= b.len(),
            i <= end,
            joined@ == b@.subrange(0, i as int),
        decreases end - i,
    {
        joined.push(b[i]);
        assert(joined@ =~= b@.subrange(0, i + 1));
        i += 1;
    }
    let mut k: usize = 0;
    while k < q.len()
        invariant
            joined@ == b@.subrange(0, end as int) + q@.subrange(0, k as int),
            end <= b.len(),
            k <= q.len(),
        decreases q.len() - k,
    {
        joined.push(q[k]);
        assert(joined@ =~= b@.subrange(0, end as int) + q@.subrange(0, k + 1));
        k += 1;
    }
    proof {
        assert(q@.subrange(0, q@.len() as int) =~= q@);
        let t = b@.subrange(0, end as int);
        assert(!(t.len() > 0 && t.last() == '/'));
    }
    Ok(from_chars(&joined))
}

/// The risk floor that an HTTP method sets.
pub fn method_risk(method: &str) -> (r: Result<AgentRiskTier, AgentBrokerError>)
    ensures
        match spec_method_risk(method@) {
            Some(t) => r == Ok::<AgentRiskTier, AgentBrokerError>(t),
            None => r matches Err(e) && e.code@ == "invalid-http-method"@ && !e.retryable,
        },
{
    if str_eq(method, "GET") || str_eq(method, "HEAD") {
        Ok(AgentRiskTier::R1)
    } else if str_eq(method, "POST") {
        Ok(AgentRiskTier::R2)
    } else if str_eq(method, "PUT") || str_eq(method, "PATCH") {
        Ok(AgentRiskTier::R3)
    } else if str_eq(method, "DELETE") {
        Ok(AgentRiskTier::R4)
    } else {
        Err(AgentBrokerError::new("invalid-http-method", "The HTTP method is not supported.", false))
    }
}

/// The response mode requested by HTTP action parameters: `status` unless the
/// parameters name `json`.
pub fn response_mode(parameters: &JsonValue) -> (r: Result<&str, AgentBrokerError>)
    ensures
        ({
            let mode = match parameters.spec_get_str("responseMode"@) {
                Some(m) => m,
                None => "status"@,
            };
            if mode == "status"@ || mode == "json"@ {
                r matches Ok(m) && m@ == mode
            } else {
                r matches Err(e) && e.code@ == "invalid-http-response-mode"@ && !e.retryable
            }
        }),
{
    let mode = match parameters.get_str("responseMode") {
        Some(m) => m,
        None => "status",
    };
    if str_eq(mode, "status") || str_eq(mode, "json") {
        Ok(mode)
    } else {
        Err(AgentBrokerError::new(
            "invalid-http-response-mode",
            "The HTTP response mode is invalid.",
            false,
        ))
    }
}

/// Checks that a segment is allowed in a pattern.
fn valid_pattern_segment_exec(s: &Vec<char>) -> (r: bool)
    ensures
        r == valid_pattern_segment(s@),
{
    if is_dot_or_empty(s) {
        return false;
    }
    let mut has_star = false;
    let mut i: usize = 0;
    while i < s.len()
        invariant
            i <= s.len(),
            has_star == exists|k: int| 0 <= k < i && s@[k] == '*',
        decreases s.len() - i,
    {
        if s[i] == '*' {
            has_star = true;
        }
        i += 1;
    }
    if !has_star {
        assert(!s@.contains('*'));
        return true;
    }
    assert(s@.contains('*'));
    if s.len() == 1 && s[0] == '*' {
        assert(s@ =~= seq!['*']);
        return true;
    }
    if s.len() == 2 && s[0] == '*' && s[1] == '*' {
        assert(s@ =~= seq!['*', '*']);
        return true;
    }
    assert(s@ != seq!['*']) by {
        if s@ == seq!['*'] {
            assert(s@[0] == '*');
        }
    }
    assert(s@ != seq!['*', '*']) by {
        if s@ == seq!['*', '*'] {
            assert(s@[0] == '*' && s@[1] == '*');
        }
    }
    false
}

fn is_double_star(s: &Vec<char>) -> (r: bool)
    ensures
        r == (s@ == seq!['*', '*']),
{
    if s.len() == 2 && s[0] == '*' && s[1] == '*' {
        assert(s@ =~= seq!['*', '*']);
        true
    } else {
        assert(s@ != seq!['*', '*']) by {
            if s@ == seq!['*', '*'] {
                assert(s@[0] == '*' && s@[1] == '*');
            }
        }
        false
    }
}

fn is_single_star(s: &Vec<char>) -> (r: bool)
    ensures
        r == (s@ == seq!['*']),
{
    if s.len() == 1 && s[0] == '*' {
        assert(s@ =~= seq!['*']);
        true
    } else {
        assert(s@ != seq!['*']) by {
            if s@ == seq!['*'] {
                assert(s@[0] == '*');
            }
        }
        false
    }
}

fn validate_pattern_chars(p: &Vec<char>) -> (r: bool)
    ensures
        r == valid_path_pattern(p@),
{
    if is_root(p) {
        return true;
    }
    if !check_shape(p, true) {
        return false;
    }
    let segs = split_segments(p, 1);
    proof {
        assert(p@.subrange(1, p@.len() as int) =~= p@.drop_first());
    }
    let ghost ss = path_segments(p@);
    let mut i: usize = 0;
    while i < segs.len()
        invariant
            i <= segs.len(),
            segs.deep_view() == ss,
            ss == path_segments(p@),
            p@ != seq!['/'],
            pattern_shape(p@),
            forall|k: int| 0 <= k < i ==> valid_pattern_segment(#[trigger] ss[k]),
            forall|k: int| 0 <= k < i && #[trigger] ss[k] == seq!['*', '*'] ==> k + 1 == ss.len(),
        decreases segs.len() - i,
    {
        assert(ss[i as int] == segs[i as int]@);
        if !valid_pattern_segment_exec(&segs[i]) {
            return false;
        }
        if is_double_star(&segs[i]) && i + 1 != segs.len() {
            return false;
        }
        i += 1;
    }
    true
}

/// Checks a persistent HTTP path pattern.
pub fn validate_pattern(pattern: &str) -> (r: Result<(), AgentBrokerError>)
    ensures
        r is Ok <==> valid_path_pattern(pattern@),
        r matches Err(e) ==> is_invalid_pattern_error(e),
{
    let p = to_chars(pattern);
    if validate_pattern_chars(&p) {
        Ok(())
    } else {
        Err(invalid_pattern())
    }
}

/// Whether a valid pattern covers a canonical path.
pub fn path_matches(pattern: &str, path: &str) -> (r: bool)
    ensures
        r == spec_path_matches(pattern@, path@),
{
    if validate_pattern(pattern).is_err() {
        return false;
    }
    match canonicalize_exact_path(path) {
        Ok(c) => {
            if !str_eq(c.as_str(), path) {
                return false;
            }
        },
        Err(_) => return false,
    }
    let pc = to_chars(pattern);
    let xc = to_chars(path);
    let ps = split_segments(&pc, 1);
    let xs = split_segments(&xc, 1);
    proof {
        assert(pc@.subrange(1, pc@.len() as int) =~= pc@.drop_first());
        assert(xc@.subrange(1, xc@.len() as int) =~= xc@.drop_first());
        assert(pc@.len() >= 1 && pc@[0] == '/') by {
            if pc@ != seq!['/'] {
            } else {
                assert(pc@[0] == '/');
            }
        }
        assert(xc@.len() >= 1);
    }
    let ghost gps = ps.deep_view();
    let ghost gxs = xs.deep_view();
    let mut index: usize = 0;
    while index < ps.len()
        invariant
            index <= ps.len(),
            gps == ps.deep_view(),
            gxs == xs.deep_view(),
            gps == path_segments(pattern@),
            gxs == path_segments(path@),
            valid_path_pattern(pattern@),
            is_canonical_exact_path(path@),
            segments_match_from(gps, gxs, 0) == segments_match_from(gps, gxs, index as int),
        decreases ps.len() - index,
    {
        assert(gps[index as int] == ps[index as int]@);
        if is_double_star(&ps[index]) {
            return true;
        }
        if index >= xs.len() {
            return false;
        }
        assert(gxs[index as int] == xs[index as int]@);
        if !is_single_star(&ps[index]) && !chars_eq(&ps[index], &xs[index]) {
            return false;
        }
        index += 1;
    }
    ps.len() == xs.len()
}


/// Each supported HTTP method has a risk tier and every other method is
/// refused: reading (`GET`, `HEAD`) is `R1`, `POST` is `R2`, replacing or
/// changing (`PUT`, `PATCH`) is `R3` and `DELETE` is `R4`.
pub proof fn law_supported_methods_have_risk_tiers(method: Seq<char>)
    ensures
        spec_method_risk(method) is Some <==> (method == "GET"@ || method == "HEAD"@ || method == "POST"@
            || method == "PUT"@ || method == "PATCH"@ || method == "DELETE"@),
        method == "GET"@ || method == "HEAD"@ ==> spec_method_risk(method) == Some(AgentRiskTier::R1),
        method == "POST"@ ==> spec_method_risk(method) == Some(AgentRiskTier::R2),
        method == "PUT"@ || method == "PATCH"@ ==> spec_method_risk(method) == Some(AgentRiskTier::R3),
        method == "DELETE"@ ==> spec_method_risk(method) == Some(AgentRiskTier::R4),
{
    reveal_strlit("GET");
    reveal_strlit("HEAD");
    reveal_strlit("POST");
    reveal_strlit("PUT");
    reveal_strlit("PATCH");
    reveal_strlit("DELETE");
    assert("POST"@ != "GET"@ && "POST"@ != "HEAD"@) by {
        assert("POST"@[0] != "GET"@[0] && "POST"@[0] != "HEAD"@[0]);
    }
    assert("PUT"@ != "GET"@ && "PUT"@ != "HEAD"@ && "PUT"@ != "POST"@) by {
        assert("PUT"@[1] != "GET"@[1] && "PUT"@[0] != "HEAD"@[0] && "PUT"@[1] != "POST"@[1]);
    }
    assert("PATCH"@ != "GET"@ && "PATCH"@ != "HEAD"@ && "PATCH"@ != "POST"@) by {
        assert("PATCH"@.len() != "GET"@.len() && "PATCH"@[0] != "HEAD"@[0] && "PATCH"@[1] != "POST"@[1]);
    }
}

} // verus!
