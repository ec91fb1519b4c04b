//! The placeholder grammar `${<name>(<suffix>)?}` and the left-to-right scan
//! that rewrites a text, as spec functions over `Seq<char>`.
use vstd::prelude::*;

verus! {

/// An ASCII letter or `_`: the first character of a name.
pub open spec fn is_name_start(c: char) -> bool {
    ('a' <= c && c <= 'z') || ('A' <= c && c <= 'Z') || c == '_'
}

/// An ASCII letter, digit or `_`: a character of a name.
pub open spec fn is_name_char(c: char) -> bool {
    is_name_start(c) || ('0' <= c && c <= '9')
}

/// `.` or `-`: the first character of a suffix.
pub open spec fn is_suffix_marker(c: char) -> bool {
    c == '.' || c == '-'
}

/// A valid variable name: one name-start character followed by name characters.
pub open spec fn is_name(s: Seq<char>) -> bool {
    &&& s.len() > 0
    &&& is_name_start(s[0])
    &&& forall|k: int| 0 <= k < s.len() ==> is_name_char(#[trigger] s[k])
}

/// A valid suffix: empty, or a marker followed by characters other than `}`.
pub open spec fn is_suffix(s: Seq<char>) -> bool {
    s.len() == 0 || (is_suffix_marker(s[0]) && forall|k: int| 0 <= k < s.len() ==> #[trigger] s[k] != '}')
}

/// The end of the run of name characters that starts at `j`.
pub open spec fn name_end(t: Seq<char>, j: int) -> int
    decreases t.len() - j,
{
    if 0 <= j < t.len() && is_name_char(t[j]) {
        name_end(t, j + 1)
    } else {
        j
    }
}

/// The first position at or after `j` that holds `}`, or `t.len()` if none does.
pub open spec fn close_from(t: Seq<char>, j: int) -> int
    decreases t.len() - j,
{
    if 0 <= j < t.len() && t[j] != '}' {
        close_from(t, j + 1)
    } else if j < 0 {
        t.len() as int
    } else {
        j
    }
}

/// The placeholder that starts at `i`, if any, as `(n, c)`: its name is
/// `t[i + 2 .. n]`, its suffix `t[n .. c]`, and its closing `}` stands at `c`.
pub open spec fn match_at(t: Seq<char>, i: int) -> Option<(int, int)> {
    if 0 <= i && i + 2 < t.len() && t[i] == '$' && t[i + 1] == '{' && is_name_start(t[i + 2]) {
        let n = name_end(t, i + 3);
        if n < t.len() && t[n] == '}' {
            Some((n, n))
        } else if n < t.len() && is_suffix_marker(t[n]) {
            let c = close_from(t, n + 1);
            if c < t.len() {
                Some((n, c))
            } else {
                None
            }
        } else {
            None
        }
    } else {
        None
    }
}

/// What a placeholder becomes: the value followed by the suffix when the name
/// maps to a non-empty value, nothing when it maps to the empty text, and the
/// placeholder's own text when the name is absent.
pub open spec fn render(
    vars: Map<Seq<char>, Seq<char>>,
    whole: Seq<char>,
    name: Seq<char>,
    suffix: Seq<char>,
) -> Seq<char> {
    if vars.contains_key(name) {
        if vars[name].len() > 0 {
            vars[name] + suffix
        } else {
            Seq::empty()
        }
    } else {
        whole
    }
}

/// The rewritten text of `t[i..]`: placeholders are rendered, every other
/// character is kept.
pub open spec fn scan(t: Seq<char>, vars: Map<Seq<char>, Seq<char>>, i: int) -> Seq<char>
    decreases t.len() - i,
    via scan_decreases
{
    if 0 <= i < t.len() {
        match match_at(t, i) {
            Some((n, c)) => render(vars, t.subrange(i, c + 1), t.subrange(i + 2, n), t.subrange(n, c))
                + scan(t, vars, c + 1),
            None => seq![t[i]] + scan(t, vars, i + 1),
        }
    } else {
        Seq::empty()
    }
}

#[via_fn]
proof fn scan_decreases(t: Seq<char>, vars: Map<Seq<char>, Seq<char>>, i: int) {
    if 0 <= i < t.len() {
        lemma_match_bounds(t, i);
    }
}

/// The text with every placeholder that the scan finds rendered.
pub open spec fn expand(t: Seq<char>, vars: Map<Seq<char>, Seq<char>>) -> Seq<char> {
    scan(t, vars, 0)
}

/// Whether a placeholder starts anywhere in `t`.
pub open spec fn has_placeholder(t: Seq<char>) -> bool {
    exists|i: int| 0 <= i < t.len() && (#[trigger] match_at(t, i)) is Some
}

pub proof fn lemma_name_end_bounds(t: Seq<char>, j: int)
    requires
        0 <= j <= t.len(),
    ensures
        j <= name_end(t, j) <= t.len(),
        forall|k: int| j <= k < name_end(t, j) ==> is_name_char(#[trigger] t[k]),
        name_end(t, j) < t.len() ==> !is_name_char(t[name_end(t, j)]),
    decreases t.len() - j,
{
    if j < t.len() && is_name_char(t[j]) {
        lemma_name_end_bounds(t, j + 1);
    }
}

pub proof fn lemma_close_from_bounds(t: Seq<char>, j: int)
    requires
        0 <= j <= t.len(),
    ensures
        j <= close_from(t, j) <= t.len(),
        forall|k: int| j <= k < close_from(t, j) ==> #[trigger] t[k] != '}',
        close_from(t, j) < t.len() ==> t[close_from(t, j)] == '}',
    decreases t.len() - j,
{
    if j < t.len() && t[j] != '}' {
        lemma_close_from_bounds(t, j + 1);
    }
}

/// Where a placeholder starts at `i`, its parts lie in order inside `t`.
pub proof fn lemma_match_bounds(t: Seq<char>, i: int)
    ensures
        match_at(t, i) matches Some((n, c)) ==> {
            &&& 0 <= i && i + 3 <= n <= c < t.len()
            &&& t[i] == '$' && t[i + 1] == '{' && t[c] == '}'
            &&& is_name(t.subrange(i + 2, n))
            &&& is_suffix(t.subrange(n, c))
        },
{
    if 0 <= i && i + 2 < t.len() {
        lemma_name_end_bounds(t, i + 3);
        let n = name_end(t, i + 3);
        if n < t.len() {
            lemma_close_from_bounds(t, n + 1);
        }
        if match_at(t, i) is Some {
            let name = t.subrange(i + 2, n);
            assert forall|k: int| 0 <= k < name.len() implies is_name_char(#[trigger] name[k]) by {
                if k > 0 {
                    assert(name[k] == t[i + 2 + k]);
                }
            }
        }
    }
}

} // verus!
