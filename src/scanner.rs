//! Executable placeholder recognition over a template's characters.
use vstd::prelude::*;
use crate::grammar::{close_from, is_name_char, is_name_start, lemma_name_end_bounds, match_at, name_end};

verus! {

/// The characters of `s`, in order.
pub fn chars_of(s: &str) -> (r: Vec<char>)
    ensures
        r@ == s@,
{
    let mut r: Vec<char> = Vec::new();
    for c in it: s.chars()
        invariant
            r@ == it.seq().take(it.index() as int),
            it.seq() == s@,
    {
        r.push(c);
    }
    r
}


fn name_char(c: char) -> (r: bool)
    ensures
        r == is_name_char(c),
{
    ('a' <= c && c <= 'z') || ('A' <= c && c <= 'Z') || c == '_' || ('0' <= c && c <= '9')
}

fn name_start(c: char) -> (r: bool)
    ensures
        r == is_name_start(c),
{
    ('a' <= c && c <= 'z') || ('A' <= c && c <= 'Z') || c == '_'
}

/// The end of the run of name characters that starts at `j`.
fn find_name_end(t: &Vec<char>, j: usize) -> (r: usize)
    requires
        j <= t.len(),
    ensures
        r as int == name_end(t@, j as int),
{
    let mut k: usize = j;
    while k < t.len() && name_char(t[k])
        invariant
            j <= k <= t.len(),
            name_end(t@, k as int) == name_end(t@, j as int),
        decreases t.len() - k,
    {
        k = k + 1;
    }
    k
}

/// The first position at or after `j` that holds `}`, or `t.len()`.
fn find_close(t: &Vec<char>, j: usize) -> (r: usize)
    requires
        j <= t.len(),
    ensures
        r as int == close_from(t@, j as int),
{
    let mut k: usize = j;
    while k < t.len() && t[k] != '}'
        invariant
            j <= k <= t.len(),
            close_from(t@, k as int) == close_from(t@, j as int),
        decreases t.len() - k,
    {
        k = k + 1;
    }
    k
}

/// The placeholder that starts at `i`, if any: see `match_at`.
pub fn placeholder_at(t: &Vec<char>, i: usize) -> (r: Option<(usize, usize)>)
    ensures
        match r {
            Some((n, c)) => match_at(t@, i as int) == Some((n as int, c as int)),
            None => match_at(t@, i as int) is None,
        },
{
    if i < t.len() && t.len() - i > 2 && t[i] == '$' && t[i + 1] == '{' && name_start(t[i + 2]) {
        let n = find_name_end(t, i + 3);
        proof {
            lemma_name_end_bounds(t@, i + 3);
        }
        if n < t.len() && t[n] == '}' {
            Some((n, n))
        } else if n < t.len() && (t[n] == '.' || t[n] == '-') {
            let c = find_close(t, n + 1);
            if c < t.len() {
                Some((n, c))
            } else {
                None
            }
        } else {
            None
        }
    } else {
        None
    }
}

} // verus!
