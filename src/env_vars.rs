//! The inline variable list `KEY=VALUE,KEY2=VALUE2`.
use std::collections::HashMap;
use vstd::prelude::*;
use crate::scanner::chars_of;
use crate::validate::{text_map, Error};

verus! {

/// What `str::trim` leaves of a text.
pub uninterp spec fn trimmed(s: Seq<char>) -> Seq<char>;

/// Relies on `str::trim`: leading and trailing whitespace removed, which
/// depends on the characters alone.
#[verifier::external_body]
fn trim(s: &str) -> (r: String)
    ensures
        r@ == trimmed(s@),
{
    s.trim().to_string()
}

/// Relies on `HashMap::insert`: afterwards `k` maps to `v` and every other
/// entry is unchanged. (vstd states `insert` only for keys that obey its key
/// model, and `String` is not declared to.)
#[verifier::external_body]
fn insert_var(m: &mut HashMap<String, String>, k: String, v: String)
    ensures
        text_map(final(m)@) == text_map(old(m)@).insert(k@, v@),
{
    m.insert(k, v);
}

/// The first position at or after `j` that holds `c`, or `s.len()`.
pub open spec fn index_from(s: Seq<char>, c: char, j: int) -> int
    decreases s.len() - j,
{
    if 0 <= j < s.len() && s[j] != c {
        index_from(s, c, j + 1)
    } else if j < 0 {
        s.len() as int
    } else {
        j
    }
}

proof fn lemma_index_from_bounds(s: Seq<char>, c: char, j: int)
    requires
        0 <= j <= s.len(),
    ensures
        j <= index_from(s, c, j) <= s.len(),
        forall|k: int| j <= k < index_from(s, c, j) ==> #[trigger] s[k] != c,
        index_from(s, c, j) < s.len() ==> s[index_from(s, c, j)] == c,
    decreases s.len() - j,
{
    if j < s.len() && s[j] != c {
        lemma_index_from_bounds(s, c, j + 1);
    }
}

/// The mapping read from the pairs of `s` that start at `j`, on top of `acc`,
/// or `None` where a pair has no `=`. Pairs are separated by `,`; a pair's key
/// is what stands before its first `=`, its value what follows, both trimmed;
/// a later pair wins over an earlier one with the same key.
pub open spec fn parse_pairs(s: Seq<char>, j: int, acc: Map<Seq<char>, Seq<char>>) -> Option<Map<Seq<char>, Seq<char>>>
    decreases s.len() - j,
    via parse_pairs_decreases
{
    let e = index_from(s, ',', j);
    let eq = index_from(s.subrange(0, e), '=', j);
    if !(0 <= j <= s.len()) || eq >= e {
        None
    } else {
        let next = acc.insert(trimmed(s.subrange(j, eq)), trimmed(s.subrange(eq + 1, e)));
        if e < s.len() {
            parse_pairs(s, e + 1, next)
        } else {
            Some(next)
        }
    }
}

#[via_fn]
proof fn parse_pairs_decreases(s: Seq<char>, j: int, acc: Map<Seq<char>, Seq<char>>) {
    if 0 <= j <= s.len() {
        lemma_index_from_bounds(s, ',', j);
    }
}

/// The mapping that the list `s` denotes, or `None` where a pair lacks `=`.
pub open spec fn env_vars_of(s: Seq<char>) -> Option<Map<Seq<char>, Seq<char>>> {
    parse_pairs(s, 0, Map::empty())
}

/// The first position at or after `j`, and before `end`, that holds `c`, or `end`.
fn find_char(t: &Vec<char>, c: char, j: usize, end: usize) -> (r: usize)
    requires
        j <= end <= t.len(),
    ensures
        r as int == index_from(t@.subrange(0, end as int), c, j as int),
{
    let ghost u = t@.subrange(0, end as int);
    let mut k: usize = j;
    while k < end && t[k] != c
        invariant
            j <= k <= end <= t.len(),
            u == t@.subrange(0, end as int),
            index_from(u, c, k as int) == index_from(u, c, j as int),
        decreases end - k,
    {
        k = k + 1;
    }
    k
}

/// Reads the inline list `KEY=VALUE,KEY2=VALUE2` into a mapping: pairs are
/// separated by `,`, each splits at its first `=`, key and value are trimmed,
/// and a later pair wins over an earlier one with the same key. A pair
/// without `=` (an empty list included) is an error.
pub fn parse_env_vars(s: &str) -> (r: Result<HashMap<String, String>, Error>)
    ensures
        r is Ok <==> env_vars_of(s@) is Some,
        r matches Ok(m) ==> env_vars_of(s@) == Some(text_map(m@)),
        r matches Err(e) ==> e.0@ == "Missing value in env-vars"@,
{
    let t = chars_of(s);
    let mut vars: HashMap<String, String> = HashMap::new();
    proof {
        assert(text_map(vars@) =~= Map::<Seq<char>, Seq<char>>::empty());
    }
    let mut j: usize = 0;
    loop
        invariant
            j <= t.len(),
            t@ == s@,
            env_vars_of(s@) == parse_pairs(t@, j as int, text_map(vars@)),
        decreases t.len() - j,
    {
        let e = find_char(&t, ',', j, t.len());
        proof {
            assert(t@.subrange(0, t.len() as int) =~= t@);
            lemma_index_from_bounds(t@, ',', j as int);
        }
        let eq = find_char(&t, '=', j, e);
        proof {
            lemma_index_from_bounds(t@.subrange(0, e as int), '=', j as int);
        }
        if eq >= e {
            return Err(Error(String::from_str("Missing value in env-vars")));
        }
        let key = trim(s.substring_char(j, eq));
        let value = trim(s.substring_char(eq + 1, e));
        insert_var(&mut vars, key, value);
        if e < t.len() {
            j = e + 1;
        } else {
            return Ok(vars);
        }
    }
}

} // verus!
