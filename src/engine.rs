//! The substitution engine and the placeholder detector.
use std::collections::HashMap;
use vstd::prelude::*;
use crate::grammar::{expand, has_placeholder, lemma_match_bounds, match_at, render, scan};
use crate::laws::law_expand_without_variables;
use crate::scanner::{chars_of, placeholder_at};
use crate::validate::{
    entries, lists_entries, refused_entry, text_map, validate_entries, vars_clean, Error,
};

verus! {

/// Relies on `String`'s `FromIterator<char>`: the characters collected in order.
#[verifier::external_body]
fn collect_string(v: &Vec<char>) -> (r: String)
    ensures
        r@ == v@,
{
    v.iter().collect()
}

/// Appends `src[a..b]` to `out`.
fn push_range(out: &mut Vec<char>, src: &Vec<char>, a: usize, b: usize)
    requires
        a <= b <= src.len(),
    ensures
        final(out)@ == old(out)@ + src@.subrange(a as int, b as int),
{
    let mut k: usize = a;
    while k < b
        invariant
            a <= k <= b <= src.len(),
            out@ == old(out)@ + src@.subrange(a as int, k as int),
        decreases b - k,
    {
        out.push(src[k]);
        assert(src@.subrange(a as int, k + 1) =~= src@.subrange(a as int, k as int) + seq![src@[k as int]]);
        k = k + 1;
    }
    assert(out@ =~= old(out)@ + src@.subrange(a as int, b as int));
}

/// Whether `x` holds exactly the characters `t[a..b]`.
fn same_chars(x: &Vec<char>, t: &Vec<char>, a: usize, b: usize) -> (r: bool)
    requires
        a <= b <= t.len(),
    ensures
        r == (x@ == t@.subrange(a as int, b as int)),
{
    if x.len() != b - a {
        return false;
    }
    let mut k: usize = 0;
    while k < x.len()
        invariant
            x.len() == b - a,
            a <= b <= t.len(),
            k <= x.len(),
            forall|j: int| 0 <= j < k ==> x@[j] == t@[a + j],
        decreases x.len() - k,
    {
        if x[k] != t[a + k] {
            assert(x@[k as int] != t@.subrange(a as int, b as int)[k as int]);
            return false;
        }
        k = k + 1;
    }
    assert(x@ =~= t@.subrange(a as int, b as int));
    true
}

/// The listing's key and value characters, pair by pair.
pub open spec fn char_pairs_list(kv: Seq<(Vec<char>, Vec<char>)>, m: Map<Seq<char>, Seq<char>>) -> bool {
    &&& forall|i: int|
        0 <= i < kv.len() ==> m.contains_key((#[trigger] kv[i]).0@) && m[kv[i].0@] == kv[i].1@
    &&& forall|k: Seq<char>|
        m.contains_key(k) ==> exists|i: int| 0 <= i < kv.len() && (#[trigger] kv[i]).0@ == k
}

fn char_pairs(es: &Vec<(String, String)>, Ghost(m): Ghost<Map<Seq<char>, Seq<char>>>) -> (kv: Vec<(Vec<char>, Vec<char>)>)
    requires
        lists_entries(es@, m),
    ensures
        char_pairs_list(kv@, m),
{
    let mut kv: Vec<(Vec<char>, Vec<char>)> = Vec::new();
    let mut i: usize = 0;
    while i < es.len()
        invariant
            i <= es.len(),
            lists_entries(es@, m),
            kv.len() == i,
            forall|j: int| 0 <= j < i ==> (#[trigger] kv@[j]).0@ == es@[j].0@ && kv@[j].1@ == es@[j].1@,
        decreases es.len() - i,
    {
        let k = chars_of(es[i].0.as_str());
        let v = chars_of(es[i].1.as_str());
        kv.push((k, v));
        i = i + 1;
    }
    assert forall|k: Seq<char>| m.contains_key(k) implies exists|i: int| 0 <= i < kv@.len() && (#[trigger] kv@[i]).0@ == k by {
        let j = choose|j: int| 0 <= j < es@.len() && (#[trigger] es@[j]).0@ == k;
        assert(kv@[j].0@ == k);
    }
    kv
}

/// The index of the pair whose key is `t[a..b]`, if any.
fn find_key(kv: &Vec<(Vec<char>, Vec<char>)>, t: &Vec<char>, a: usize, b: usize) -> (r: Option<usize>)
    requires
        a <= b <= t.len(),
    ensures
        r matches Some(j) ==> j < kv.len() && kv@[j as int].0@ == t@.subrange(a as int, b as int),
        r is None ==> forall|j: int| 0 <= j < kv.len() ==> (#[trigger] kv@[j]).0@ != t@.subrange(a as int, b as int),
{
    let mut j: usize = 0;
    while j < kv.len()
        invariant
            a <= b <= t.len(),
            j <= kv.len(),
            forall|i: int| 0 <= i < j ==> (#[trigger] kv@[i]).0@ != t@.subrange(a as int, b as int),
        decreases kv.len() - j,
    {
        if same_chars(&kv[j].0, t, a, b) {
            return Some(j);
        }
        j = j + 1;
    }
    None
}

/// Rewrites the characters `t` against a listing of a clean mapping.
fn expand_chars(t: &Vec<char>, kv: &Vec<(Vec<char>, Vec<char>)>, Ghost(m): Ghost<Map<Seq<char>, Seq<char>>>) -> (r: Vec<char>)
    requires
        char_pairs_list(kv@, m),
    ensures
        r@ == expand(t@, m),
{
    let mut out: Vec<char> = Vec::new();
    let mut i: usize = 0;
    while i < t.len()
        invariant
            i <= t.len(),
            char_pairs_list(kv@, m),
            out@ + scan(t@, m, i as int) == expand(t@, m),
        decreases t.len() - i,
    {
        proof {
            lemma_match_bounds(t@, i as int);
        }
        match placeholder_at(t, i) {
            Some((n, c)) => {
                let ghost before = out@;
                match find_key(kv, t, i + 2, n) {
                    Some(j) => {
                        if kv[j].1.len() > 0 {
                            push_range(&mut out, &kv[j].1, 0, kv[j].1.len());
                            push_range(&mut out, t, n, c);
                            assert(kv@[j as int].1@.subrange(0, kv@[j as int].1@.len() as int) =~= kv@[j as int].1@);
                        }
                    },
                    None => {
                        push_range(&mut out, t, i, c + 1);
                    },
                }
                assert(out@ == before + render(m, t@.subrange(i as int, c + 1), t@.subrange(i + 2, n as int), t@.subrange(n as int, c as int)));
                assert(out@ + scan(t@, m, c + 1) =~= before + scan(t@, m, i as int));
                i = c + 1;
            },
            None => {
                out.push(t[i]);
                assert(out@ + scan(t@, m, i + 1) =~= out@.drop_last() + scan(t@, m, i as int));
                i = i + 1;
            },
        }
    }
    assert(out@ + scan(t@, m, i as int) =~= out@);
    out
}


/// Replaces every placeholder of `template` by what its name maps to in
/// `variables`: the value and then the suffix for a non-empty value, nothing
/// for an empty one, the placeholder itself for an absent name. With no
/// variables the template comes back unchanged and nothing is checked;
/// otherwise a mapping with `$`, `{` or `}` in a key or value is refused.
pub fn substitute(template: &str, variables: &HashMap<String, String>) -> (r: Result<String, Error>)
    ensures
        r is Ok <==> (text_map(variables@).dom() == Set::<Seq<char>>::empty() || vars_clean(text_map(variables@))),
        r matches Ok(s) ==> s@ == expand(template@, text_map(variables@)),
        r matches Err(e) ==> refused_entry(text_map(variables@), e.0@),
{
    let ghost m = text_map(variables@);
    let es = entries(variables);
    if es.len() == 0 {
        proof {
            assert(m.dom() =~= Set::<Seq<char>>::empty()) by {
                assert forall|k: Seq<char>| !m.contains_key(k) by {
                    if m.contains_key(k) {
                        let i = choose|i: int| 0 <= i < es@.len() && (#[trigger] es@[i]).0@ == k;
                    }
                }
            }
            assert(m =~= Map::<Seq<char>, Seq<char>>::empty());
            law_expand_without_variables(template@);
        }
        return Ok(String::from_str(template));
    }
    proof {
        assert(m.contains_key(es@[0].0@));
        assert(m.dom().contains(es@[0].0@));
    }
    match validate_entries(&es, Ghost(m)) {
        Ok(()) => {},
        Err(e) => {
            return Err(e);
        },
    }
    let kv = char_pairs(&es, Ghost(m));
    let t = chars_of(template);
    let out = expand_chars(&t, &kv, Ghost(m));
    Ok(collect_string(&out))
}

/// Whether `input` holds at least one placeholder, whatever the variables.
pub fn is_templated(input: &str) -> (r: bool)
    ensures
        r == has_placeholder(input@),
{
    let t = chars_of(input);
    let mut i: usize = 0;
    while i < t.len()
        invariant
            i <= t.len(),
            t@ == input@,
            forall|j: int| 0 <= j < i ==> (#[trigger] match_at(t@, j)) is None,
        decreases t.len() - i,
    {
        if placeholder_at(&t, i).is_some() {
            return true;
        }
        i = i + 1;
    }
    proof {
        assert forall|j: int| 0 <= j < t@.len() implies (#[trigger] match_at(t@, j)) is None by {}
    }
    false
}

} // verus!
