//! The variable mapping's model, and the check that keeps `$`, `{` and `}`
//! out of its keys and values.
use std::collections::HashMap;
use vstd::prelude::*;
use crate::scanner::chars_of;

verus! {

/// What went wrong; the text says which key or value was refused and why.
#[derive(Debug)]
pub struct Error(pub String);

impl Error {
    /// The error as it is shown to a user.
    pub fn describe(&self) -> (r: String)
        ensures
            r@ == "envsubst error: "@ + self.0@,
    {
        let mut r = String::from_str("envsubst error: ");
        r.append(self.0.as_str());
        r
    }
}

/// The mapping as text to text: each key's characters map to its value's.
pub open spec fn text_map(m: Map<String, String>) -> Map<Seq<char>, Seq<char>> {
    Map::new(
        |k: Seq<char>| exists|s: String| #[trigger] m.contains_key(s) && s@ == k,
        |k: Seq<char>| m[choose|s: String| #[trigger] m.contains_key(s) && s@ == k]@,
    )
}

/// `r` lists, as pairs, entries of `m` only, and every key of `m` at least once.
pub open spec fn lists_entries(r: Seq<(String, String)>, m: Map<Seq<char>, Seq<char>>) -> bool {
    &&& forall|i: int|
        0 <= i < r.len() ==> m.contains_key((#[trigger] r[i]).0@) && m[r[i].0@] == r[i].1@
    &&& forall|k: Seq<char>|
        m.contains_key(k) ==> exists|i: int| 0 <= i < r.len() && (#[trigger] r[i]).0@ == k
}

/// Relies on `HashMap::iter`, which visits every entry of the map once; the
/// pairs are cloned out of it. (vstd states `iter` only for keys that obey its
/// key model, and `String` is not declared to.)
#[verifier::external_body]
pub(crate) fn entries(m: &HashMap<String, String>) -> (r: Vec<(String, String)>)
    ensures
        lists_entries(r@, text_map(m@)),
{
    m.iter().map(|(k, v)| (k.clone(), v.clone())).collect()
}

/// One of the three characters that no key or value may hold.
pub open spec fn is_forbidden(c: char) -> bool {
    c == '$' || c == '{' || c == '}'
}

/// A text free of forbidden characters.
pub open spec fn is_clean(s: Seq<char>) -> bool {
    forall|k: int| 0 <= k < s.len() ==> !is_forbidden(#[trigger] s[k])
}

/// A mapping whose keys and values are all free of forbidden characters.
pub open spec fn vars_clean(m: Map<Seq<char>, Seq<char>>) -> bool {
    forall|k: Seq<char>| #[trigger] m.contains_key(k) ==> is_clean(k) && is_clean(m[k])
}

/// The forbidden character that a refused text is reported for: `$` is looked
/// for first, then `{`, then `}`.
pub open spec fn reported_char(s: Seq<char>) -> char {
    if s.contains('$') {
        '$'
    } else if s.contains('{') {
        '{'
    } else {
        '}'
    }
}

/// The message for a text of the given role (`key` or `value`) that holds `c`.
pub open spec fn forbidden_message(role: Seq<char>, text: Seq<char>, c: char) -> Seq<char> {
    "variable "@ + role + " '"@ + text + "' contains forbidden character '"@ + seq![c] + "'"@
}

fn contains_char(v: &Vec<char>, c: char) -> (r: bool)
    ensures
        r == v@.contains(c),
{
    let mut k: usize = 0;
    while k < v.len()
        invariant
            k <= v.len(),
            forall|j: int| 0 <= j < k ==> v@[j] != c,
        decreases v.len() - k,
    {
        if v[k] == c {
            return true;
        }
        k = k + 1;
    }
    false
}

/// Checks that `value` holds none of `$`, `{`, `}`; `kind` names its role in
/// the message of the error.
pub fn validate(value: &str, kind: &str) -> (r: Result<(), Error>)
    ensures
        r is Ok <==> is_clean(value@),
        r matches Err(e) ==> e.0@ == forbidden_message(kind@, value@, reported_char(value@)),
{
    let v = chars_of(value);
    let c: char;
    let text: &str;
    if contains_char(&v, '$') {
        c = '$';
        text = "$";
    } else if contains_char(&v, '{') {
        c = '{';
        text = "{";
    } else if contains_char(&v, '}') {
        c = '}';
        text = "}";
    } else {
        assert forall|k: int| 0 <= k < value@.len() implies !is_forbidden(#[trigger] value@[k]) by {
            assert(v@.contains(value@[k]));
        }
        return Ok(());
    }
    proof {
        reveal_strlit("$");
        reveal_strlit("{");
        reveal_strlit("}");
        assert(text@ =~= seq![c]);
        let k = choose|k: int| 0 <= k < v@.len() && v@[k] == c;
        assert(is_forbidden(value@[k]));
    }
    let mut msg = String::from_str("variable ");
    msg.append(kind);
    msg.append(" '");
    msg.append(value);
    msg.append("' contains forbidden character '");
    msg.append(text);
    msg.append("'");
    Err(Error(msg))
}

/// Checks every entry of a listing; the error, if any, is that of the first
/// refused key or value in the listing's order.
pub(crate) fn validate_entries(es: &Vec<(String, String)>, Ghost(m): Ghost<Map<Seq<char>, Seq<char>>>) -> (r: Result<(), Error>)
    requires
        lists_entries(es@, m),
    ensures
        r is Ok <==> vars_clean(m),
        r matches Err(e) ==> refused_entry(m, e.0@),
{
    let mut i: usize = 0;
    while i < es.len()
        invariant
            i <= es.len(),
            lists_entries(es@, m),
            forall|j: int| 0 <= j < i ==> is_clean(#[trigger] es@[j].0@) && is_clean(es@[j].1@),
        decreases es.len() - i,
    {
        match validate(es[i].0.as_str(), "key") {
            Ok(()) => {},
            Err(e) => {
                let ghost k = es@[i as int].0@;
                assert(m.contains_key(k));
                assert(!vars_clean(m));
                assert(refused_entry(m, e.0@));
                return Err(e);
            },
        }
        match validate(es[i].1.as_str(), "value") {
            Ok(()) => {},
            Err(e) => {
                let ghost k = es@[i as int].0@;
                assert(m.contains_key(k));
                assert(!vars_clean(m));
                assert(refused_entry(m, e.0@));
                return Err(e);
            },
        }
        i = i + 1;
    }
    assert forall|k: Seq<char>| #[trigger] m.contains_key(k) implies is_clean(k) && is_clean(m[k]) by {
        let j = choose|j: int| 0 <= j < es@.len() && (#[trigger] es@[j]).0@ == k;
        assert(is_clean(es@[j].0@));
    }
    Ok(())
}

/// Checks that no key or value of `variables` holds `$`, `{` or `}`, so that
/// substitution stays deterministic. Which offending entry is reported, where
/// several are, follows the map's iteration order and is not fixed.
pub fn validate_vars(variables: &HashMap<String, String>) -> (r: Result<(), Error>)
    ensures
        r is Ok <==> vars_clean(text_map(variables@)),
        r matches Err(e) ==> refused_entry(text_map(variables@), e.0@),
{
    let es = entries(variables);
    validate_entries(&es, Ghost(text_map(variables@)))
}

/// `msg` reports an entry of `m` that breaks the rule: a key with a forbidden
/// character, or the value of a clean key with one.
pub open spec fn refused_entry(m: Map<Seq<char>, Seq<char>>, msg: Seq<char>) -> bool {
    exists|k: Seq<char>|
        #[trigger] m.contains_key(k) && {
            ||| !is_clean(k) && msg == forbidden_message("key"@, k, reported_char(k))
            ||| is_clean(k) && !is_clean(m[k]) && msg == forbidden_message("value"@, m[k], reported_char(m[k]))
        }
}

} // verus!
