//! Laws that relate the substitution, the mapping and the detector.
use vstd::prelude::*;
use crate::grammar::{
    close_from, expand, has_placeholder, is_name, is_name_char, is_suffix, is_suffix_marker, lemma_match_bounds,
    match_at, name_end, render, scan,
};
use crate::validate::{is_clean, vars_clean};

verus! {

proof fn lemma_scan_without_variables(t: Seq<char>, i: int)
    requires
        0 <= i <= t.len(),
    ensures
        scan(t, Map::empty(), i) == t.subrange(i, t.len() as int),
    decreases t.len() - i,
{
    if i < t.len() {
        lemma_match_bounds(t, i);
        match match_at(t, i) {
            Some((n, c)) => {
                lemma_scan_without_variables(t, c + 1);
                assert(t.subrange(i, c + 1) + t.subrange(c + 1, t.len() as int) =~= t.subrange(i, t.len() as int));
            },
            None => {
                lemma_scan_without_variables(t, i + 1);
                assert(seq![t[i]] + t.subrange(i + 1, t.len() as int) =~= t.subrange(i, t.len() as int));
            },
        }
    } else {
        assert(t.subrange(i, t.len() as int) =~= Seq::<char>::empty());
    }
}

/// With no variables, expansion gives the text back unchanged: every
/// placeholder is left as it stands.
pub proof fn law_expand_without_variables(t: Seq<char>)
    ensures
        expand(t, Map::empty()) == t,
{
    lemma_scan_without_variables(t, 0);
    assert(t.subrange(0, t.len() as int) =~= t);
}


/// The text of the placeholder for `name` with `suffix`: `${name suffix}`.
pub open spec fn placeholder(name: Seq<char>, suffix: Seq<char>) -> Seq<char> {
    seq!['$', '{'] + name + suffix + seq!['}']
}

proof fn lemma_name_run(t: Seq<char>, j: int, e: int)
    requires
        0 <= j <= e < t.len(),
        forall|k: int| j <= k < e ==> is_name_char(#[trigger] t[k]),
        !is_name_char(t[e]),
    ensures
        name_end(t, j) == e,
    decreases e - j,
{
    if j < e {
        lemma_name_run(t, j + 1, e);
    }
}

proof fn lemma_close_run(t: Seq<char>, j: int, c: int)
    requires
        0 <= j <= c < t.len(),
        forall|k: int| j <= k < c ==> #[trigger] t[k] != '}',
        t[c] == '}',
    ensures
        close_from(t, j) == c,
    decreases c - j,
{
    if j < c {
        lemma_close_run(t, j + 1, c);
    }
}

/// A placeholder written out is expanded as one placeholder: `render` of its
/// name and suffix.
proof fn lemma_expand_placeholder(name: Seq<char>, suffix: Seq<char>, vars: Map<Seq<char>, Seq<char>>)
    requires
        is_name(name),
        is_suffix(suffix),
    ensures
        expand(placeholder(name, suffix), vars) == render(vars, placeholder(name, suffix), name, suffix),
{
    let p = placeholder(name, suffix);
    let n: int = 2 + name.len() as int;
    let c: int = n + suffix.len();
    assert(p.len() == c + 1);
    assert forall|k: int| 3 <= k < n implies is_name_char(#[trigger] p[k]) by {
        assert(p[k] == name[k - 2]);
    }
    assert(p[2] == name[0]);
    if suffix.len() == 0 {
        assert(p[n] == '}');
    } else {
        assert(p[n] == suffix[0]);
        assert(is_suffix_marker(p[n]));
    }
    lemma_name_run(p, 3, n);
    if suffix.len() > 0 {
        assert forall|k: int| n + 1 <= k < c implies #[trigger] p[k] != '}' by {
            assert(p[k] == suffix[k - n]);
        }
        lemma_close_run(p, n + 1, c);
    }
    assert(match_at(p, 0) == Some((n, c)));
    assert(p.subrange(0, c + 1) =~= p);
    assert(p.subrange(2, n) =~= name);
    assert(p.subrange(n, c) =~= suffix);
    assert(scan(p, vars, c + 1) =~= Seq::<char>::empty());
    assert(scan(p, vars, 0) =~= render(vars, p, name, suffix) + scan(p, vars, c + 1));
}

/// A placeholder whose name maps to the empty text vanishes, suffix,
/// delimiters and all.
pub proof fn law_empty_value_vanishes(name: Seq<char>, suffix: Seq<char>, vars: Map<Seq<char>, Seq<char>>)
    requires
        is_name(name),
        is_suffix(suffix),
        vars.contains_key(name),
        vars[name].len() == 0,
    ensures
        expand(placeholder(name, suffix), vars) == Seq::<char>::empty(),
{
    lemma_expand_placeholder(name, suffix, vars);
}

/// A placeholder whose name maps to a non-empty value becomes that value
/// followed by the suffix, marker included.
pub proof fn law_suffix_attaches(name: Seq<char>, suffix: Seq<char>, vars: Map<Seq<char>, Seq<char>>)
    requires
        is_name(name),
        is_suffix(suffix),
        vars.contains_key(name),
        vars[name].len() > 0,
    ensures
        expand(placeholder(name, suffix), vars) == vars[name] + suffix,
{
    lemma_expand_placeholder(name, suffix, vars);
}

/// A placeholder whose name is absent from the mapping is left as it stands.
pub proof fn law_unknown_passes_through(name: Seq<char>, vars: Map<Seq<char>, Seq<char>>)
    requires
        is_name(name),
        !vars.contains_key(name),
    ensures
        expand(placeholder(name, Seq::empty()), vars) == placeholder(name, Seq::empty()),
{
    lemma_expand_placeholder(name, Seq::empty(), vars);
}

/// From position `i` on, every placeholder that the scan meets names a
/// variable of `vars` and has no `$` in its suffix, and no `$` stands outside
/// those placeholders.
pub open spec fn dollars_resolved(t: Seq<char>, vars: Map<Seq<char>, Seq<char>>, i: int) -> bool
    decreases t.len() - i,
    via dollars_resolved_decreases
{
    if 0 <= i < t.len() {
        match match_at(t, i) {
            Some((n, c)) => {
                &&& vars.contains_key(t.subrange(i + 2, n))
                &&& !t.subrange(n, c).contains('$')
                &&& dollars_resolved(t, vars, c + 1)
            },
            None => t[i] != '$' && dollars_resolved(t, vars, i + 1),
        }
    } else {
        true
    }
}

#[via_fn]
proof fn dollars_resolved_decreases(t: Seq<char>, vars: Map<Seq<char>, Seq<char>>, i: int) {
    if 0 <= i < t.len() {
        lemma_match_bounds(t, i);
    }
}

proof fn lemma_scan_dollar_free(t: Seq<char>, vars: Map<Seq<char>, Seq<char>>, i: int)
    requires
        0 <= i <= t.len(),
        vars_clean(vars),
        dollars_resolved(t, vars, i),
    ensures
        !scan(t, vars, i).contains('$'),
    decreases t.len() - i,
{
    if i < t.len() {
        lemma_match_bounds(t, i);
        match match_at(t, i) {
            Some((n, c)) => {
                lemma_scan_dollar_free(t, vars, c + 1);
                let name = t.subrange(i + 2, n);
                let suffix = t.subrange(n, c);
                let head = render(vars, t.subrange(i, c + 1), name, suffix);
                assert(is_clean(vars[name]));
                assert(!head.contains('$')) by {
                    if vars[name].len() > 0 {
                        assert forall|k: int| 0 <= k < head.len() implies head[k] != '$' by {
                            if k < vars[name].len() {
                                assert(head[k] == vars[name][k]);
                            } else {
                                assert(head[k] == suffix[k - vars[name].len()]);
                            }
                        }
                    }
                }
                let rest = scan(t, vars, c + 1);
                assert forall|k: int| 0 <= k < head.len() + rest.len() implies (head + rest)[k] != '$' by {
                    if k >= head.len() {
                        assert((head + rest)[k] == rest[k - head.len()]);
                    }
                }
            },
            None => {
                lemma_scan_dollar_free(t, vars, i + 1);
                let rest = scan(t, vars, i + 1);
                assert forall|k: int| 0 <= k < 1 + rest.len() implies (seq![t[i]] + rest)[k] != '$' by {
                    if k >= 1 {
                        assert((seq![t[i]] + rest)[k] == rest[k - 1]);
                    }
                }
            },
        }
    }
}

/// Expansion leaves no placeholder behind when every placeholder of the text
/// names a variable of the (clean) mapping, no suffix holds `$`, and no `$`
/// stands outside the placeholders. (A `$` left in the text can join what
/// follows into a new placeholder: `$${A}{B}` with `A` empty gives `${B}`.)
pub proof fn law_resolved_text_is_not_templated(t: Seq<char>, vars: Map<Seq<char>, Seq<char>>)
    requires
        vars_clean(vars),
        dollars_resolved(t, vars, 0),
    ensures
        !has_placeholder(expand(t, vars)),
{
    lemma_scan_dollar_free(t, vars, 0);
    let u = expand(t, vars);
    assert forall|i: int| 0 <= i < u.len() implies (#[trigger] match_at(u, i)) is None by {
        assert(u[i] != '$');
    }
}

} // verus!
