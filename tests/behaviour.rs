use ksubst::{is_templated, parse_env_vars, substitute, validate, validate_vars};
use std::collections::HashMap;

fn vars(pairs: &[(&str, &str)]) -> HashMap<String, String> {
    let mut m = HashMap::new();
    for (k, v) in pairs {
        m.insert(k.to_string(), v.to_string());
    }
    m
}

#[test]
fn labelled_suffixes_with_value() {
    let out = substitute("VAR=${VAR} VAR.=${VAR.} VAR-=${VAR-}", &vars(&[("VAR", "hoge")])).unwrap();
    assert_eq!(out, "VAR=hoge VAR.=hoge. VAR-=hoge-");
}

#[test]
fn empty_mapping_returns_text_unchanged() {
    let t = "a ${X} $ { } ${Y.z} ${";
    assert_eq!(substitute(t, &HashMap::new()).unwrap(), t);
}

#[test]
fn empty_mapping_skips_validation() {
    let t = "${VAR}";
    assert_eq!(substitute(t, &HashMap::new()).unwrap(), "${VAR}");
}

#[test]
fn dollar_brace_space_left_alone() {
    let t = "foo ${ bar";
    assert_eq!(substitute(t, &vars(&[("bar", "x")])).unwrap(), t);
    assert_eq!(substitute("${ }", &vars(&[("A", "x")])).unwrap(), "${ }");
}

#[test]
fn empty_value_vanishes_with_suffix() {
    assert_eq!(substitute("${V.txt}", &vars(&[("V", "")])).unwrap(), "");
    assert_eq!(substitute("${V-}", &vars(&[("V", "")])).unwrap(), "");
}

#[test]
fn suffix_attaches_after_value() {
    assert_eq!(substitute("${V.tar.gz}", &vars(&[("V", "pkg")])).unwrap(), "pkg.tar.gz");
    assert_eq!(substitute("${V-$x{}", &vars(&[("V", "a")])).unwrap(), "a-$x{");
}

#[test]
fn unknown_name_passes_through() {
    let m = vars(&[("OTHER", "1")]);
    assert_eq!(substitute("${V}", &m).unwrap(), "${V}");
    assert_eq!(substitute("${V.ext} x", &m).unwrap(), "${V.ext} x");
}

#[test]
fn other_marker_is_not_a_placeholder() {
    let m = vars(&[("VAR", "x")]);
    assert_eq!(substitute("${VAR!}", &m).unwrap(), "${VAR!}");
    assert!(!is_templated("${VAR!}"));
}

#[test]
fn names_are_case_sensitive_and_exact() {
    let m = vars(&[("var", "x"), ("VA", "y")]);
    assert_eq!(substitute("${VAR} ${var}", &m).unwrap(), "${VAR} x");
}

#[test]
fn name_must_start_with_letter_or_underscore() {
    let m = vars(&[("1A", "x"), ("_a1", "y")]);
    assert_eq!(substitute("${1A} ${_a1}", &m).unwrap(), "${1A} y");
}

#[test]
fn unclosed_suffix_is_not_matched() {
    let m = vars(&[("A", "x")]);
    assert_eq!(substitute("${A.abc", &m).unwrap(), "${A.abc");
    assert_eq!(substitute("${A", &m).unwrap(), "${A");
}

#[test]
fn suffix_stops_at_first_close() {
    let m = vars(&[("A", "x"), ("B", "y")]);
    assert_eq!(substitute("${A.${B}}", &m).unwrap(), "x.${B}");
}

#[test]
fn adjacent_placeholders() {
    let m = vars(&[("A", "1"), ("B", "2")]);
    assert_eq!(substitute("${A}${B}$${A}", &m).unwrap(), "12$1");
}

#[test]
fn resolved_output_is_not_templated() {
    let m = vars(&[("protocol", "https"), ("hostname", "example.com"), ("endpoint", "")]);
    let t = "${protocol}://${hostname}/${endpoint.html}";
    assert!(is_templated(t));
    let out = substitute(t, &m).unwrap();
    assert_eq!(out, "https://example.com/");
    assert!(!is_templated(&out));
}

#[test]
fn leftover_dollar_can_form_placeholder() {
    let m = vars(&[("A", "")]);
    let out = substitute("$${A}{B}", &m).unwrap();
    assert_eq!(out, "${B}");
    assert!(is_templated(&out));
}

#[test]
fn detector_cases() {
    assert!(is_templated("${a}"));
    assert!(is_templated("x ${a.b} y"));
    assert!(is_templated("${a-}"));
    assert!(!is_templated("${}"));
    assert!(!is_templated("$a"));
    assert!(!is_templated(""));
}

#[test]
fn validation_rejects_delimiters() {
    assert!(validate_vars(&vars(&[("${X}", "v")])).is_err());
    assert!(validate_vars(&vars(&[("k", "${X}")])).is_err());
    assert!(validate_vars(&vars(&[("K", "plain")])).is_ok());
    assert!(validate_vars(&HashMap::new()).is_ok());
}

#[test]
fn validation_message_for_value() {
    let e = validate_vars(&vars(&[("VAR", "a$b")])).unwrap_err();
    assert_eq!(e.0, "variable value 'a$b' contains forbidden character '$'");
}

#[test]
fn validation_message_for_key() {
    let e = validate_vars(&vars(&[("a}b{", "v")])).unwrap_err();
    assert_eq!(e.0, "variable key 'a}b{' contains forbidden character '{'");
}

#[test]
fn validate_single_text() {
    assert!(validate("plain", "key").is_ok());
    let e = validate("x}", "value").unwrap_err();
    assert_eq!(e.0, "variable value 'x}' contains forbidden character '}'");
    let e = validate("{$", "key").unwrap_err();
    assert_eq!(e.0, "variable key '{$' contains forbidden character '$'");
}

#[test]
fn substitute_reports_validation_error() {
    let e = substitute("${VAR}", &vars(&[("VAR", "{x")])).unwrap_err();
    assert_eq!(e.0, "variable value '{x' contains forbidden character '{'");
}

#[test]
fn parse_inline_pairs() {
    let m = parse_env_vars(" A = 1 ,B=two=2,C=").unwrap();
    assert_eq!(m.len(), 3);
    assert_eq!(m["A"], "1");
    assert_eq!(m["B"], "two=2");
    assert_eq!(m["C"], "");
}

#[test]
fn parse_later_pair_wins() {
    let m = parse_env_vars("A=1,A=2").unwrap();
    assert_eq!(m.len(), 1);
    assert_eq!(m["A"], "2");
}

#[test]
fn parse_missing_value_is_error() {
    let e = parse_env_vars("A=1,B").unwrap_err();
    assert_eq!(e.0, "Missing value in env-vars");
    assert!(parse_env_vars("").is_err());
}

#[test]
fn error_description() {
    let e = validate("a$", "key").unwrap_err();
    assert_eq!(e.describe(), "envsubst error: variable key 'a$' contains forbidden character '$'");
}
