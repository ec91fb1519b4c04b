use ksubst::{is_templated, substitute};
use std::collections::HashMap;

#[test]
fn basic_subst() {
    let template = "foo ${VAR} bar";
    let mut env = HashMap::new();
    env.insert("VAR".to_string(), "var".to_string());

    let out = substitute(template, &env).unwrap();
    let expected = "foo var bar";
    assert_eq!(out, expected);
}

#[test]
fn template_check() {
    let plain = "foo";
    assert!(!is_templated(plain));

    let template = "foo ${VAR} bar";
    assert!(is_templated(template));

    let starting = "foo${";
    assert!(!is_templated(starting));

    let ending = "foo}";
    assert!(!is_templated(ending));
}

#[test]
fn basic_empty_vars() {
    let template = "foo ${VAR} bar";
    let env = HashMap::new();

    let out = substitute(template, &env).unwrap();
    assert_eq!(out, template);
}

#[test]
fn dollar_bracket() {
    let template = "foo ${ bar";
    let mut env = HashMap::new();
    env.insert("VAR".to_string(), "var".to_string());

    let out = substitute(template, &env).unwrap();
    assert_eq!(out, template);
}

#[test]
fn invalid_vars() {
    let template = "foo ${VAR} bar";
    let mut env = HashMap::new();
    env.insert("${VAR}".to_string(), "var".to_string());

    substitute(template, &env).unwrap_err();

    let mut env = HashMap::new();
    env.insert("VAR".to_string(), "${VAR}".to_string());

    substitute(template, &env).unwrap_err();
}

#[test]
fn test_substitute_with_suffix_non_empty_var() {
    let template = "${VAR} ${VAR.} ${VAR-}";
    let mut variables = HashMap::new();
    variables.insert("VAR".to_string(), "hoge".to_string());

    let result = substitute(template, &variables).unwrap();
    assert_eq!(result, "hoge hoge. hoge-");
}

#[test]
fn test_substitute_with_suffix_empty_var() {
    let template = "${VAR} ${VAR.} ${VAR-}";
    let mut variables = HashMap::new();
    variables.insert("VAR".to_string(), "".to_string());

    let result = substitute(template, &variables).unwrap();
    assert_eq!(result, "  ");
}

#[test]
fn test_substitute_with_missing_var() {
    let template = "${VAR} ${VAR.} ${VAR-}";
    let variables = HashMap::new();

    let result = substitute(template, &variables).unwrap();
    assert_eq!(result, "${VAR} ${VAR.} ${VAR-}");
}

#[test]
fn test_substitute_with_complex_suffix() {
    let template = "${VAR.suffix} ${VAR-extra}";
    let mut variables = HashMap::new();
    variables.insert("VAR".to_string(), "value".to_string());

    let result = substitute(template, &variables).unwrap();
    assert_eq!(result, "value.suffix value-extra");
}
