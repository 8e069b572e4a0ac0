use envsubst::{substitute, validate_vars, VarMap};

#[test]
fn accepts_clean_mapping() {
    let mut vars = VarMap::new();
    vars.insert("protocol".to_string(), "https".to_string());
    vars.insert("hostname".to_string(), "example.com".to_string());
    assert!(validate_vars(&vars).is_ok());
}

#[test]
fn rejects_dollar_in_key() {
    let mut vars = VarMap::new();
    vars.insert("a$b".to_string(), "c".to_string());
    assert!(validate_vars(&vars).is_err());
}

#[test]
fn key_error_message() {
    let mut vars = VarMap::new();
    vars.insert("a$b".to_string(), "c".to_string());

    let err = substitute("x", &vars).unwrap_err();
    assert_eq!(err.message(), "variable key 'a$b' contains forbidden character '$'");
}

#[test]
fn value_error_message() {
    let mut vars = VarMap::new();
    vars.insert("K".to_string(), "}v".to_string());

    let err = validate_vars(&vars).unwrap_err();
    assert_eq!(err.message(), "variable value '}v' contains forbidden character '}'");
}

#[test]
fn dollar_reported_before_earlier_brace() {
    // The checks run per character, `$` first: even though `{` comes
    // earlier in the text, the `$` is the one reported.
    let mut vars = VarMap::new();
    vars.insert("K".to_string(), "a{b$".to_string());

    let err = validate_vars(&vars).unwrap_err();
    assert_eq!(err.message(), "variable value 'a{b$' contains forbidden character '$'");
}

#[test]
fn empty_mapping_is_valid() {
    let vars = VarMap::new();
    assert!(validate_vars(&vars).is_ok());
    assert_eq!(vars.len(), 0);
}

#[test]
fn lookup_after_insert() {
    let mut vars = VarMap::new();
    vars.insert("name".to_string(), "value".to_string());
    assert_eq!(vars.len(), 1);
    assert_eq!(vars.get("name").unwrap().as_str(), "value");
    assert!(vars.get("other").is_none());
}
