use envsubst::is_templated;

#[test]
fn template_check() {
    let plain = "foo";
    assert!(!is_templated(plain));

    let template = "foo ${VAR} bar";
    assert!(is_templated(template));

    let starting = "foo${";
    assert!(!is_templated(starting));

    let ending = "foo}";
    assert!(!is_templated(ending));
}

#[test]
fn close_before_open() {
    assert!(!is_templated("}${x}"));
    assert!(!is_templated("} then ${"));
}

#[test]
fn detection_edges() {
    assert!(!is_templated(""));
    assert!(!is_templated("$"));
    assert!(!is_templated("${"));
    assert!(!is_templated("}"));
    assert!(is_templated("${}"));
    assert!(is_templated("${ anything, even this, counts }"));
}
