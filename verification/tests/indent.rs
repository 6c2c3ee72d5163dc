use mdslw::indent::build_indent;

#[test]
fn can_build_indents() {
    let three = build_indent(3);
    assert_eq!(three, String::from("   "));

    let four = build_indent(4);
    assert_eq!(four, String::from("    "));
}
