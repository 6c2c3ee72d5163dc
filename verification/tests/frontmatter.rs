use mdslw::frontmatter::extract_frontmatter;

const FRONTMATTER_FOR_TEST: &str = "---\nsome text\nasdf: ---\nmultiple: lines\n---\n";

#[test]
fn extracting_frontmatter() {
    let matter = extract_frontmatter(&FRONTMATTER_FOR_TEST.to_string());

    assert_eq!(matter, FRONTMATTER_FOR_TEST.to_string());
}

#[test]
fn splitting_frontmatter_with_rest() {
    let matter = extract_frontmatter(&format!("{}some\nmore\ntext\n", FRONTMATTER_FOR_TEST));

    assert_eq!(matter, FRONTMATTER_FOR_TEST.to_string());
}

#[test]
fn frontmatter_has_to_start_text() {
    let text = format!("something\n{}", FRONTMATTER_FOR_TEST);
    let matter = extract_frontmatter(&text);

    assert_eq!(matter, String::new());
}

#[test]
fn frontmatter_has_to_have_ending_separator() {
    let text = FRONTMATTER_FOR_TEST[..FRONTMATTER_FOR_TEST.len() - 1].to_string();
    let matter = extract_frontmatter(&text);

    assert_eq!(matter, String::new());
}
