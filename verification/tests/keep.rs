use mdslw::keep::KeepWords;

const TEXT_FOR_TESTS: &str = "Lorem iPsum doLor SiT aMeT. ConSectEtur adIpiSciNg ELiT.";

#[test]
fn keep_case_insensitive_match() {
    let keep = KeepWords::new("ipsum sit adipiscing", "", false);
    let text = TEXT_FOR_TESTS.chars().collect::<Vec<_>>();

    let found = (0..text.len())
        .filter(|el| keep.ends_with_word(&text, el))
        .collect::<Vec<_>>();

    assert_eq!(found, vec![10, 20, 49]);
}

#[test]
fn keep_case_sensitive_match() {
    let keep = KeepWords::new("ipsum SiT adipiscing", "", true);
    let text = TEXT_FOR_TESTS.chars().collect::<Vec<_>>();

    let found = (0..text.len())
        .filter(|el| keep.ends_with_word(&text, el))
        .collect::<Vec<_>>();

    assert_eq!(found, vec![20]);
}

#[test]
fn keep_matches_at_start_and_end() {
    let keep = KeepWords::new("lorem elit.", "", false);
    let text = TEXT_FOR_TESTS.chars().collect::<Vec<_>>();

    // Try to search outside the text's range, which will never match.
    let found = (0..text.len() + 5)
        .filter(|el| keep.ends_with_word(&text, el))
        .collect::<Vec<_>>();

    assert_eq!(found, vec![4, 55]);
}

#[test]
fn keep_ignoring_words_case_sensitively() {
    let keep = KeepWords::new("ipsum SiT adipiscing", "SiT", true);
    let text = TEXT_FOR_TESTS.chars().collect::<Vec<_>>();

    let found = (0..text.len())
        .filter(|el| keep.ends_with_word(&text, el))
        .collect::<Vec<_>>();

    assert_eq!(found, vec![]);
}

#[test]
fn keep_ignoring_words_case_insensitively() {
    let keep = KeepWords::new("ipsum sit adipiscing", "sit", false);
    let text = TEXT_FOR_TESTS.chars().collect::<Vec<_>>();

    let found = (0..text.len())
        .filter(|el| keep.ends_with_word(&text, el))
        .collect::<Vec<_>>();

    assert_eq!(found, vec![10, 49]);
}

#[test]
fn keep_ingores_that_are_no_suppressions_are_ignored() {
    let keep = KeepWords::new("ipsum sit adipiscing", "sit asdf blub muhaha", false);
    let text = TEXT_FOR_TESTS.chars().collect::<Vec<_>>();

    let found = (0..text.len())
        .filter(|el| keep.ends_with_word(&text, el))
        .collect::<Vec<_>>();

    assert_eq!(found, vec![10, 49]);
}
