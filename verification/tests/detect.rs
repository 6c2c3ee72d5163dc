use mdslw::detect::{BreakCfg, BreakDetector};

const TEXT_FOR_TESTS: &str = "Lorem iPsum doLor SiT aMeT. ConSectEtur adIpiSciNg ELiT.";

#[test]
fn detect_case_insensitive_match() {
    let detector = BreakDetector::new(
        "ipsum sit adipiscing",
        "",
        false,
        "",
        &BreakCfg {
            keep_linebreaks: false,
            allow_multiple_markers: true,
            allow_start_marker: true,
        },
    );
    let text = TEXT_FOR_TESTS.chars().collect::<Vec<_>>();

    let found = (0..text.len())
        .filter(|el| detector.ends_with_keep_word(&text, el))
        .collect::<Vec<_>>();

    assert_eq!(found, vec![10, 20, 49]);
}

#[test]
fn detect_case_sensitive_match() {
    let detector = BreakDetector::new(
        "ipsum SiT adipiscing",
        "",
        true,
        "",
        &BreakCfg {
            keep_linebreaks: false,
            allow_multiple_markers: true,
            allow_start_marker: true,
        },
    );
    let text = TEXT_FOR_TESTS.chars().collect::<Vec<_>>();

    let found = (0..text.len())
        .filter(|el| detector.ends_with_keep_word(&text, el))
        .collect::<Vec<_>>();

    assert_eq!(found, vec![20]);
}

#[test]
fn detect_matches_at_start_and_end() {
    let detector = BreakDetector::new(
        "lorem elit.",
        "",
        false,
        "",
        &BreakCfg {
            keep_linebreaks: false,
            allow_multiple_markers: true,
            allow_start_marker: true,
        },
    );
    let text = TEXT_FOR_TESTS.chars().collect::<Vec<_>>();

    // Try to search outside the text's range, which will never match.
    let found = (0..text.len() + 5)
        .filter(|el| detector.ends_with_keep_word(&text, el))
        .collect::<Vec<_>>();

    assert_eq!(found, vec![4, 55]);
}

#[test]
fn detect_ignoring_words_case_sensitively() {
    let detector = BreakDetector::new(
        "ipsum SiT adipiscing",
        "SiT",
        true,
        "",
        &BreakCfg {
            keep_linebreaks: false,
            allow_multiple_markers: true,
            allow_start_marker: true,
        },
    );
    let text = TEXT_FOR_TESTS.chars().collect::<Vec<_>>();

    let found = (0..text.len())
        .filter(|el| detector.ends_with_keep_word(&text, el))
        .collect::<Vec<_>>();

    assert_eq!(found, vec![]);
}

#[test]
fn detect_ignoring_words_case_insensitively() {
    let detector = BreakDetector::new(
        "ipsum sit adipiscing",
        "sit",
        false,
        "",
        &BreakCfg {
            keep_linebreaks: false,
            allow_multiple_markers: true,
            allow_start_marker: true,
        },
    );
    let text = TEXT_FOR_TESTS.chars().collect::<Vec<_>>();

    let found = (0..text.len())
        .filter(|el| detector.ends_with_keep_word(&text, el))
        .collect::<Vec<_>>();

    assert_eq!(found, vec![10, 49]);
}

#[test]
fn detect_ingores_that_are_no_suppressions_are_ignored() {
    let detector = BreakDetector::new(
        "ipsum sit adipiscing",
        "sit asdf blub muhaha",
        false,
        "",
        &BreakCfg {
            keep_linebreaks: false,
            allow_multiple_markers: true,
            allow_start_marker: true,
        },
    );
    let text = TEXT_FOR_TESTS.chars().collect::<Vec<_>>();

    let found = (0..text.len())
        .filter(|el| detector.ends_with_keep_word(&text, el))
        .collect::<Vec<_>>();

    assert_eq!(found, vec![10, 49]);
}
