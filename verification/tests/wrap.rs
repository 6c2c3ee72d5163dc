use mdslw::detect::{BreakCfg, BreakDetector, WhitespaceDetector};
use mdslw::ranges::{CharRange, TextRange, WrapType};
use mdslw::wrap::{add_linebreaks_and_wrap, wrap_long_line_and_collapse_inline_whitespace};

#[test]
fn wrapping_long_sentence() {
    let sentence = "this sentence is not that long but will be wrapped";
    let sentence_idx = 0;
    let max_width = 11;
    let indent = "  ";
    let wrapped = wrap_long_line_and_collapse_inline_whitespace(
        sentence,
        sentence_idx,
        &Some(max_width),
        indent,
        &WhitespaceDetector::new(false),
    );

    // No indent for the start of the sentence due to the sentence_idx.
    let expected = vec![
        "this",
        "  sentence",
        "  is not",
        "  that long",
        "  but will",
        "  be",
        "  wrapped",
    ];

    assert_eq!(expected, wrapped);
}

#[test]
fn wrapping_long_sentence_that_is_not_the_first() {
    let sentence = "some sentence with words";
    let sentence_idx = 1;
    let max_width = 5;
    // Indent will be copied, does not have to be whitespace.
    let indent = "|";
    let wrapped = wrap_long_line_and_collapse_inline_whitespace(
        sentence,
        sentence_idx,
        &Some(max_width),
        indent,
        &WhitespaceDetector::new(false),
    );

    // Note the indent for the start of the sentence due to the sentence_idx.
    let expected = vec!["|some", "|sentence", "|with", "|words"];

    assert_eq!(expected, wrapped);
}

#[test]
fn not_wrapping_long_sentence_unless_requested() {
    let sentence = "this sentence is somewhat long but will not be wrapped";
    let sentence_idx = 0;
    let indent = "  ";
    let wrapped = wrap_long_line_and_collapse_inline_whitespace(
        sentence,
        sentence_idx,
        &None,
        indent,
        &WhitespaceDetector::new(false),
    );

    let expected = vec![sentence];

    assert_eq!(expected, wrapped);
}

#[test]
fn adding_linebreaks_after_sentences() {
    let ranges = vec![
        TextRange {
            wrap: WrapType::Indent(0),
            range: CharRange { start: 0, end: 33 },
        },
        // The pipe should remain verbatim.
        TextRange {
            wrap: WrapType::Verbatim,
            range: CharRange { start: 33, end: 36 },
        },
        TextRange {
            wrap: WrapType::Indent(3),
            range: CharRange { start: 36, end: 74 },
        },
    ];
    let text = String::from(
        "Some text. It contains sentences. | It's separated in two. Parts, that is.",
    );
    let detector = BreakDetector::new("", "", false, ".", &BreakCfg {
            keep_linebreaks: false,
            allow_multiple_markers: true,
            allow_start_marker: true,
        });

    let wrapped = add_linebreaks_and_wrap(ranges, &None, &detector, &text);

    // Whitespace at the start of a range is also merged into one space.
    let expected = String::from(
        "Some text.\nIt contains sentences. | It's separated in two.\n   Parts, that is.",
    );
    assert_eq!(expected, wrapped);
}

#[test]
fn adding_linebreaks_after_sentences_with_keep_words() {
    let ranges = vec![TextRange {
        wrap: WrapType::Indent(0),
        range: CharRange { start: 0, end: 33 },
    }];
    let text = String::from("Some text. It contains sentences.");
    let detector = BreakDetector::new("TEXT.", "", false, ".", &BreakCfg {
            keep_linebreaks: false,
            allow_multiple_markers: true,
            allow_start_marker: true,
        });

    let wrapped = add_linebreaks_and_wrap(ranges, &None, &detector, &text);

    let expected = String::from("Some text. It contains sentences.");
    assert_eq!(expected, wrapped);
}
