use mdslw::detect::{BreakCfg, BreakDetector, WhitespaceDetector};
use mdslw::linebreak::{find_sentence_ends, insert_linebreaks_after_sentence_ends, normalise_linebreaks, Mark};

#[test]
fn finding_sentence_ends() {
    let text = "words that. are. followed by. periods. period.";
    let detector = BreakDetector::new(
        "are. by.",
        "",
        false,
        ".",
        &BreakCfg {
            keep_linebreaks: false,
            allow_multiple_markers: true,
            allow_start_marker: true,
        },
    );

    let ends = find_sentence_ends(text, &detector);

    // We never detect a sentence at and the end of the text.
    let expected = vec![
        Mark::Skip(11),
        Mark::Split(12),
        Mark::Skip(38),
        Mark::Split(39),
    ];

    assert_eq!(expected, ends);
}

#[test]
fn normalising_linebreaks() {
    // All whitespace, including tabs, is merged into single spaces; breaks
    // escaped by a non-breaking space survive.
    let text = " \n text with \t lots\n\u{a0}\nof   white\u{a0}\n     space\u{a0}    \t   ";
    let expected = "   text with \t lots \u{a0}\nof   white\u{a0}\n     space\u{a0}    \t   ";

    let merged = normalise_linebreaks(text, &WhitespaceDetector::new(false));

    assert_eq!(expected, merged);
}

#[test]
fn inserting_linebreaks_between_sentences() {
    let text = "words that. are. followed by. periods. period.";
    let detector = BreakDetector::new(
        "are. by.",
        "",
        false,
        ".",
        &BreakCfg {
            keep_linebreaks: false,
            allow_multiple_markers: true,
            allow_start_marker: true,
        },
    );

    let broken = insert_linebreaks_after_sentence_ends(text, &detector);

    // We never detect a sentence at and the end of the text.
    let expected = "words that.\nare. followed by. periods.\nperiod.";

    assert_eq!(expected, broken);
}
