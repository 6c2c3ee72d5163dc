use mdslw::call::Upstream;
use mdslw::cfg::ReportMode;
use mdslw::detect::{BreakCfg, BreakDetector, WhitespaceDetector};
use mdslw::lang::keep_word_list;
use mdslw::linebreak::{insert_linebreaks_after_sentence_ends, normalise_linebreaks};
use mdslw::parse::{merge_ranges, parse_markdown, whitespace_indices, ParseCfg};
use mdslw::ranges::{fill_markdown_ranges, CharRange};
use mdslw::wrap::{add_linebreaks_and_wrap, wrap_long_line_and_collapse_inline_whitespace};

fn plain_detector(end_markers: &str) -> BreakDetector {
    BreakDetector::new("", "", false, end_markers, &BreakCfg {
            keep_linebreaks: false,
            allow_multiple_markers: true,
            allow_start_marker: true,
        })
}

#[test]
fn whitespace_merge_is_idempotent() {
    let det = WhitespaceDetector::new(false);
    let text = "one\nline  and\n\nanother\u{a0}\nthing\n";
    let once = normalise_linebreaks(text, &det);
    let twice = normalise_linebreaks(&once, &det);
    assert_eq!(once, twice);
}

#[test]
fn unconstrained_width_never_splits_a_sentence() {
    let sentence = "a very long sentence that would surely be wrapped at any finite width whatsoever";
    let lines = wrap_long_line_and_collapse_inline_whitespace(
        sentence,
        0,
        &None,
        "  ",
        &WhitespaceDetector::new(false),
    );
    assert_eq!(lines.len(), 1);
    assert_eq!(lines[0], sentence);
}

#[test]
fn verbatim_only_document_round_trips() {
    let text = "```\nsome code. that stays! untouched?\n```\n";
    let parsed = parse_markdown(text, &ParseCfg { keep_linebreaks: false });
    let filled = fill_markdown_ranges(parsed, text);
    let det = plain_detector("?!:.");
    let formatted = add_linebreaks_and_wrap(filled, &Some(80), &det, text);
    assert_eq!(formatted, text.trim_end());
}

#[test]
fn suppression_word_suppresses_the_break() {
    let with_suppression = BreakDetector::new(
        "e.g.",
        "",
        false,
        ".",
        &BreakCfg {
            keep_linebreaks: false,
            allow_multiple_markers: true,
            allow_start_marker: true,
        },
    );
    let broken = insert_linebreaks_after_sentence_ends("See e.g. this", &with_suppression);
    assert_eq!(broken, "See e.g. this");

    let without = plain_detector(".");
    let broken = insert_linebreaks_after_sentence_ends("End of sentence. Next", &without);
    assert_eq!(broken, "End of sentence.\nNext");
}

#[test]
fn keep_word_needs_a_word_boundary() {
    let detector = BreakDetector::new("g.", "", false, ".", &BreakCfg {
            keep_linebreaks: false,
            allow_multiple_markers: true,
            allow_start_marker: true,
        });
    // Inside "dog." the character before the match start is alphanumeric,
    // so the keep word does not fire and the sentence is split.
    let broken = insert_linebreaks_after_sentence_ends("the dog. barks", &detector);
    assert_eq!(broken, "the dog.\nbarks");
    // After "e.g." the match start is preceded by a dot, which is no word
    // character, so the keep word applies there.
    let broken = insert_linebreaks_after_sentence_ends("see e.g. this", &detector);
    assert_eq!(broken, "see e.g. this");
}

#[test]
fn paragraph_breaks_are_never_merged() {
    // Two wrappable ranges separated by a blank line, which is two
    // linebreaks, stay separate.
    let text = "one two\n\nthree four";
    let ws = whitespace_indices(text, &WhitespaceDetector::new(false));
    let ranges = vec![CharRange { start: 0, end: 7 }, CharRange { start: 9, end: 19 }];
    let merged = merge_ranges(ranges, &ws);
    assert_eq!(
        merged,
        vec![CharRange { start: 0, end: 7 }, CharRange { start: 9, end: 19 }]
    );

    // Separated by a single linebreak or plain spaces, they are merged.
    let text = "one two\nthree four";
    let ws = whitespace_indices(text, &WhitespaceDetector::new(false));
    let ranges = vec![CharRange { start: 0, end: 7 }, CharRange { start: 8, end: 18 }];
    let merged = merge_ranges(ranges, &ws);
    assert_eq!(merged, vec![CharRange { start: 0, end: 18 }]);
}

#[test]
fn end_to_end_sentence_breaking() {
    let text = "Some text. It contains sentences.";
    let parsed = parse_markdown(text, &ParseCfg { keep_linebreaks: false });
    let filled = fill_markdown_ranges(parsed, text);
    let det = plain_detector(".");
    let formatted = add_linebreaks_and_wrap(filled, &None, &det, text);
    assert_eq!(formatted, "Some text.\nIt contains sentences.");
}

#[test]
fn case_sensitivity_toggle() {
    let preserved = BreakDetector::new("SiT.", "", true, ".", &BreakCfg {
            keep_linebreaks: false,
            allow_multiple_markers: true,
            allow_start_marker: true,
        });
    assert_eq!(
        insert_linebreaks_after_sentence_ends("please SiT. down", &preserved),
        "please SiT. down"
    );
    assert_eq!(
        insert_linebreaks_after_sentence_ends("please sit. down", &preserved),
        "please sit.\ndown"
    );

    let folded = BreakDetector::new("SiT.", "", false, ".", &BreakCfg {
            keep_linebreaks: false,
            allow_multiple_markers: true,
            allow_start_marker: true,
        });
    for text in ["please sit. down", "please SIT. down", "please Sit. down"] {
        let broken = insert_linebreaks_after_sentence_ends(text, &folded);
        assert_eq!(broken, text, "suppression should fire in: {}", text);
    }
}

#[test]
fn parsing_markdown_finds_the_prose() {
    let text = "\n## Some Heading\n\nSome text.\n\n<!-- some html -->\n\n- More text.\n- More text.\n  - Even more text.\n  - Some text with a [link].\n\n```code\nsome code\n```\n\n[link]: https://something.com \"some link\"\n";
    let parsed = parse_markdown(text, &ParseCfg { keep_linebreaks: false });

    let expected = vec![
        CharRange { start: 18, end: 28 },
        CharRange { start: 52, end: 62 },
        CharRange { start: 65, end: 75 },
        CharRange { start: 80, end: 95 },
        CharRange {
            start: 100,
            end: 124,
        },
    ];

    assert_eq!(expected, parsed);
}

#[test]
fn ignore_regions_freeze_the_document() {
    let text = "<!-- mdslw-ignore-start -->\nSome text. With sentences.\n<!-- mdslw-ignore-end -->\n";
    let parsed = parse_markdown(text, &ParseCfg { keep_linebreaks: false });
    let filled = fill_markdown_ranges(parsed, text);
    let det = plain_detector(".");
    let formatted = add_linebreaks_and_wrap(filled, &None, &det, text);
    assert_eq!(formatted, text.trim_end());
}

#[test]
fn known_languages_give_suppressions() {
    let words = keep_word_list("en").expect("the english list is built in");
    assert!(words.contains("e.g."));
    let words = keep_word_list("none").expect("none means the empty list");
    assert_eq!(words, "");
    let both = keep_word_list("en de").expect("both lists are built in");
    assert!(both.contains("e.g.") && both.contains("z.B."));
}

#[test]
fn unknown_language_is_reported() {
    let err = keep_word_list("en xx").unwrap_err();
    assert_eq!(err, "unknown or unsupported language xx");
}

#[test]
fn upstream_command_extraction() {
    let upstream = Upstream::from_cfg("prettier", "--parser markdown", "").expect("command given");
    assert_eq!(upstream.cmd, "prettier");
    assert_eq!(upstream.args, vec!["--parser", "markdown"]);

    let upstream = Upstream::from_cfg("", "prettier --parser=markdown", "").expect("from args");
    assert_eq!(upstream.cmd, "prettier");
    assert_eq!(upstream.args, vec!["--parser=markdown"]);

    let upstream = Upstream::from_cfg("", "cmd::a b::c", "::").expect("separator given");
    assert_eq!(upstream.cmd, "cmd");
    assert_eq!(upstream.args, vec!["a b", "c"]);

    assert!(Upstream::from_cfg("", "", "").is_err());
}

#[test]
fn report_modes_that_are_diffs() {
    assert!(ReportMode::DiffMeyers.is_diff_mode());
    assert!(ReportMode::DiffPatience.is_diff_mode());
    assert!(ReportMode::DiffLcs.is_diff_mode());
    assert!(!ReportMode::Silent.is_diff_mode());
    assert!(!ReportMode::Changed.is_diff_mode());
    assert!(!ReportMode::State.is_diff_mode());
}

#[test]
fn greedy_wrap_applies_to_long_sentences() {
    let text = "this sentence is not that long but will be wrapped";
    let parsed = parse_markdown(text, &ParseCfg { keep_linebreaks: false });
    let filled = fill_markdown_ranges(parsed, text);
    let det = plain_detector(".");
    let formatted = add_linebreaks_and_wrap(filled, &Some(11), &det, text);
    assert_eq!(
        formatted,
        "this\nsentence is\nnot that\nlong but\nwill be\nwrapped"
    );
}

#[test]
fn repeated_markers_follow_the_policy() {
    let permissive = BreakDetector::new("", "", false, "?!", &BreakCfg {
        keep_linebreaks: false,
        allow_multiple_markers: true,
        allow_start_marker: true,
    });
    assert_eq!(
        insert_linebreaks_after_sentence_ends("what?! now", &permissive),
        "what?!\nnow"
    );

    let restrictive = BreakDetector::new("", "", false, "?!", &BreakCfg {
        keep_linebreaks: false,
        allow_multiple_markers: false,
        allow_start_marker: true,
    });
    assert_eq!(
        insert_linebreaks_after_sentence_ends("what?! now", &restrictive),
        "what?! now"
    );
}

#[test]
fn line_start_markers_follow_the_policy() {
    // The marker sits at the very start of the text, and also right after a
    // kept linebreak, which a non-breaking space escapes.
    for text in [". x", "a\u{a0}\n. x"] {
        let permissive = BreakDetector::new("", "", false, ".", &BreakCfg {
            keep_linebreaks: false,
            allow_multiple_markers: true,
            allow_start_marker: true,
        });
        let broken = insert_linebreaks_after_sentence_ends(text, &permissive);
        assert!(broken.contains(".\nx"), "expected a break in: {}", broken);

        let restrictive = BreakDetector::new("", "", false, ".", &BreakCfg {
            keep_linebreaks: false,
            allow_multiple_markers: true,
            allow_start_marker: false,
        });
        let broken = insert_linebreaks_after_sentence_ends(text, &restrictive);
        assert_eq!(broken, text, "expected no break in: {}", text);
    }
}

#[test]
fn match_start_must_not_follow_alphanumeric() {
    // The keep word starts with a non-word character; it still may not
    // match right after an alphanumeric character.
    let detector = BreakDetector::new(".g.", "", false, ".", &BreakCfg {
        keep_linebreaks: false,
        allow_multiple_markers: true,
        allow_start_marker: true,
    });
    assert_eq!(
        insert_linebreaks_after_sentence_ends("a.g. next", &detector),
        "a.g.\nnext"
    );
    assert_eq!(
        insert_linebreaks_after_sentence_ends("x .g. next", &detector),
        "x .g. next"
    );
}

#[test]
fn whitespace_set_matches_the_unicode_property() {
    let white_space: Vec<char> = vec![
        '\u{0009}', '\u{000a}', '\u{000b}', '\u{000c}', '\u{000d}', '\u{0020}', '\u{0085}',
        '\u{00a0}', '\u{1680}', '\u{2000}', '\u{2001}', '\u{2002}', '\u{2003}', '\u{2004}',
        '\u{2005}', '\u{2006}', '\u{2007}', '\u{2008}', '\u{2009}', '\u{200a}', '\u{2028}',
        '\u{2029}', '\u{202f}', '\u{205f}', '\u{3000}',
    ];
    for u in 0..=0x10ffffu32 {
        if let Some(c) = char::from_u32(u) {
            assert_eq!(
                mdslw::unicode::char_is_unicode_whitespace(c),
                white_space.contains(&c),
                "whitespace disagreement at U+{:04X}",
                u
            );
        }
    }
}
