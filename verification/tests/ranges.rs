use mdslw::ranges::{fill_markdown_ranges, find_line_start, line_ranges, CharRange, TextRange, WrapType};

#[test]
fn finding_line_start() {
    let ranges = vec![
        CharRange { start: 0, end: 10 },
        CharRange { start: 10, end: 12 },
        CharRange { start: 22, end: 31 },
        CharRange { start: 31, end: 33 },
    ];

    for (point, expected) in [
        (5, Some(0)),
        (10, Some(10)),
        (15, None),
        (22, Some(22)),
        (28, Some(22)),
        (30, Some(22)),
        (31, Some(31)),
        (35, None),
    ] {
        let start = find_line_start(point, &ranges);
        assert_eq!(expected, start);
    }
}

#[test]
fn getting_line_ranges() {
    let text = "\ntext\nmore text\n\neven more text\n";
    let ranges = line_ranges(text);
    let expected = vec![
        CharRange { start: 0, end: 1 },
        CharRange { start: 1, end: 6 },
        CharRange { start: 6, end: 16 },
        CharRange { start: 16, end: 17 },
        CharRange { start: 17, end: 32 },
    ];
    assert_eq!(expected, ranges);
}

#[test]
fn filling_ranges() {
    let text = "\ntext\nmore text\n\neven more text\n";
    let wrap_ranges = vec![
        CharRange { start: 1, end: 6 },
        CharRange { start: 22, end: 26 },
        CharRange { start: 31, end: 32 },
    ];
    let filled = fill_markdown_ranges(wrap_ranges, text);

    let expected = vec![
        TextRange {
            wrap: WrapType::Verbatim,
            range: CharRange { start: 0, end: 1 },
        },
        TextRange {
            wrap: WrapType::Indent(0),
            range: CharRange { start: 1, end: 6 },
        },
        TextRange {
            wrap: WrapType::Verbatim,
            range: CharRange { start: 6, end: 22 },
        },
        TextRange {
            wrap: WrapType::Indent(5),
            range: CharRange { start: 22, end: 26 },
        },
        TextRange {
            wrap: WrapType::Verbatim,
            range: CharRange { start: 26, end: 31 },
        },
        TextRange {
            wrap: WrapType::Indent(14),
            range: CharRange { start: 31, end: 32 },
        },
    ];

    assert_eq!(expected.len(), filled.len());
    for (v1, v2) in expected.into_iter().zip(filled) {
        assert_eq!(v1, v2);
    }
}
