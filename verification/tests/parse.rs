use std::collections::HashMap;

use mdslw::detect::WhitespaceDetector;
use mdslw::parse::{
    get_value_for_mdslw_toml_yaml_key, merge_ranges, whitespace_indices, BlockQuotes,
};
use mdslw::ranges::CharRange;

#[test]
fn detect_whitespace() {
    let text = "some test with witespace at 	some\nlocations";
    let detected = whitespace_indices(text, &WhitespaceDetector::new(false));
    let expected = vec![
        (4, ' '),
        (9, ' '),
        (14, ' '),
        (24, ' '),
        (27, ' '),
        (28, '\t'),
        (33, '\n'),
    ]
    .into_iter()
    .collect::<HashMap<_, _>>();

    assert_eq!(expected, detected);
}

#[test]
fn merging_ranges() {
    let ranges = vec![
        CharRange { start: 0, end: 4 },
        CharRange { start: 5, end: 9 },
        CharRange { start: 11, end: 15 },
        CharRange { start: 11, end: 14 },
        CharRange { start: 16, end: 19 },
        CharRange { start: 23, end: 36 },
    ];
    let whitespace = whitespace_indices(
        "some text\n\nmore text | even more text",
        &WhitespaceDetector::new(false),
    );

    let merged = merge_ranges(ranges, &whitespace);

    let expected = vec![
        CharRange { start: 0, end: 9 },
        CharRange { start: 11, end: 19 },
        CharRange { start: 23, end: 36 },
    ];

    assert_eq!(expected, merged);
}

#[test]
fn applying_to_no_block_quotes_remains_unchanged() {
    let text = r#"
## Some Heading

Some text without block quotes.

<!-- some html -->

- More text.
- More text.
  - Even more text.
  - Some text with a [link].

```code
some code
```

[link]: https://something.com "some link"
"#;

    let unchanged = BlockQuotes::new(text).apply_to_matches_and_join(|_, _| String::new());
    assert_eq!(text.to_string(), unchanged);
}

#[test]
fn applying_to_block_quotes() {
    let text = r#"
## Some Heading

Some text with block quotes.

> This first text is block quoted.
>
>> This text is quoted at the second level.
>
> Some more quotes at the first level.

<!-- some html -->

- More text.
- More text.
  - Even more text.
  - Some text with a [link].

> This second text is also block quoted.
>
> > This text is quoted at the second level.
>
> Some more quotes at the first level.

- Some text.

  > This third text is block quoted but inside an itemization.
  >
  >> This text is quoted at the second level.
  >
  > Some more quotes at the first level.

  More text.

[link]: https://something.com "some link"
"#;

    let expected = r#"
## Some Heading

Some text with block quotes.

> 2:115
> 2:115
> 2:115

<!-- some html -->

- More text.
- More text.
  - Even more text.
  - Some text with a [link].

> 2:121
> 2:121
> 2:121

- Some text.

  > 4:141
  > 4:141
  > 4:141

  More text.

[link]: https://something.com "some link"
"#;

    let changed = BlockQuotes::new(text).apply_to_matches_and_join(|s, i| {
        format!("{}:{}\n{}:{}\n{}:{}\n", i, s.len(), i, s.len(), i, s.len())
    });
    assert_eq!(expected, changed);
}

#[test]
fn flattening_vecs_of_char_ranges_retains_ranges() {
    let to_be_flattened = vec![
        vec![CharRange { start: 0, end: 10 }],
        vec![
            CharRange {
                start: 100,
                end: 110,
            },
            CharRange {
                start: 200,
                end: 210,
            },
        ],
    ];
    let flat = to_be_flattened.into_iter().flatten().collect::<Vec<_>>();
    let expected = vec![
        CharRange { start: 0, end: 10 },
        CharRange {
            start: 100,
            end: 110,
        },
        CharRange {
            start: 200,
            end: 210,
        },
    ];
    assert_eq!(expected, flat);
}

const YAML_CONFIG_KEY: &str = "mdslw-toml";

fn build_yaml(
    key: &str,
    space_before_colon: bool,
    block_marker: &str,
    indent_spaces: usize,
    content: &str,
) -> String {
    let indent = (0..indent_spaces).map(|_| " ").collect::<String>();
    let indented = content
        .lines()
        .map(|line| format!("{}{}\n", indent, line))
        .collect::<String>();
    let maybe_space = if space_before_colon { " " } else { "" };
    let result = format!("{}{}: {}\n{}", key, maybe_space, block_marker, indented);
    // Ensure that values were filled in.
    assert_ne!(result, String::from(": \n"));
    result
}

const YAML_BASE_CONTENT: &str = "\nsome content with an empty line\n\nat the beginning and in the middle";

#[test]
fn building_yaml() {
    let yaml = build_yaml(YAML_CONFIG_KEY, true, "|", 4, YAML_BASE_CONTENT);
    let expected = "mdslw-toml : |\n    \n    some content with an empty line\n    \n    at the beginning and in the middle\n";
    assert_eq!(yaml, expected);
}

#[test]
fn extracting_yaml_string_pipe_block_markers() {
    for has_space in [true, false] {
        for marker in ["|", "|-", "|+"] {
            let yaml = build_yaml(YAML_CONFIG_KEY, has_space, marker, 4, YAML_BASE_CONTENT);
            let extracted = get_value_for_mdslw_toml_yaml_key(&yaml);
            assert_eq!(extracted, YAML_BASE_CONTENT);
        }
    }
}

#[test]
fn extracting_yaml_string_angle_block_markers() {
    let expected = " some content with an empty line\nat the beginning and in the middle";
    for has_space in [true, false] {
        for marker in [">", ">-", ">+"] {
            let yaml = build_yaml(YAML_CONFIG_KEY, has_space, marker, 4, YAML_BASE_CONTENT);
            let extracted = get_value_for_mdslw_toml_yaml_key(&yaml);
            assert_eq!(extracted, expected);
        }
    }
}

#[test]
fn extracting_yaml_string_pipe_block_markers_wrong_key() {
    let key = "some-other-key";
    assert_ne!(key, YAML_CONFIG_KEY);
    for has_space in [true, false] {
        for marker in ["|", "|-", "|+"] {
            let yaml = build_yaml(key, has_space, marker, 4, YAML_BASE_CONTENT);
            let extracted = get_value_for_mdslw_toml_yaml_key(&yaml);
            assert_eq!(extracted, String::new());
        }
    }
}

#[test]
fn extracting_yaml_string_angle_block_markers_wrong_key() {
    let key = "some-other-key";
    assert_ne!(key, YAML_CONFIG_KEY);
    for has_space in [true, false] {
        for marker in [">", ">-", ">+"] {
            let yaml = build_yaml(key, has_space, marker, 4, YAML_BASE_CONTENT);
            let extracted = get_value_for_mdslw_toml_yaml_key(&yaml);
            assert_eq!(extracted, String::new());
        }
    }
}

#[test]
fn extracting_yaml_string_empty_content() {
    let key = "some-other-key";
    for has_space in [true, false] {
        for marker in ["|", "|-", "|+"] {
            let yaml = build_yaml(YAML_CONFIG_KEY, has_space, marker, 4, "")
                + build_yaml(key, has_space, marker, 4, "").as_str();
            let extracted = get_value_for_mdslw_toml_yaml_key(&yaml);
            assert_eq!(extracted, "");
        }
    }
}
