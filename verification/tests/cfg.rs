use mdslw::cfg::{Case, CfgFile};

#[test]
fn merging_two_partially_defined_config_files() {
    let mut main_cfg = CfgFile {
        max_width: Some(10),
        end_markers: None,
        lang: None,
        suppressions: None,
        ignores: Some("some words".into()),
        upstream: None,
        case: None,
        features: None,
    };
    let other_cfg = CfgFile {
        max_width: None,
        end_markers: None,
        lang: Some("ac".into()),
        suppressions: None,
        ignores: None,
        upstream: None,
        case: None,
        features: Some("feature".into()),
    };

    let fully_defined = main_cfg.merge_with(&other_cfg);
    assert!(!fully_defined);

    let expected_cfg = CfgFile {
        max_width: Some(10),
        end_markers: None,
        lang: Some("ac".into()),
        suppressions: None,
        ignores: Some("some words".into()),
        upstream: None,
        case: None,
        features: Some("feature".into()),
    };

    assert_eq!(expected_cfg, main_cfg);
}

#[test]
fn options_in_main_config_are_kept() {
    let mut main_cfg = CfgFile {
        max_width: Some(10),
        end_markers: None,
        lang: None,
        suppressions: None,
        ignores: Some("some words".into()),
        upstream: None,
        case: None,
        features: None,
    };
    let other_cfg = CfgFile {
        max_width: Some(20),
        end_markers: None,
        lang: None,
        suppressions: None,
        ignores: Some("some other words".into()),
        upstream: None,
        case: None,
        features: None,
    };
    assert_ne!(main_cfg, other_cfg);

    let fully_defined = main_cfg.merge_with(&other_cfg);
    assert!(!fully_defined);

    let expected_cfg = CfgFile {
        max_width: Some(10),
        end_markers: None,
        lang: None,
        suppressions: None,
        ignores: Some("some words".into()),
        upstream: None,
        case: None,
        features: None,
    };

    assert_eq!(expected_cfg, main_cfg);
}

#[test]
fn fully_defined_config_is_immutable() {
    let mut main_cfg = CfgFile {
        max_width: None,
        end_markers: None,
        lang: None,
        suppressions: None,
        ignores: None,
        upstream: None,
        case: None,
        features: None,
    };
    let missing_options = CfgFile {
        max_width: Some(20),
        end_markers: Some("marker".into()),
        lang: Some("lang".into()),
        suppressions: Some("suppressions".into()),
        ignores: Some("some other words".into()),
        upstream: Some("upstream".into()),
        case: Some(Case::Ignore),
        features: Some("feature".into()),
    };
    let other_options = CfgFile {
        max_width: Some(10),
        end_markers: Some("nothing".into()),
        lang: Some("asdf".into()),
        suppressions: Some("just text".into()),
        ignores: Some("ignore this".into()),
        upstream: Some("swimming is nice".into()),
        case: Some(Case::Keep),
        features: Some("everything".into()),
    };

    let fully_defined = main_cfg.merge_with(&missing_options);
    assert!(fully_defined);
    let fully_defined = main_cfg.merge_with(&other_options);
    assert!(fully_defined);

    let expected_cfg = CfgFile {
        max_width: Some(20),
        end_markers: Some("marker".into()),
        lang: Some("lang".into()),
        suppressions: Some("suppressions".into()),
        ignores: Some("some other words".into()),
        upstream: Some("upstream".into()),
        case: Some(Case::Ignore),
        features: Some("feature".into()),
    };

    assert_eq!(expected_cfg, main_cfg);
}
