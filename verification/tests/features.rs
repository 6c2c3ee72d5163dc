use mdslw::cfg::{KeepWhitespace, LinkActions};
use mdslw::detect::BreakCfg;
use mdslw::features::FeatureCfg;
use mdslw::parse::ParseCfg;

#[test]
fn swapping_all_features_and_disregard_whitspace() -> Result<(), String> {
    let default = FeatureCfg::default();
    let swapped = FeatureCfg {
        keep_spaces_in_links: !default.keep_spaces_in_links,
        format_block_quotes: !default.format_block_quotes,
        collate_link_defs: !default.collate_link_defs,
        outsource_inline_links: !default.outsource_inline_links,
        parse_cfg: ParseCfg {
            keep_linebreaks: !default.parse_cfg.keep_linebreaks,
        },
        break_cfg: BreakCfg {
            keep_linebreaks: !default.break_cfg.keep_linebreaks,
            allow_multiple_markers: default.break_cfg.allow_multiple_markers,
            allow_start_marker: default.break_cfg.allow_start_marker,
        },
    };

    let parsed =
        "keep-spaces-in-links , keep-linebreaks ,format-block-quotes, collate-link-defs,outsource-inline-links"
            .parse::<FeatureCfg>()?;

    assert_eq!(parsed, swapped);
    Ok(())
}

#[test]
fn failure_to_parse() -> Result<(), String> {
    let parsed = "unknown".parse::<FeatureCfg>();
    assert!(parsed.is_err());
    Ok(())
}

#[test]
fn link_actions_outsource_inline() -> Result<(), String> {
    let cfg = FeatureCfg::from_flags("", Some(LinkActions::OutsourceInline), None, false)?;
    assert!(cfg.outsource_inline_links);
    assert!(!cfg.collate_link_defs);
    Ok(())
}

#[test]
fn link_actions_collate_defs() -> Result<(), String> {
    let cfg = FeatureCfg::from_flags("", Some(LinkActions::CollateDefs), None, false)?;
    assert!(!cfg.outsource_inline_links);
    assert!(cfg.collate_link_defs);
    Ok(())
}

#[test]
fn link_actions_both() -> Result<(), String> {
    let cfg = FeatureCfg::from_flags("", Some(LinkActions::Both), None, false)?;
    assert!(cfg.outsource_inline_links);
    assert!(cfg.collate_link_defs);
    Ok(())
}

#[test]
fn keep_whitespace_in_links() -> Result<(), String> {
    let cfg = FeatureCfg::from_flags("", None, Some(KeepWhitespace::InLinks), false)?;
    assert!(cfg.keep_spaces_in_links);
    assert!(!cfg.parse_cfg.keep_linebreaks);
    assert!(!cfg.break_cfg.keep_linebreaks);
    Ok(())
}

#[test]
fn keep_whitespace_linebreaks() -> Result<(), String> {
    let cfg = FeatureCfg::from_flags("", None, Some(KeepWhitespace::Linebreaks), false)?;
    assert!(!cfg.keep_spaces_in_links);
    assert!(cfg.parse_cfg.keep_linebreaks);
    assert!(cfg.break_cfg.keep_linebreaks);
    Ok(())
}

#[test]
fn keep_whitespace_both() -> Result<(), String> {
    let cfg = FeatureCfg::from_flags("", None, Some(KeepWhitespace::Both), false)?;
    assert!(cfg.keep_spaces_in_links);
    assert!(cfg.parse_cfg.keep_linebreaks);
    assert!(cfg.break_cfg.keep_linebreaks);
    Ok(())
}

#[test]
fn format_block_quotes_flag() -> Result<(), String> {
    let cfg = FeatureCfg::from_flags("", None, None, true)?;
    assert!(cfg.format_block_quotes);
    Ok(())
}

#[test]
fn new_flags_override_legacy_features() -> Result<(), String> {
    // Legacy string enables outsource-inline-links, but new flag overrides to collate-defs
    let cfg = FeatureCfg::from_flags(
        "outsource-inline-links",
        Some(LinkActions::CollateDefs),
        None,
        false,
    )?;
    // New flag wins
    assert!(cfg.collate_link_defs);
    // But legacy is still applied first
    assert!(cfg.outsource_inline_links);
    Ok(())
}

#[test]
fn combining_all_new_flags() -> Result<(), String> {
    let cfg = FeatureCfg::from_flags(
        "",
        Some(LinkActions::Both),
        Some(KeepWhitespace::Both),
        true,
    )?;
    assert!(cfg.outsource_inline_links);
    assert!(cfg.collate_link_defs);
    assert!(cfg.keep_spaces_in_links);
    assert!(cfg.parse_cfg.keep_linebreaks);
    assert!(cfg.break_cfg.keep_linebreaks);
    assert!(cfg.format_block_quotes);
    Ok(())
}
