//! Optional feature switches and their parsing.

use crate::cfg::{KeepWhitespace, LinkActions};
use crate::detect::BreakCfg;
use crate::kwmatch::{split_unicode_ws, uws};
use crate::parse::ParseCfg;
use crate::unicode::{chars_eq_str, chars_to_string, str_to_chars};
use crate::words::{join_sep, split_char, split_ws};
use vstd::prelude::*;

verus! {

/// The feature configuration of one document run.
#[derive(Debug, PartialEq)]
pub struct FeatureCfg {
    pub keep_spaces_in_links: bool,
    pub format_block_quotes: bool,
    pub collate_link_defs: bool,
    pub outsource_inline_links: bool,
    pub break_cfg: BreakCfg,
    pub parse_cfg: ParseCfg,
}

/// The configuration with every feature off.
pub open spec fn default_features() -> FeatureCfg {
    FeatureCfg {
        keep_spaces_in_links: false,
        format_block_quotes: false,
        collate_link_defs: false,
        outsource_inline_links: false,
        break_cfg: BreakCfg {
            keep_linebreaks: false,
            allow_multiple_markers: true,
            allow_start_marker: true,
        },
        parse_cfg: ParseCfg { keep_linebreaks: false },
    }
}

/// The feature tokens of the legacy feature string: its comma-separated
/// pieces, each split on whitespace, flattened.
pub open spec fn feature_tokens(pieces: Seq<Seq<char>>, i: int) -> Seq<Seq<char>>
    decreases pieces.len() - i,
{
    if i < 0 || i >= pieces.len() {
        Seq::empty()
    } else {
        split_ws(pieces[i], uws()) + feature_tokens(pieces, i + 1)
    }
}

/// The effect of one known feature token; unknown tokens give `None`.
pub open spec fn apply_feature(cfg: FeatureCfg, tok: Seq<char>) -> Option<FeatureCfg> {
    if tok == "keep-spaces-in-links"@ {
        Some(FeatureCfg { keep_spaces_in_links: true, ..cfg })
    } else if tok == "format-block-quotes"@ {
        Some(FeatureCfg { format_block_quotes: true, ..cfg })
    } else if tok == "collate-link-defs"@ {
        Some(FeatureCfg { collate_link_defs: true, ..cfg })
    } else if tok == "outsource-inline-links"@ {
        Some(FeatureCfg { outsource_inline_links: true, ..cfg })
    } else if tok == "keep-linebreaks"@ {
        Some(
            FeatureCfg {
                break_cfg: BreakCfg { keep_linebreaks: true, ..cfg.break_cfg },
                parse_cfg: ParseCfg { keep_linebreaks: true },
                ..cfg
            },
        )
    } else {
        None
    }
}

/// The configuration after folding the legacy tokens from `i` on.
pub open spec fn legacy_cfg(toks: Seq<Seq<char>>, i: int, cfg: FeatureCfg) -> FeatureCfg
    decreases toks.len() - i,
{
    if i < 0 || i >= toks.len() {
        cfg
    } else {
        match apply_feature(cfg, toks[i]) {
            Some(c) => legacy_cfg(toks, i + 1, c),
            None => legacy_cfg(toks, i + 1, cfg),
        }
    }
}

/// The unknown tokens among the legacy tokens from `i` on.
pub open spec fn legacy_errs(toks: Seq<Seq<char>>, i: int) -> Seq<Seq<char>>
    decreases toks.len() - i,
{
    if i < 0 || i >= toks.len() {
        Seq::empty()
    } else {
        (match apply_feature(default_features(), toks[i]) {
            Some(_) => Seq::empty(),
            None => seq![toks[i]],
        }) + legacy_errs(toks, i + 1)
    }
}

/// The effect of the explicit link-actions flag, which overrides nothing
/// but only turns features on.
pub open spec fn apply_link_actions(cfg: FeatureCfg, la: Option<LinkActions>) -> FeatureCfg {
    match la {
        Some(LinkActions::OutsourceInline) => FeatureCfg { outsource_inline_links: true, ..cfg },
        Some(LinkActions::CollateDefs) => FeatureCfg { collate_link_defs: true, ..cfg },
        Some(LinkActions::Both) => FeatureCfg {
            outsource_inline_links: true,
            collate_link_defs: true,
            ..cfg
        },
        None => cfg,
    }
}

/// The effect of the explicit keep-whitespace flag.
pub open spec fn apply_keep_ws(cfg: FeatureCfg, kw: Option<KeepWhitespace>) -> FeatureCfg {
    match kw {
        Some(KeepWhitespace::InLinks) => FeatureCfg { keep_spaces_in_links: true, ..cfg },
        Some(KeepWhitespace::Linebreaks) => FeatureCfg {
            break_cfg: BreakCfg { keep_linebreaks: true, ..cfg.break_cfg },
            parse_cfg: ParseCfg { keep_linebreaks: true },
            ..cfg
        },
        Some(KeepWhitespace::Both) => FeatureCfg {
            keep_spaces_in_links: true,
            break_cfg: BreakCfg { keep_linebreaks: true, ..cfg.break_cfg },
            parse_cfg: ParseCfg { keep_linebreaks: true },
            ..cfg
        },
        None => cfg,
    }
}

/// The effect of the explicit block-quote flag.
pub open spec fn apply_bq_flag(cfg: FeatureCfg, flag: bool) -> FeatureCfg {
    if flag {
        FeatureCfg { format_block_quotes: true, ..cfg }
    } else {
        cfg
    }
}

/// The full result of `from_flags` on given inputs.
pub open spec fn from_flags_cfg(
    s: Seq<char>,
    la: Option<LinkActions>,
    kw: Option<KeepWhitespace>,
    flag: bool,
) -> FeatureCfg {
    let toks = feature_tokens(split_char(s, ','), 0);
    apply_bq_flag(apply_keep_ws(apply_link_actions(legacy_cfg(toks, 0, default_features()), la), kw), flag)
}

/// The unknown tokens of the legacy feature string.
pub open spec fn from_flags_errs(s: Seq<char>) -> Seq<Seq<char>> {
    legacy_errs(feature_tokens(split_char(s, ','), 0), 0)
}

impl FeatureCfg {
    /// Create a configuration from the legacy comma-separated feature
    /// string plus the explicit flags; the explicit flags are applied after
    /// the string.  Unknown feature names are collected into the error.
    pub fn from_flags(
        features_str: &str,
        link_actions: Option<LinkActions>,
        keep_whitespace: Option<KeepWhitespace>,
        format_block_quotes_flag: bool,
    ) -> (r: Result<FeatureCfg, String>)
        ensures
            match r {
                Ok(c) => from_flags_errs(features_str@).len() == 0 && c == from_flags_cfg(
                    features_str@,
                    link_actions,
                    keep_whitespace,
                    format_block_quotes_flag,
                ),
                Err(m) => from_flags_errs(features_str@).len() > 0 && m@ == "unknown features: "@
                    + join_sep(from_flags_errs(features_str@), ", "@, 0),
            },
    {
        let chars = str_to_chars(features_str);
        let pieces = split_at_comma(&chars);
        let ghost pieces_v = pieces@.map(|_i: int, w: Vec<char>| w@);
        let mut toks: Vec<Vec<char>> = Vec::new();
        let mut p: usize = 0;
        while p < pieces.len()
            invariant
                pieces_v == pieces@.map(|_i: int, w: Vec<char>| w@),
                p <= pieces_v.len(),
                feature_tokens(pieces_v, 0) == toks@.map(|_i: int, w: Vec<char>| w@)
                    + feature_tokens(pieces_v, p as int),
            decreases pieces_v.len() - p,
        {
            let piece_toks = split_unicode_ws(&pieces[p]);
            let ghost t0 = toks@.map(|_i: int, w: Vec<char>| w@);
            let ghost pt_v = piece_toks@.map(|_i: int, w: Vec<char>| w@);
            let mut t: usize = 0;
            while t < piece_toks.len()
                invariant
                    pt_v == piece_toks@.map(|_i: int, w: Vec<char>| w@),
                    t <= pt_v.len(),
                    toks@.map(|_i: int, w: Vec<char>| w@) =~= t0 + pt_v.subrange(0, t as int),
                decreases pt_v.len() - t,
            {
                let mut copied: Vec<char> = Vec::new();
                let src = &piece_toks[t];
                let mut u: usize = 0;
                while u < src.len()
                    invariant
                        u <= src@.len(),
                        copied@ =~= src@.subrange(0, u as int),
                    decreases src@.len() - u,
                {
                    copied.push(src[u]);
                    u += 1;
                }
                proof {
                    assert(copied@ =~= pt_v[t as int]);
                    assert(toks@.push(copied).map(|_i: int, w: Vec<char>| w@) =~= toks@.map(
                        |_i: int,
                        w: Vec<char>|
                        w@,
                    ).push(copied@));
                }
                toks.push(copied);
                t += 1;
            }
            proof {
                assert(toks@.map(|_i: int, w: Vec<char>| w@) =~= t0 + pt_v);
                assert(pieces_v[p as int] == pieces@[p as int]@);
            }
            p += 1;
        }
        let ghost toks_v = toks@.map(|_i: int, w: Vec<char>| w@);
        proof {
            assert(feature_tokens(pieces_v, pieces_v.len() as int) =~= Seq::<Seq<char>>::empty());
            assert(toks_v =~= feature_tokens(pieces_v, 0));
        }
        let mut cfg = FeatureCfg {
            keep_spaces_in_links: false,
            format_block_quotes: false,
            collate_link_defs: false,
            outsource_inline_links: false,
            break_cfg: BreakCfg {
                keep_linebreaks: false,
                allow_multiple_markers: true,
                allow_start_marker: true,
            },
            parse_cfg: ParseCfg { keep_linebreaks: false },
        };
        let mut errors: Vec<Vec<char>> = Vec::new();
        let mut i: usize = 0;
        while i < toks.len()
            invariant
                toks_v == toks@.map(|_i: int, w: Vec<char>| w@),
                i <= toks_v.len(),
                legacy_cfg(toks_v, 0, default_features()) == legacy_cfg(toks_v, i as int, cfg),
                legacy_errs(toks_v, 0) == errors@.map(|_i: int, e: Vec<char>| e@) + legacy_errs(
                    toks_v,
                    i as int,
                ),
            decreases toks_v.len() - i,
        {
            let tok = &toks[i];
            proof {
                assert(toks_v[i as int] == tok@);
            }
            if chars_eq_str(tok, "keep-spaces-in-links") {
                cfg.keep_spaces_in_links = true;
            } else if chars_eq_str(tok, "format-block-quotes") {
                cfg.format_block_quotes = true;
            } else if chars_eq_str(tok, "collate-link-defs") {
                cfg.collate_link_defs = true;
            } else if chars_eq_str(tok, "outsource-inline-links") {
                cfg.outsource_inline_links = true;
            } else if chars_eq_str(tok, "keep-linebreaks") {
                cfg.break_cfg.keep_linebreaks = true;
                cfg.parse_cfg.keep_linebreaks = true;
            } else {
                let mut copied: Vec<char> = Vec::new();
                let mut u: usize = 0;
                while u < tok.len()
                    invariant
                        u <= tok@.len(),
                        copied@ =~= tok@.subrange(0, u as int),
                    decreases tok@.len() - u,
                {
                    copied.push(tok[u]);
                    u += 1;
                }
                proof {
                    assert(copied@ =~= tok@);
                    assert(errors@.push(copied).map(|_i: int, e: Vec<char>| e@) =~= errors@.map(
                        |_i: int,
                        e: Vec<char>|
                        e@,
                    ).push(copied@));
                }
                errors.push(copied);
            }
            i += 1;
        }
        proof {
            assert(legacy_errs(toks_v, toks_v.len() as int) =~= Seq::<Seq<char>>::empty());
            assert(errors@.map(|_i: int, e: Vec<char>| e@) =~= legacy_errs(toks_v, 0));
        }
        match link_actions {
            Some(LinkActions::OutsourceInline) => {
                cfg.outsource_inline_links = true;
            },
            Some(LinkActions::CollateDefs) => {
                cfg.collate_link_defs = true;
            },
            Some(LinkActions::Both) => {
                cfg.outsource_inline_links = true;
                cfg.collate_link_defs = true;
            },
            None => {},
        }
        match keep_whitespace {
            Some(KeepWhitespace::InLinks) => {
                cfg.keep_spaces_in_links = true;
            },
            Some(KeepWhitespace::Linebreaks) => {
                cfg.parse_cfg.keep_linebreaks = true;
                cfg.break_cfg.keep_linebreaks = true;
            },
            Some(KeepWhitespace::Both) => {
                cfg.keep_spaces_in_links = true;
                cfg.parse_cfg.keep_linebreaks = true;
                cfg.break_cfg.keep_linebreaks = true;
            },
            None => {},
        }
        if format_block_quotes_flag {
            cfg.format_block_quotes = true;
        }
        if errors.len() == 0 {
            Ok(cfg)
        } else {
            let joined = crate::words::join_with(&errors, ", ");
            let mut msg = String::new();
            msg.append("unknown features: ");
            let joined_str = chars_to_string(&joined);
            msg.append(joined_str.as_str());
            Err(msg)
        }
    }
}

/// Split on the comma separator, keeping empty pieces.
fn split_at_comma(s: &Vec<char>) -> (r: Vec<Vec<char>>)
    ensures
        r@.map(|_i: int, w: Vec<char>| w@) == split_char(s@, ','),
{
    crate::words::split_at_char(s, ',')
}

impl Default for FeatureCfg {
    /// The configuration with every feature off.
    fn default() -> (r: Self)
        ensures
            r == default_features(),
    {
        FeatureCfg {
            keep_spaces_in_links: false,
            format_block_quotes: false,
            collate_link_defs: false,
            outsource_inline_links: false,
            break_cfg: BreakCfg {
                keep_linebreaks: false,
                allow_multiple_markers: true,
                allow_start_marker: true,
            },
            parse_cfg: ParseCfg { keep_linebreaks: false },
        }
    }
}

impl core::str::FromStr for FeatureCfg {
    type Err = String;

    fn from_str(s: &str) -> Result<Self, String> {
        Self::from_flags(s, None, None, false)
    }
}

} // verus!
