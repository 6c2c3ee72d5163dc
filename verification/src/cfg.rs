//! Configuration values shared between the library and its callers.

use vstd::prelude::*;

verus! {

/// Mode of operation: check, format, or both.
#[derive(Copy, Debug, Clone, PartialEq, Eq, Structural)]
pub enum OpMode {
    Both,
    Check,
    Format,
}

/// How the case of suppression words is handled.
#[derive(Copy, Debug, Clone, PartialEq, Eq, Structural)]
pub enum Case {
    Ignore,
    Keep,
}

/// What is reported about processed files.
#[derive(Copy, Clone, Debug, PartialEq, Eq, Structural)]
pub enum ReportMode {
    Silent,
    Changed,
    State,
    DiffMeyers,
    DiffPatience,
    DiffLcs,
}

impl ReportMode {
    /// Whether this report mode asks for a diff.
    pub fn is_diff_mode(&self) -> (r: bool)
        ensures
            r == (*self == ReportMode::DiffMeyers || *self == ReportMode::DiffPatience || *self
                == ReportMode::DiffLcs),
    {
        match self {
            ReportMode::DiffMeyers => true,
            ReportMode::DiffPatience => true,
            ReportMode::DiffLcs => true,
            _ => false,
        }
    }
}

/// Which link-rewriting actions are enabled.
#[derive(Copy, Clone, Debug, PartialEq, Eq, Structural)]
pub enum LinkActions {
    OutsourceInline,
    CollateDefs,
    Both,
}

/// Which kinds of whitespace are kept as they are.
#[derive(Copy, Clone, Debug, PartialEq, Eq, Structural)]
pub enum KeepWhitespace {
    InLinks,
    Linebreaks,
    Both,
}

/// The effective configuration for one document.
#[derive(Debug)]
pub struct PerFileCfg {
    pub max_width: usize,
    pub end_markers: String,
    pub lang: String,
    pub suppressions: String,
    pub ignores: String,
    pub upstream: String,
    pub case: Case,
    pub features: String,
}

/// A partial configuration as read from a configuration file; unset fields
/// fall back to later files or to the defaults.
#[derive(Debug, PartialEq, Eq, Clone)]
pub struct CfgFile {
    pub max_width: Option<usize>,
    pub end_markers: Option<String>,
    pub lang: Option<String>,
    pub suppressions: Option<String>,
    pub ignores: Option<String>,
    pub upstream: Option<String>,
    pub case: Option<Case>,
    pub features: Option<String>,
}

/// The value a merge leaves in one field: the field itself when set, else
/// the other side's.
pub open spec fn merged_usize(a: Option<usize>, b: Option<usize>) -> Option<usize> {
    if a is Some {
        a
    } else {
        b
    }
}

pub open spec fn merged_string(a: Option<String>, b: Option<String>) -> Option<Seq<char>> {
    match a {
        Some(s) => Some(s@),
        None => match b {
            Some(s) => Some(s@),
            None => None,
        },
    }
}

pub open spec fn merged_case(a: Option<Case>, b: Option<Case>) -> Option<Case> {
    if a is Some {
        a
    } else {
        b
    }
}

fn merge_usize_field(a: &Option<usize>, b: &Option<usize>) -> (r: Option<usize>)
    ensures
        r == merged_usize(*a, *b),
{
    match a {
        Some(v) => Some(*v),
        None => match b {
            Some(v) => Some(*v),
            None => None,
        },
    }
}

fn merge_string_field(a: &Option<String>, b: &Option<String>) -> (r: Option<String>)
    ensures
        (match r {
            Some(s) => Some(s@),
            None => None,
        }) == merged_string(*a, *b),
{
    match a {
        Some(v) => Some(v.clone()),
        None => match b {
            Some(v) => Some(v.clone()),
            None => None,
        },
    }
}

fn merge_case_field(a: &Option<Case>, b: &Option<Case>) -> (r: Option<Case>)
    ensures
        r == merged_case(*a, *b),
{
    match a {
        Some(v) => Some(*v),
        None => match b {
            Some(v) => Some(*v),
            None => None,
        },
    }
}

impl CfgFile {
    /// A configuration with every field unset.
    pub fn new() -> (r: Self)
        ensures
            r.max_width is None,
            r.end_markers is None,
            r.lang is None,
            r.suppressions is None,
            r.ignores is None,
            r.upstream is None,
            r.case is None,
            r.features is None,
    {
        CfgFile {
            max_width: None,
            end_markers: None,
            lang: None,
            suppressions: None,
            ignores: None,
            upstream: None,
            case: None,
            features: None,
        }
    }

    /// Merge one configuration into this one: fields already set keep their
    /// values, unset fields take the other side's.  The return value says
    /// whether every field is set afterwards, in which case further merging
    /// has no effect.
    pub fn merge_with(&mut self, other: &Self) -> (fully_defined: bool)
        ensures
            final(self).max_width == merged_usize(old(self).max_width, other.max_width),
            (match final(self).end_markers {
                Some(s) => Some(s@),
                None => None,
            }) == merged_string(old(self).end_markers, other.end_markers),
            (match final(self).lang {
                Some(s) => Some(s@),
                None => None,
            }) == merged_string(old(self).lang, other.lang),
            (match final(self).suppressions {
                Some(s) => Some(s@),
                None => None,
            }) == merged_string(old(self).suppressions, other.suppressions),
            (match final(self).ignores {
                Some(s) => Some(s@),
                None => None,
            }) == merged_string(old(self).ignores, other.ignores),
            (match final(self).upstream {
                Some(s) => Some(s@),
                None => None,
            }) == merged_string(old(self).upstream, other.upstream),
            final(self).case == merged_case(old(self).case, other.case),
            (match final(self).features {
                Some(s) => Some(s@),
                None => None,
            }) == merged_string(old(self).features, other.features),
            fully_defined == (final(self).max_width is Some && final(self).end_markers is Some
                && final(self).lang is Some && final(self).suppressions is Some
                && final(self).ignores is Some && final(self).upstream is Some
                && final(self).case is Some && final(self).features is Some),
    {
        self.max_width = merge_usize_field(&self.max_width, &other.max_width);
        self.end_markers = merge_string_field(&self.end_markers, &other.end_markers);
        self.lang = merge_string_field(&self.lang, &other.lang);
        self.suppressions = merge_string_field(&self.suppressions, &other.suppressions);
        self.ignores = merge_string_field(&self.ignores, &other.ignores);
        self.upstream = merge_string_field(&self.upstream, &other.upstream);
        self.case = merge_case_field(&self.case, &other.case);
        self.features = merge_string_field(&self.features, &other.features);
        let fully_defined = self.max_width.is_some() && self.end_markers.is_some()
            && self.lang.is_some() && self.suppressions.is_some() && self.ignores.is_some()
            && self.upstream.is_some() && self.case.is_some() && self.features.is_some();
        fully_defined
    }
}

impl Default for CfgFile {
    /// The default configuration: every field set to the value the command
    /// line would use when nothing is given.
    fn default() -> (r: Self)
        ensures
            r.max_width == Some(80usize),
            (match r.end_markers {
                Some(s) => s@,
                None => Seq::<char>::empty(),
            }) == "?!:."@,
            (match r.lang {
                Some(s) => s@,
                None => Seq::<char>::empty(),
            }) == "ac"@,
            r.suppressions is Some && r.ignores is Some && r.upstream is Some && r.features
                is Some,
            r.case == Some(Case::Ignore),
    {
        let mut end_markers = String::new();
        end_markers.append("?!:.");
        let mut lang = String::new();
        lang.append("ac");
        CfgFile {
            max_width: Some(80),
            end_markers: Some(end_markers),
            lang: Some(lang),
            suppressions: Some(String::new()),
            ignores: Some(String::new()),
            upstream: Some(String::new()),
            case: Some(Case::Ignore),
            features: Some(String::new()),
        }
    }
}

} // verus!
