//! Whitespace classification and sentence-boundary detection.

use crate::kwmatch::{build_keep_words, cased, ends_with_keep_word_at, ends_with_kw, keep_sel, uws, KeepWord};
use crate::unicode::{char_is_unicode_whitespace, chars_to_string, contains_char, str_to_chars, unicode_whitespace};
use crate::words::{split_on_bits, split_ws};
use vstd::prelude::*;

verus! {

/// The non-breaking-space code points that are excluded from whitespace
/// treatment by default: no-break space, figure space, narrow no-break
/// space, word joiner and zero-width no-break space.
pub open spec fn nbsp_char(c: char) -> bool {
    c == '\u{00a0}' || c == '\u{2007}' || c == '\u{202f}' || c == '\u{2060}' || c == '\u{feff}'
}

/// Decides which code points count as whitespace for merging and splitting:
/// Unicode whitespace minus an excluded set.
pub struct WhitespaceDetector {
    pub excluded: Vec<char>,
}

impl WhitespaceDetector {
    /// Whether this detector was built with linebreaks excluded as well.
    pub open spec fn keeps_linebreaks(&self) -> bool {
        self.excluded@.contains('\n')
    }

    /// The whitespace predicate of this detector.
    pub open spec fn is_ws(&self, c: char) -> bool {
        unicode_whitespace(c) && !self.excluded@.contains(c)
    }

    /// The whitespace predicate as a value, for use with the splitting specs.
    pub open spec fn ws_pred(&self) -> spec_fn(char) -> bool {
        |c: char| self.is_ws(c)
    }

    pub fn new(keep_linebreaks: bool) -> (r: Self)
        ensures
            forall|c: char|
                #[trigger] r.is_ws(c) == (unicode_whitespace(c) && !nbsp_char(c) && !(
                keep_linebreaks && c == '\n')),
            r.keeps_linebreaks() == keep_linebreaks,
    {
        let mut excluded: Vec<char> = Vec::new();
        excluded.push('\u{00a0}');
        excluded.push('\u{2007}');
        excluded.push('\u{202f}');
        excluded.push('\u{2060}');
        excluded.push('\u{feff}');
        if keep_linebreaks {
            excluded.push('\n');
        }
        let r = WhitespaceDetector { excluded };
        proof {
            if keep_linebreaks {
                assert(r.excluded@ =~= seq![
                    '\u{00a0}',
                    '\u{2007}',
                    '\u{202f}',
                    '\u{2060}',
                    '\u{feff}',
                    '\n',
                ]);
            } else {
                assert(r.excluded@ =~= seq![
                    '\u{00a0}',
                    '\u{2007}',
                    '\u{202f}',
                    '\u{2060}',
                    '\u{feff}',
                ]);
            }
            assert forall|c: char|
                #[trigger] r.is_ws(c) == (unicode_whitespace(c) && !nbsp_char(c) && !(
                keep_linebreaks && c == '\n')) by {
                if r.excluded@.contains(c) {
                    let k = choose|k: int| 0 <= k < r.excluded@.len() && r.excluded@[k] == c;
                    assert(nbsp_char(c) || (keep_linebreaks && c == '\n'));
                }
                if nbsp_char(c) {
                    if c == '\u{00a0}' {
                        assert(r.excluded@[0] == c);
                    } else if c == '\u{2007}' {
                        assert(r.excluded@[1] == c);
                    } else if c == '\u{202f}' {
                        assert(r.excluded@[2] == c);
                    } else if c == '\u{2060}' {
                        assert(r.excluded@[3] == c);
                    } else {
                        assert(r.excluded@[4] == c);
                    }
                    assert(r.excluded@.contains(c));
                }
                if keep_linebreaks && c == '\n' {
                    assert(r.excluded@[5] == '\n');
                    assert(r.excluded@.contains(c));
                }
            }
            if keep_linebreaks {
                assert(r.excluded@[5] == '\n');
                assert(r.keeps_linebreaks());
            } else {
                if r.excluded@.contains('\n') {
                    let k = choose|k: int|
                        0 <= k < r.excluded@.len() && r.excluded@[k] == '\n';
                    assert(false);
                }
            }
        }
        r
    }

    /// A character is whitespace when it is Unicode whitespace and not in
    /// the excluded set known by this detector.
    pub fn is_whitespace(&self, ch: &char) -> (r: bool)
        ensures
            r == self.is_ws(*ch),
    {
        char_is_unicode_whitespace(*ch) && !contains_char(&self.excluded, *ch)
    }

    /// Whether `ch` is one of the non-breaking-space code points.  This is a
    /// pure lookup that ignores the linebreak setting.
    pub fn is_nbsp(&self, ch: &char) -> (r: bool)
        ensures
            r == nbsp_char(*ch),
    {
        let c = *ch;
        c == '\u{00a0}' || c == '\u{2007}' || c == '\u{202f}' || c == '\u{2060}' || c == '\u{feff}'
    }

    /// Split `s` on this detector's whitespace, yielding the non-empty
    /// pieces in order.
    pub fn split_whitespace(&self, s: &str) -> (r: Vec<String>)
        ensures
            r@.map(|_i: int, w: String| w@) == split_ws(s@, self.ws_pred()),
    {
        let chars = str_to_chars(s);
        let pieces = self.split_whitespace_chars(&chars);
        let mut r: Vec<String> = Vec::new();
        let mut i: usize = 0;
        while i < pieces.len()
            invariant
                i <= pieces@.len(),
                r@.len() == i,
                forall|k: int| 0 <= k < i ==> (#[trigger] r@[k])@ == pieces@[k]@,
            decreases pieces@.len() - i,
        {
            r.push(chars_to_string(&pieces[i]));
            i += 1;
        }
        proof {
            assert(r@.map(|_i: int, w: String| w@) =~= pieces@.map(|_i: int, w: Vec<char>| w@));
        }
        r
    }

    /// Split a character vector on this detector's whitespace.
    pub fn split_whitespace_chars(&self, s: &Vec<char>) -> (r: Vec<Vec<char>>)
        ensures
            r@.map(|_i: int, w: Vec<char>| w@) == split_ws(s@, self.ws_pred()),
    {
        let mut bits: Vec<bool> = Vec::new();
        let mut i: usize = 0;
        while i < s.len()
            invariant
                i <= s@.len(),
                bits@.len() == i,
                forall|k: int| 0 <= k < i ==> bits@[k] == (self.ws_pred())(s@[k]),
            decreases s@.len() - i,
        {
            bits.push(self.is_whitespace(&s[i]));
            i += 1;
        }
        split_on_bits(s, &bits, Ghost(self.ws_pred()))
    }
}

/// Policy switches for the break detector: whether existing linebreaks
/// are kept out of whitespace treatment, whether a break is allowed after
/// repeated end markers, and whether a marker at the start of a logical
/// line may break.
#[derive(Debug, PartialEq)]
pub struct BreakCfg {
    pub keep_linebreaks: bool,
    pub allow_multiple_markers: bool,
    pub allow_start_marker: bool,
}

/// Decides whether a character position ends a sentence, combining an
/// end-marker set, a suppression-word set and a whitespace detector.
pub struct BreakDetector {
    pub whitespace: WhitespaceDetector,
    pub keep_words: Vec<KeepWord>,
    pub keep_words_preserve_case: bool,
    pub end_markers: Vec<char>,
    pub allow_multiple_markers: bool,
    pub allow_start_marker: bool,
}

impl BreakDetector {
    /// The end-marker predicate of this detector.
    pub open spec fn is_end_marker(&self, c: char) -> bool {
        self.end_markers@.contains(c)
    }

    pub open spec fn preserves_case(&self) -> bool {
        self.keep_words_preserve_case
    }

    pub open spec fn keep_words_view(&self) -> Seq<KeepWord> {
        self.keep_words@
    }

    /// Whether position `idx` of `text` ends with a suppressed word.
    pub open spec fn spec_ends_with_keep_word(&self, text: Seq<char>, idx: int) -> bool {
        ends_with_kw(self.keep_words_view(), text, idx, self.preserves_case())
    }

    /// Whether `ch` between `prev` and `next` is a sentence-ending marker:
    /// `ch` must be an end marker and `next` must be whitespace (the end of
    /// the document never breaks); after another end marker a break needs
    /// the allow-multiple-markers policy, and at the start of a logical
    /// line, that is after nothing or after a linebreak, it needs the
    /// allow-start-marker policy.
    pub open spec fn spec_is_breaking_marker(
        &self,
        prev: Option<char>,
        ch: char,
        next: Option<char>,
    ) -> bool {
        &&& self.is_end_marker(ch)
        &&& match next {
            Some(n) => self.whitespace.is_ws(n),
            None => false,
        }
        &&& match prev {
            Some(p) => self.is_end_marker(p) ==> self.allow_multiple_markers,
            None => true,
        }
        &&& (prev is None || prev == Some('\n')) ==> self.allow_start_marker
    }

    /// Build a detector from suppression words, words to remove from that
    /// set, a case-handling flag, the end-marker set and the policy flags.
    pub fn new(
        keep_words: &str,
        keep_word_ignores: &str,
        keep_words_preserve_case: bool,
        end_markers: &str,
        break_cfg: &BreakCfg,
    ) -> (r: Self)
        ensures
            r.keep_words_view().map(|_i: int, kw: KeepWord| kw.chars@) == keep_sel(
                split_ws(cased(keep_words@, keep_words_preserve_case), uws()),
                split_ws(cased(keep_word_ignores@, keep_words_preserve_case), uws()),
                0,
            ),
            forall|k: int|
                0 <= k < r.keep_words_view().len() ==> (#[trigger] r.keep_words_view()[k]).disp + 1
                    == r.keep_words_view()[k].chars@.len(),
            r.preserves_case() == keep_words_preserve_case,
            forall|c: char| #[trigger] r.is_end_marker(c) == end_markers@.contains(c),
            forall|c: char|
                #[trigger] r.whitespace.is_ws(c) == (unicode_whitespace(c) && !nbsp_char(c) && !(
                break_cfg.keep_linebreaks && c == '\n')),
            r.allow_multiple_markers == break_cfg.allow_multiple_markers,
            r.allow_start_marker == break_cfg.allow_start_marker,
    {
        let kws = build_keep_words(keep_words, keep_word_ignores, keep_words_preserve_case);
        let markers = str_to_chars(end_markers);
        BreakDetector {
            whitespace: WhitespaceDetector::new(break_cfg.keep_linebreaks),
            keep_words: kws,
            keep_words_preserve_case,
            end_markers: markers,
            allow_multiple_markers: break_cfg.allow_multiple_markers,
            allow_start_marker: break_cfg.allow_start_marker,
        }
    }

    /// Whether `text` ends with one of the keep words at position `idx`.  A
    /// word matches when it fits before `idx`, the match starts at the text
    /// start or the character before it is not alphanumeric, and the
    /// case-expanded characters of the text tail agree with the word
    /// positionally.
    pub fn ends_with_keep_word(&self, text: &[char], idx: &usize) -> (r: bool)
        ensures
            r == self.spec_ends_with_keep_word(text@, *idx as int),
    {
        let v = slice_to_chars(text);
        ends_with_keep_word_at(&self.keep_words, &v, *idx, self.keep_words_preserve_case)
    }

    /// Whether `ch` is an end marker whose surroundings indicate the end of
    /// a sentence.
    pub fn is_breaking_marker(&self, prev: Option<&char>, ch: &char, next: Option<&char>) -> (r:
        bool)
        ensures
            r == self.spec_is_breaking_marker(
                match prev {
                    Some(p) => Some(*p),
                    None => None,
                },
                *ch,
                match next {
                    Some(n) => Some(*n),
                    None => None,
                },
            ),
    {
        let marker = contains_char(&self.end_markers, *ch);
        let next_ws = is_whitespace(next, &self.whitespace);
        let multiple_ok = match prev {
            Some(p) => {
                if contains_char(&self.end_markers, *p) {
                    self.allow_multiple_markers
                } else {
                    true
                }
            },
            None => true,
        };
        let start_ok = match prev {
            Some(p) => {
                if *p == '\n' {
                    self.allow_start_marker
                } else {
                    true
                }
            },
            None => self.allow_start_marker,
        };
        marker && next_ws && multiple_ok && start_ok
    }
}

/// Whether an optional character is whitespace; the absent character is
/// not.
fn is_whitespace(ch: Option<&char>, detector: &WhitespaceDetector) -> (r: bool)
    ensures
        r == match ch {
            Some(c) => detector.is_ws(*c),
            None => false,
        },
{
    match ch {
        Some(el) => detector.is_whitespace(el),
        None => false,
    }
}

/// Copy a character slice into a vector.
fn slice_to_chars(s: &[char]) -> (r: Vec<char>)
    ensures
        r@ == s@,
{
    let mut r: Vec<char> = Vec::new();
    let mut i: usize = 0;
    while i < s.len()
        invariant
            i <= s@.len(),
            r@ =~= s@.subrange(0, i as int),
        decreases s@.len() - i,
    {
        r.push(s[i]);
        i += 1;
    }
    assert(r@ =~= s@);
    r
}

} // verus!
