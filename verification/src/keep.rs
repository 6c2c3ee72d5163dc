//! A standalone suppression-word set.

use crate::kwmatch::{build_keep_words, cased, ends_with_keep_word_at, ends_with_kw, keep_sel, uws, KeepWord};
use crate::words::split_ws;
use vstd::prelude::*;

verus! {

/// A set of words after which no sentence break may be inserted.
pub struct KeepWords {
    pub data: Vec<KeepWord>,
    pub preserve_case: bool,
}

impl KeepWords {
    /// Whether position `idx` of `text` ends with one of the stored words.
    pub open spec fn spec_ends_with_word(&self, text: Seq<char>, idx: int) -> bool {
        ends_with_kw(self.data@, text, idx, self.preserve_case)
    }

    /// Build the set from whitespace-separated `words`, with the tokens of
    /// `ignores` removed, all case-folded unless `preserve_case`.
    pub fn new(words: &str, ignores: &str, preserve_case: bool) -> (r: Self)
        ensures
            r.data@.map(|_i: int, kw: KeepWord| kw.chars@) == keep_sel(
                split_ws(cased(words@, preserve_case), uws()),
                split_ws(cased(ignores@, preserve_case), uws()),
                0,
            ),
            forall|k: int|
                0 <= k < r.data@.len() ==> (#[trigger] r.data@[k]).disp + 1
                    == r.data@[k].chars@.len(),
            r.preserve_case == preserve_case,
    {
        KeepWords { data: build_keep_words(words, ignores, preserve_case), preserve_case }
    }

    /// Whether `text` ends with one of the stored words at position `idx`:
    /// the word fits before `idx`, the character before the match (if any)
    /// is not alphanumeric, and the case-expanded tail characters agree with
    /// the word positionally.
    pub fn ends_with_word(&self, text: &Vec<char>, idx: &usize) -> (r: bool)
        ensures
            r == self.spec_ends_with_word(text@, *idx as int),
    {
        ends_with_keep_word_at(&self.data, text, *idx, self.preserve_case)
    }
}

} // verus!
