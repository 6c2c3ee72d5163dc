//! Suppression ("keep") words: construction and matching.
//!
//! A keep word is a token that must not be followed by a sentence break.  It
//! is stored together with its display length minus one, and matched against
//! the tail of a text ending at a candidate position, case-folded per
//! character unless case is preserved.

use crate::unicode::{
    char_is_unicode_alphanumeric, char_is_unicode_whitespace, char_lower, char_to_lower, chars_eq,
    str_lower, str_to_chars, str_to_lower, unicode_alphanumeric, unicode_whitespace,
};
use crate::words::{split_on_bits, split_ws};
use vstd::prelude::*;

verus! {

/// One suppression word: its characters and its length minus one.
pub struct KeepWord {
    pub chars: Vec<char>,
    pub disp: usize,
}

/// The whitespace predicate of `str::split_whitespace`.
pub open spec fn uws() -> spec_fn(char) -> bool {
    |c: char| unicode_whitespace(c)
}

/// The characters of `words`, case-folded unless `preserve` is set.
pub open spec fn cased(words: Seq<char>, preserve: bool) -> Seq<char> {
    if preserve {
        words
    } else {
        str_lower(words)
    }
}

/// The tokens of `toks` from position `i` on that do not occur in `ign`.
pub open spec fn keep_sel(toks: Seq<Seq<char>>, ign: Seq<Seq<char>>, i: int) -> Seq<Seq<char>>
    decreases toks.len() - i,
{
    if i < 0 || i >= toks.len() {
        Seq::empty()
    } else if ign.contains(toks[i]) {
        keep_sel(toks, ign, i + 1)
    } else {
        seq![toks[i]] + keep_sel(toks, ign, i + 1)
    }
}

/// Split the characters of `s` on Unicode whitespace, dropping empty tokens.
pub fn split_unicode_ws(s: &Vec<char>) -> (r: Vec<Vec<char>>)
    ensures
        r@.map(|_i: int, w: Vec<char>| w@) == split_ws(s@, uws()),
{
    let mut bits: Vec<bool> = Vec::new();
    let mut i: usize = 0;
    while i < s.len()
        invariant
            i <= s@.len(),
            bits@.len() == i,
            forall|k: int| 0 <= k < i ==> bits@[k] == (uws())(s@[k]),
        decreases s@.len() - i,
    {
        bits.push(char_is_unicode_whitespace(s[i]));
        i += 1;
    }
    split_on_bits(s, &bits, Ghost(uws()))
}

/// Whether `list` holds a token with the characters of `w`.
fn contains_word(list: &Vec<Vec<char>>, w: &Vec<char>) -> (r: bool)
    ensures
        r == list@.map(|_i: int, x: Vec<char>| x@).contains(w@),
{
    let ghost view = list@.map(|_i: int, x: Vec<char>| x@);
    let mut i: usize = 0;
    while i < list.len()
        invariant
            view == list@.map(|_i: int, x: Vec<char>| x@),
            i <= list@.len(),
            forall|k: int| 0 <= k < i ==> view[k] != w@,
        decreases list@.len() - i,
    {
        if chars_eq(&list[i], w) {
            assert(view[i as int] == w@);
            return true;
        }
        i += 1;
    }
    assert(!view.contains(w@));
    false
}

/// Build the suppression-word list: the whitespace-separated tokens of
/// `words`, case-folded unless `preserve_case`, with every token of
/// `ignores` (folded the same way) removed.  Tokens are never empty, so the
/// stored length `disp` never underflows.
pub fn build_keep_words(words: &str, ignores: &str, preserve_case: bool) -> (r: Vec<KeepWord>)
    ensures
        r@.map(|_i: int, kw: KeepWord| kw.chars@) == keep_sel(
            split_ws(cased(words@, preserve_case), uws()),
            split_ws(cased(ignores@, preserve_case), uws()),
            0,
        ),
        forall|k: int| 0 <= k < r@.len() ==> (#[trigger] r@[k]).disp + 1 == r@[k].chars@.len(),
{
    let cased_words: Vec<char> = if preserve_case {
        str_to_chars(words)
    } else {
        let lowered = str_to_lower(words);
        str_to_chars(lowered.as_str())
    };
    let cased_ignores: Vec<char> = if preserve_case {
        str_to_chars(ignores)
    } else {
        let lowered = str_to_lower(ignores);
        str_to_chars(lowered.as_str())
    };
    let toks = split_unicode_ws(&cased_words);
    let ign = split_unicode_ws(&cased_ignores);
    let ghost toks_v = toks@.map(|_i: int, w: Vec<char>| w@);
    let ghost ign_v = ign@.map(|_i: int, w: Vec<char>| w@);
    proof {
        crate::words::lemma_split_ws_words(cased_words@, uws());
    }
    let mut r: Vec<KeepWord> = Vec::new();
    let mut i: usize = 0;
    while i < toks.len()
        invariant
            toks_v == toks@.map(|_i: int, w: Vec<char>| w@),
            ign_v == ign@.map(|_i: int, w: Vec<char>| w@),
            forall|k: int| 0 <= k < toks_v.len() ==> (#[trigger] toks_v[k]).len() > 0,
            i <= toks@.len(),
            keep_sel(toks_v, ign_v, 0) == r@.map(|_i: int, kw: KeepWord| kw.chars@) + keep_sel(
                toks_v,
                ign_v,
                i as int,
            ),
            forall|k: int| 0 <= k < r@.len() ==> (#[trigger] r@[k]).disp + 1 == r@[k].chars@.len(),
        decreases toks@.len() - i,
    {
        let w = &toks[i];
        if contains_word(&ign, w) {
            assert(ign_v.contains(toks_v[i as int]));
        } else {
            assert(toks_v[i as int].len() > 0);
            let kw = KeepWord { chars: w.clone(), disp: w.len() - 1 };
            proof {
                assert(kw.chars@ == toks_v[i as int]);
                assert(r@.push(kw).map(|_i: int, x: KeepWord| x.chars@) =~= r@.map(
                    |_i: int,
                    x: KeepWord|
                    x.chars@,
                ).push(kw.chars@));
            }
            r.push(kw);
        }
        i += 1;
    }
    proof {
        assert(keep_sel(toks_v, ign_v, toks_v.len() as int) =~= Seq::<Seq<char>>::empty());
        assert(keep_sel(toks_v, ign_v, 0) =~= r@.map(|_i: int, kw: KeepWord| kw.chars@));
    }
    r
}

/// The case expansion of one text character: the character itself when case
/// is preserved, its Unicode lowercase expansion otherwise.
pub open spec fn case_chunk(c: char, preserve: bool) -> Seq<char> {
    if preserve {
        seq![c]
    } else {
        char_lower(c)
    }
}

/// Whether the chunk `e` agrees with `w` at word offset `wi`, for as many
/// characters as `w` still has.  Comparison pairs characters positionally
/// and stops at the shorter side, as zipping does.
pub open spec fn chunk_ok(e: Seq<char>, w: Seq<char>, wi: int) -> bool {
    forall|j: int| 0 <= j < e.len() && wi + j < w.len() ==> e[j] == w[wi + j]
}

/// Whether the characters of `text` from position `ti` on, case-expanded one
/// by one, agree positionally with `w` from word offset `wi` on, stopping at
/// whichever side runs out first.
pub open spec fn kw_match_from(
    text: Seq<char>,
    ti: int,
    w: Seq<char>,
    wi: int,
    preserve: bool,
) -> bool
    decreases text.len() - ti,
{
    if wi >= w.len() {
        true
    } else if ti < 0 || ti >= text.len() {
        true
    } else {
        let e = case_chunk(text[ti], preserve);
        chunk_ok(e, w, wi) && kw_match_from(text, ti + 1, w, wi + e.len(), preserve)
    }
}

/// Unfolding `kw_match_from` by one text position.
proof fn lemma_kw_step(sl: Seq<char>, ti: int, w: Seq<char>, wi: int, p: bool)
    requires
        0 <= ti < sl.len(),
        0 <= wi < w.len(),
    ensures
        kw_match_from(sl, ti, w, wi, p) == (chunk_ok(case_chunk(sl[ti], p), w, wi)
            && kw_match_from(sl, ti + 1, w, wi + case_chunk(sl[ti], p).len(), p)),
{
}

/// Check `kw_match_from(slice, 0, w, 0, preserve)` for the slice of `text`
/// spanning positions `lo ..= hi`.
#[verifier::loop_isolation(false)]
fn slice_matches(text: &Vec<char>, lo: usize, hi: usize, w: &Vec<char>, preserve: bool) -> (r: bool)
    requires
        lo <= hi < text@.len(),
    ensures
        r == kw_match_from(text@.subrange(lo as int, (hi + 1) as int), 0, w@, 0, preserve),
{
    let ghost sl = text@.subrange(lo as int, (hi + 1) as int);
    let tl: usize = text.len();
    let wl: usize = w.len();
    let mut ti: usize = lo;
    let mut wi: usize = 0;
    while ti <= hi
        invariant
            lo <= ti <= hi + 1,
            hi < text@.len(),
            text@.len() <= usize::MAX,
            sl == text@.subrange(lo as int, (hi + 1) as int),
            sl.len() == hi + 1 - lo,
            wi <= w@.len(),
            kw_match_from(sl, 0, w@, 0, preserve) == kw_match_from(
                sl,
                ti - lo,
                w@,
                wi as int,
                preserve,
            ),
        decreases hi + 1 - ti,
    {
        if wi >= w.len() {
            return true;
        }
        let ghost ti0 = ti - lo;
        assert(sl[ti0] == text@[ti as int]);
        let e: Vec<char> = if preserve {
            let mut v: Vec<char> = Vec::new();
            v.push(text[ti]);
            v
        } else {
            char_to_lower(text[ti])
        };
        assert(e@ == case_chunk(sl[ti0], preserve));
        proof {
            lemma_kw_step(sl, ti0, w@, wi as int, preserve);
        }
        let mut j: usize = 0;
        while j < e.len()
            invariant
                wi < w@.len(),
                wi + j <= w@.len(),
                j <= e@.len(),
                forall|t: int| 0 <= t < j && wi + t < w@.len() ==> e@[t] == w@[wi + t],
            decreases e@.len() - j,
        {
            if wi + j >= w.len() {
                // The word is exhausted: the remaining pairs do not exist.
                assert(chunk_ok(e@, w@, wi as int));
                assert(wi + e@.len() >= w@.len());
                assert(kw_match_from(sl, ti0 + 1, w@, wi + e@.len(), preserve));
                assert(kw_match_from(sl, ti0, w@, wi as int, preserve));
                return true;
            }
            if e[j] != w[wi + j] {
                assert(!chunk_ok(e@, w@, wi as int));
                assert(!kw_match_from(sl, ti0, w@, wi as int, preserve));
                return false;
            }
            j += 1;
        }
        assert(chunk_ok(e@, w@, wi as int));
        let new_wi = if e.len() >= w.len() - wi {
            w.len()
        } else {
            wi + e.len()
        };
        proof {
            if new_wi != wi + e@.len() {
                // Both positions lie at or past the end of the word, where
                // the match is decided the same way.
                assert(wi + e@.len() >= w@.len());
                assert(kw_match_from(sl, ti0 + 1, w@, wi + e@.len(), preserve));
                assert(kw_match_from(sl, ti0 + 1, w@, new_wi as int, preserve));
            }
        }
        wi = new_wi;
        ti += 1;
    }
    assert(kw_match_from(sl, hi + 1 - lo, w@, wi as int, preserve));
    true
}

/// Whether the keep word `kw` matches the tail of `text` ending at `idx`:
/// the word fits before `idx`, the match starts at the text start or the
/// one character before it is not alphanumeric, and the case-expanded tail
/// characters agree with the word positionally.
pub open spec fn kw_hit(kw: KeepWord, text: Seq<char>, idx: int, preserve: bool) -> bool {
    let disp = kw.disp as int;
    &&& 0 <= idx < text.len()
    &&& disp <= idx
    &&& (idx == disp || !unicode_alphanumeric(text[idx - disp - 1]))
    &&& kw_match_from(text.subrange(idx - disp, idx + 1), 0, kw.chars@, 0, preserve)
}

/// Whether any keep word of `keep` matches the tail of `text` ending at
/// `idx`.
pub open spec fn ends_with_kw(keep: Seq<KeepWord>, text: Seq<char>, idx: int, preserve: bool) -> bool {
    exists|k: int| 0 <= k < keep.len() && kw_hit(#[trigger] keep[k], text, idx, preserve)
}

/// Decide `ends_with_kw` for the stored keep-word list.
pub fn ends_with_keep_word_at(
    keep: &Vec<KeepWord>,
    text: &Vec<char>,
    idx: usize,
    preserve: bool,
) -> (r: bool)
    ensures
        r == ends_with_kw(keep@, text@, idx as int, preserve),
{
    if idx >= text.len() {
        assert(!ends_with_kw(keep@, text@, idx as int, preserve));
        return false;
    }
    let mut k: usize = 0;
    while k < keep.len()
        invariant
            idx < text@.len(),
            k <= keep@.len(),
            forall|t: int|
                0 <= t < k ==> !kw_hit(#[trigger] keep@[t], text@, idx as int, preserve),
        decreases keep@.len() - k,
    {
        let kw = &keep[k];
        if kw.disp <= idx {
            let disp = kw.disp;
            let boundary_ok: bool = if idx == disp {
                true
            } else {
                !char_is_unicode_alphanumeric(text[idx - disp - 1])
            };
            if boundary_ok {
                if slice_matches(text, idx - disp, idx, &kw.chars, preserve) {
                    assert(kw_hit(keep@[k as int], text@, idx as int, preserve));
                    return true;
                }
            }
        }
        k += 1;
    }
    assert(!ends_with_kw(keep@, text@, idx as int, preserve));
    false
}

/// The case-sensitivity toggle, exact side: with case preserved, the match
/// compares the text characters literally against the word, position by
/// position, for as long as both sides last.  Without it the comparison
/// goes through the Unicode lowercase expansion instead, as the definition
/// of `case_chunk` states.
pub proof fn lemma_preserved_case_matches_literally(
    sl: Seq<char>,
    w: Seq<char>,
    ti: int,
    wi: int,
)
    requires
        0 <= ti,
        0 <= wi,
    ensures
        kw_match_from(sl, ti, w, wi, true) == (forall|j: int|
            0 <= j && ti + j < sl.len() && wi + j < w.len() ==> #[trigger] sl[ti + j] == w[wi
                + j]),
    decreases sl.len() - ti,
{
    if wi >= w.len() || ti >= sl.len() {
    } else {
        lemma_preserved_case_matches_literally(sl, w, ti + 1, wi + 1);
        assert(case_chunk(sl[ti], true) == seq![sl[ti]]);
        assert(chunk_ok(seq![sl[ti]], w, wi) == (sl[ti] == w[wi])) by {
            assert(seq![sl[ti]][0] == sl[ti]);
        }
        if kw_match_from(sl, ti, w, wi, true) {
            assert forall|j: int|
                0 <= j && ti + j < sl.len() && wi + j < w.len() implies #[trigger] sl[ti + j]
                == w[wi + j] by {
                if j > 0 {
                    assert(sl[ti + 1 + (j - 1)] == w[wi + 1 + (j - 1)]);
                }
            }
        } else {
            if (forall|j: int|
                0 <= j && ti + j < sl.len() && wi + j < w.len() ==> #[trigger] sl[ti + j] == w[wi
                    + j]) {
                assert(sl[ti + 0] == w[wi + 0]);
                assert forall|j: int|
                    0 <= j && ti + 1 + j < sl.len() && wi + 1 + j < w.len() implies #[trigger] sl[ti
                    + 1 + j] == w[wi + 1 + j] by {
                    assert(sl[ti + (j + 1)] == w[wi + (j + 1)]);
                }
                assert(kw_match_from(sl, ti + 1, w, wi + 1, true));
                assert(false);
            }
        }
    }
}

} // verus!
