//! Inserting line breaks after sentence ends.

use crate::detect::{nbsp_char, BreakDetector, WhitespaceDetector};
use crate::kwmatch::ends_with_keep_word_at;
use crate::unicode::{chars_to_string, str_to_chars};
use vstd::prelude::*;

verus! {

/// One decision about a character position: drop it, or break before it.
#[derive(Debug, PartialEq, Eq, Hash)]
pub enum Mark {
    Skip(usize),
    Split(usize),
}

/// The whitespace normalisation step: every linebreak is replaced by a
/// space unless the character before it is a non-breaking space, which
/// serves as an explicit escape for keeping a break.
pub open spec fn spec_normalise(s: Seq<char>) -> Seq<char> {
    Seq::new(
        s.len(),
        |i: int|
            if s[i] == '\n' && !(i > 0 && nbsp_char(s[i - 1])) {
                ' '
            } else {
                s[i]
            },
    )
}

/// Normalising twice yields the same text as normalising once.
pub proof fn lemma_normalise_idempotent(s: Seq<char>)
    ensures
        spec_normalise(spec_normalise(s)) == spec_normalise(s),
{
    let n1 = spec_normalise(s);
    let n2 = spec_normalise(n1);
    assert forall|i: int| 0 <= i < n2.len() implies n2[i] == n1[i] by {
        if n1[i] == '\n' {
            assert(s[i] == '\n' && i > 0 && nbsp_char(s[i - 1]));
            assert(n1[i - 1] == s[i - 1]);
        }
    }
    assert(n2 =~= n1);
}

/// Replace all linebreaks by spaces unless escaped by a non-breaking space.
pub fn normalise_linebreaks(text: &str, detector: &WhitespaceDetector) -> (r: String)
    ensures
        r@ == spec_normalise(text@),
{
    let chars = str_to_chars(text);
    let mut out: Vec<char> = Vec::new();
    let mut last_was_nbsp = false;
    let mut i: usize = 0;
    while i < chars.len()
        invariant
            chars@ == text@,
            i <= chars@.len(),
            last_was_nbsp == (i > 0 && nbsp_char(chars@[i - 1])),
            out@ =~= spec_normalise(text@).subrange(0, i as int),
        decreases chars@.len() - i,
    {
        let el = chars[i];
        let replacement = if el != '\n' || last_was_nbsp {
            el
        } else {
            ' '
        };
        last_was_nbsp = detector.is_nbsp(&el);
        out.push(replacement);
        i += 1;
    }
    assert(out@ =~= spec_normalise(text@));
    chars_to_string(&out)
}

/// Whether position `i` of `s` ends a sentence: a breaking marker in its
/// surroundings, not covered by a suppression word.
pub open spec fn sentence_end(det: &BreakDetector, s: Seq<char>, i: int) -> bool {
    &&& 0 <= i < s.len()
    &&& det.spec_is_breaking_marker(
        if i >= 1 {
            Some(s[i - 1])
        } else {
            None
        },
        s[i],
        if i + 1 < s.len() {
            Some(s[i + 1])
        } else {
            None
        },
    )
    &&& !det.spec_ends_with_keep_word(s, i)
}

/// A sentence end needs following whitespace, so it never sits on the last
/// position.
pub proof fn lemma_sentence_end_not_last(det: &BreakDetector, s: Seq<char>, i: int)
    requires
        sentence_end(det, s, i),
    ensures
        i + 1 < s.len(),
{
}

/// Decide `sentence_end` at one position.
fn sentence_end_at(det: &BreakDetector, chars: &Vec<char>, i: usize) -> (r: bool)
    requires
        i < chars@.len(),
    ensures
        r == sentence_end(det, chars@, i as int),
{
    let n: usize = chars.len();
    let prev: Option<&char> = if i >= 1 {
        Some(&chars[i - 1])
    } else {
        None
    };
    let next: Option<&char> = if i + 1 < n {
        Some(&chars[i + 1])
    } else {
        None
    };
    let breaking = det.is_breaking_marker(prev, &chars[i], next);
    if !breaking {
        return false;
    }
    let suppressed = ends_with_keep_word_at(
        &det.keep_words,
        chars,
        i,
        det.keep_words_preserve_case,
    );
    !suppressed
}

/// The marks that the sentence ends of `s` induce: after each end, the
/// following character is dropped and a break is inserted in its place.
pub open spec fn marks_of(det: &BreakDetector, s: Seq<char>, i: int) -> Seq<Mark>
    decreases s.len() - i,
{
    if i < 0 || i >= s.len() {
        Seq::empty()
    } else {
        (if sentence_end(det, s, i) {
            seq![Mark::Skip((i + 1) as usize), Mark::Split((i + 2) as usize)]
        } else {
            Seq::empty()
        }) + marks_of(det, s, i + 1)
    }
}

/// Find all sentence-end marks of `text`.
pub fn find_sentence_ends(text: &str, detector: &BreakDetector) -> (r: Vec<Mark>)
    ensures
        r@ == marks_of(detector, text@, 0),
{
    let chars = str_to_chars(text);
    let mut r: Vec<Mark> = Vec::new();
    let mut i: usize = 0;
    while i < chars.len()
        invariant
            chars@ == text@,
            i <= chars@.len(),
            marks_of(detector, text@, 0) == r@ + marks_of(detector, text@, i as int),
        decreases chars@.len() - i,
    {
        if sentence_end_at(detector, &chars, i) {
            proof {
                lemma_sentence_end_not_last(detector, text@, i as int);
            }
            r.push(Mark::Skip(i + 1));
            r.push(Mark::Split(i + 2));
        }
        i += 1;
    }
    assert(marks_of(detector, text@, chars@.len() as int) =~= Seq::<Mark>::empty());
    assert(r@ =~= marks_of(detector, text@, 0));
    r
}

/// Whether the character at position `i` of the normalised text is dropped:
/// it directly follows a sentence end.
pub open spec fn skip_at(det: &BreakDetector, s: Seq<char>, i: int) -> bool {
    i >= 1 && sentence_end(det, s, i - 1)
}

/// Whether a break is inserted before position `i` of the normalised text:
/// it comes two characters after a sentence end.
pub open spec fn split_at(det: &BreakDetector, s: Seq<char>, i: int) -> bool {
    i >= 2 && sentence_end(det, s, i - 2)
}

/// The text with breaks applied: dropped positions vanish, split positions
/// gain a leading linebreak.  A position that is both dropped and split is
/// dropped.
pub open spec fn linebroken(det: &BreakDetector, s: Seq<char>, i: int) -> Seq<char>
    decreases s.len() - i,
{
    if i < 0 || i >= s.len() {
        Seq::empty()
    } else {
        (if skip_at(det, s, i) {
            Seq::empty()
        } else if split_at(det, s, i) {
            seq!['\n', s[i]]
        } else {
            seq![s[i]]
        }) + linebroken(det, s, i + 1)
    }
}

/// Normalise the whitespace of `text` and insert a line break after every
/// detected sentence end, replacing the whitespace character that followed
/// the end marker.
pub fn insert_linebreaks_after_sentence_ends(text: &str, detector: &BreakDetector) -> (r: String)
    ensures
        r@ == linebroken(detector, spec_normalise(text@), 0),
{
    let merged = normalise_linebreaks(text, &detector.whitespace);
    let chars = str_to_chars(merged.as_str());
    let ghost s = spec_normalise(text@);
    let mut out: Vec<char> = Vec::new();
    let mut i: usize = 0;
    while i < chars.len()
        invariant
            chars@ == s,
            i <= chars@.len(),
            linebroken(detector, s, 0) == out@ + linebroken(detector, s, i as int),
        decreases chars@.len() - i,
    {
        let dropped = if i >= 1 {
            sentence_end_at(detector, &chars, i - 1)
        } else {
            false
        };
        if !dropped {
            let split = if i >= 2 {
                sentence_end_at(detector, &chars, i - 2)
            } else {
                false
            };
            if split {
                out.push('\n');
                out.push(chars[i]);
            } else {
                out.push(chars[i]);
            }
        }
        i += 1;
    }
    assert(linebroken(detector, s, chars@.len() as int) =~= Seq::<char>::empty());
    assert(out@ =~= linebroken(detector, s, 0));
    chars_to_string(&out)
}

} // verus!
