//! Character classification and case folding.
//!
//! The `White_Space` property is small enough to state outright, so
//! `unicode_whitespace` lists its code points.  The tables behind
//! `char::is_alphanumeric` and the case-folding functions are far too
//! large to restate; their results are given names (`unicode_alphanumeric`,
//! `char_lower`, `str_lower`) that the rest of the library's contracts
//! speak of.  Each stands for a pure function of its argument alone.

use vstd::prelude::*;

verus! {

/// Whether `c` has the Unicode `White_Space` property, as decided by
/// `char::is_whitespace`: the ASCII whitespace controls and space, next
/// line, no-break space, ogham space mark, the typographic spaces, the
/// line and paragraph separators, narrow no-break space, medium
/// mathematical space and ideographic space.  Kept opaque so that uses
/// stay abstract; the wrapper below ties the runtime answer to it.
#[verifier::opaque]
pub open spec fn unicode_whitespace(c: char) -> bool {
    ||| c == '\u{0009}'
    ||| c == '\u{000a}'
    ||| c == '\u{000b}'
    ||| c == '\u{000c}'
    ||| c == '\u{000d}'
    ||| c == '\u{0020}'
    ||| c == '\u{0085}'
    ||| c == '\u{00a0}'
    ||| c == '\u{1680}'
    ||| c == '\u{2000}'
    ||| c == '\u{2001}'
    ||| c == '\u{2002}'
    ||| c == '\u{2003}'
    ||| c == '\u{2004}'
    ||| c == '\u{2005}'
    ||| c == '\u{2006}'
    ||| c == '\u{2007}'
    ||| c == '\u{2008}'
    ||| c == '\u{2009}'
    ||| c == '\u{200a}'
    ||| c == '\u{2028}'
    ||| c == '\u{2029}'
    ||| c == '\u{202f}'
    ||| c == '\u{205f}'
    ||| c == '\u{3000}'
}

/// Whether `c` is alphabetic or numeric, as decided by
/// `char::is_alphanumeric`.
pub uninterp spec fn unicode_alphanumeric(c: char) -> bool;

/// The full Unicode lowercase expansion of a single character, as produced by
/// `char::to_lowercase`.  One character may expand to several.
pub uninterp spec fn char_lower(c: char) -> Seq<char>;

/// The Unicode lowercase conversion of a whole string, as produced by
/// `str::to_lowercase`.  This is not always the concatenation of the
/// per-character expansions: the conversion of a final Greek sigma depends on
/// its neighbours.
pub uninterp spec fn str_lower(s: Seq<char>) -> Seq<char>;

/// Relies on `char::is_whitespace`: the Unicode `White_Space` property,
/// which is exactly the set `unicode_whitespace` states.
#[verifier::external_body]
pub fn char_is_unicode_whitespace(c: char) -> (r: bool)
    ensures
        r == unicode_whitespace(c),
{
    c.is_whitespace()
}

/// Relies on `char::is_alphanumeric`: the Unicode `Alphabetic` property or
/// numeric categories, a function of the character alone.
#[verifier::external_body]
pub fn char_is_unicode_alphanumeric(c: char) -> (r: bool)
    ensures
        r == unicode_alphanumeric(c),
{
    c.is_alphanumeric()
}

/// Relies on `char::to_lowercase`: the Unicode lowercase expansion of one
/// character, a function of the character alone.
#[verifier::external_body]
pub fn char_to_lower(c: char) -> (r: Vec<char>)
    ensures
        r@ == char_lower(c),
{
    c.to_lowercase().collect()
}

/// Relies on `str::to_lowercase`: the Unicode lowercase conversion of a
/// string, a function of the character sequence alone.
#[verifier::external_body]
pub fn str_to_lower(s: &str) -> (r: String)
    ensures
        r@ == str_lower(s@),
{
    s.to_lowercase()
}

/// Relies on `String::from_iter` over a vector of characters: builds the
/// string holding exactly those characters.
#[verifier::external_body]
pub fn chars_to_string(v: &Vec<char>) -> (r: String)
    ensures
        r@ == v@,
{
    v.iter().collect()
}

/// Collect the characters of a string into a vector.
pub fn str_to_chars(s: &str) -> (r: Vec<char>)
    ensures
        r@ == s@,
{
    let n: usize = s.unicode_len();
    let mut r: Vec<char> = Vec::new();
    let mut i: usize = 0;
    while i < n
        invariant
            i <= n,
            n == s@.len(),
            r@ =~= s@.subrange(0, i as int),
        decreases n - i,
    {
        let c = s.get_char(i);
        r.push(c);
        i += 1;
    }
    assert(r@ =~= s@);
    r
}

/// Whether `v` holds the character `c`.
pub fn contains_char(v: &Vec<char>, c: char) -> (r: bool)
    ensures
        r == v@.contains(c),
{
    let mut i: usize = 0;
    while i < v.len()
        invariant
            i <= v@.len(),
            forall|j: int| 0 <= j < i ==> v@[j] != c,
        decreases v@.len() - i,
    {
        if v[i] == c {
            return true;
        }
        i += 1;
    }
    false
}

/// Whether the character sequences of `a` and `b` are equal.
pub fn chars_eq(a: &Vec<char>, b: &Vec<char>) -> (r: bool)
    ensures
        r == (a@ == b@),
{
    if a.len() != b.len() {
        assert(a@ != b@);
        return false;
    }
    let mut i: usize = 0;
    while i < a.len()
        invariant
            i <= a@.len(),
            a@.len() == b@.len(),
            forall|j: int| 0 <= j < i ==> a@[j] == b@[j],
        decreases a@.len() - i,
    {
        if a[i] != b[i] {
            return false;
        }
        i += 1;
    }
    assert(a@ =~= b@);
    true
}

/// Whether the character sequence of `a` equals that of the literal `b`.
pub fn chars_eq_str(a: &Vec<char>, b: &str) -> (r: bool)
    ensures
        r == (a@ == b@),
{
    let n: usize = b.unicode_len();
    if a.len() != n {
        assert(a@ != b@);
        return false;
    }
    let mut i: usize = 0;
    while i < n
        invariant
            i <= n,
            n == a@.len(),
            a@.len() == b@.len(),
            forall|j: int| 0 <= j < i ==> a@[j] == b@[j],
        decreases n - i,
    {
        if a[i] != b.get_char(i) {
            return false;
        }
        i += 1;
    }
    assert(a@ =~= b@);
    true
}

/// Whether `sub` occurs as a contiguous subsequence of `s` starting at `i`.
pub open spec fn occurs_at(s: Seq<char>, sub: Seq<char>, i: int) -> bool {
    0 <= i && i + sub.len() <= s.len() && s.subrange(i, i + sub.len()) == sub
}

/// Whether `sub` occurs anywhere inside `s`.
pub open spec fn contains_seq(s: Seq<char>, sub: Seq<char>) -> bool {
    exists|i: int| occurs_at(s, sub, i)
}

/// Whether the characters of `hay` contain those of the literal `needle` as a
/// contiguous substring.
pub fn chars_contain_str(hay: &Vec<char>, needle: &str) -> (r: bool)
    ensures
        r == contains_seq(hay@, needle@),
{
    let m: usize = needle.unicode_len();
    if m > hay.len() {
        assert(forall|i: int| !occurs_at(hay@, needle@, i));
        return false;
    }
    let mut i: usize = 0;
    while i <= hay.len() - m
        invariant
            m == needle@.len(),
            m <= hay@.len(),
            i <= hay@.len() - m + 1,
            forall|k: int| 0 <= k < i ==> !occurs_at(hay@, needle@, k),
        decreases hay@.len() - i,
    {
        let mut j: usize = 0;
        let mut mism: usize = 0;
        let mut all_match = true;
        while j < m
            invariant
                m == needle@.len(),
                i + m <= hay@.len(),
                hay@.len() <= usize::MAX,
                j <= m,
                all_match ==> forall|t: int| 0 <= t < j ==> hay@[i + t] == needle@[t],
                !all_match ==> (mism < m && hay@[i + mism] != needle@[mism as int]),
            decreases m - j,
        {
            if hay[i + j] != needle.get_char(j) {
                all_match = false;
                mism = j;
                j = m;
            } else {
                j += 1;
            }
        }
        if all_match {
            assert(hay@.subrange(i as int, i + needle@.len()) =~= needle@);
            assert(occurs_at(hay@, needle@, i as int));
            return true;
        }
        assert(!occurs_at(hay@, needle@, i as int)) by {
            if occurs_at(hay@, needle@, i as int) {
                assert(hay@.subrange(i as int, i + needle@.len())[mism as int] == hay@[i + mism]);
            }
        }
        i += 1;
    }
    assert(forall|k: int| !occurs_at(hay@, needle@, k));
    false
}

} // verus!
