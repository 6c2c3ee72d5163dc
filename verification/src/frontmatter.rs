//! Extracting frontmatter delimited by separator lines.

use crate::unicode::{chars_to_string, occurs_at, str_to_chars};
use crate::words::find_char;
use vstd::prelude::*;

verus! {

/// Whether a frontmatter separator line sits at line start `p`: the four
/// characters of `---` plus a linebreak, which also end the line there.
pub open spec fn sep_at(s: Seq<char>, p: int) -> bool {
    occurs_at(s, "---\n"@, p)
}

/// The end (exclusive) of the first separator line at or after line start
/// `p`, or `-1` when there is none.
pub open spec fn find_sep_end(s: Seq<char>, p: int) -> int
    decreases s.len() - p,
    via find_sep_end_decreases
{
    if p < 0 || p >= s.len() {
        -1
    } else if sep_at(s, p) {
        p + 4
    } else {
        let k = find_char(s.skip(p), '\n');
        if p + k >= s.len() {
            -1
        } else {
            find_sep_end(s, p + k + 1)
        }
    }
}

#[via_fn]
proof fn find_sep_end_decreases(s: Seq<char>, p: int) {
    if 0 <= p < s.len() && !sep_at(s, p) {
        crate::words::lemma_find_char(s.skip(p), '\n');
    }
}

/// The frontmatter of `s`: the prefix through the closing separator line,
/// when `s` opens with a separator line and a closing one follows; empty
/// otherwise.
pub open spec fn spec_frontmatter(s: Seq<char>) -> Seq<char> {
    if !sep_at(s, 0) {
        Seq::empty()
    } else {
        let e = find_sep_end(s, 4);
        if e < 0 {
            Seq::empty()
        } else {
            s.take(e)
        }
    }
}

/// Check for a separator line at position `p` of `chars`.
fn sep_check(chars: &Vec<char>, p: usize) -> (r: bool)
    requires
        p <= chars@.len(),
    ensures
        r == sep_at(chars@, p as int),
{
    let n = chars.len();
    proof {
        reveal_strlit("---\n");
        assert("---\n"@.len() == 4);
        assert("---\n"@[0] == '-' && "---\n"@[1] == '-' && "---\n"@[2] == '-' && "---\n"@[3]
            == '\n');
    }
    if n < 4 || p > n - 4 {
        assert(!occurs_at(chars@, "---\n"@, p as int));
        return false;
    }
    let m = chars[p] == '-' && chars[p + 1] == '-' && chars[p + 2] == '-' && chars[p + 3] == '\n';
    proof {
        if m {
            assert(chars@.subrange(p as int, p + 4) =~= "---\n"@);
        } else {
            assert(forall|t: int|
                0 <= t < 4 ==> #[trigger] chars@.subrange(p as int, p + 4)[t] == chars@[p + t]);
        }
    }
    m
}

/// Extract the frontmatter of the document: everything from an opening
/// `---` line through the closing one, or the empty string when the
/// document does not open with one or none closes it.
#[verifier::loop_isolation(false)]
pub fn extract_frontmatter(text: &String) -> (r: String)
    ensures
        r@ == spec_frontmatter(text@),
{
    let chars = str_to_chars(text.as_str());
    let n = chars.len();
    if !sep_check(&chars, 0) {
        let empty = String::new();
        return empty;
    }
    proof {
        reveal_strlit("---\n");
        assert(n >= 4);
    }
    let mut p: usize = 4;
    while p < n
        invariant
            chars@ == text@,
            n == chars@.len(),
            4 <= p,
            p <= n,
            find_sep_end(chars@, 4) == find_sep_end(chars@, p as int),
        decreases n - p,
    {
        if sep_check(&chars, p) {
            let mut out: Vec<char> = Vec::new();
            let mut t: usize = 0;
            while t < p + 4
                invariant
                    p + 4 <= n,
                    n == chars@.len(),
                    t <= p + 4,
                    out@ =~= chars@.subrange(0, t as int),
                decreases p + 4 - t,
            {
                out.push(chars[t]);
                t += 1;
            }
            proof {
                assert(out@ =~= chars@.take(p + 4));
            }
            return chars_to_string(&out);
        }
        let mut j: usize = p;
        while j < n && chars[j] != '\n'
            invariant
                n == chars@.len(),
                p <= j <= n,
                forall|t: int| p <= t < j ==> chars@[t] != '\n',
            decreases n - j,
        {
            j += 1;
        }
        proof {
            if j < n {
                crate::words::lemma_find_char_at(chars@, '\n', p as int, j as int);
            } else {
                crate::words::lemma_find_char_at(chars@, '\n', p as int, n as int);
            }
        }
        if j >= n {
            let empty = String::new();
            return empty;
        }
        p = j + 1;
    }
    let empty = String::new();
    empty
}

} // verus!
