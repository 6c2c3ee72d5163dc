//! Splitting character sequences into words and pieces.
//!
//! Two flavours are used throughout the library: whitespace splitting that
//! drops empty tokens (the behaviour of `str::split_whitespace`, relative to
//! a configurable whitespace predicate), and splitting at a separator
//! character that keeps empty pieces (the behaviour of `str::split`).

use vstd::prelude::*;

verus! {

/// Length of the longest prefix of `s` whose characters all fail `ws`.
pub open spec fn word_len(s: Seq<char>, ws: spec_fn(char) -> bool) -> nat
    decreases s.len(),
{
    if s.len() == 0 || ws(s[0]) {
        0
    } else {
        1 + word_len(s.drop_first(), ws)
    }
}

/// The non-empty maximal runs of non-`ws` characters of `s`, in order.
pub open spec fn split_ws(s: Seq<char>, ws: spec_fn(char) -> bool) -> Seq<Seq<char>>
    decreases s.len(),
    via split_ws_decreases
{
    if s.len() == 0 {
        Seq::empty()
    } else if ws(s[0]) {
        split_ws(s.drop_first(), ws)
    } else {
        seq![s.take(word_len(s, ws) as int)] + split_ws(s.skip(word_len(s, ws) as int), ws)
    }
}

#[via_fn]
proof fn split_ws_decreases(s: Seq<char>, ws: spec_fn(char) -> bool) {
    if s.len() > 0 && !ws(s[0]) {
        lemma_word_len_bounds(s, ws);
        assert(word_len(s, ws) >= 1);
    }
}

/// Every word produced by `split_ws` is non-empty and free of `ws` characters.
pub proof fn lemma_split_ws_words(s: Seq<char>, ws: spec_fn(char) -> bool)
    ensures
        forall|k: int| 0 <= k < split_ws(s, ws).len() ==> (#[trigger] split_ws(s, ws)[k]).len() > 0,
        forall|k: int, t: int|
            0 <= k < split_ws(s, ws).len() && 0 <= t < split_ws(s, ws)[k].len() ==> !ws(
                #[trigger] split_ws(s, ws)[k][t],
            ),
    decreases s.len(),
{
    if s.len() == 0 {
    } else if ws(s[0]) {
        lemma_split_ws_words(s.drop_first(), ws);
        assert(split_ws(s, ws) == split_ws(s.drop_first(), ws));
    } else {
        let wl = word_len(s, ws) as int;
        lemma_word_len_bounds(s, ws);
        lemma_split_ws_words(s.skip(wl), ws);
        let r = split_ws(s, ws);
        let rest = split_ws(s.skip(wl), ws);
        assert(r == seq![s.take(wl)] + rest);
        assert forall|k: int| 0 <= k < r.len() implies (#[trigger] r[k]).len() > 0 by {
            if k > 0 {
                assert(r[k] == rest[k - 1]);
            }
        }
        assert forall|k: int, t: int|
            0 <= k < r.len() && 0 <= t < r[k].len() implies !ws(#[trigger] r[k][t]) by {
            if k == 0 {
                lemma_word_len_chars(s, ws, t);
                assert(r[0] == s.take(wl));
                assert(r[0][t] == s[t]);
            } else {
                assert(r[k] == rest[k - 1]);
            }
        }
    }
}

/// Characters inside the leading word are not whitespace.
pub proof fn lemma_word_len_chars(s: Seq<char>, ws: spec_fn(char) -> bool, t: int)
    requires
        0 <= t < word_len(s, ws),
    ensures
        t < s.len(),
        !ws(s[t]),
    decreases s.len(),
{
    lemma_word_len_bounds(s, ws);
    if t > 0 {
        lemma_word_len_chars(s.drop_first(), ws, t - 1);
        assert(s.drop_first()[t - 1] == s[t]);
    }
}

pub proof fn lemma_word_len_bounds(s: Seq<char>, ws: spec_fn(char) -> bool)
    ensures
        word_len(s, ws) <= s.len(),
        word_len(s, ws) < s.len() ==> ws(s[word_len(s, ws) as int]),
    decreases s.len(),
{
    if s.len() == 0 || ws(s[0]) {
    } else {
        lemma_word_len_bounds(s.drop_first(), ws);
    }
}

/// If the characters of `s` at positions `[i, j)` are non-`ws` and position
/// `j` is either the end or a `ws` character, the leading word of `s.skip(i)`
/// has length `j - i`.
pub proof fn lemma_word_len_at(s: Seq<char>, ws: spec_fn(char) -> bool, i: int, j: int)
    requires
        0 <= i <= j <= s.len(),
        forall|t: int| i <= t < j ==> !ws(#[trigger] s[t]),
        j == s.len() || ws(s[j]),
    ensures
        word_len(s.skip(i), ws) == j - i,
    decreases j - i,
{
    if i == j {
        if i < s.len() {
            assert(s.skip(i)[0] == s[i]);
        }
    } else {
        lemma_word_len_at(s, ws, i + 1, j);
        assert(s.skip(i)[0] == s[i]);
        assert(s.skip(i).drop_first() =~= s.skip(i + 1));
    }
}

/// Skipping a leading `ws` character leaves the words unchanged.
pub proof fn lemma_split_ws_skip_one(s: Seq<char>, ws: spec_fn(char) -> bool, i: int)
    requires
        0 <= i < s.len(),
        ws(s[i]),
    ensures
        split_ws(s.skip(i), ws) == split_ws(s.skip(i + 1), ws),
{
    assert(s.skip(i)[0] == s[i]);
    assert(s.skip(i).drop_first() =~= s.skip(i + 1));
}

/// Peeling the leading word `s[i..j)` off the suffix `s.skip(i)`.
pub proof fn lemma_split_ws_word(s: Seq<char>, ws: spec_fn(char) -> bool, i: int, j: int)
    requires
        0 <= i < j <= s.len(),
        forall|t: int| i <= t < j ==> !ws(#[trigger] s[t]),
        j == s.len() || ws(s[j]),
    ensures
        split_ws(s.skip(i), ws) == seq![s.subrange(i, j)] + split_ws(s.skip(j), ws),
{
    lemma_word_len_at(s, ws, i, j);
    assert(s.skip(i)[0] == s[i]);
    assert(!ws(s.skip(i)[0]));
    assert(s.skip(i).take(j - i) =~= s.subrange(i, j));
    assert(s.skip(i).skip(j - i) =~= s.skip(j));
}

/// Split `s` into its maximal non-`ws` runs.  `bits` caches the verdict of
/// `ws` on every character of `s`.
pub fn split_on_bits(s: &Vec<char>, bits: &Vec<bool>, ws: Ghost<spec_fn(char) -> bool>) -> (r: Vec<
    Vec<char>,
>)
    requires
        bits@.len() == s@.len(),
        forall|k: int| 0 <= k < s@.len() ==> bits@[k] == (ws@)(s@[k]),
    ensures
        r@.map(|_i: int, w: Vec<char>| w@) == split_ws(s@, ws@),
{
    let ghost wsf = ws@;
    let n: usize = s.len();
    let mut r: Vec<Vec<char>> = Vec::new();
    let mut i: usize = 0;
    proof {
        assert(s@.skip(0) =~= s@);
    }
    while i < n
        invariant
            n == s@.len(),
            bits@.len() == s@.len(),
            forall|k: int| 0 <= k < s@.len() ==> bits@[k] == (wsf)(s@[k]),
            i <= n,
            split_ws(s@, wsf) == r@.map(|_i: int, w: Vec<char>| w@) + split_ws(
                s@.skip(i as int),
                wsf,
            ),
        decreases n - i,
    {
        if bits[i] {
            proof {
                lemma_split_ws_skip_one(s@, wsf, i as int);
            }
            i += 1;
        } else {
            let start = i;
            let mut j: usize = i;
            while j < n && !bits[j]
                invariant
                    n == s@.len(),
                    bits@.len() == s@.len(),
                    forall|k: int| 0 <= k < s@.len() ==> bits@[k] == (wsf)(s@[k]),
                    start <= j <= n,
                    forall|t: int| start <= t < j ==> !(wsf)(#[trigger] s@[t]),
                decreases n - j,
            {
                j += 1;
            }
            let mut w: Vec<char> = Vec::new();
            let mut t: usize = start;
            while t < j
                invariant
                    start <= t <= j <= n,
                    n == s@.len(),
                    w@ =~= s@.subrange(start as int, t as int),
                decreases j - t,
            {
                w.push(s[t]);
                t += 1;
            }
            proof {
                assert(w@ =~= s@.subrange(start as int, j as int));
                lemma_split_ws_word(s@, wsf, start as int, j as int);
                assert(r@.push(w).map(|_i: int, x: Vec<char>| x@) =~= r@.map(
                    |_i: int,
                    x: Vec<char>|
                    x@,
                ).push(w@));
            }
            r.push(w);
            i = j;
        }
    }
    proof {
        assert(s@.skip(n as int) =~= Seq::<char>::empty());
        assert(split_ws(s@, wsf) =~= r@.map(|_i: int, w: Vec<char>| w@));
    }
    r
}

/// Index of the first occurrence of `c` in `s`, or `s.len()` if absent.
pub open spec fn find_char(s: Seq<char>, c: char) -> int
    decreases s.len(),
{
    if s.len() == 0 {
        0
    } else if s[0] == c {
        0
    } else {
        1 + find_char(s.drop_first(), c)
    }
}

pub proof fn lemma_find_char(s: Seq<char>, c: char)
    ensures
        0 <= find_char(s, c) <= s.len(),
        find_char(s, c) < s.len() ==> s[find_char(s, c)] == c,
        forall|t: int| 0 <= t < find_char(s, c) ==> s[t] != c,
    decreases s.len(),
{
    if s.len() == 0 || s[0] == c {
    } else {
        lemma_find_char(s.drop_first(), c);
        assert forall|t: int| 0 <= t < find_char(s, c) implies s[t] != c by {
            if t > 0 {
                assert(s.drop_first()[t - 1] == s[t]);
            }
        }
    }
}

/// The pieces of `s` between occurrences of the separator `c`, empties kept.
pub open spec fn split_char(s: Seq<char>, c: char) -> Seq<Seq<char>>
    decreases s.len(),
    via split_char_decreases
{
    let k = find_char(s, c);
    if k == s.len() {
        seq![s]
    } else {
        seq![s.take(k)] + split_char(s.skip(k + 1), c)
    }
}

#[via_fn]
proof fn split_char_decreases(s: Seq<char>, c: char) {
    lemma_find_char(s, c);
}

/// If positions `[i, j)` of `s` avoid `c` and `j` is the end, the suffix is a
/// single piece.
pub proof fn lemma_split_char_last(s: Seq<char>, c: char, i: int)
    requires
        0 <= i <= s.len(),
        forall|t: int| i <= t < s.len() ==> s[t] != c,
    ensures
        split_char(s.skip(i), c) == seq![s.subrange(i, s.len() as int)],
{
    lemma_find_char_at(s, c, i, s.len() as int);
    assert(s.skip(i) =~= s.subrange(i, s.len() as int));
}

/// If positions `[i, j)` of `s` avoid `c` and `s[j] == c`, the piece `s[i..j)`
/// splits off the front of the suffix.
pub proof fn lemma_split_char_piece(s: Seq<char>, c: char, i: int, j: int)
    requires
        0 <= i <= j < s.len(),
        forall|t: int| i <= t < j ==> s[t] != c,
        s[j] == c,
    ensures
        split_char(s.skip(i), c) == seq![s.subrange(i, j)] + split_char(s.skip(j + 1), c),
{
    lemma_find_char_at(s, c, i, j);
    assert(s.skip(i).take(j - i) =~= s.subrange(i, j));
    assert(s.skip(i).skip(j - i + 1) =~= s.skip(j + 1));
}

pub proof fn lemma_find_char_at(s: Seq<char>, c: char, i: int, j: int)
    requires
        0 <= i <= j <= s.len(),
        forall|t: int| i <= t < j ==> s[t] != c,
        j == s.len() || s[j] == c,
    ensures
        find_char(s.skip(i), c) == j - i,
    decreases j - i,
{
    if i == j {
        if i < s.len() {
            assert(s.skip(i)[0] == s[i]);
        }
    } else {
        lemma_find_char_at(s, c, i + 1, j);
        assert(s.skip(i)[0] == s[i]);
        assert(s.skip(i).drop_first() =~= s.skip(i + 1));
    }
}

/// Splitting always yields at least one piece.
pub proof fn lemma_split_char_nonempty(s: Seq<char>, c: char)
    ensures
        split_char(s, c).len() >= 1,
{
}

/// Split `s` at every occurrence of `c`, keeping empty pieces.
pub fn split_at_char(s: &Vec<char>, c: char) -> (r: Vec<Vec<char>>)
    ensures
        r@.map(|_i: int, w: Vec<char>| w@) == split_char(s@, c),
{
    let n: usize = s.len();
    let mut r: Vec<Vec<char>> = Vec::new();
    let mut i: usize = 0;
    let mut piece: Vec<char> = Vec::new();
    proof {
        assert(s@.skip(0) =~= s@);
    }
    loop
        invariant
            n == s@.len(),
            i <= n,
            piece@.len() <= i,
            piece@ =~= s@.subrange(i - piece@.len(), i as int),
            forall|t: int| i - piece@.len() <= t < i ==> s@[t] != c,
            split_char(s@, c) == r@.map(|_i: int, w: Vec<char>| w@) + split_char(
                s@.skip(i - piece@.len()),
                c,
            ),
        decreases n - i,
    {
        if i == n {
            proof {
                lemma_split_char_last(s@, c, i - piece@.len());
                assert(piece@ =~= s@.subrange(i - piece@.len(), n as int));
                assert(r@.push(piece).map(|_i: int, x: Vec<char>| x@) =~= r@.map(
                    |_i: int,
                    x: Vec<char>|
                    x@,
                ).push(piece@));
                assert(split_char(s@, c) =~= r@.push(piece).map(|_i: int, w: Vec<char>| w@));
            }
            r.push(piece);
            return r;
        }
        let ch = s[i];
        if ch == c {
            proof {
                lemma_split_char_piece(s@, c, i - piece@.len(), i as int);
                assert(piece@ =~= s@.subrange(i - piece@.len(), i as int));
                assert(r@.push(piece).map(|_i: int, x: Vec<char>| x@) =~= r@.map(
                    |_i: int,
                    x: Vec<char>|
                    x@,
                ).push(piece@));
            }
            r.push(piece);
            piece = Vec::new();
            i += 1;
        } else {
            piece.push(ch);
            i += 1;
        }
    }
}

/// The pieces joined by the separator.
pub open spec fn join_sep(ps: Seq<Seq<char>>, sep: Seq<char>, i: int) -> Seq<char>
    decreases ps.len() - i,
{
    if i < 0 || i >= ps.len() {
        Seq::empty()
    } else if i == ps.len() - 1 {
        ps[i]
    } else {
        ps[i] + sep + join_sep(ps, sep, i + 1)
    }
}

/// Join pieces with a separator string.
pub fn join_with(ps: &Vec<Vec<char>>, sep: &str) -> (r: Vec<char>)
    ensures
        r@ == join_sep(ps@.map(|_i: int, w: Vec<char>| w@), sep@, 0),
{
    let ghost view = ps@.map(|_i: int, w: Vec<char>| w@);
    let sep_chars = crate::unicode::str_to_chars(sep);
    let mut r: Vec<char> = Vec::new();
    let mut i: usize = 0;
    while i < ps.len()
        invariant
            view == ps@.map(|_i: int, w: Vec<char>| w@),
            sep_chars@ == sep@,
            i <= view.len(),
            join_sep(view, sep@, 0) == r@ + join_sep(view, sep@, i as int),
        decreases view.len() - i,
    {
        let piece = &ps[i];
        let mut t: usize = 0;
        let ghost r0 = r@;
        while t < piece.len()
            invariant
                t <= piece@.len(),
                r@ =~= r0 + piece@.subrange(0, t as int),
            decreases piece@.len() - t,
        {
            r.push(piece[t]);
            t += 1;
        }
        proof {
            assert(r@ =~= r0 + view[i as int]);
        }
        if i + 1 < ps.len() {
            let mut u: usize = 0;
            let ghost r1 = r@;
            while u < sep_chars.len()
                invariant
                    u <= sep_chars@.len(),
                    r@ =~= r1 + sep_chars@.subrange(0, u as int),
                decreases sep_chars@.len() - u,
            {
                r.push(sep_chars[u]);
                u += 1;
            }
            proof {
                assert(r@ =~= r1 + sep@);
            }
        }
        i += 1;
    }
    r
}

/// The pieces of `s` between non-overlapping, leftmost occurrences of the
/// separator `sep`, scanning from position `i`; `start` is where the
/// current piece began.
pub open spec fn split_str_from(s: Seq<char>, sep: Seq<char>, start: int, i: int) -> Seq<Seq<char>>
    decreases s.len() - i,
    via split_str_from_decreases
{
    if !(0 <= start <= i) || sep.len() == 0 {
        Seq::empty()
    } else if i + sep.len() > s.len() {
        seq![s.subrange(start, s.len() as int)]
    } else if crate::unicode::occurs_at(s, sep, i) {
        seq![s.subrange(start, i)] + split_str_from(s, sep, i + sep.len(), i + sep.len())
    } else {
        split_str_from(s, sep, start, i + 1)
    }
}

#[via_fn]
proof fn split_str_from_decreases(s: Seq<char>, sep: Seq<char>, start: int, i: int) {
}

/// Split `s` at every occurrence of the non-empty separator `sep`, keeping
/// empty pieces.
pub fn split_at_str(s: &Vec<char>, sep: &str) -> (r: Vec<Vec<char>>)
    requires
        sep@.len() > 0,
    ensures
        r@.map(|_i: int, w: Vec<char>| w@) == split_str_from(s@, sep@, 0, 0),
{
    let n: usize = s.len();
    let m: usize = sep.unicode_len();
    let mut r: Vec<Vec<char>> = Vec::new();
    let mut piece: Vec<char> = Vec::new();
    let mut i: usize = 0;
    loop
        invariant
            n == s@.len(),
            m == sep@.len(),
            m > 0,
            i <= n,
            piece@.len() <= i,
            piece@ =~= s@.subrange(i - piece@.len(), i as int),
            split_str_from(s@, sep@, 0, 0) == r@.map(|_i: int, w: Vec<char>| w@)
                + split_str_from(s@, sep@, i - piece@.len(), i as int),
        decreases n - i,
    {
        if n - i < m {
            assert(i + m > n);
            let mut t: usize = i;
            let ghost p0 = piece@;
            while t < n
                invariant
                    i <= t <= n,
                    n == s@.len(),
                    piece@ =~= p0 + s@.subrange(i as int, t as int),
                decreases n - t,
            {
                piece.push(s[t]);
                t += 1;
            }
            proof {
                assert(piece@ =~= s@.subrange(i - p0.len(), n as int));
                assert(r@.push(piece).map(|_i: int, x: Vec<char>| x@) =~= r@.map(
                    |_i: int,
                    x: Vec<char>|
                    x@,
                ).push(piece@));
                assert(split_str_from(s@, sep@, 0, 0) =~= r@.push(piece).map(
                    |_i: int,
                    w: Vec<char>|
                    w@,
                ));
            }
            r.push(piece);
            return r;
        }
        let mut j: usize = 0;
        let mut matched = true;
        let mut mism: usize = 0;
        while j < m
            invariant
                m == sep@.len(),
                i + m <= n,
                n == s@.len(),
                j <= m,
                matched ==> forall|t: int| 0 <= t < j ==> s@[i + t] == sep@[t],
                !matched ==> (mism < m && s@[i + mism] != sep@[mism as int]),
            decreases m - j,
        {
            if s[i + j] != sep.get_char(j) {
                matched = false;
                mism = j;
                j = m;
            } else {
                j += 1;
            }
        }
        if matched {
            proof {
                assert(s@.subrange(i as int, i + sep@.len()) =~= sep@);
                assert(crate::unicode::occurs_at(s@, sep@, i as int));
                assert(piece@ =~= s@.subrange(i - piece@.len(), i as int));
                assert(r@.push(piece).map(|_i: int, x: Vec<char>| x@) =~= r@.map(
                    |_i: int,
                    x: Vec<char>|
                    x@,
                ).push(piece@));
            }
            r.push(piece);
            piece = Vec::new();
            i += m;
        } else {
            proof {
                assert(!crate::unicode::occurs_at(s@, sep@, i as int)) by {
                    if crate::unicode::occurs_at(s@, sep@, i as int) {
                        assert(s@.subrange(i as int, i + sep@.len())[mism as int] == s@[i + mism]);
                    }
                }
            }
            piece.push(s[i]);
            i += 1;
        }
    }
}

} // verus!
