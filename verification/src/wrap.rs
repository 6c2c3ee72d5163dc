//! Greedy line wrapping over verbatim/wrappable ranges.

use crate::detect::{BreakDetector, WhitespaceDetector};
use crate::indent::{build_indent_chars, spec_indent};
use crate::linebreak::{insert_linebreaks_after_sentence_ends, linebroken, spec_normalise};
use crate::ranges::{TextRange, WrapType};
use crate::unicode::{char_is_unicode_whitespace, chars_to_string, str_to_chars, unicode_whitespace};
use crate::words::{split_char, split_ws};
use vstd::prelude::*;

verus! {

/// The remaining words joined by single spaces, each preceded by one.
pub open spec fn joined(words: Seq<Seq<char>>, i: int) -> Seq<char>
    decreases words.len() - i,
{
    if i < 0 || i >= words.len() {
        Seq::empty()
    } else {
        seq![' '] + words[i] + joined(words, i + 1)
    }
}

/// The greedy wrap fold: append each word to the current line when it fits
/// within `width` (`width == 0` disables wrapping), else flush the line and
/// start a new one with the indent.  `line_len` is the display length of
/// the current line, counting the caller's indent for the first one.
pub open spec fn greedy(
    words: Seq<Seq<char>>,
    i: int,
    line: Seq<char>,
    line_len: int,
    width: int,
    indent: Seq<char>,
) -> Seq<Seq<char>>
    decreases words.len() - i,
{
    if i < 0 || i >= words.len() {
        seq![line]
    } else {
        let w = words[i];
        if width == 0 || line_len + 1 + w.len() <= width {
            greedy(words, i + 1, line + seq![' '] + w, line_len + 1 + w.len(), width, indent)
        } else {
            seq![line] + greedy(words, i + 1, indent + w, indent.len() + w.len() as int, width, indent)
        }
    }
}

/// With no width constraint the greedy wrap never flushes: the whole
/// sentence stays on one line, the words joined by single spaces, whatever
/// the running length says.
pub proof fn lemma_unconstrained_width_no_wrap(
    words: Seq<Seq<char>>,
    i: int,
    line: Seq<char>,
    line_len: int,
    indent: Seq<char>,
)
    ensures
        greedy(words, i, line, line_len, 0, indent) == seq![line + joined(words, i)],
        greedy(words, i, line, line_len, 0, indent).len() == 1,
    decreases words.len() - i,
{
    if i < 0 || i >= words.len() {
        assert(line + joined(words, i) =~= line);
    } else {
        let w = words[i];
        lemma_unconstrained_width_no_wrap(
            words,
            i + 1,
            line + seq![' '] + w,
            line_len + 1 + w.len(),
            indent,
        );
        assert((line + seq![' '] + w) + joined(words, i + 1) =~= line + joined(words, i));
    }
}

/// One logical line wrapped: its words split on the detector's whitespace,
/// packed greedily.  The first word of sentence zero continues the caller's
/// column; the first word of every later sentence is prefixed with the
/// indent.
pub open spec fn wrap_line_spec(
    sentence: Seq<char>,
    sentence_idx: int,
    width: int,
    indent: Seq<char>,
    ws: spec_fn(char) -> bool,
) -> Seq<Seq<char>> {
    let words = split_ws(sentence, ws);
    if words.len() == 0 {
        seq![Seq::<char>::empty()]
    } else if sentence_idx == 0 {
        greedy(words, 1, words[0], words[0].len() + indent.len() as int, width, indent)
    } else {
        greedy(words, 1, indent + words[0], indent.len() + words[0].len() as int, width, indent)
    }
}

/// Append the characters of `src` to `dst`.
fn push_all(dst: &mut Vec<char>, src: &Vec<char>)
    ensures
        final(dst)@ == old(dst)@ + src@,
{
    let mut t: usize = 0;
    while t < src.len()
        invariant
            t <= src@.len(),
            dst@ =~= old(dst)@ + src@.subrange(0, t as int),
        decreases src@.len() - t,
    {
        dst.push(src[t]);
        t += 1;
    }
    assert(dst@ =~= old(dst)@ + src@);
}

/// Copy a character vector.
fn copy_chars(v: &Vec<char>) -> (r: Vec<char>)
    ensures
        r@ == v@,
{
    let mut r: Vec<char> = Vec::new();
    push_all(&mut r, v);
    assert(r@ =~= v@);
    r
}

/// Wrap one sentence into lines, over character vectors.
pub fn wrap_line_chars(
    sentence: &Vec<char>,
    sentence_idx: usize,
    max_width: &Option<usize>,
    indent: &Vec<char>,
    detector: &WhitespaceDetector,
) -> (r: Vec<Vec<char>>)
    ensures
        r@.map(|_i: int, l: Vec<char>| l@) == wrap_line_spec(
            sentence@,
            sentence_idx as int,
            match *max_width {
                Some(w) => w as int,
                None => 0,
            },
            indent@,
            detector.ws_pred(),
        ),
        r@.len() >= 1,
        (*max_width) is None ==> r@.len() == 1,
{
    let ghost wsf = detector.ws_pred();
    let ghost gwidth: int = match *max_width {
        Some(w) => w as int,
        None => 0,
    };
    let width: usize = match *max_width {
        Some(w) => w,
        None => 0,
    };
    let words = detector.split_whitespace_chars(sentence);
    let ghost words_v = words@.map(|_i: int, w: Vec<char>| w@);
    let ghost result = wrap_line_spec(sentence@, sentence_idx as int, gwidth, indent@, wsf);
    let mut lines: Vec<Vec<char>> = Vec::new();
    if words.len() == 0 {
        let line: Vec<char> = Vec::new();
        lines.push(line);
        proof {
            assert(lines@.map(|_i: int, l: Vec<char>| l@) =~= seq![Seq::<char>::empty()]);
        }
        return lines;
    }
    let mut line: Vec<char> = Vec::new();
    let mut line_len: u128 = 0;
    if sentence_idx == 0 {
        push_all(&mut line, &words[0]);
        line_len = words[0].len() as u128 + indent.len() as u128;
        assert(line@ =~= words_v[0]);
    } else {
        push_all(&mut line, indent);
        let first = &words[0];
        push_all(&mut line, first);
        line_len = indent.len() as u128 + first.len() as u128;
        assert(line@ =~= indent@ + words_v[0]);
    }
    proof {
        assert(result == greedy(words_v, 1, line@, line_len as int, gwidth, indent@));
        if gwidth == 0 {
            lemma_unconstrained_width_no_wrap(words_v, 1, line@, line_len as int, indent@);
            lemma_unconstrained_width_no_wrap(words_v, 1, line@, 0, indent@);
        }
    }
    let mut i: usize = 1;
    while i < words.len()
        invariant
            words_v == words@.map(|_i: int, w: Vec<char>| w@),
            words_v.len() >= 1,
            1 <= i <= words_v.len(),
            width as int == gwidth,
            gwidth != 0 ==> line_len <= u128::MAX / 4,
            gwidth != 0 ==> result == lines@.map(|_i: int, l: Vec<char>| l@) + greedy(
                words_v,
                i as int,
                line@,
                line_len as int,
                gwidth,
                indent@,
            ),
            gwidth == 0 ==> lines@.len() == 0 && result == greedy(
                words_v,
                i as int,
                line@,
                0,
                0,
                indent@,
            ),
        decreases words_v.len() - i,
    {
        let w = &words[i];
        let chars = w.len() as u128;
        if width == 0 {
            let ghost line_old = line@;
            line.push(' ');
            push_all(&mut line, w);
            proof {
                assert(line@ =~= line_old + seq![' '] + words_v[i as int]);
                lemma_unconstrained_width_no_wrap(words_v, i as int, line_old, 0, indent@);
                lemma_unconstrained_width_no_wrap(words_v, i + 1, line@, 0, indent@);
                assert(line@ + joined(words_v, i + 1) =~= line_old + joined(words_v, i as int));
            }
        } else if line_len + 1 + chars <= width as u128 {
            let ghost line_old = line@;
            line.push(' ');
            push_all(&mut line, w);
            proof {
                assert(line@ =~= line_old + seq![' '] + words_v[i as int]);
            }
            line_len = line_len + 1 + chars;
        } else {
            proof {
                assert(lines@.push(line).map(|_i: int, l: Vec<char>| l@) =~= lines@.map(
                    |_i: int,
                    l: Vec<char>|
                    l@,
                ).push(line@));
            }
            let ghost line_old = line@;
            let ghost lines_old = lines@.map(|_i: int, l: Vec<char>| l@);
            lines.push(line);
            line = Vec::new();
            push_all(&mut line, indent);
            push_all(&mut line, w);
            line_len = indent.len() as u128 + chars;
            proof {
                assert(line@ =~= indent@ + words_v[i as int]);
                assert(result =~= lines@.map(|_i: int, l: Vec<char>| l@) + greedy(
                    words_v,
                    i + 1,
                    line@,
                    line_len as int,
                    gwidth,
                    indent@,
                ));
            }
        }
        i += 1;
    }
    proof {
        if gwidth == 0 {
            assert(greedy(words_v, words_v.len() as int, line@, 0, 0, indent@) =~= seq![line@]);
        } else {
            assert(greedy(
                words_v,
                words_v.len() as int,
                line@,
                line_len as int,
                gwidth,
                indent@,
            ) =~= seq![line@]);
        }
        assert(lines@.push(line).map(|_i: int, l: Vec<char>| l@) =~= lines@.map(
            |_i: int,
            l: Vec<char>|
            l@,
        ).push(line@));
    }
    lines.push(line);
    lines
}

/// Wrap a long line, inserting breaks between words.  Splitting and joining
/// collapses every run of inline whitespace to a single space.
pub fn wrap_long_line_and_collapse_inline_whitespace(
    sentence: &str,
    sentence_idx: usize,
    max_width: &Option<usize>,
    indent: &str,
    detector: &WhitespaceDetector,
) -> (r: Vec<String>)
    ensures
        r@.map(|_i: int, l: String| l@) == wrap_line_spec(
            sentence@,
            sentence_idx as int,
            match *max_width {
                Some(w) => w as int,
                None => 0,
            },
            indent@,
            detector.ws_pred(),
        ),
        (*max_width) is None ==> r@.len() == 1,
{
    let schars = str_to_chars(sentence);
    let ichars = str_to_chars(indent);
    let lines = wrap_line_chars(&schars, sentence_idx, max_width, &ichars, detector);
    let mut r: Vec<String> = Vec::new();
    let mut i: usize = 0;
    while i < lines.len()
        invariant
            i <= lines@.len(),
            r@.len() == i,
            forall|k: int| 0 <= k < i ==> (#[trigger] r@[k])@ == lines@[k]@,
        decreases lines@.len() - i,
    {
        r.push(chars_to_string(&lines[i]));
        i += 1;
    }
    proof {
        assert(r@.map(|_i: int, l: String| l@) =~= lines@.map(|_i: int, l: Vec<char>| l@));
    }
    r
}

/// The pieces joined by linebreaks.
pub open spec fn join_nl(ps: Seq<Seq<char>>, i: int) -> Seq<char>
    decreases ps.len() - i,
{
    if i < 0 || i >= ps.len() {
        Seq::empty()
    } else if i == ps.len() - 1 {
        ps[i]
    } else {
        ps[i] + seq!['\n'] + join_nl(ps, i + 1)
    }
}

/// The wrapped lines of all sentences from index `i` on, flattened.
pub open spec fn wrapped_pieces(
    sentences: Seq<Seq<char>>,
    i: int,
    width: int,
    indent: Seq<char>,
    ws: spec_fn(char) -> bool,
) -> Seq<Seq<char>>
    decreases sentences.len() - i,
{
    if i < 0 || i >= sentences.len() {
        Seq::empty()
    } else {
        wrap_line_spec(sentences[i], i, width, indent, ws) + wrapped_pieces(
            sentences,
            i + 1,
            width,
            indent,
            ws,
        )
    }
}

/// One wrappable range rewrapped: line breaks inserted after sentence ends,
/// each resulting logical line wrapped greedily, everything joined by
/// linebreaks.
pub open spec fn wrap_range_spec(
    det: &BreakDetector,
    slice: Seq<char>,
    indent_n: int,
    width: int,
) -> Seq<char> {
    let broken = linebroken(det, spec_normalise(slice), 0);
    let sentences = split_char(broken, '\n');
    join_nl(
        wrapped_pieces(sentences, 0, width, spec_indent(indent_n as nat), det.whitespace.ws_pred()),
        0,
    )
}

/// The document rebuilt range by range: verbatim ranges copied, wrappable
/// ranges rewrapped.
pub open spec fn wrapped_doc(
    det: &BreakDetector,
    ranges: Seq<TextRange>,
    i: int,
    width: int,
    s: Seq<char>,
) -> Seq<char>
    decreases ranges.len() - i,
{
    if i < 0 || i >= ranges.len() {
        Seq::empty()
    } else {
        let piece = match ranges[i].wrap {
            WrapType::Verbatim => s.subrange(
                ranges[i].range.start as int,
                ranges[i].range.end as int,
            ),
            WrapType::Indent(n) => wrap_range_spec(
                det,
                s.subrange(ranges[i].range.start as int, ranges[i].range.end as int),
                n as int,
                width,
            ),
        };
        piece + wrapped_doc(det, ranges, i + 1, width, s)
    }
}

/// `s` with its trailing Unicode whitespace removed.
pub open spec fn trim_end_ws(s: Seq<char>) -> Seq<char>
    decreases s.len(),
{
    if s.len() > 0 && unicode_whitespace(s.last()) {
        trim_end_ws(s.drop_last())
    } else {
        s
    }
}

/// Copy the characters of `v` at positions `[start, end)`.
fn subvec(v: &Vec<char>, start: usize, end: usize) -> (r: Vec<char>)
    requires
        start <= end <= v@.len(),
    ensures
        r@ == v@.subrange(start as int, end as int),
{
    let mut r: Vec<char> = Vec::new();
    let mut i: usize = start;
    while i < end
        invariant
            start <= i <= end <= v@.len(),
            r@ =~= v@.subrange(start as int, i as int),
        decreases end - i,
    {
        r.push(v[i]);
        i += 1;
    }
    assert(r@ =~= v@.subrange(start as int, end as int));
    r
}

/// Remove trailing Unicode whitespace from `v`.
pub fn trim_end_chars(v: &Vec<char>) -> (r: Vec<char>)
    ensures
        r@ == trim_end_ws(v@),
{
    let mut j: usize = v.len();
    proof {
        assert(v@.take(v@.len() as int) =~= v@);
    }
    while j > 0 && char_is_unicode_whitespace(v[j - 1])
        invariant
            j <= v@.len(),
            trim_end_ws(v@) == trim_end_ws(v@.take(j as int)),
        decreases j,
    {
        proof {
            assert(v@.take(j as int).last() == v@[j - 1]);
            assert(v@.take(j as int).drop_last() =~= v@.take(j - 1));
        }
        j -= 1;
    }
    proof {
        if j > 0 {
            assert(v@.take(j as int).last() == v@[j - 1]);
        }
        assert(trim_end_ws(v@.take(j as int)) == v@.take(j as int));
    }
    subvec(v, 0, j)
}

/// Join pieces with linebreaks.
fn join_pieces(ps: &Vec<Vec<char>>) -> (r: Vec<char>)
    ensures
        r@ == join_nl(ps@.map(|_i: int, w: Vec<char>| w@), 0),
{
    let ghost view = ps@.map(|_i: int, w: Vec<char>| w@);
    let mut r: Vec<char> = Vec::new();
    let mut i: usize = 0;
    while i < ps.len()
        invariant
            view == ps@.map(|_i: int, w: Vec<char>| w@),
            i <= view.len(),
            join_nl(view, 0) == r@ + join_nl(view, i as int),
        decreases view.len() - i,
    {
        push_all(&mut r, &ps[i]);
        if i + 1 < ps.len() {
            r.push('\n');
        }
        i += 1;
    }
    r
}

/// Rewrap one wrappable slice.
fn wrap_range_exec(
    det: &BreakDetector,
    slice: &Vec<char>,
    indent_spaces: usize,
    max_width: &Option<usize>,
) -> (r: Vec<char>)
    ensures
        r@ == wrap_range_spec(det, slice@, indent_spaces as int, match *max_width {
            Some(w) => w as int,
            None => 0,
        }),
{
    let ghost gwidth: int = match *max_width {
        Some(w) => w as int,
        None => 0,
    };
    let indent = build_indent_chars(indent_spaces);
    let slice_str = chars_to_string(slice);
    let broken = insert_linebreaks_after_sentence_ends(slice_str.as_str(), det);
    let broken_chars = str_to_chars(broken.as_str());
    let sentences = crate::words::split_at_char(&broken_chars, '\n');
    let ghost sent_v = sentences@.map(|_i: int, w: Vec<char>| w@);
    let mut pieces: Vec<Vec<char>> = Vec::new();
    let mut i: usize = 0;
    while i < sentences.len()
        invariant
            sent_v == sentences@.map(|_i: int, w: Vec<char>| w@),
            i <= sent_v.len(),
            gwidth == match *max_width {
                Some(w) => w as int,
                None => 0,
            },
            indent@ == spec_indent(indent_spaces as nat),
            wrapped_pieces(sent_v, 0, gwidth, indent@, det.whitespace.ws_pred()) == pieces@.map(
                |_i: int,
                l: Vec<char>|
                l@,
            ) + wrapped_pieces(sent_v, i as int, gwidth, indent@, det.whitespace.ws_pred()),
        decreases sent_v.len() - i,
    {
        let lines = wrap_line_chars(&sentences[i], i, max_width, &indent, &det.whitespace);
        let ghost lines_v = lines@.map(|_i: int, l: Vec<char>| l@);
        let ghost pieces0 = pieces@.map(|_i: int, l: Vec<char>| l@);
        let mut t: usize = 0;
        while t < lines.len()
            invariant
                lines_v == lines@.map(|_i: int, l: Vec<char>| l@),
                t <= lines_v.len(),
                pieces@.map(|_i: int, l: Vec<char>| l@) =~= pieces0 + lines_v.subrange(
                    0,
                    t as int,
                ),
            decreases lines_v.len() - t,
        {
            let copied = copy_chars(&lines[t]);
            proof {
                assert(pieces@.push(copied).map(|_i: int, l: Vec<char>| l@) =~= pieces@.map(
                    |_i: int,
                    l: Vec<char>|
                    l@,
                ).push(copied@));
            }
            pieces.push(copied);
            t += 1;
        }
        proof {
            assert(pieces@.map(|_i: int, l: Vec<char>| l@) =~= pieces0 + lines_v);
        }
        i += 1;
    }
    proof {
        assert(wrapped_pieces(sent_v, sent_v.len() as int, gwidth, indent@, det.whitespace.ws_pred())
            =~= Seq::<Seq<char>>::empty());
        assert(pieces@.map(|_i: int, l: Vec<char>| l@) =~= wrapped_pieces(
            sent_v,
            0,
            gwidth,
            indent@,
            det.whitespace.ws_pred(),
        ));
    }
    join_pieces(&pieces)
}

/// Rebuild the document from its ranges: verbatim ranges are copied
/// unchanged, wrappable ranges get linebreaks after sentence ends and are
/// wrapped greedily to `max_width`, and trailing whitespace of the whole
/// result is stripped.
pub fn add_linebreaks_and_wrap(
    ranges: Vec<TextRange>,
    max_width: &Option<usize>,
    detector: &BreakDetector,
    text: &str,
) -> (r: String)
    requires
        forall|k: int|
            0 <= k < ranges@.len() ==> (#[trigger] ranges@[k]).range.start <= ranges@[k].range.end
                <= text@.len(),
    ensures
        r@ == trim_end_ws(
            wrapped_doc(
                detector,
                ranges@,
                0,
                match *max_width {
                    Some(w) => w as int,
                    None => 0,
                },
                text@,
            ),
        ),
{
    let ghost gwidth: int = match *max_width {
        Some(w) => w as int,
        None => 0,
    };
    let chars = str_to_chars(text);
    let mut out: Vec<char> = Vec::new();
    let mut i: usize = 0;
    while i < ranges.len()
        invariant
            chars@ == text@,
            i <= ranges@.len(),
            forall|k: int|
                0 <= k < ranges@.len() ==> (#[trigger] ranges@[k]).range.start
                    <= ranges@[k].range.end <= text@.len(),
            gwidth == match *max_width {
                Some(w) => w as int,
                None => 0,
            },
            wrapped_doc(detector, ranges@, 0, gwidth, text@) == out@ + wrapped_doc(
                detector,
                ranges@,
                i as int,
                gwidth,
                text@,
            ),
        decreases ranges@.len() - i,
    {
        let range = ranges[i];
        let slice = subvec(&chars, range.range.start, range.range.end);
        match range.wrap {
            WrapType::Verbatim => {
                push_all(&mut out, &slice);
            },
            WrapType::Indent(indent_spaces) => {
                let wrapped = wrap_range_exec(detector, &slice, indent_spaces, max_width);
                push_all(&mut out, &wrapped);
            },
        }
        i += 1;
    }
    proof {
        assert(wrapped_doc(detector, ranges@, ranges@.len() as int, gwidth, text@) =~= Seq::<
            char,
        >::empty());
        assert(out@ =~= wrapped_doc(detector, ranges@, 0, gwidth, text@));
    }
    let trimmed = trim_end_chars(&out);
    chars_to_string(&trimmed)
}

/// A document whose ranges are all verbatim and cover it gap-free comes
/// back as the original text.
pub proof fn lemma_verbatim_doc_identity(
    det: &BreakDetector,
    ranges: Seq<TextRange>,
    i: int,
    width: int,
    s: Seq<char>,
    from: int,
)
    requires
        0 <= i <= ranges.len(),
        0 <= from <= s.len(),
        forall|k: int| i <= k < ranges.len() ==> (#[trigger] ranges[k]).wrap == WrapType::Verbatim,
        forall|k: int|
            i <= k < ranges.len() ==> (#[trigger] ranges[k]).range.start <= ranges[k].range.end
                <= s.len(),
        i < ranges.len() ==> ranges[i].range.start == from,
        forall|k: int|
            i <= k < ranges.len() - 1 ==> (#[trigger] ranges[k]).range.end == ranges[k
                + 1].range.start,
        i < ranges.len() ==> ranges[ranges.len() - 1].range.end == s.len(),
        i == ranges.len() ==> from == s.len(),
    ensures
        wrapped_doc(det, ranges, i, width, s) == s.subrange(from, s.len() as int),
    decreases ranges.len() - i,
{
    if i == ranges.len() {
        assert(wrapped_doc(det, ranges, i, width, s) =~= s.subrange(from, s.len() as int));
    } else {
        let this = ranges[i];
        if i + 1 < ranges.len() {
            assert(ranges[i].range.end == ranges[i + 1].range.start);
        }
        lemma_verbatim_doc_identity(det, ranges, i + 1, width, s, this.range.end as int);
        assert(s.subrange(this.range.start as int, this.range.end as int) + s.subrange(
            this.range.end as int,
            s.len() as int,
        ) =~= s.subrange(from, s.len() as int));
    }
}

/// Round trip on a verbatim-only partition: when every range is verbatim
/// and the ranges cover the document gap-free, `add_linebreaks_and_wrap`
/// returns the document unchanged apart from trailing whitespace.
pub proof fn lemma_verbatim_round_trip(
    det: &BreakDetector,
    ranges: Seq<TextRange>,
    width: int,
    s: Seq<char>,
)
    requires
        ranges.len() > 0,
        forall|k: int| 0 <= k < ranges.len() ==> (#[trigger] ranges[k]).wrap == WrapType::Verbatim,
        forall|k: int|
            0 <= k < ranges.len() ==> (#[trigger] ranges[k]).range.start <= ranges[k].range.end
                <= s.len(),
        ranges[0].range.start == 0,
        forall|k: int|
            0 <= k < ranges.len() - 1 ==> (#[trigger] ranges[k]).range.end == ranges[k
                + 1].range.start,
        ranges[ranges.len() - 1].range.end == s.len(),
    ensures
        wrapped_doc(det, ranges, 0, width, s) == s,
        trim_end_ws(wrapped_doc(det, ranges, 0, width, s)) == trim_end_ws(s),
{
    lemma_verbatim_doc_identity(det, ranges, 0, width, s, 0);
    assert(s.subrange(0, s.len() as int) =~= s);
}

} // verus!
