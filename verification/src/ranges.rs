//! Document ranges and the verbatim/wrappable partition.

use vstd::prelude::*;

verus! {

/// A half-open interval of character positions in a document.
#[derive(Debug, PartialEq, Eq, Clone, Copy, Hash)]
pub struct CharRange {
    pub start: usize,
    pub end: usize,
}

impl CharRange {
    /// Whether the range holds no position.
    pub fn is_empty(&self) -> (r: bool)
        ensures
            r == (self.start >= self.end),
    {
        self.start >= self.end
    }

    /// The number of positions in the range; zero when inverted.
    pub fn len(&self) -> (r: usize)
        ensures
            self.start <= self.end ==> r == self.end - self.start,
            self.start > self.end ==> r == 0,
    {
        if self.start <= self.end {
            self.end - self.start
        } else {
            0
        }
    }

    /// Whether the range contains the position `p`.
    pub fn contains(&self, p: &usize) -> (r: bool)
        ensures
            r == (self.start <= *p < self.end),
    {
        self.start <= *p && *p < self.end
    }
}

/// How a range of the document is treated: copied unchanged, or rewrapped
/// with continuation sentences indented by the given number of spaces.
#[derive(Debug, PartialEq, Eq, Clone, Copy)]
pub enum WrapType {
    Verbatim,
    Indent(usize),
}

/// A range of the document paired with its treatment.
#[derive(Debug, PartialEq, Eq, Clone, Copy)]
pub struct TextRange {
    pub wrap: WrapType,
    pub range: CharRange,
}

/// The line intervals of `s` from position `i` on, the current line having
/// started at `ls`.  Lines end just after each linebreak; a final line
/// without one ends at the end of the text.
pub open spec fn lines_from(s: Seq<char>, ls: int, i: int) -> Seq<(int, int)>
    decreases s.len() - i,
{
    if !(0 <= ls <= i <= s.len()) {
        Seq::empty()
    } else if i == s.len() {
        if ls < i {
            seq![(ls, i)]
        } else {
            Seq::empty()
        }
    } else if s[i] == '\n' {
        seq![(ls, i + 1)] + lines_from(s, i + 1, i + 1)
    } else {
        lines_from(s, ls, i + 1)
    }
}

/// The line intervals of the whole of `s`.
pub open spec fn spec_line_ranges(s: Seq<char>) -> Seq<(int, int)> {
    lines_from(s, 0, 0)
}

/// Determine the character ranges of each line in the document.
pub fn line_ranges_of_chars(chars: &Vec<char>) -> (r: Vec<CharRange>)
    ensures
        r@.map(|_i: int, cr: CharRange| (cr.start as int, cr.end as int)) == spec_line_ranges(
            chars@,
        ),
{
    let ghost s = chars@;
    let mut r: Vec<CharRange> = Vec::new();
    let mut ls: usize = 0;
    let mut i: usize = 0;
    while i < chars.len()
        invariant
            s == chars@,
            0 <= ls <= i <= s.len(),
            spec_line_ranges(s) == r@.map(|_i: int, cr: CharRange| (cr.start as int, cr.end as int))
                + lines_from(s, ls as int, i as int),
        decreases chars@.len() - i,
    {
        if chars[i] == '\n' {
            let cr = CharRange { start: ls, end: i + 1 };
            proof {
                assert(r@.push(cr).map(|_i: int, x: CharRange| (x.start as int, x.end as int)) =~= r@.map(
                    |_i: int,
                    x: CharRange|
                    (x.start as int, x.end as int),
                ).push((cr.start as int, cr.end as int)));
            }
            r.push(cr);
            ls = i + 1;
        }
        i += 1;
    }
    if ls < chars.len() {
        let cr = CharRange { start: ls, end: chars.len() };
        proof {
            assert(r@.push(cr).map(|_i: int, x: CharRange| (x.start as int, x.end as int)) =~= r@.map(
                |_i: int,
                x: CharRange|
                (x.start as int, x.end as int),
            ).push((cr.start as int, cr.end as int)));
        }
        r.push(cr);
    }
    assert(r@.map(|_i: int, cr: CharRange| (cr.start as int, cr.end as int)) =~= spec_line_ranges(
        s,
    ));
    r
}

/// Determine character ranges for each line in the document.
pub fn line_ranges(text: &str) -> (r: Vec<CharRange>)
    ensures
        r@.map(|_i: int, cr: CharRange| (cr.start as int, cr.end as int)) == spec_line_ranges(
            text@,
        ),
{
    let chars = crate::unicode::str_to_chars(text);
    line_ranges_of_chars(&chars)
}

/// Find the start of the line that `point` is in: the start of the first
/// given range containing it.
pub fn find_line_start(point: usize, line_ranges: &[CharRange]) -> (r: Option<usize>)
    ensures
        match r {
            Some(st) => exists|k: int|
                0 <= k < line_ranges@.len() && (#[trigger] line_ranges@[k]).start <= point
                    < line_ranges@[k].end && st == line_ranges@[k].start && forall|j: int|
                    0 <= j < k ==> !((#[trigger] line_ranges@[j]).start <= point
                        < line_ranges@[j].end),
            None => forall|k: int|
                0 <= k < line_ranges@.len() ==> !((#[trigger] line_ranges@[k]).start <= point
                    < line_ranges@[k].end),
        },
{
    let mut k: usize = 0;
    while k < line_ranges.len()
        invariant
            k <= line_ranges@.len(),
            forall|j: int|
                0 <= j < k ==> !((#[trigger] line_ranges@[j]).start <= point
                    < line_ranges@[j].end),
        decreases line_ranges@.len() - k,
    {
        let cr = line_ranges[k];
        if cr.contains(&point) {
            return Some(cr.start);
        }
        k += 1;
    }
    None
}

/// Start of the line containing position `p`: the nearest position at or
/// before `p` that follows a linebreak or is the start of the text.
pub open spec fn line_start(s: Seq<char>, p: int) -> int
    decreases p,
{
    if p <= 0 {
        0
    } else if s[p - 1] == '\n' {
        p
    } else {
        line_start(s, p - 1)
    }
}

/// The column of position `p`: its distance back to its line start.
/// Positions outside the document count as column zero.
pub open spec fn col_of(s: Seq<char>, p: int) -> int {
    if 0 <= p < s.len() {
        p - line_start(s, p)
    } else {
        0
    }
}

pub proof fn lemma_line_start_bounds(s: Seq<char>, p: int)
    requires
        0 <= p,
    ensures
        0 <= line_start(s, p) <= p,
    decreases p,
{
    if p > 0 && s[p - 1] != '\n' {
        lemma_line_start_bounds(s, p - 1);
    }
}

/// Compute the column of position `p` in `chars`.
pub fn col_of_at(chars: &Vec<char>, p: usize) -> (r: usize)
    ensures
        r == col_of(chars@, p as int),
{
    let ghost s = chars@;
    if p >= chars.len() {
        return 0;
    }
    let mut j: usize = p;
    while j > 0 && chars[j - 1] != '\n'
        invariant
            s == chars@,
            j <= p < s.len(),
            line_start(s, p as int) == line_start(s, j as int),
        decreases j,
    {
        j -= 1;
    }
    proof {
        lemma_line_start_bounds(s, j as int);
    }
    p - j
}

/// The verbatim and wrappable ranges covering the whole document: before
/// each wrappable range a verbatim range since the end of the previous one,
/// each wrappable range tagged with the column at which it starts, empty
/// ranges dropped, and a trailing verbatim range up to the end.
pub open spec fn fill_from(rs: Seq<CharRange>, s: Seq<char>, i: int, last_end: int) -> Seq<
    TextRange,
>
    decreases rs.len() - i + 1,
{
    if !(0 <= i <= rs.len()) {
        Seq::empty()
    } else {
        let el_start: int = if i == rs.len() {
            s.len() as int
        } else {
            rs[i].start as int
        };
        let el_end: int = if i == rs.len() {
            s.len() as int
        } else {
            rs[i].end as int
        };
        let verbatim = TextRange {
            wrap: WrapType::Verbatim,
            range: CharRange { start: last_end as usize, end: el_start as usize },
        };
        let wrapped = TextRange {
            wrap: WrapType::Indent(col_of(s, el_start) as usize),
            range: CharRange { start: el_start as usize, end: el_end as usize },
        };
        (if last_end < el_start {
            seq![verbatim]
        } else {
            Seq::empty()
        }) + (if el_start < el_end {
            seq![wrapped]
        } else {
            Seq::empty()
        }) + if i == rs.len() {
            Seq::empty()
        } else {
            fill_from(rs, s, i + 1, el_end)
        }
    }
}

/// The ranges in the first argument shall be wrapped; everything else in
/// the document is taken verbatim.  This also determines the starting
/// indent for every range that shall be wrapped.
pub fn fill_markdown_ranges(wrap_ranges: Vec<CharRange>, text: &str) -> (r: Vec<TextRange>)
    requires
        forall|k: int|
            0 <= k < wrap_ranges@.len() ==> (#[trigger] wrap_ranges@[k]).start
                <= wrap_ranges@[k].end <= text@.len(),
        forall|k: int, j: int|
            0 <= k < j < wrap_ranges@.len() ==> (#[trigger] wrap_ranges@[k]).end
                <= (#[trigger] wrap_ranges@[j]).start,
    ensures
        r@ == fill_from(wrap_ranges@, text@, 0, 0),
        forall|k: int|
            0 <= k < r@.len() ==> (#[trigger] r@[k]).range.start <= r@[k].range.end
                <= text@.len(),
{
    let ghost s = text@;
    let ghost rs = wrap_ranges@;
    let chars = crate::unicode::str_to_chars(text);
    let n: usize = chars.len();
    let mut out: Vec<TextRange> = Vec::new();
    let mut last_end: usize = 0;
    let mut i: usize = 0;
    proof {
        lemma_fill_bounds(rs, s, 0, 0);
    }
    while i < wrap_ranges.len()
        invariant
            s == text@,
            rs == wrap_ranges@,
            chars@ == s,
            n == s.len(),
            i <= rs.len(),
            last_end <= (if i == rs.len() {
                n as int
            } else {
                rs[i as int].start as int
            }),
            last_end <= n,
            forall|k: int|
                0 <= k < rs.len() ==> (#[trigger] rs[k]).start <= rs[k].end <= s.len(),
            forall|k: int, j: int|
                0 <= k < j < rs.len() ==> (#[trigger] rs[k]).end <= (#[trigger] rs[j]).start,
            fill_from(rs, s, 0, 0) == out@ + fill_from(rs, s, i as int, last_end as int),
            forall|k: int|
                0 <= k < out@.len() ==> (#[trigger] out@[k]).range.start <= out@[k].range.end
                    <= s.len(),
        decreases rs.len() - i,
    {
        let el: CharRange = wrap_ranges[i];
        if last_end < el.start {
            out.push(
                TextRange {
                    wrap: WrapType::Verbatim,
                    range: CharRange { start: last_end, end: el.start },
                },
            );
        }
        if el.start < el.end {
            let col = col_of_at(&chars, el.start);
            out.push(
                TextRange {
                    wrap: WrapType::Indent(col),
                    range: CharRange { start: el.start, end: el.end },
                },
            );
        }
        proof {
            if i + 1 < rs.len() {
                assert(rs[i as int].end <= rs[i as int + 1].start);
            }
        }
        last_end = el.end;
        i += 1;
    }
    if last_end < n {
        out.push(
            TextRange {
                wrap: WrapType::Verbatim,
                range: CharRange { start: last_end, end: n },
            },
        );
    }
    proof {
        assert(fill_from(rs, s, rs.len() as int, last_end as int) =~= (if last_end < n {
            seq![
                TextRange {
                    wrap: WrapType::Verbatim,
                    range: CharRange { start: last_end as usize, end: n },
                },
            ]
        } else {
            Seq::<TextRange>::empty()
        }));
    }
    out
}

/// Every range that `fill_from` yields lies within the document when the
/// input ranges do and follow one another.
pub proof fn lemma_fill_bounds(rs: Seq<CharRange>, s: Seq<char>, i: int, last_end: int)
    requires
        forall|k: int| 0 <= k < rs.len() ==> (#[trigger] rs[k]).start <= rs[k].end <= s.len(),
        forall|k: int, j: int|
            0 <= k < j < rs.len() ==> (#[trigger] rs[k]).end <= (#[trigger] rs[j]).start,
        0 <= last_end <= s.len(),
        i <= rs.len() ==> (i == rs.len() || last_end <= rs[i].start),
        s.len() <= usize::MAX,
    ensures
        forall|k: int|
            0 <= k < fill_from(rs, s, i, last_end).len() ==> (#[trigger] fill_from(
                rs,
                s,
                i,
                last_end,
            )[k]).range.start <= fill_from(rs, s, i, last_end)[k].range.end <= s.len(),
    decreases rs.len() - i + 1,
{
    if 0 <= i <= rs.len() {
        let el_end: int = if i == rs.len() {
            s.len() as int
        } else {
            rs[i].end as int
        };
        if i < rs.len() {
            if i + 1 < rs.len() {
                assert(rs[i].end <= rs[i + 1].start);
            }
            lemma_fill_bounds(rs, s, i + 1, el_end);
        }
    }
}

} // verus!
