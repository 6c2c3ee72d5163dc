//! Classifying markdown into wrappable and verbatim ranges.

use crate::detect::WhitespaceDetector;
use crate::events::{md_events_ext, MdEvent, RawEvent, TagKind};
use crate::ignore::{spec_next_ignore, IgnoreByHtmlComment};
use crate::kwmatch::split_unicode_ws;
use crate::ranges::CharRange;
use crate::unicode::str_to_chars;
use std::collections::HashMap;
use vstd::prelude::*;

verus! {

/// Parser configuration for the range classifier.
#[derive(Debug, PartialEq)]
pub struct ParseCfg {
    pub keep_linebreaks: bool,
}

/// The whitespace positions of `s` under `det`, mapped to their characters.
pub open spec fn ws_map_of(det: &WhitespaceDetector, s: Seq<char>) -> Map<usize, char> {
    Map::new(|i: usize| i < s.len() && det.is_ws(s[i as int]), |i: usize| s[i as int])
}

/// Get all indices that point to whitespace as well as the characters they
/// point to.
pub fn whitespace_indices(text: &str, detector: &WhitespaceDetector) -> (r: HashMap<usize, char>)
    ensures
        r@ == ws_map_of(detector, text@),
{
    let chars = str_to_chars(text);
    let mut r: HashMap<usize, char> = HashMap::new();
    let mut i: usize = 0;
    while i < chars.len()
        invariant
            chars@ == text@,
            i <= chars@.len(),
            r@ =~= Map::new(
                |k: usize| k < i && detector.is_ws(text@[k as int]),
                |k: usize| text@[k as int],
            ),
        decreases chars@.len() - i,
    {
        if detector.is_whitespace(&chars[i]) {
            r.insert(i, chars[i]);
        }
        proof {
            assert(r@ =~= Map::new(
                |k: usize| k < i + 1 && detector.is_ws(text@[k as int]),
                |k: usize| text@[k as int],
            ));
        }
        i += 1;
    }
    proof {
        assert(r@ =~= ws_map_of(detector, text@));
    }
    r
}

/// Whether every position of `[lo, hi)` is a whitespace position of `m`.
pub open spec fn gap_all_ws(m: Map<usize, char>, lo: int, hi: int) -> bool {
    forall|t: int| lo <= t < hi ==> m.contains_key(#[trigger] (t as usize))
}

/// The number of linebreak characters that `m` records in `[lo, hi)`.
pub open spec fn gap_lb_count(m: Map<usize, char>, lo: int, hi: int) -> int
    decreases hi - lo,
{
    if lo >= hi {
        0
    } else {
        (if m.contains_key(lo as usize) && m[lo as usize] == '\n' {
            1int
        } else {
            0int
        }) + gap_lb_count(m, lo + 1, hi)
    }
}

/// The merge fold: a later range contained in the current one is dropped;
/// one separated from it by nothing but whitespace holding at most one
/// linebreak extends it; anything else flushes the current range.
pub open spec fn merge_from(
    rs: Seq<CharRange>,
    m: Map<usize, char>,
    i: int,
    cur: CharRange,
) -> Seq<CharRange>
    decreases rs.len() - i,
{
    if i < 0 || i >= rs.len() {
        seq![cur]
    } else {
        let r = rs[i];
        if r.start >= cur.start && r.end <= cur.end {
            merge_from(rs, m, i + 1, cur)
        } else if gap_all_ws(m, cur.end as int, r.start as int) && gap_lb_count(
            m,
            cur.end as int,
            r.start as int,
        ) <= 1 {
            merge_from(rs, m, i + 1, CharRange { start: cur.start, end: r.end })
        } else {
            seq![cur] + merge_from(rs, m, i + 1, r)
        }
    }
}

/// The merged ranges, before short ones are removed.
pub open spec fn merge_spec(rs: Seq<CharRange>, m: Map<usize, char>) -> Seq<CharRange> {
    if rs.len() == 0 {
        Seq::empty()
    } else {
        merge_from(rs, m, 1, rs[0])
    }
}

/// The ranges of `rs` that span more than one character.
pub open spec fn drop_short(rs: Seq<CharRange>, i: int) -> Seq<CharRange>
    decreases rs.len() - i,
{
    if i < 0 || i >= rs.len() {
        Seq::empty()
    } else {
        (if rs[i].end as int > rs[i].start as int + 1 {
            seq![rs[i]]
        } else {
            Seq::empty()
        }) + drop_short(rs, i + 1)
    }
}

/// Check whether there is nothing but whitespace between the end of the
/// previous range and the start of the next one, if the ranges do not
/// connect directly anyway.  Ranges separated by more than one linebreak
/// stay separate, which keeps paragraphs apart; ranges of at most one
/// character are removed at the end.
pub fn merge_ranges(ranges: Vec<CharRange>, whitespaces: &HashMap<usize, char>) -> (r: Vec<
    CharRange,
>)
    ensures
        r@ == drop_short(merge_spec(ranges@, whitespaces@), 0),
{
    let ghost rs = ranges@;
    let ghost m = whitespaces@;
    let mut merged: Vec<CharRange> = Vec::new();
    if ranges.len() == 0 {
        assert(merge_spec(rs, m) =~= Seq::<CharRange>::empty());
        return merged;
    }
    let mut cur: CharRange = ranges[0];
    let mut i: usize = 1;
    while i < ranges.len()
        invariant
            rs == ranges@,
            m == whitespaces@,
            rs.len() > 0,
            1 <= i <= rs.len(),
            merge_spec(rs, m) == merged@ + merge_from(rs, m, i as int, cur),
        decreases rs.len() - i,
    {
        let r = ranges[i];
        let contained = r.start >= cur.start && r.end <= cur.end;
        if contained {
        } else {
            let just_ws = gap_ws_check(whitespaces, cur.end, r.start);
            let few_lbs = gap_lb_count_exec(whitespaces, cur.end, r.start) <= 1;
            if just_ws && few_lbs {
                cur = CharRange { start: cur.start, end: r.end };
            } else {
                proof {
                    assert(merged@.push(cur) =~= merged@ + seq![cur]);
                }
                merged.push(cur);
                cur = r;
            }
        }
        i += 1;
    }
    proof {
        assert(merge_from(rs, m, rs.len() as int, cur) =~= seq![cur]);
        assert(merged@.push(cur) =~= merged@ + seq![cur]);
    }
    merged.push(cur);
    // Remove ranges that span at most one character: they never need to be
    // wrapped.
    let ghost full = merged@;
    let mut out: Vec<CharRange> = Vec::new();
    let mut k: usize = 0;
    while k < merged.len()
        invariant
            full == merged@,
            k <= full.len(),
            drop_short(full, 0) == out@ + drop_short(full, k as int),
        decreases full.len() - k,
    {
        let r = merged[k];
        if r.len() > 1 {
            proof {
                assert(out@.push(r) =~= out@ + seq![r]);
            }
            out.push(r);
        }
        k += 1;
    }
    proof {
        assert(drop_short(full, full.len() as int) =~= Seq::<CharRange>::empty());
        assert(out@ =~= drop_short(full, 0));
    }
    out
}

/// Decide `gap_all_ws` for `[lo, hi)`.
fn gap_ws_check(m: &HashMap<usize, char>, lo: usize, hi: usize) -> (r: bool)
    ensures
        r == gap_all_ws(m@, lo as int, hi as int),
{
    let mut t: usize = lo;
    if t >= hi {
        return true;
    }
    while t < hi
        invariant
            lo <= t <= hi,
            forall|u: int| lo <= u < t ==> m@.contains_key(#[trigger] (u as usize)),
        decreases hi - t,
    {
        if !m.contains_key(&t) {
            assert(!gap_all_ws(m@, lo as int, hi as int)) by {
                let u = t as int;
                assert(lo <= u < hi && !m@.contains_key(u as usize));
            }
            return false;
        }
        t += 1;
    }
    true
}

/// Count the linebreaks that `m` records in `[lo, hi)`.
fn gap_lb_count_exec(m: &HashMap<usize, char>, lo: usize, hi: usize) -> (r: usize)
    ensures
        r == gap_lb_count(m@, lo as int, hi as int),
{
    let mut t: usize = lo;
    let mut count: usize = 0;
    if t >= hi {
        return 0;
    }
    while t < hi
        invariant
            lo <= t <= hi,
            count <= t - lo,
            gap_lb_count(m@, lo as int, hi as int) == count + gap_lb_count(
                m@,
                t as int,
                hi as int,
            ),
        decreases hi - t,
    {
        let hit = match m.get(&t) {
            Some(c) => *c == '\n',
            None => false,
        };
        if hit {
            count += 1;
        }
        t += 1;
    }
    count
}

/// The gap-merge policy on two wrappable ranges in order, separated by
/// whitespace only: with at most one linebreak in the gap they merge into
/// one range; with two or more (a paragraph break) they stay separate.
pub proof fn lemma_merge_gap_policy(r1: CharRange, r2: CharRange, m: Map<usize, char>)
    requires
        r1.start as int + 1 < r1.end as int,
        r2.start as int + 1 < r2.end as int,
        r1.end <= r2.start,
        gap_all_ws(m, r1.end as int, r2.start as int),
    ensures
        gap_lb_count(m, r1.end as int, r2.start as int) <= 1 ==> drop_short(
            merge_spec(seq![r1, r2], m),
            0,
        ) == seq![CharRange { start: r1.start, end: r2.end }],
        gap_lb_count(m, r1.end as int, r2.start as int) >= 2 ==> drop_short(
            merge_spec(seq![r1, r2], m),
            0,
        ) == seq![r1, r2],
{
    let rs = seq![r1, r2];
    assert(rs[0] == r1 && rs[1] == r2);
    if gap_lb_count(m, r1.end as int, r2.start as int) <= 1 {
        let merged = CharRange { start: r1.start, end: r2.end };
        assert(!(r2.start >= r1.start && r2.end <= r1.end));
        assert(merge_from(rs, m, 1, r1) == merge_from(rs, m, 2, merged));
        assert(merge_from(rs, m, 2, merged) =~= seq![merged]);
        assert(drop_short(seq![merged], 1) =~= Seq::<CharRange>::empty());
        assert(drop_short(seq![merged], 0) =~= seq![merged]);
    } else {
        assert(!(r2.start >= r1.start && r2.end <= r1.end));
        assert(merge_from(rs, m, 1, r1) == seq![r1] + merge_from(rs, m, 2, r2));
        assert(merge_from(rs, m, 2, r2) =~= seq![r2]);
        assert(merge_spec(rs, m) =~= seq![r1, r2]);
        assert(drop_short(seq![r1, r2], 2) =~= Seq::<CharRange>::empty());
        assert(drop_short(seq![r1, r2], 1) =~= seq![r2]);
        assert(drop_short(seq![r1, r2], 0) =~= seq![r1, r2]);
    }
}

/// Tags whose whole span is kept as it is: introducing line breaks inside
/// them would change their meaning.
pub open spec fn is_verbatim_tag(t: TagKind) -> bool {
    match t {
        TagKind::BlockQuote => true,
        TagKind::CodeBlock => true,
        TagKind::FootnoteDefinition => true,
        TagKind::Heading => true,
        TagKind::Image => true,
        TagKind::Superscript => true,
        TagKind::Subscript => true,
        TagKind::Table => true,
        TagKind::TableCell => true,
        TagKind::TableHead => true,
        TagKind::TableRow => true,
        _ => false,
    }
}

/// Tags whose own delimiters are structural while the text inside them is
/// still reachable for rewrapping through nested text events.
pub open spec fn is_transparent_tag(t: TagKind) -> bool {
    match t {
        TagKind::Emphasis => true,
        TagKind::Link => true,
        TagKind::Strikethrough => true,
        TagKind::Strong => true,
        _ => false,
    }
}

fn verbatim_tag_check(t: TagKind) -> (r: bool)
    ensures
        r == is_verbatim_tag(t),
{
    match t {
        TagKind::BlockQuote => true,
        TagKind::CodeBlock => true,
        TagKind::FootnoteDefinition => true,
        TagKind::Heading => true,
        TagKind::Image => true,
        TagKind::Superscript => true,
        TagKind::Subscript => true,
        TagKind::Table => true,
        TagKind::TableCell => true,
        TagKind::TableHead => true,
        TagKind::TableRow => true,
        _ => false,
    }
}

fn transparent_tag_check(t: TagKind) -> (r: bool)
    ensures
        r == is_transparent_tag(t),
{
    match t {
        TagKind::Emphasis => true,
        TagKind::Link => true,
        TagKind::Strikethrough => true,
        TagKind::Strong => true,
        _ => false,
    }
}

/// Whether the whitespace map records a linebreak inside `[lo, hi)`.
pub open spec fn range_has_lb(m: Map<usize, char>, lo: int, hi: int) -> bool {
    exists|t: int|
        lo <= t < hi && m.contains_key(#[trigger] (t as usize)) && m[t as usize] == '\n'
}

fn range_has_lb_exec(m: &HashMap<usize, char>, lo: usize, hi: usize) -> (r: bool)
    ensures
        r == range_has_lb(m@, lo as int, hi as int),
{
    let mut t: usize = lo;
    while t < hi
        invariant
            lo <= t,
            hi <= usize::MAX,
            forall|u: int|
                lo <= u < t ==> !(m@.contains_key(#[trigger] (u as usize)) && m@[u as usize]
                    == '\n'),
        decreases hi - t,
    {
        let hit = match m.get(&t) {
            Some(c) => *c == '\n',
            None => false,
        };
        if hit {
            assert(range_has_lb(m@, lo as int, hi as int)) by {
                let u = t as int;
                assert(lo <= u < hi && m@.contains_key(u as usize) && m@[u as usize] == '\n');
            }
            return true;
        }
        t += 1;
    }
    false
}

/// How one event changes the ignore state.
pub open spec fn ev_next_ignore(ign: bool, e: MdEvent) -> bool {
    match e {
        MdEvent::Html(s) => spec_next_ignore(ign, s@),
        _ => ign,
    }
}

/// Whether this event's range is kept as wrappable, at nesting depth
/// `level` with whitespace map `m`.
pub open spec fn ev_keep(e: RawEvent, level: int, m: Map<usize, char>) -> bool {
    match e.event {
        MdEvent::Start(t) => if is_transparent_tag(t) {
            true
        } else if t == TagKind::HtmlBlock {
            !range_has_lb(m, e.start as int, e.end as int)
        } else {
            false
        },
        MdEvent::End(_) => false,
        MdEvent::Text => level == 0,
        MdEvent::Code => level == 0,
        MdEvent::SoftBreak => level == 0,
        MdEvent::HardBreak => level == 0,
        MdEvent::Html(_) => !range_has_lb(m, e.start as int, e.end as int),
        MdEvent::InlineHtml => !range_has_lb(m, e.start as int, e.end as int),
        _ => false,
    }
}

/// How one event changes the nesting depth of kept-as-is constructs.  The
/// parser guarantees balanced tags; a depth already at zero stays there.
pub open spec fn ev_next_level(e: MdEvent, level: int) -> int {
    match e {
        MdEvent::Start(t) => if is_verbatim_tag(t) || is_transparent_tag(t) {
            level + 1
        } else {
            level
        },
        MdEvent::End(t) => if is_verbatim_tag(t) || is_transparent_tag(t) {
            if level > 0 {
                level - 1
            } else {
                0
            }
        } else {
            level
        },
        _ => level,
    }
}

/// The wrappable ranges of the event stream from index `i` on: events
/// inside an ignore region are excluded, and of the rest each kept event
/// contributes its range.
pub open spec fn tbw_from(
    evs: Seq<RawEvent>,
    m: Map<usize, char>,
    i: int,
    level: int,
    ign: bool,
) -> Seq<CharRange>
    decreases evs.len() - i,
{
    if i < 0 || i >= evs.len() {
        Seq::empty()
    } else {
        let e = evs[i];
        let ign2 = ev_next_ignore(ign, e.event);
        if ign2 {
            tbw_from(evs, m, i + 1, level, ign2)
        } else {
            (if ev_keep(e, level, m) {
                seq![CharRange { start: e.start, end: e.end }]
            } else {
                Seq::empty()
            }) + tbw_from(evs, m, i + 1, ev_next_level(e.event, level), ign2)
        }
    }
}

/// Filter out those ranges of text that shall be wrapped.  Delimited blocks
/// such as code blocks, tables and headings are kept as they are; emphasis,
/// links and their kin count as structure while their inner text stays
/// reachable; HTML is wrappable only when its span holds no linebreak; an
/// ignore region excludes everything inside it.
pub fn to_be_wrapped(events: Vec<RawEvent>, whitespaces: &HashMap<usize, char>) -> (r: Vec<
    CharRange,
>)
    ensures
        r@ == tbw_from(events@, whitespaces@, 0, 0, false),
{
    let ghost evs = events@;
    let ghost m = whitespaces@;
    let mut ignore = IgnoreByHtmlComment::new();
    let mut level: usize = 0;
    let mut out: Vec<CharRange> = Vec::new();
    let mut i: usize = 0;
    while i < events.len()
        invariant
            evs == events@,
            m == whitespaces@,
            i <= evs.len(),
            level <= i,
            tbw_from(evs, m, 0, 0, false) == out@ + tbw_from(
                evs,
                m,
                i as int,
                level as int,
                ignore.ignore,
            ),
        decreases evs.len() - i,
    {
        let ghost old_level = level as int;
        let ghost old_ign = ignore.ignore;
        let e = &events[i];
        match &e.event {
            MdEvent::Html(s) => {
                ignore.process_html(s.as_str());
            },
            _ => {},
        }
        proof {
            assert(ignore.ignore == ev_next_ignore(old_ign, evs[i as int].event));
        }
        if !ignore.should_be_ignored() {
            let keep: bool = match &e.event {
                MdEvent::Start(t) => {
                    if transparent_tag_check(*t) {
                        true
                    } else if *t == TagKind::HtmlBlock {
                        !range_has_lb_exec(whitespaces, e.start, e.end)
                    } else {
                        false
                    }
                },
                MdEvent::End(_) => false,
                MdEvent::Text => level == 0,
                MdEvent::Code => level == 0,
                MdEvent::SoftBreak => level == 0,
                MdEvent::HardBreak => level == 0,
                MdEvent::Html(_) => !range_has_lb_exec(whitespaces, e.start, e.end),
                MdEvent::InlineHtml => !range_has_lb_exec(whitespaces, e.start, e.end),
                _ => false,
            };
            proof {
                assert(keep == ev_keep(evs[i as int], old_level, m));
            }
            if keep {
                proof {
                    assert(out@.push(CharRange { start: e.start, end: e.end }) =~= out@ + seq![
                        CharRange { start: e.start, end: e.end },
                    ]);
                }
                out.push(CharRange { start: e.start, end: e.end });
            }
            level = match &e.event {
                MdEvent::Start(t) => {
                    if verbatim_tag_check(*t) || transparent_tag_check(*t) {
                        level + 1
                    } else {
                        level
                    }
                },
                MdEvent::End(t) => {
                    if verbatim_tag_check(*t) || transparent_tag_check(*t) {
                        if level > 0 {
                            level - 1
                        } else {
                            0
                        }
                    } else {
                        level
                    }
                },
                _ => level,
            };
            proof {
                assert(level as int == ev_next_level(evs[i as int].event, old_level));
                assert(tbw_from(evs, m, i as int, old_level, old_ign) == (if ev_keep(
                    evs[i as int],
                    old_level,
                    m,
                ) {
                    seq![CharRange { start: evs[i as int].start, end: evs[i as int].end }]
                } else {
                    Seq::<CharRange>::empty()
                }) + tbw_from(evs, m, i + 1, level as int, ignore.ignore));
            }
        } else {
            proof {
                assert(tbw_from(evs, m, i as int, old_level, old_ign) == tbw_from(
                    evs,
                    m,
                    i + 1,
                    old_level,
                    ignore.ignore,
                ));
            }
        }
        i += 1;
    }
    proof {
        assert(tbw_from(evs, m, evs.len() as int, level as int, ignore.ignore) =~= Seq::<
            CharRange,
        >::empty());
        assert(out@ =~= tbw_from(evs, m, 0, 0, false));
    }
    out
}

/// The subsequence of `rs` whose starts never decrease: a range starting
/// before the maximum start seen so far is dropped.  On streams in source
/// order this keeps everything.
pub open spec fn keep_sorted_from(rs: Seq<CharRange>, i: int, bound: int) -> Seq<CharRange>
    decreases rs.len() - i,
{
    if i < 0 || i >= rs.len() {
        Seq::empty()
    } else if rs[i].start as int >= bound {
        seq![rs[i]] + keep_sorted_from(rs, i + 1, rs[i].start as int)
    } else {
        keep_sorted_from(rs, i + 1, bound)
    }
}

/// Guard the merger's ordering precondition: keep the ranges whose starts
/// never decrease.
pub fn keep_sorted(rs: Vec<CharRange>) -> (r: Vec<CharRange>)
    ensures
        r@ == keep_sorted_from(rs@, 0, 0),
{
    let ghost v = rs@;
    let mut out: Vec<CharRange> = Vec::new();
    let mut bound: usize = 0;
    let mut i: usize = 0;
    while i < rs.len()
        invariant
            v == rs@,
            i <= v.len(),
            keep_sorted_from(v, 0, 0) == out@ + keep_sorted_from(v, i as int, bound as int),
        decreases v.len() - i,
    {
        let r = rs[i];
        if r.start >= bound {
            proof {
                assert(out@.push(r) =~= out@ + seq![r]);
            }
            out.push(r);
            bound = r.start;
        }
        i += 1;
    }
    proof {
        assert(keep_sorted_from(v, v.len() as int, bound as int) =~= Seq::<CharRange>::empty());
        assert(out@ =~= keep_sorted_from(v, 0, 0));
    }
    out
}

/// The starts of the guarded subsequence never decrease, and its ranges
/// keep their bounds.
pub proof fn lemma_keep_sorted_props(rs: Seq<CharRange>, i: int, bound: int, n: int)
    requires
        forall|k: int| 0 <= k < rs.len() ==> (#[trigger] rs[k]).start <= rs[k].end <= n,
    ensures
        forall|k: int|
            0 <= k < keep_sorted_from(rs, i, bound).len() ==> bound <= (#[trigger] keep_sorted_from(
                rs,
                i,
                bound,
            )[k]).start <= keep_sorted_from(rs, i, bound)[k].end <= n,
        forall|k: int, j: int|
            0 <= k < j < keep_sorted_from(rs, i, bound).len() ==> (#[trigger] keep_sorted_from(
                rs,
                i,
                bound,
            )[k]).start <= (#[trigger] keep_sorted_from(rs, i, bound)[j]).start,
    decreases rs.len() - i,
{
    if i < 0 || i >= rs.len() {
    } else if rs[i].start as int >= bound {
        lemma_keep_sorted_props(rs, i + 1, rs[i].start as int, n);
        let rest = keep_sorted_from(rs, i + 1, rs[i].start as int);
        let whole = keep_sorted_from(rs, i, bound);
        assert(whole == seq![rs[i]] + rest);
        assert forall|k: int|
            0 <= k < whole.len() implies bound <= (#[trigger] whole[k]).start <= whole[k].end
            <= n by {
            if k > 0 {
                assert(whole[k] == rest[k - 1]);
            }
        }
        assert forall|k: int, j: int|
            0 <= k < j < whole.len() implies (#[trigger] whole[k]).start
            <= (#[trigger] whole[j]).start by {
            assert(whole[j] == rest[j - 1]);
            if k > 0 {
                assert(whole[k] == rest[k - 1]);
            }
        }
    } else {
        lemma_keep_sorted_props(rs, i + 1, bound, n);
        let rest = keep_sorted_from(rs, i + 1, bound);
        let whole = keep_sorted_from(rs, i, bound);
        assert(whole == rest);
        assert forall|k: int|
            0 <= k < whole.len() implies bound <= (#[trigger] whole[k]).start <= whole[k].end
            <= n by {
            assert(whole[k] == rest[k]);
        }
        assert forall|k: int, j: int|
            0 <= k < j < whole.len() implies (#[trigger] whole[k]).start
            <= (#[trigger] whole[j]).start by {
            assert(whole[k] == rest[k] && whole[j] == rest[j]);
        }
    }
}

/// On start-sorted input the merge fold yields ranges in order and
/// separated, each within bounds.
pub proof fn lemma_merge_from_props(
    rs: Seq<CharRange>,
    m: Map<usize, char>,
    i: int,
    cur: CharRange,
    n: int,
)
    requires
        0 <= i,
        forall|k: int| 0 <= k < rs.len() ==> (#[trigger] rs[k]).start <= rs[k].end <= n,
        forall|k: int, j: int|
            0 <= k < j < rs.len() ==> (#[trigger] rs[k]).start <= (#[trigger] rs[j]).start,
        cur.start <= cur.end <= n,
        forall|k: int| i <= k < rs.len() ==> cur.start <= (#[trigger] rs[k]).start,
    ensures
        forall|k: int|
            0 <= k < merge_from(rs, m, i, cur).len() ==> (#[trigger] merge_from(
                rs,
                m,
                i,
                cur,
            )[k]).start <= merge_from(rs, m, i, cur)[k].end <= n,
        forall|k: int, j: int|
            0 <= k < j < merge_from(rs, m, i, cur).len() ==> (#[trigger] merge_from(
                rs,
                m,
                i,
                cur,
            )[k]).end <= (#[trigger] merge_from(rs, m, i, cur)[j]).start,
        merge_from(rs, m, i, cur).len() > 0,
        merge_from(rs, m, i, cur)[0].start == cur.start,
    decreases rs.len() - i,
{
    if i >= rs.len() {
    } else {
        let r = rs[i];
        if r.start >= cur.start && r.end <= cur.end {
            lemma_merge_from_props(rs, m, i + 1, cur, n);
        } else if gap_all_ws(m, cur.end as int, r.start as int) && gap_lb_count(
            m,
            cur.end as int,
            r.start as int,
        ) <= 1 {
            assert(r.end > cur.end || r.start < cur.start);
            assert(cur.start <= r.start);
            assert(r.end > cur.end);
            lemma_merge_from_props(rs, m, i + 1, CharRange { start: cur.start, end: r.end }, n);
        } else {
            // The gap check passes vacuously on an empty gap, so a flush
            // means the next range starts strictly after the current end.
            assert(r.start as int > cur.end as int) by {
                if r.start as int <= cur.end as int {
                    assert(gap_all_ws(m, cur.end as int, r.start as int));
                    assert(gap_lb_count(m, cur.end as int, r.start as int) == 0);
                }
            }
            lemma_merge_from_props(rs, m, i + 1, r, n);
            let rest = merge_from(rs, m, i + 1, r);
            let whole = merge_from(rs, m, i, cur);
            assert(whole == seq![cur] + rest);
            assert forall|k: int|
                0 <= k < whole.len() implies (#[trigger] whole[k]).start <= whole[k].end <= n by {
                if k > 0 {
                    assert(whole[k] == rest[k - 1]);
                }
            }
            assert forall|k: int, j: int|
                0 <= k < j < whole.len() implies (#[trigger] whole[k]).end
                <= (#[trigger] whole[j]).start by {
                assert(whole[j] == rest[j - 1]);
                if k > 0 {
                    assert(whole[k] == rest[k - 1]);
                }
            }
        }
    }
}

/// `drop_short` keeps ranges, their bounds and their order.
pub proof fn lemma_drop_short_props(rs: Seq<CharRange>, i: int, n: int)
    requires
        forall|k: int| 0 <= k < rs.len() ==> (#[trigger] rs[k]).start <= rs[k].end <= n,
        forall|k: int, j: int|
            0 <= k < j < rs.len() ==> (#[trigger] rs[k]).end <= (#[trigger] rs[j]).start,
        0 <= i,
    ensures
        forall|k: int|
            0 <= k < drop_short(rs, i).len() ==> (#[trigger] drop_short(rs, i)[k]).start
                < drop_short(rs, i)[k].end <= n && drop_short(rs, i)[k].end as int > drop_short(
                rs,
                i,
            )[k].start as int + 1,
        forall|k: int, j: int|
            0 <= k < j < drop_short(rs, i).len() ==> (#[trigger] drop_short(rs, i)[k]).end
                <= (#[trigger] drop_short(rs, i)[j]).start,
        forall|k: int|
            0 <= k < drop_short(rs, i).len() ==> i <= rs.len() && exists|t: int|
                i <= t < rs.len() && #[trigger] drop_short(rs, i)[k] == rs[t],
    decreases rs.len() - i,
{
    if i >= rs.len() {
    } else {
        lemma_drop_short_props(rs, i + 1, n);
        let rest = drop_short(rs, i + 1);
        let whole = drop_short(rs, i);
        if rs[i].end as int > rs[i].start as int + 1 {
            assert(whole == seq![rs[i]] + rest);
            assert forall|k: int|
                0 <= k < whole.len() implies (#[trigger] whole[k]).start < whole[k].end <= n
                && whole[k].end as int > whole[k].start as int + 1 by {
                if k > 0 {
                    assert(whole[k] == rest[k - 1]);
                }
            }
            assert forall|k: int, j: int|
                0 <= k < j < whole.len() implies (#[trigger] whole[k]).end
                <= (#[trigger] whole[j]).start by {
                assert(whole[j] == rest[j - 1]);
                let t = choose|t: int| i + 1 <= t < rs.len() && whole[j] == rs[t];
                if k > 0 {
                    assert(whole[k] == rest[k - 1]);
                    let u = choose|u: int| i + 1 <= u < rs.len() && whole[k] == rs[u];
                } else {
                    assert(whole[0] == rs[i]);
                }
            }
            assert forall|k: int|
                0 <= k < whole.len() implies i <= rs.len() && exists|t: int|
                i <= t < rs.len() && #[trigger] whole[k] == rs[t] by {
                if k > 0 {
                    assert(whole[k] == rest[k - 1]);
                    let t = choose|t: int| i + 1 <= t < rs.len() && whole[k] == rs[t];
                    assert(i <= t < rs.len() && whole[k] == rs[t]);
                } else {
                    assert(whole[0] == rs[i]);
                }
            }
        } else {
            assert(whole == rest);
            assert forall|k: int|
                0 <= k < whole.len() implies i <= rs.len() && exists|t: int|
                i <= t < rs.len() && #[trigger] whole[k] == rs[t] by {
                let t = choose|t: int| i + 1 <= t < rs.len() && whole[k] == rs[t];
                assert(i <= t < rs.len() && whole[k] == rs[t]);
            }
        }
    }
}

/// Determine ranges of characters that shall later be wrapped and have
/// their indents fixed.  The result lists the wrappable spans of the
/// document in order: within bounds, sorted, pairwise separated, each
/// spanning at least two characters.
pub fn parse_markdown(text: &str, parse_cfg: &ParseCfg) -> (r: Vec<CharRange>)
    ensures
        ({
            let m = parse_ws_map(parse_cfg.keep_linebreaks, text@);
            r@ == drop_short(
                merge_spec(
                    keep_sorted_from(
                        tbw_from(crate::events::md_events_of(text@), m, 0, 0, false),
                        0,
                        0,
                    ),
                    m,
                ),
                0,
            )
        }),
        forall|k: int|
            0 <= k < r@.len() ==> (#[trigger] r@[k]).start < r@[k].end <= text@.len(),
        forall|k: int, j: int|
            0 <= k < j < r@.len() ==> (#[trigger] r@[k]).end <= (#[trigger] r@[j]).start,
{
    let events = md_events_ext(text);
    let detector = WhitespaceDetector::new(parse_cfg.keep_linebreaks);
    let whitespaces = whitespace_indices(text, &detector);
    proof {
        assert(ws_map_of(&detector, text@) =~= parse_ws_map(parse_cfg.keep_linebreaks, text@));
    }
    let raw = to_be_wrapped(events, &whitespaces);
    let ghost evs = crate::events::md_events_of(text@);
    let ghost m = parse_ws_map(parse_cfg.keep_linebreaks, text@);
    proof {
        lemma_tbw_bounds(evs, m, 0, 0, false, text@.len() as int);
    }
    // The parser yields its events in source order, so this guard keeps
    // everything in practice; it establishes the ordering the merger's
    // reasoning rests on without assuming anything of the event stream.
    let ordered = keep_sorted(raw);
    proof {
        lemma_keep_sorted_props(raw@, 0, 0, text@.len() as int);
    }
    let merged = merge_ranges(ordered, &whitespaces);
    proof {
        if ordered@.len() > 0 {
            lemma_merge_from_props(ordered@, m, 1, ordered@[0], text@.len() as int);
            lemma_drop_short_props(merge_spec(ordered@, m), 0, text@.len() as int);
        } else {
            assert(merge_spec(ordered@, m) =~= Seq::<CharRange>::empty());
        }
    }
    merged
}

/// The whitespace predicate that `parse_markdown` uses: Unicode whitespace
/// minus the non-breaking spaces, and minus the linebreak when linebreaks
/// are kept.
pub open spec fn parse_ws(keep_linebreaks: bool, c: char) -> bool {
    crate::unicode::unicode_whitespace(c) && !crate::detect::nbsp_char(c) && !(keep_linebreaks
        && c == '\n')
}

/// The whitespace map that `parse_markdown` builds over the document.
pub open spec fn parse_ws_map(keep_linebreaks: bool, s: Seq<char>) -> Map<usize, char> {
    Map::new(|i: usize| i < s.len() && parse_ws(keep_linebreaks, s[i as int]), |i: usize| s[i as int])
}

/// Every range of the classifier fold lies within the event bounds.
pub proof fn lemma_tbw_bounds(
    evs: Seq<RawEvent>,
    m: Map<usize, char>,
    i: int,
    level: int,
    ign: bool,
    n: int,
)
    requires
        forall|k: int| 0 <= k < evs.len() ==> (#[trigger] evs[k]).start <= evs[k].end <= n,
    ensures
        forall|k: int|
            0 <= k < tbw_from(evs, m, i, level, ign).len() ==> (#[trigger] tbw_from(
                evs,
                m,
                i,
                level,
                ign,
            )[k]).start <= tbw_from(evs, m, i, level, ign)[k].end <= n,
    decreases evs.len() - i,
{
    if i < 0 || i >= evs.len() {
    } else {
        let e = evs[i];
        let ign2 = ev_next_ignore(ign, e.event);
        if ign2 {
            lemma_tbw_bounds(evs, m, i + 1, level, ign2, n);
            let rest = tbw_from(evs, m, i + 1, level, ign2);
            let whole = tbw_from(evs, m, i, level, ign);
            assert(whole == rest);
            assert forall|k: int|
                0 <= k < whole.len() implies (#[trigger] whole[k]).start <= whole[k].end <= n by {
                assert(whole[k] == rest[k]);
            }
        } else {
            lemma_tbw_bounds(evs, m, i + 1, ev_next_level(e.event, level), ign2, n);
            let whole = tbw_from(evs, m, i, level, ign);
            let rest = tbw_from(evs, m, i + 1, ev_next_level(e.event, level), ign2);
            assert forall|k: int|
                0 <= k < whole.len() implies (#[trigger] whole[k]).start <= whole[k].end <= n by {
                if ev_keep(e, level, m) {
                    if k > 0 {
                        assert(whole[k] == rest[k - 1]);
                    }
                } else {
                    assert(whole[k] == rest[k]);
                }
            }
        }
    }
}
/// The inclusive lines of `s`: each piece ends with its linebreak, a final
/// piece without one ends at the end of the text.
pub open spec fn incl_lines(s: Seq<char>) -> Seq<Seq<char>>
    decreases s.len(),
    via incl_lines_decreases
{
    if s.len() == 0 {
        Seq::empty()
    } else {
        let k = crate::words::find_char(s, '\n');
        if k == s.len() {
            seq![s]
        } else {
            seq![s.take(k + 1)] + incl_lines(s.skip(k + 1))
        }
    }
}

#[via_fn]
proof fn incl_lines_decreases(s: Seq<char>) {
    crate::words::lemma_find_char(s, '\n');
}

/// Split into inclusive lines.
fn split_inclusive_lines(v: &Vec<char>) -> (r: Vec<Vec<char>>)
    ensures
        r@.map(|_i: int, w: Vec<char>| w@) == incl_lines(v@),
{
    let n: usize = v.len();
    let mut r: Vec<Vec<char>> = Vec::new();
    let mut piece: Vec<char> = Vec::new();
    let mut i: usize = 0;
    proof {
        assert(v@.skip(0) =~= v@);
    }
    while i < n
        invariant
            n == v@.len(),
            i <= n,
            piece@.len() <= i,
            piece@ =~= v@.subrange(i - piece@.len(), i as int),
            forall|t: int| i - piece@.len() <= t < i ==> v@[t] != '\n',
            incl_lines(v@) == r@.map(|_i: int, w: Vec<char>| w@) + incl_lines(
                v@.skip(i - piece@.len()),
            ),
        decreases n - i,
    {
        let c = v[i];
        piece.push(c);
        if c == '\n' {
            proof {
                let start = i + 1 - piece@.len();
                crate::words::lemma_find_char_at(v@, '\n', start, i as int);
                let sk = v@.skip(start);
                assert(crate::words::find_char(sk, '\n') == i - start);
                assert(sk.take(i - start + 1) =~= v@.subrange(start, i + 1));
                assert(piece@ =~= v@.subrange(start, i + 1));
                assert(sk.skip(i - start + 1) =~= v@.skip(i + 1));
                assert(incl_lines(sk) == seq![piece@] + incl_lines(v@.skip(i + 1)));
                assert(r@.push(piece).map(|_i: int, w: Vec<char>| w@) =~= r@.map(
                    |_i: int,
                    w: Vec<char>|
                    w@,
                ).push(piece@));
            }
            r.push(piece);
            piece = Vec::new();
        }
        i += 1;
    }
    if piece.len() > 0 {
        proof {
            let start = n - piece@.len();
            crate::words::lemma_find_char_at(v@, '\n', start, n as int);
            let sk = v@.skip(start);
            assert(crate::words::find_char(sk, '\n') == n - start);
            assert(sk =~= piece@);
            assert(incl_lines(sk) == seq![sk]);
            assert(r@.push(piece).map(|_i: int, w: Vec<char>| w@) =~= r@.map(
                |_i: int,
                w: Vec<char>|
                w@,
            ).push(piece@));
            assert(incl_lines(v@) =~= r@.push(piece).map(|_i: int, w: Vec<char>| w@));
        }
        r.push(piece);
    } else {
        proof {
            assert(v@.skip(n as int) =~= Seq::<char>::empty());
            assert(incl_lines(v@) =~= r@.map(|_i: int, w: Vec<char>| w@));
        }
    }
    r
}

/// One piece of a document cut at its top-level block quotes: either plain
/// text to copy, or a block-quoted span with the column it starts at.
pub enum RangeMatch {
    Matches(usize, String),
    NoMatch(String),
}

/// The text a piece carries.
pub open spec fn rm_text(p: RangeMatch) -> Seq<char> {
    match p {
        RangeMatch::Matches(_, s) => s@,
        RangeMatch::NoMatch(s) => s@,
    }
}

/// The concatenation of the pieces' texts.
pub open spec fn pieces_concat(ps: Seq<RangeMatch>, i: int) -> Seq<char>
    decreases ps.len() - i,
{
    if i < 0 || i >= ps.len() {
        Seq::empty()
    } else {
        rm_text(ps[i]) + pieces_concat(ps, i + 1)
    }
}

/// Whether no piece is a block quote.
pub open spec fn all_plain(ps: Seq<RangeMatch>) -> bool {
    forall|k: int| 0 <= k < ps.len() ==> (#[trigger] ps[k]) is NoMatch
}

/// A document cut at its top-level block quotes.
pub struct BlockQuotes {
    pub pieces: Vec<RangeMatch>,
}

impl BlockQuotes {
    /// Cut `text` at its top-level block quotes, as found by the markdown
    /// parser.  The pieces concatenate back to the whole document.
    pub fn new(text: &str) -> (r: Self)
        ensures
            pieces_concat(r.pieces@, 0) == text@,
    {
        let chars = str_to_chars(text);
        let events = crate::events::md_events_plain(text);
        let mut level: usize = 0;
        let mut ranges: Vec<CharRange> = Vec::new();
        let mut e: usize = 0;
        while e < events.len()
            invariant
                e <= events@.len(),
                level <= e,
                forall|k: int|
                    0 <= k < events@.len() ==> (#[trigger] events@[k]).start <= events@[k].end
                        <= text@.len(),
                forall|k: int|
                    0 <= k < ranges@.len() ==> (#[trigger] ranges@[k]).start <= ranges@[k].end
                        <= text@.len(),
            decreases events@.len() - e,
        {
            let ev = &events[e];
            match &ev.event {
                MdEvent::Start(t) => {
                    if *t == TagKind::BlockQuote {
                        level = level + 1;
                        if level == 1 {
                            proof {
                                assert(events@[e as int].start <= events@[e as int].end
                                    <= text@.len());
                            }
                            ranges.push(CharRange { start: ev.start, end: ev.end });
                        }
                    }
                },
                MdEvent::End(t) => {
                    if *t == TagKind::BlockQuote {
                        if level > 0 {
                            level = level - 1;
                        }
                    }
                },
                _ => {},
            }
            e += 1;
        }
        let mut pieces: Vec<RangeMatch> = Vec::new();
        let mut start: usize = 0;
        let mut k: usize = 0;
        while k < ranges.len()
            invariant
                chars@ == text@,
                k <= ranges@.len(),
                start <= chars@.len(),
                forall|t: int|
                    0 <= t < ranges@.len() ==> (#[trigger] ranges@[t]).start <= ranges@[t].end
                        <= text@.len(),
                pieces_concat(pieces@, 0) == chars@.take(start as int),
            decreases ranges@.len() - k,
        {
            let r = ranges[k];
            // Malformed or out-of-order spans are skipped; the parser does
            // not produce them.
            if r.start >= start && r.start <= r.end {
                if r.start > start {
                    let plain = crate::unicode::chars_to_string(
                        &subvec_chars(&chars, start, r.start),
                    );
                    let rm = RangeMatch::NoMatch(plain);
                    proof {
                        lemma_pieces_concat_push(pieces@, rm);
                        assert(chars@.take(start as int) + chars@.subrange(
                            start as int,
                            r.start as int,
                        ) =~= chars@.take(r.start as int));
                    }
                    pieces.push(rm);
                }
                let col = crate::ranges::col_of_at(&chars, r.start);
                let quoted = crate::unicode::chars_to_string(&subvec_chars(&chars, r.start, r.end));
                let rm = RangeMatch::Matches(col, quoted);
                proof {
                    lemma_pieces_concat_push(pieces@, rm);
                    assert(chars@.take(r.start as int) + chars@.subrange(
                        r.start as int,
                        r.end as int,
                    ) =~= chars@.take(r.end as int));
                }
                pieces.push(rm);
                start = r.end;
            }
            k += 1;
        }
        if start < chars.len() {
            let plain = crate::unicode::chars_to_string(&subvec_chars(&chars, start, chars.len()));
            let rm = RangeMatch::NoMatch(plain);
            proof {
                lemma_pieces_concat_push(pieces@, rm);
                assert(chars@.take(start as int) + chars@.subrange(
                    start as int,
                    chars@.len() as int,
                ) =~= chars@);
            }
            pieces.push(rm);
        } else {
            proof {
                assert(chars@.take(start as int) =~= chars@);
            }
        }
        BlockQuotes { pieces }
    }

    /// Apply `func` to the inner text of each block-quoted piece, after its
    /// quote markers are stripped, and put the markers back on the result;
    /// plain pieces are copied.  The result is the concatenation of the
    /// per-piece outputs as `piece_output_ok` relates them to `func`, and a
    /// document without block quotes comes back unchanged.
    pub fn apply_to_matches_and_join<MapFn: Fn(String, usize) -> String>(
        self,
        func: MapFn,
    ) -> (r: String)
        requires
            forall|x: (String, usize)| #[trigger] call_requires(func, x),
        ensures
            exists|outs: Seq<Seq<char>>|
                #[trigger] piece_outputs_ok(self.pieces@, func, outs) && r@ == concat_all(
                    outs,
                    outs.len() as int,
                ),
            all_plain(self.pieces@) ==> r@ == pieces_concat(self.pieces@, 0),
    {
        let mut out: Vec<char> = Vec::new();
        let n = self.pieces.len();
        let mut i: usize = 0;
        let pieces = self.pieces;
        let ghost mut outs: Seq<Seq<char>> = Seq::empty();
        while i < n
            invariant
                n == pieces@.len(),
                i <= n,
                forall|x: (String, usize)| #[trigger] call_requires(func, x),
                outs.len() == i,
                forall|k: int| 0 <= k < i ==> piece_output_ok(pieces@[k], func, #[trigger] outs[k]),
                out@ == concat_all(outs, i as int),
                all_plain(pieces@) ==> out@ == pieces_concat_prefix(pieces@, i as int),
            decreases n - i,
        {
            match &pieces[i] {
                RangeMatch::NoMatch(sref) => {
                    let piece_chars = str_to_chars(sref.as_str());
                    let ghost o0 = out@;
                    let mut t: usize = 0;
                    while t < piece_chars.len()
                        invariant
                            t <= piece_chars@.len(),
                            out@ =~= o0 + piece_chars@.subrange(0, t as int),
                        decreases piece_chars@.len() - t,
                    {
                        out.push(piece_chars[t]);
                        t += 1;
                    }
                    proof {
                        assert(out@ =~= o0 + rm_text(pieces@[i as int]));
                        lemma_pieces_concat_prefix_step(pieces@, i as int);
                        lemma_concat_all_stable(outs, sref@, i as int);
                        outs = outs.push(sref@);
                        assert(piece_output_ok(pieces@[i as int], func, sref@));
                    }
                },
                RangeMatch::Matches(ind, sref) => {
                    let ind_v: usize = *ind;
                    let inner = strip_quote_prefix(sref.as_str(), ind_v);
                    let ghost arg: String = inner;
                    let shift: usize = if ind_v <= usize::MAX - 2 {
                        ind_v + 2
                    } else {
                        ind_v
                    };
                    let mapped = func(inner, shift);
                    let prefixed = add_quote_prefix(mapped, ind_v);
                    let ghost piece_out = prefixed@;
                    let piece_chars = str_to_chars(prefixed.as_str());
                    let ghost o0 = out@;
                    let mut t: usize = 0;
                    while t < piece_chars.len()
                        invariant
                            t <= piece_chars@.len(),
                            out@ =~= o0 + piece_chars@.subrange(0, t as int),
                        decreases piece_chars@.len() - t,
                    {
                        out.push(piece_chars[t]);
                        t += 1;
                    }
                    proof {
                        assert(out@ =~= o0 + piece_out);
                        assert(shift == quote_shift(ind_v));
                        assert(call_ensures(func, (arg, quote_shift(ind_v)), mapped));
                        lemma_concat_all_stable(outs, piece_out, i as int);
                        outs = outs.push(piece_out);
                        assert(piece_output_ok(pieces@[i as int], func, piece_out));
                    }
                },
            }
            i += 1;
        }
        proof {
            if all_plain(pieces@) {
                lemma_pieces_concat_prefix_all(pieces@);
            }
            assert(piece_outputs_ok(pieces@, func, outs));
        }
        crate::unicode::chars_to_string(&out)
    }
}

/// The column handed to the reformatting function for a block quote at
/// column `ind`: the column plus the width of the quote marker.
pub open spec fn quote_shift(ind: usize) -> usize {
    if ind <= usize::MAX - 2 {
        (ind + 2) as usize
    } else {
        ind
    }
}

/// How one output piece relates to its input piece: a plain piece passes
/// through, while a block-quoted piece is stripped of its markers, handed
/// to `func` together with its shifted column, and the markers are put
/// back onto what `func` returned.
pub open spec fn piece_output_ok<MapFn: Fn(String, usize) -> String>(
    p: RangeMatch,
    func: MapFn,
    out: Seq<char>,
) -> bool {
    match p {
        RangeMatch::NoMatch(s) => out == s@,
        RangeMatch::Matches(ind, s) => exists|arg: String, m: String|
            {
                &&& arg@ == strip_all(incl_lines(s@), 0, ind as int)
                &&& #[trigger] call_ensures(func, (arg, quote_shift(ind)), m)
                &&& out == prefix_all(incl_lines(m@), 0, ind as int)
            },
    }
}

/// Each output piece relates to its input piece.
pub open spec fn piece_outputs_ok<MapFn: Fn(String, usize) -> String>(
    ps: Seq<RangeMatch>,
    func: MapFn,
    outs: Seq<Seq<char>>,
) -> bool {
    outs.len() == ps.len() && forall|k: int|
        0 <= k < ps.len() ==> piece_output_ok(ps[k], func, #[trigger] outs[k])
}

/// The concatenation of the first `i` pieces.
pub open spec fn concat_all(ps: Seq<Seq<char>>, i: int) -> Seq<char>
    decreases i,
{
    if i <= 0 || i > ps.len() {
        Seq::empty()
    } else {
        concat_all(ps, i - 1) + ps[i - 1]
    }
}

/// Appending a piece leaves the concatenation of the earlier ones alone
/// and extends the full one by the new piece.
proof fn lemma_concat_all_stable(ps: Seq<Seq<char>>, x: Seq<char>, i: int)
    requires
        0 <= i <= ps.len(),
    ensures
        concat_all(ps.push(x), i) == concat_all(ps, i),
        i == ps.len() ==> concat_all(ps.push(x), i + 1) == concat_all(ps, i) + x,
    decreases i,
{
    if i > 0 {
        lemma_concat_all_stable(ps, x, i - 1);
        assert(ps.push(x)[i - 1] == ps[i - 1]);
    }
    if i == ps.len() {
        assert(ps.push(x)[i] == x);
    }
}

/// The concatenation of the first `i` pieces' texts.
pub open spec fn pieces_concat_prefix(ps: Seq<RangeMatch>, i: int) -> Seq<char>
    decreases i,
{
    if i <= 0 || i > ps.len() {
        Seq::empty()
    } else {
        pieces_concat_prefix(ps, i - 1) + rm_text(ps[i - 1])
    }
}

proof fn lemma_pieces_concat_prefix_step(ps: Seq<RangeMatch>, i: int)
    requires
        0 <= i < ps.len(),
    ensures
        pieces_concat_prefix(ps, i + 1) == pieces_concat_prefix(ps, i) + rm_text(ps[i]),
{
}

proof fn lemma_pieces_concat_prefix_all(ps: Seq<RangeMatch>)
    ensures
        pieces_concat_prefix(ps, ps.len() as int) == pieces_concat(ps, 0),
{
    lemma_pieces_concat_agree(ps, ps.len() as int);
    assert(pieces_concat(ps, ps.len() as int) =~= Seq::<char>::empty());
    assert(pieces_concat_prefix(ps, ps.len() as int) + Seq::<char>::empty()
        =~= pieces_concat_prefix(ps, ps.len() as int));
}

proof fn lemma_pieces_concat_agree(ps: Seq<RangeMatch>, i: int)
    requires
        0 <= i <= ps.len(),
    ensures
        pieces_concat_prefix(ps, i) + pieces_concat(ps, i) == pieces_concat(ps, 0),
    decreases i,
{
    if i == 0 {
        assert(pieces_concat_prefix(ps, 0) + pieces_concat(ps, 0) =~= pieces_concat(ps, 0));
    } else {
        lemma_pieces_concat_agree(ps, i - 1);
        assert(pieces_concat(ps, i - 1) == rm_text(ps[i - 1]) + pieces_concat(ps, i));
        assert((pieces_concat_prefix(ps, i - 1) + rm_text(ps[i - 1])) + pieces_concat(ps, i)
            =~= pieces_concat_prefix(ps, i - 1) + (rm_text(ps[i - 1]) + pieces_concat(ps, i)));
    }
}

proof fn lemma_pieces_concat_push(ps: Seq<RangeMatch>, p: RangeMatch)
    ensures
        pieces_concat(ps.push(p), 0) == pieces_concat(ps, 0) + rm_text(p),
    decreases ps.len(),
{
    lemma_pieces_concat_push_from(ps, p, 0);
}

proof fn lemma_pieces_concat_push_from(ps: Seq<RangeMatch>, p: RangeMatch, i: int)
    requires
        0 <= i <= ps.len(),
    ensures
        pieces_concat(ps.push(p), i) == pieces_concat(ps, i) + rm_text(p),
    decreases ps.len() - i,
{
    if i == ps.len() {
        assert(ps.push(p)[i] == p);
        assert(pieces_concat(ps.push(p), i + 1) =~= Seq::<char>::empty());
        assert(pieces_concat(ps.push(p), i) =~= rm_text(p));
        assert(pieces_concat(ps, i) =~= Seq::<char>::empty());
        assert(pieces_concat(ps, i) + rm_text(p) =~= rm_text(p));
    } else {
        lemma_pieces_concat_push_from(ps, p, i + 1);
        assert(ps.push(p)[i] == ps[i]);
        assert((rm_text(ps[i]) + pieces_concat(ps, i + 1)) + rm_text(p) =~= rm_text(ps[i]) + (
        pieces_concat(ps, i + 1) + rm_text(p)));
    }
}

/// Copy positions `[start, end)` of `v`.
fn subvec_chars(v: &Vec<char>, start: usize, end: usize) -> (r: Vec<char>)
    requires
        start <= end <= v@.len(),
    ensures
        r@ == v@.subrange(start as int, end as int),
{
    let mut r: Vec<char> = Vec::new();
    let mut i: usize = start;
    while i < end
        invariant
            start <= i <= end <= v@.len(),
            r@ =~= v@.subrange(start as int, i as int),
        decreases end - i,
    {
        r.push(v[i]);
        i += 1;
    }
    assert(r@ =~= v@.subrange(start as int, end as int));
    r
}

/// One line with its quote marker stripped: lines after the first lose the
/// indent first, then a leading `>` goes, then one space after it.
pub open spec fn strip_line(line: Seq<char>, idx: int, indent: int) -> Seq<char> {
    let skipn = if idx == 0 {
        0
    } else if indent <= line.len() {
        indent
    } else {
        line.len() as int
    };
    let t = line.skip(skipn);
    if t.len() > 0 && t[0] == '>' {
        let u = t.drop_first();
        if u.len() > 0 && u[0] == ' ' {
            u.drop_first()
        } else {
            u
        }
    } else {
        t
    }
}

/// The lines of `lines` from `i` on, each stripped, concatenated.
pub open spec fn strip_all(lines: Seq<Seq<char>>, i: int, indent: int) -> Seq<char>
    decreases lines.len() - i,
{
    if i < 0 || i >= lines.len() {
        Seq::empty()
    } else {
        strip_line(lines[i], i, indent) + strip_all(lines, i + 1, indent)
    }
}

/// Strip the quote markers off a block-quoted span.  The first line starts
/// with the marker itself; later lines first lose the indent the quote
/// sits at.
fn strip_quote_prefix(text: &str, indent: usize) -> (r: String)
    ensures
        r@ == strip_all(incl_lines(text@), 0, indent as int),
{
    let chars = str_to_chars(text);
    let lines = split_inclusive_lines(&chars);
    let ghost lines_v = lines@.map(|_i: int, w: Vec<char>| w@);
    let mut out: Vec<char> = Vec::new();
    let mut i: usize = 0;
    while i < lines.len()
        invariant
            lines_v == lines@.map(|_i: int, w: Vec<char>| w@),
            i <= lines_v.len(),
            strip_all(lines_v, 0, indent as int) == out@ + strip_all(
                lines_v,
                i as int,
                indent as int,
            ),
        decreases lines_v.len() - i,
    {
        let line = &lines[i];
        proof {
            assert(lines_v[i as int] == line@);
        }
        let skipn: usize = if i == 0 {
            0
        } else if indent <= line.len() {
            indent
        } else {
            line.len()
        };
        let mut t: usize = skipn;
        let with_marker = t < line.len() && line[t] == '>';
        if with_marker {
            t += 1;
            if t < line.len() && line[t] == ' ' {
                t += 1;
            }
        }
        let ghost o0 = out@;
        let mut u: usize = t;
        while u < line.len()
            invariant
                t <= u <= line@.len(),
                out@ =~= o0 + line@.subrange(t as int, u as int),
            decreases line@.len() - u,
        {
            out.push(line[u]);
            u += 1;
        }
        proof {
            assert(out@ =~= o0 + line@.subrange(t as int, line@.len() as int));
            assert(line@.subrange(t as int, line@.len() as int) =~= strip_line(
                line@,
                i as int,
                indent as int,
            ));
        }
        i += 1;
    }
    proof {
        assert(strip_all(lines_v, lines_v.len() as int, indent as int) =~= Seq::<char>::empty());
    }
    crate::unicode::chars_to_string(&out)
}

/// One line with its quote marker put back: a line of a single one-byte
/// character, in practice its bare linebreak, gets `>`, any other line
/// `> `, and lines after the first are indented.
pub open spec fn prefix_line(line: Seq<char>, idx: int, indent: int) -> Seq<char> {
    let ind = if idx == 0 {
        Seq::<char>::empty()
    } else {
        crate::indent::spec_indent(indent as nat)
    };
    let marker = if line.len() == 1 && (line[0] as u32) < 128 {
        ">"@
    } else {
        "> "@
    };
    ind + marker + line
}

/// The lines of `lines` from `i` on, each prefixed, concatenated.
pub open spec fn prefix_all(lines: Seq<Seq<char>>, i: int, indent: int) -> Seq<char>
    decreases lines.len() - i,
{
    if i < 0 || i >= lines.len() {
        Seq::empty()
    } else {
        prefix_line(lines[i], i, indent) + prefix_all(lines, i + 1, indent)
    }
}

/// Put quote markers back onto a span: every line is prefixed with `> `
/// (just `>` for a line holding only its linebreak), and lines after the
/// first are indented to the column the quote sits at.
fn add_quote_prefix(text: String, indent: usize) -> (r: String)
    ensures
        r@ == prefix_all(incl_lines(text@), 0, indent as int),
{
    let chars = str_to_chars(text.as_str());
    let lines = split_inclusive_lines(&chars);
    let ghost lines_v = lines@.map(|_i: int, w: Vec<char>| w@);
    let ind = crate::indent::build_indent_chars(indent);
    let mut out: Vec<char> = Vec::new();
    let mut i: usize = 0;
    while i < lines.len()
        invariant
            lines_v == lines@.map(|_i: int, w: Vec<char>| w@),
            ind@ == crate::indent::spec_indent(indent as nat),
            i <= lines_v.len(),
            prefix_all(lines_v, 0, indent as int) == out@ + prefix_all(
                lines_v,
                i as int,
                indent as int,
            ),
        decreases lines_v.len() - i,
    {
        let line = &lines[i];
        proof {
            assert(lines_v[i as int] == line@);
        }
        let ghost o0 = out@;
        if i > 0 {
            let mut u: usize = 0;
            while u < ind.len()
                invariant
                    u <= ind@.len(),
                    out@ =~= o0 + ind@.subrange(0, u as int),
                decreases ind@.len() - u,
            {
                out.push(ind[u]);
                u += 1;
            }
            proof {
                assert(out@ =~= o0 + ind@);
            }
        }
        let ghost o1 = out@;
        if line.len() == 1 && (line[0] as u32) < 128 {
            out.push('>');
            proof {
                reveal_strlit(">");
                assert(out@ =~= o1 + ">"@);
            }
        } else {
            out.push('>');
            out.push(' ');
            proof {
                reveal_strlit("> ");
                assert(out@ =~= o1 + "> "@);
            }
        }
        let ghost o2 = out@;
        let mut u: usize = 0;
        while u < line.len()
            invariant
                u <= line@.len(),
                out@ =~= o2 + line@.subrange(0, u as int),
            decreases line@.len() - u,
        {
            out.push(line[u]);
            u += 1;
        }
        proof {
            assert(out@ =~= o2 + line@);
            assert(out@ =~= o0 + prefix_line(line@, i as int, indent as int));
        }
        i += 1;
    }
    proof {
        assert(prefix_all(lines_v, lines_v.len() as int, indent as int) =~= Seq::<char>::empty());
    }
    crate::unicode::chars_to_string(&out)
}

/// The columns of every position of the document: each position's distance
/// back to its line start.
pub fn indents(text: &str) -> (r: Vec<usize>)
    ensures
        r@.len() == text@.len(),
        forall|p: int| 0 <= p < r@.len() ==> r@[p] == crate::ranges::col_of(text@, p),
{
    let chars = str_to_chars(text);
    let mut r: Vec<usize> = Vec::new();
    let mut ls: usize = 0;
    let mut p: usize = 0;
    while p < chars.len()
        invariant
            chars@ == text@,
            p <= chars@.len(),
            ls <= p,
            r@.len() == p,
            p < chars@.len() ==> crate::ranges::line_start(text@, p as int) == ls,
            forall|t: int| 0 <= t < p ==> r@[t] == crate::ranges::col_of(text@, t),
        decreases chars@.len() - p,
    {
        r.push(p - ls);
        if chars[p] == '\n' {
            ls = p + 1;
        }
        p += 1;
    }
    r
}

/// A line with a trailing carriage return stripped, as `str::lines` does.
pub open spec fn strip_cr(l: Seq<char>) -> Seq<char> {
    if l.len() > 0 && l.last() == '\r' {
        l.drop_last()
    } else {
        l
    }
}

/// The lines of `s` as `str::lines` yields them: pieces between
/// linebreaks, without a final empty piece after a trailing linebreak, and
/// with trailing carriage returns stripped.
pub open spec fn std_lines(s: Seq<char>) -> Seq<Seq<char>> {
    let ps = crate::words::split_char(s, '\n');
    let kept = if s.len() > 0 && s.last() == '\n' {
        ps.drop_last()
    } else {
        ps
    };
    kept.map(|_i: int, l: Seq<char>| strip_cr(l))
}

/// Split into lines as `str::lines` does.
fn std_lines_exec(v: &Vec<char>) -> (r: Vec<Vec<char>>)
    ensures
        r@.map(|_i: int, w: Vec<char>| w@) == std_lines(v@),
{
    let mut ps = crate::words::split_at_char(v, '\n');
    let ghost ps0 = ps@.map(|_i: int, w: Vec<char>| w@);
    let n = v.len();
    if n > 0 && v[n - 1] == '\n' {
        proof {
            crate::words::lemma_split_char_nonempty(v@, '\n');
            assert(ps@.map(|_i: int, w: Vec<char>| w@).len() == ps@.len());
        }
        ps.pop();
        proof {
            assert(ps@.map(|_i: int, w: Vec<char>| w@) =~= ps0.drop_last());
        }
    }
    let ghost kept = ps@.map(|_i: int, w: Vec<char>| w@);
    let mut r: Vec<Vec<char>> = Vec::new();
    let mut i: usize = 0;
    while i < ps.len()
        invariant
            kept == ps@.map(|_i: int, w: Vec<char>| w@),
            i <= kept.len(),
            r@.map(|_i: int, w: Vec<char>| w@) =~= kept.map(
                |_i: int,
                l: Seq<char>|
                strip_cr(l),
            ).take(i as int),
        decreases kept.len() - i,
    {
        let line = &ps[i];
        let ghost lv = line@;
        let keep_len: usize = if line.len() > 0 && line[line.len() - 1] == '\r' {
            line.len() - 1
        } else {
            line.len()
        };
        let stripped = subvec_chars(line, 0, keep_len);
        proof {
            assert(lv == kept[i as int]);
            if lv.len() > 0 && lv.last() == '\r' {
                assert(stripped@ =~= strip_cr(lv));
            } else {
                assert(stripped@ =~= strip_cr(lv));
            }
            assert(r@.push(stripped).map(|_i: int, w: Vec<char>| w@) =~= r@.map(
                |_i: int,
                w: Vec<char>|
                w@,
            ).push(stripped@));
            assert(r@.map(|_i: int, w: Vec<char>| w@).push(strip_cr(kept[i as int])) =~= kept.map(
                |_i: int,
                l: Seq<char>|
                strip_cr(l),
            ).take(i + 1));
        }
        r.push(stripped);
        i += 1;
    }
    proof {
        assert(kept.map(|_i: int, l: Seq<char>| strip_cr(l)).take(kept.len() as int) =~= kept.map(
            |_i: int,
            l: Seq<char>|
            strip_cr(l),
        ));
    }
    r
}

/// The number of leading whitespace characters of `l` from position `i`.
pub open spec fn lead_from(l: Seq<char>, i: int) -> int
    decreases l.len() - i,
{
    if 0 <= i < l.len() && crate::unicode::unicode_whitespace(l[i]) {
        1 + lead_from(l, i + 1)
    } else {
        0
    }
}

/// The number of leading whitespace characters of `l`.
pub open spec fn lead_ws(l: Seq<char>) -> int {
    lead_from(l, 0)
}

/// Count the leading whitespace characters.
fn lead_ws_exec(l: &Vec<char>) -> (r: usize)
    ensures
        r == lead_ws(l@),
        r <= l@.len(),
{
    let mut i: usize = 0;
    while i < l.len() && crate::unicode::char_is_unicode_whitespace(l[i])
        invariant
            i <= l@.len(),
            lead_ws(l@) == i + lead_from(l@, i as int),
        decreases l@.len() - i,
    {
        i += 1;
    }
    i
}

/// `l` with leading and trailing whitespace removed, as `str::trim` does.
pub open spec fn trim_full(l: Seq<char>) -> Seq<char> {
    crate::wrap::trim_end_ws(l.skip(lead_ws(l)))
}

/// Trim whitespace off both ends.
fn trim_full_exec(l: &Vec<char>) -> (r: Vec<char>)
    ensures
        r@ == trim_full(l@),
{
    let a = lead_ws_exec(l);
    let skipped = subvec_chars(l, a, l.len());
    proof {
        assert(skipped@ =~= l@.skip(lead_ws(l@)));
    }
    crate::wrap::trim_end_chars(&skipped)
}

/// The kind of a candidate block-start line for the embedded-configuration
/// key: no start, a literal block, or a folded block.  The key may carry
/// its colon as a separate token or attached.
pub open spec fn start_line_kind(line: Seq<char>) -> int {
    let t = crate::words::split_ws(line, crate::kwmatch::uws());
    let pipe3 = t.len() == 3 && t[0] == "mdslw-toml"@ && t[1] == ":"@ && (t[2] == "|"@ || t[2]
        == "|-"@ || t[2] == "|+"@);
    let pipe2 = t.len() == 2 && t[0] == "mdslw-toml:"@ && (t[1] == "|"@ || t[1] == "|-"@ || t[1]
        == "|+"@);
    let angle3 = t.len() == 3 && t[0] == "mdslw-toml"@ && t[1] == ":"@ && (t[2] == ">"@ || t[2]
        == ">-"@ || t[2] == ">+"@);
    let angle2 = t.len() == 2 && t[0] == "mdslw-toml:"@ && (t[1] == ">"@ || t[1] == ">-"@ || t[1]
        == ">+"@);
    if pipe3 || pipe2 {
        1
    } else if angle3 || angle2 {
        2
    } else {
        0
    }
}

/// Classify a candidate block-start line.
fn start_line_kind_exec(line: &Vec<char>) -> (r: usize)
    ensures
        r == start_line_kind(line@),
{
    let toks = split_unicode_ws(line);
    let ghost tv = toks@.map(|_i: int, w: Vec<char>| w@);
    if toks.len() == 3 {
        proof {
            assert(tv[0] == toks@[0]@ && tv[1] == toks@[1]@ && tv[2] == toks@[2]@);
        }
        let key_ok = crate::unicode::chars_eq_str(&toks[0], "mdslw-toml");
        let colon_ok = crate::unicode::chars_eq_str(&toks[1], ":");
        let pipe = crate::unicode::chars_eq_str(&toks[2], "|") || crate::unicode::chars_eq_str(
            &toks[2],
            "|-",
        ) || crate::unicode::chars_eq_str(&toks[2], "|+");
        let angle = crate::unicode::chars_eq_str(&toks[2], ">") || crate::unicode::chars_eq_str(
            &toks[2],
            ">-",
        ) || crate::unicode::chars_eq_str(&toks[2], ">+");
        if key_ok && colon_ok && pipe {
            return 1;
        }
        if key_ok && colon_ok && angle {
            return 2;
        }
        return 0;
    }
    if toks.len() == 2 {
        proof {
            assert(tv[0] == toks@[0]@ && tv[1] == toks@[1]@);
        }
        let key_ok = crate::unicode::chars_eq_str(&toks[0], "mdslw-toml:");
        let pipe = crate::unicode::chars_eq_str(&toks[1], "|") || crate::unicode::chars_eq_str(
            &toks[1],
            "|-",
        ) || crate::unicode::chars_eq_str(&toks[1], "|+");
        let angle = crate::unicode::chars_eq_str(&toks[1], ">") || crate::unicode::chars_eq_str(
            &toks[1],
            ">-",
        ) || crate::unicode::chars_eq_str(&toks[1], ">+");
        if key_ok && pipe {
            return 1;
        }
        if key_ok && angle {
            return 2;
        }
        return 0;
    }
    0
}

/// The first line at or after `i` that starts a block, or the number of
/// lines when none does.
pub open spec fn find_start(lines: Seq<Seq<char>>, i: int) -> int
    decreases lines.len() - i,
{
    if i < 0 || i >= lines.len() {
        lines.len() as int
    } else if start_line_kind(lines[i]) != 0 {
        i
    } else {
        find_start(lines, i + 1)
    }
}

/// The first non-empty line at or after `i`.
pub open spec fn skip_empty(lines: Seq<Seq<char>>, i: int) -> int
    decreases lines.len() - i,
{
    if i < 0 || i >= lines.len() {
        lines.len() as int
    } else if lines[i].len() == 0 {
        skip_empty(lines, i + 1)
    } else {
        i
    }
}

/// The value lines of the block starting at `j`: empty lines and lines at
/// exactly the block's indent, each fully trimmed, up to the first line
/// that breaks the pattern.
pub open spec fn collect_block(lines: Seq<Seq<char>>, j: int, ind: int) -> Seq<Seq<char>>
    decreases lines.len() - j,
{
    if j < 0 || j >= lines.len() {
        Seq::empty()
    } else if lines[j].len() == 0 || lead_ws(lines[j]) == ind {
        seq![trim_full(lines[j])] + collect_block(lines, j + 1, ind)
    } else {
        Seq::empty()
    }
}

/// Every linebreak replaced by a space.
pub open spec fn replace_nl(l: Seq<char>) -> Seq<char> {
    Seq::new(
        l.len(),
        |i: int|
            if l[i] == '\n' {
                ' '
            } else {
                l[i]
            },
    )
}

/// The extracted value for the embedded-configuration key of a YAML
/// document: the indented block following the key's block-start line,
/// trimmed line by line; a folded block additionally has the linebreaks
/// inside each paragraph replaced by spaces.
pub open spec fn yaml_value_spec(s: Seq<char>) -> Seq<char> {
    let lines = std_lines(s);
    let f = find_start(lines, 0);
    if f >= lines.len() {
        Seq::empty()
    } else {
        let kind = start_line_kind(lines[f]);
        let j = skip_empty(lines, f + 1);
        if j >= lines.len() {
            Seq::empty()
        } else {
            let ind = lead_ws(lines[j]);
            if ind == 0 {
                Seq::empty()
            } else {
                let collected = collect_block(lines, j, ind);
                let result = crate::words::join_sep(collected, "\n"@, 0);
                if kind == 1 {
                    result
                } else {
                    let parts = crate::words::split_str_from(result, "\n\n"@, 0, 0);
                    crate::words::join_sep(
                        parts.map(|_i: int, l: Seq<char>| replace_nl(l)),
                        "\n"@,
                        0,
                    )
                }
            }
        }
    }
}

/// Parse a YAML text without an external dependency, treating it as a
/// single document: search for a line starting a block for the
/// embedded-configuration key and return the indented block that follows
/// it, or the empty string when there is none.
pub fn get_value_for_mdslw_toml_yaml_key(text: &str) -> (r: String)
    ensures
        r@ == yaml_value_spec(text@),
{
    let chars = str_to_chars(text);
    let lines = std_lines_exec(&chars);
    let ghost lv = lines@.map(|_i: int, w: Vec<char>| w@);
    let n = lines.len();
    let mut f: usize = 0;
    let mut kind: usize = 0;
    while f < n && kind == 0
        invariant
            lv == lines@.map(|_i: int, w: Vec<char>| w@),
            n == lv.len(),
            f <= n,
            kind == 0 ==> find_start(lv, 0) == find_start(lv, f as int),
            kind != 0 ==> f < n && kind == start_line_kind(lv[f as int]) && find_start(lv, 0)
                == f,
        decreases n - f + (if kind == 0 { 1int } else { 0int }),
    {
        proof {
            assert(lv[f as int] == lines@[f as int]@);
        }
        let k = start_line_kind_exec(&lines[f]);
        if k != 0 {
            kind = k;
        } else {
            f += 1;
        }
    }
    if kind == 0 {
        proof {
            assert(find_start(lv, n as int) == n);
        }
        return String::new();
    }
    let mut j: usize = f + 1;
    while j < n && lines[j].len() == 0
        invariant
            lv == lines@.map(|_i: int, w: Vec<char>| w@),
            n == lv.len(),
            f + 1 <= j <= n,
            skip_empty(lv, f + 1) == skip_empty(lv, j as int),
        decreases n - j,
    {
        proof {
            assert(lv[j as int] == lines@[j as int]@);
        }
        j += 1;
    }
    if j >= n {
        proof {
            assert(skip_empty(lv, n as int) == n);
        }
        return String::new();
    }
    proof {
        assert(lv[j as int] == lines@[j as int]@);
        assert(skip_empty(lv, f + 1) == j);
    }
    let ind = lead_ws_exec(&lines[j]);
    if ind == 0 {
        return String::new();
    }
    let mut collected: Vec<Vec<char>> = Vec::new();
    let mut t: usize = j;
    let mut done = false;
    while t < n && !done
        invariant
            lv == lines@.map(|_i: int, w: Vec<char>| w@),
            n == lv.len(),
            j <= t <= n,
            !done ==> collect_block(lv, j as int, ind as int) =~= collected@.map(
                |_i: int,
                w: Vec<char>|
                w@,
            ) + collect_block(lv, t as int, ind as int),
            done ==> collect_block(lv, j as int, ind as int) =~= collected@.map(
                |_i: int,
                w: Vec<char>|
                w@,
            ),
        decreases n - t + (if done { 0int } else { 1int }),
    {
        proof {
            assert(lv[t as int] == lines@[t as int]@);
        }
        let line = &lines[t];
        let line_ind = lead_ws_exec(line);
        if !(line.len() == 0 || line_ind == ind) {
            proof {
                assert(collect_block(lv, t as int, ind as int) =~= Seq::<Seq<char>>::empty());
            }
            done = true;
        } else {
            let trimmed = trim_full_exec(line);
            proof {
                assert(collected@.push(trimmed).map(|_i: int, w: Vec<char>| w@) =~= collected@.map(
                    |_i: int,
                    w: Vec<char>|
                    w@,
                ).push(trimmed@));
            }
            collected.push(trimmed);
            t += 1;
        }
    }
    proof {
        if !done {
            assert(collect_block(lv, n as int, ind as int) =~= Seq::<Seq<char>>::empty());
        }
        assert(collected@.map(|_i: int, w: Vec<char>| w@) =~= collect_block(
            lv,
            j as int,
            ind as int,
        ));
    }
    let result = crate::words::join_with(&collected, "\n");
    if kind == 1 {
        return crate::unicode::chars_to_string(&result);
    }
    proof {
        reveal_strlit("\n\n");
        assert("\n\n"@.len() > 0);
    }
    let parts = crate::words::split_at_str(&result, "\n\n");
    let ghost pv = parts@.map(|_i: int, w: Vec<char>| w@);
    let mut replaced: Vec<Vec<char>> = Vec::new();
    let mut q: usize = 0;
    while q < parts.len()
        invariant
            pv == parts@.map(|_i: int, w: Vec<char>| w@),
            q <= pv.len(),
            replaced@.map(|_i: int, w: Vec<char>| w@) =~= pv.map(
                |_i: int,
                l: Seq<char>|
                replace_nl(l),
            ).take(q as int),
        decreases pv.len() - q,
    {
        let part = &parts[q];
        let mut out: Vec<char> = Vec::new();
        let mut u: usize = 0;
        while u < part.len()
            invariant
                u <= part@.len(),
                out@ =~= replace_nl(part@).subrange(0, u as int),
            decreases part@.len() - u,
        {
            let c = part[u];
            if c == '\n' {
                out.push(' ');
            } else {
                out.push(c);
            }
            u += 1;
        }
        proof {
            assert(out@ =~= replace_nl(pv[q as int]));
            assert(replaced@.push(out).map(|_i: int, w: Vec<char>| w@) =~= replaced@.map(
                |_i: int,
                w: Vec<char>|
                w@,
            ).push(out@));
            assert(replaced@.map(|_i: int, w: Vec<char>| w@).push(replace_nl(pv[q as int])) =~= pv.map(
                |_i: int,
                l: Seq<char>|
                replace_nl(l),
            ).take(q + 1));
        }
        replaced.push(out);
        q += 1;
    }
    proof {
        assert(pv.map(|_i: int, l: Seq<char>| replace_nl(l)).take(pv.len() as int) =~= pv.map(
            |_i: int,
            l: Seq<char>|
            replace_nl(l),
        ));
    }
    let joined = crate::words::join_with(&replaced, "\n");
    crate::unicode::chars_to_string(&joined)
}

} // verus!
