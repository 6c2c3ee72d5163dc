//! The markdown event stream, obtained from the `pulldown_cmark` parser.
//!
//! The parser is trusted: the library sees each event only as a kind tag
//! plus the character range it came from, and the two streams a document can
//! be parsed into are named by `md_events_of` and `md_events_plain_of`.

use pulldown_cmark::{Event, TagEnd};
use vstd::prelude::*;

verus! {

/// The kind of a markdown container tag, one for each tag of the parser.
#[derive(Debug, PartialEq, Eq, Structural, Clone, Copy)]
pub enum TagKind {
    Paragraph,
    Heading,
    BlockQuote,
    CodeBlock,
    HtmlBlock,
    List,
    Item,
    FootnoteDefinition,
    DefinitionList,
    DefinitionListTitle,
    DefinitionListDefinition,
    Table,
    TableHead,
    TableRow,
    TableCell,
    Emphasis,
    Strong,
    Strikethrough,
    Superscript,
    Subscript,
    Link,
    Image,
    MetadataBlock,
}

/// The kind of a markdown event.  Only HTML events carry their text, which
/// the ignore-region scanner inspects.
#[derive(Debug, PartialEq, Eq)]
pub enum MdEvent {
    Start(TagKind),
    End(TagKind),
    Text,
    Code,
    InlineMath,
    DisplayMath,
    Html(String),
    InlineHtml,
    FootnoteReference,
    SoftBreak,
    HardBreak,
    Rule,
    TaskListMarker,
}

/// One parsed event with the character range it was read from.
#[derive(Debug, PartialEq, Eq)]
pub struct RawEvent {
    pub event: MdEvent,
    pub start: usize,
    pub end: usize,
}

#[verifier::external_type_specification]
#[verifier::external_body]
pub struct ExEvent<'a>(pulldown_cmark::Event<'a>);

#[verifier::external_type_specification]
#[verifier::external_body]
pub struct ExTagEnd(pulldown_cmark::TagEnd);

/// Relies on the variant layout of `pulldown_cmark::TagEnd`: translates
/// its container-level variants to the library's tag kind, one to one, and
/// hands the remaining variants on.
#[verifier::external_body]
fn tag_kind(te: TagEnd) -> TagKind {
    match te {
        TagEnd::Paragraph => TagKind::Paragraph, TagEnd::Heading(_) => TagKind::Heading,
        TagEnd::BlockQuote(_) => TagKind::BlockQuote, TagEnd::CodeBlock => TagKind::CodeBlock,
        TagEnd::HtmlBlock => TagKind::HtmlBlock, TagEnd::List(_) => TagKind::List,
        TagEnd::Item => TagKind::Item, TagEnd::FootnoteDefinition => TagKind::FootnoteDefinition,
        TagEnd::DefinitionList => TagKind::DefinitionList,
        TagEnd::DefinitionListTitle => TagKind::DefinitionListTitle,
        TagEnd::DefinitionListDefinition => TagKind::DefinitionListDefinition,
        TagEnd::Table => TagKind::Table, other => tag_kind_inline(other),
    }
}

/// Relies on the variant layout of `pulldown_cmark::TagEnd`: translates its
/// table-part and inline variants to the library's tag kind, one to one.
#[verifier::external_body]
fn tag_kind_inline(te: TagEnd) -> TagKind {
    match te {
        TagEnd::TableHead => TagKind::TableHead, TagEnd::TableRow => TagKind::TableRow,
        TagEnd::TableCell => TagKind::TableCell, TagEnd::Emphasis => TagKind::Emphasis,
        TagEnd::Strong => TagKind::Strong, TagEnd::Strikethrough => TagKind::Strikethrough,
        TagEnd::Superscript => TagKind::Superscript, TagEnd::Subscript => TagKind::Subscript,
        TagEnd::Link => TagKind::Link, TagEnd::Image => TagKind::Image,
        _ => TagKind::MetadataBlock,
    }
}

/// Relies on the variant layout of `pulldown_cmark::Event`: translates each
/// of its variants to the library's event kind, one to one.  Start tags are
/// first folded to their end form by `Tag::to_end`, which preserves the
/// variant; only the text of HTML events is kept.
#[verifier::external_body]
fn convert_event(ev: Event<'_>) -> MdEvent {
    match ev {
        Event::Start(tag) => MdEvent::Start(tag_kind(tag.to_end())),
        Event::End(te) => MdEvent::End(tag_kind(te)),
        Event::Text(_) => MdEvent::Text, Event::Code(_) => MdEvent::Code,
        Event::InlineMath(_) => MdEvent::InlineMath, Event::DisplayMath(_) => MdEvent::DisplayMath,
        Event::Html(s) => MdEvent::Html(s.to_string()), Event::InlineHtml(_) => MdEvent::InlineHtml,
        Event::FootnoteReference(_) => MdEvent::FootnoteReference,
        Event::SoftBreak => MdEvent::SoftBreak, Event::HardBreak => MdEvent::HardBreak,
        Event::Rule => MdEvent::Rule, Event::TaskListMarker(_) => MdEvent::TaskListMarker,
    }
}

/// The event stream of a document as parsed with tables and definition
/// lists enabled.  Parsing is deterministic: the stream is a function of
/// the text alone.
pub uninterp spec fn md_events_of(s: Seq<char>) -> Seq<RawEvent>;

/// The event stream of a document as parsed with the default options.
pub uninterp spec fn md_events_plain_of(s: Seq<char>) -> Seq<RawEvent>;

/// Relies on `pulldown_cmark::Parser::new_ext` and `into_offset_iter`:
/// parses the document with tables and definition lists enabled and yields
/// the events in source order with their source ranges, which are valid
/// subslice bounds.  Byte offsets are translated to character positions.
#[verifier::external_body]
pub fn md_events_ext(text: &str) -> (r: Vec<RawEvent>)
    ensures
        r@ == md_events_of(text@),
        forall|i: int| 0 <= i < r@.len() ==> (#[trigger] r@[i]).start <= r@[i].end <= text@.len(),
{
    let mut opts = pulldown_cmark::Options::empty();
    opts.insert(pulldown_cmark::Options::ENABLE_TABLES);
    opts.insert(pulldown_cmark::Options::ENABLE_DEFINITION_LIST);
    let mut idx = std::collections::HashMap::new();
    let mut n = 0usize;
    for (b, _) in text.char_indices() { idx.insert(b, n); n += 1; }
    idx.insert(text.len(), n);
    pulldown_cmark::Parser::new_ext(text, opts).into_offset_iter()
        .map(|(ev, rg)| RawEvent { event: convert_event(ev), start: idx[&rg.start], end: idx[&rg.end] })
        .collect()
}

/// Relies on `pulldown_cmark::Parser::new` and `into_offset_iter`: parses
/// the document with the default options and yields the events in source
/// order with their source ranges, which are valid subslice bounds.  Byte
/// offsets are translated to character positions.
#[verifier::external_body]
pub fn md_events_plain(text: &str) -> (r: Vec<RawEvent>)
    ensures
        r@ == md_events_plain_of(text@),
        forall|i: int| 0 <= i < r@.len() ==> (#[trigger] r@[i]).start <= r@[i].end <= text@.len(),
{
    let mut idx = std::collections::HashMap::new();
    let mut n = 0usize;
    for (b, _) in text.char_indices() { idx.insert(b, n); n += 1; }
    idx.insert(text.len(), n);
    pulldown_cmark::Parser::new(text).into_offset_iter()
        .map(|(ev, rg)| RawEvent { event: convert_event(ev), start: idx[&rg.start], end: idx[&rg.end] })
        .collect()
}

} // verus!
