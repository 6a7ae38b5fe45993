//! The structural event stream the renderer consumes.
//!
//! One `Event` is one unit of the linear document stream: a tag boundary, a
//! text run, or a leaf construct. The stream is produced by an external
//! tokenizer, handed over as plain values, and consumed exactly once,
//! left to right.

use vstd::prelude::*;

verus! {

/// Column alignment of a table, as carried by the `Table` start tag.
#[derive(Clone, Copy, PartialEq, Eq)]
pub enum Alignment {
    Unspecified,
    Left,
    Center,
    Right,
}

/// The two kinds of code block.
pub enum CodeBlockKind {
    Indented,
    /// A fenced block; the string is the fence's info text.
    Fenced(String),
}

/// The kind of a link destination; only mail links render differently.
#[derive(Clone, Copy, PartialEq, Eq)]
pub enum LinkKind {
    Email,
    Other,
}

/// A start tag.
pub enum Tag {
    Paragraph,
    Heading { level: u8, classes: Vec<String>, attrs: Vec<(String, Option<String>)> },
    BlockQuote,
    CodeBlock(CodeBlockKind),
    HtmlBlock,
    /// A list; the payload is the first number of an ordered list.
    List(Option<u64>),
    Item,
    FootnoteDefinition(String),
    Table(Vec<Alignment>),
    TableHead,
    TableRow,
    TableCell,
    Emphasis,
    Strong,
    Strikethrough,
    Link { kind: LinkKind, dest_url: String, title: String },
    Image { dest_url: String, title: String },
    MetadataBlock,
}

/// An end tag, carrying only what the serializer needs at the close.
pub enum TagEnd {
    Paragraph,
    Heading(u8),
    BlockQuote,
    CodeBlock,
    HtmlBlock,
    /// True for an ordered list.
    List(bool),
    Item,
    FootnoteDefinition,
    Table,
    TableHead,
    TableRow,
    TableCell,
    Emphasis,
    Strong,
    Strikethrough,
    Link,
    Image,
    MetadataBlock,
}

/// One structural event.
pub enum Event {
    Start(Tag),
    End(TagEnd),
    Text(String),
    Code(String),
    Html(String),
    InlineHtml(String),
    SoftBreak,
    HardBreak,
    Rule,
    FootnoteReference(String),
    TaskListMarker(bool),
}

/// The end tag that closes a given start tag.
pub open spec fn end_of(t: Tag) -> TagEnd {
    match t {
        Tag::Paragraph => TagEnd::Paragraph,
        Tag::Heading { level, .. } => TagEnd::Heading(level),
        Tag::BlockQuote => TagEnd::BlockQuote,
        Tag::CodeBlock(_) => TagEnd::CodeBlock,
        Tag::HtmlBlock => TagEnd::HtmlBlock,
        Tag::List(start) => TagEnd::List(start is Some),
        Tag::Item => TagEnd::Item,
        Tag::FootnoteDefinition(_) => TagEnd::FootnoteDefinition,
        Tag::Table(_) => TagEnd::Table,
        Tag::TableHead => TagEnd::TableHead,
        Tag::TableRow => TagEnd::TableRow,
        Tag::TableCell => TagEnd::TableCell,
        Tag::Emphasis => TagEnd::Emphasis,
        Tag::Strong => TagEnd::Strong,
        Tag::Strikethrough => TagEnd::Strikethrough,
        Tag::Link { .. } => TagEnd::Link,
        Tag::Image { .. } => TagEnd::Image,
        Tag::MetadataBlock => TagEnd::MetadataBlock,
    }
}

/// Proper nesting of the events from position `i` on, given the stack of
/// tags already open: every end tag closes the innermost open start tag,
/// and nothing stays open at the end of the stream.
pub open spec fn balanced_from(evs: Seq<Event>, i: int, stack: Seq<Tag>) -> bool
    decreases evs.len() - i,
{
    if i < 0 || i >= evs.len() {
        stack.len() == 0
    } else {
        match evs[i] {
            Event::Start(t) => balanced_from(evs, i + 1, stack.push(t)),
            Event::End(e) => stack.len() > 0 && end_of(stack.last()) == e && balanced_from(
                evs,
                i + 1,
                stack.drop_last(),
            ),
            _ => balanced_from(evs, i + 1, stack),
        }
    }
}

/// A balanced event stream: every start has its matching end, properly
/// nested.
pub open spec fn balanced(evs: Seq<Event>) -> bool {
    balanced_from(evs, 0, Seq::empty())
}

} // verus!
