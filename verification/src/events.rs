//! The event vocabulary the serializer consumes.
//!
//! An upstream markdown tokenizer produces an ordered stream of
//! `(Event, Span)` pairs, well-nested by construction. Text is carried as
//! UTF-8 bytes and every position is a byte offset into the source.

use vstd::prelude::*;

verus! {

/// A half-open byte range `[start, end)` into the source text.
#[derive(Clone, Copy, PartialEq, Eq, Structural)]
pub struct Span {
    pub start: usize,
    pub end: usize,
}

/// Column alignment of one table column.
#[derive(Clone, Copy)]
pub enum Alignment {
    Auto,
    Left,
    Center,
    Right,
}

/// A structural construct bounded by matched start and end events.
pub enum Tag {
    Paragraph,
    Heading { level: u8, id: Option<Vec<u8>> },
    Table { alignments: Vec<Alignment> },
    TableHead,
    TableRow,
    TableCell,
    BlockQuote,
    CodeBlock { fence: Option<Vec<u8>> },
    List { start: Option<u64> },
    Item,
    Emphasis,
    Strong,
    Strikethrough,
    Link { email: bool, destination: Vec<u8>, title: Vec<u8> },
    Image { destination: Vec<u8>, title: Vec<u8> },
    FootnoteDefinition { name: Vec<u8> },
}

/// One parse event together with the text it carries, if any.
pub enum Event {
    Start(Tag),
    End(Tag),
    Text(Vec<u8>),
    Code(Vec<u8>),
    Html(Vec<u8>),
    SoftBreak,
    HardBreak,
    Rule,
    FootnoteReference(Vec<u8>),
    TaskListMarker(bool),
}

/// Whether the serializer is inside a table's head row-group or inside
/// its body rows; decides header against data cells.
#[derive(Clone, Copy)]
pub enum TableState {
    Head,
    Row,
}

/// A structurally sound span: a genuine half-open range.
pub open spec fn span_ok(sp: Span) -> bool {
    sp.start <= sp.end
}

/// The data-model invariant of a tag: heading levels range over 1 to 6.
pub open spec fn tag_ok(t: Tag) -> bool {
    match t {
        Tag::Heading { level, id } => 1 <= level <= 6,
        _ => true,
    }
}

/// What the upstream parser guarantees of a single event: a sound span,
/// sound tags, a raw span that covers an inline code literal, and offsets
/// that leave room for the text they position (a machine limit).
pub open spec fn event_ok(e: Event, sp: Span) -> bool {
    span_ok(sp) && match e {
        Event::Start(t) => tag_ok(t),
        Event::End(t) => tag_ok(t),
        Event::Text(text) => sp.start + text@.len() <= usize::MAX,
        Event::Code(text) => text@.len() <= sp.end - sp.start,
        Event::SoftBreak => sp.start < usize::MAX,
        _ => true,
    }
}

} // verus!
