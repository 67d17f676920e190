//! Tokens of a markup stream: opening and closing tags and atomic content.
use crate::ast::{
    clone_alignments, same_alignments, Alignment, CodeBlockKind, CodeBlockKindView, LinkType,
};
use vstd::prelude::*;

verus! {

/// A structural tag, as it stands in an opening or a closing token.
#[derive(Debug)]
pub enum Tag {
    Paragraph,
    Heading(u32),
    BlockQuote,
    CodeBlock(CodeBlockKind),
    List(Option<u64>),
    Item,
    FootnoteDefinition(String),
    Table(Vec<Alignment>),
    TableHead,
    TableRow,
    TableCell,
    Emphasis,
    Strong,
    Strikethrough,
    Link(LinkType, String, String),
    Image(LinkType, String, String),
}

/// Value of a [`Tag`].
pub enum TagView {
    Paragraph,
    Heading(u32),
    BlockQuote,
    CodeBlock(CodeBlockKindView),
    List(Option<u64>),
    Item,
    FootnoteDefinition(Seq<char>),
    Table(Seq<Alignment>),
    TableHead,
    TableRow,
    TableCell,
    Emphasis,
    Strong,
    Strikethrough,
    Link(LinkType, Seq<char>, Seq<char>),
    Image(LinkType, Seq<char>, Seq<char>),
}

impl View for Tag {
    type V = TagView;

    open spec fn view(&self) -> TagView {
        match *self {
            Tag::Paragraph => TagView::Paragraph,
            Tag::Heading(level) => TagView::Heading(level),
            Tag::BlockQuote => TagView::BlockQuote,
            Tag::CodeBlock(kind) => TagView::CodeBlock(kind@),
            Tag::List(start) => TagView::List(start),
            Tag::Item => TagView::Item,
            Tag::FootnoteDefinition(label) => TagView::FootnoteDefinition(label@),
            Tag::Table(columns) => TagView::Table(columns@),
            Tag::TableHead => TagView::TableHead,
            Tag::TableRow => TagView::TableRow,
            Tag::TableCell => TagView::TableCell,
            Tag::Emphasis => TagView::Emphasis,
            Tag::Strong => TagView::Strong,
            Tag::Strikethrough => TagView::Strikethrough,
            Tag::Link(kind, dest, title) => TagView::Link(kind, dest@, title@),
            Tag::Image(kind, dest, title) => TagView::Image(kind, dest@, title@),
        }
    }
}

impl Clone for Tag {
    fn clone(&self) -> (res: Self)
        ensures
            res@ == self@,
    {
        match self {
            Tag::Paragraph => Tag::Paragraph,
            Tag::Heading(level) => Tag::Heading(*level),
            Tag::BlockQuote => Tag::BlockQuote,
            Tag::CodeBlock(kind) => Tag::CodeBlock(kind.clone()),
            Tag::List(start) => Tag::List(*start),
            Tag::Item => Tag::Item,
            Tag::FootnoteDefinition(label) => Tag::FootnoteDefinition(label.clone()),
            Tag::Table(columns) => Tag::Table(clone_alignments(columns)),
            Tag::TableHead => Tag::TableHead,
            Tag::TableRow => Tag::TableRow,
            Tag::TableCell => Tag::TableCell,
            Tag::Emphasis => Tag::Emphasis,
            Tag::Strong => Tag::Strong,
            Tag::Strikethrough => Tag::Strikethrough,
            Tag::Link(kind, dest, title) => Tag::Link(*kind, dest.clone(), title.clone()),
            Tag::Image(kind, dest, title) => Tag::Image(*kind, dest.clone(), title.clone()),
        }
    }
}

impl Tag {
    /// Whether two values are the same: the same kind and the same payload.
    pub fn same_as(&self, other: &Tag) -> (res: bool)
        ensures
            res == (self@ == other@),
    {
        match (self, other) {
            (Tag::Paragraph, Tag::Paragraph) => true,
            (Tag::Heading(a), Tag::Heading(b)) => *a == *b,
            (Tag::BlockQuote, Tag::BlockQuote) => true,
            (Tag::CodeBlock(a), Tag::CodeBlock(b)) => a.same_as(b),
            (Tag::List(a), Tag::List(b)) => match (a, b) {
                (None, None) => true,
                (Some(x), Some(y)) => *x == *y,
                _ => false,
            },
            (Tag::Item, Tag::Item) => true,
            (Tag::FootnoteDefinition(a), Tag::FootnoteDefinition(b)) => *a == *b,
            (Tag::Table(a), Tag::Table(b)) => same_alignments(a, b),
            (Tag::TableHead, Tag::TableHead) => true,
            (Tag::TableRow, Tag::TableRow) => true,
            (Tag::TableCell, Tag::TableCell) => true,
            (Tag::Emphasis, Tag::Emphasis) => true,
            (Tag::Strong, Tag::Strong) => true,
            (Tag::Strikethrough, Tag::Strikethrough) => true,
            (Tag::Link(k1, d1, t1), Tag::Link(k2, d2, t2)) => *k1 == *k2 && *d1 == *d2 && *t1
                == *t2,
            (Tag::Image(k1, d1, t1), Tag::Image(k2, d2, t2)) => *k1 == *k2 && *d1 == *d2 && *t1
                == *t2,
            _ => false,
        }
    }
}

impl PartialEq for Tag {
    fn eq(&self, other: &Tag) -> (res: bool) {
        self.same_as(other)
    }
}

impl vstd::std_specs::cmp::PartialEqSpecImpl for Tag {
    open spec fn obeys_eq_spec() -> bool {
        true
    }

    open spec fn eq_spec(&self, other: &Tag) -> bool {
        self@ == other@
    }
}

/// One token of a markup stream.
#[derive(Debug)]
pub enum Event {
    Start(Tag),
    End(Tag),
    Text(String),
    Code(String),
    Html(String),
    FootnoteReference(String),
    SoftBreak,
    HardBreak,
    Rule,
    TaskListMarker(bool),
}

/// Value of an [`Event`].
pub enum EventView {
    Start(TagView),
    End(TagView),
    Text(Seq<char>),
    Code(Seq<char>),
    Html(Seq<char>),
    FootnoteReference(Seq<char>),
    SoftBreak,
    HardBreak,
    Rule,
    TaskListMarker(bool),
}

impl View for Event {
    type V = EventView;

    open spec fn view(&self) -> EventView {
        match *self {
            Event::Start(tag) => EventView::Start(tag@),
            Event::End(tag) => EventView::End(tag@),
            Event::Text(span) => EventView::Text(span@),
            Event::Code(span) => EventView::Code(span@),
            Event::Html(span) => EventView::Html(span@),
            Event::FootnoteReference(label) => EventView::FootnoteReference(label@),
            Event::SoftBreak => EventView::SoftBreak,
            Event::HardBreak => EventView::HardBreak,
            Event::Rule => EventView::Rule,
            Event::TaskListMarker(checked) => EventView::TaskListMarker(checked),
        }
    }
}

impl Clone for Event {
    fn clone(&self) -> (res: Self)
        ensures
            res@ == self@,
    {
        match self {
            Event::Start(tag) => Event::Start(tag.clone()),
            Event::End(tag) => Event::End(tag.clone()),
            Event::Text(span) => Event::Text(span.clone()),
            Event::Code(span) => Event::Code(span.clone()),
            Event::Html(span) => Event::Html(span.clone()),
            Event::FootnoteReference(label) => Event::FootnoteReference(label.clone()),
            Event::SoftBreak => Event::SoftBreak,
            Event::HardBreak => Event::HardBreak,
            Event::Rule => Event::Rule,
            Event::TaskListMarker(checked) => Event::TaskListMarker(*checked),
        }
    }
}

impl Event {
    /// Whether two values are the same: the same kind and the same payload.
    pub fn same_as(&self, other: &Event) -> (res: bool)
        ensures
            res == (self@ == other@),
    {
        match (self, other) {
            (Event::Start(a), Event::Start(b)) => a.same_as(b),
            (Event::End(a), Event::End(b)) => a.same_as(b),
            (Event::Text(a), Event::Text(b)) => *a == *b,
            (Event::Code(a), Event::Code(b)) => *a == *b,
            (Event::Html(a), Event::Html(b)) => *a == *b,
            (Event::FootnoteReference(a), Event::FootnoteReference(b)) => *a == *b,
            (Event::SoftBreak, Event::SoftBreak) => true,
            (Event::HardBreak, Event::HardBreak) => true,
            (Event::Rule, Event::Rule) => true,
            (Event::TaskListMarker(a), Event::TaskListMarker(b)) => *a == *b,
            _ => false,
        }
    }
}

impl PartialEq for Event {
    fn eq(&self, other: &Event) -> (res: bool) {
        self.same_as(other)
    }
}

impl vstd::std_specs::cmp::PartialEqSpecImpl for Event {
    open spec fn obeys_eq_spec() -> bool {
        true
    }

    open spec fn eq_spec(&self, other: &Event) -> bool {
        self@ == other@
    }
}

/// Values of a sequence of tokens, in order.
pub open spec fn events_view(list: Seq<Event>) -> Seq<EventView> {
    list.map_values(|e: Event| e@)
}

} // verus!
