//! The two-way mapping between the tags of tokens and the tags of tree nodes.
use crate::ast::{
    ContainerBlockTag, ContainerBlockTagView, ContentInlineTag, ContentInlineTagView, LeafBlockTag,
    LeafBlockTagView, MarkupBlockTag, MarkupBlockTagView, OutOfBandContainerTag,
    OutOfBandContainerTagView, OutOfBandLeafTag, OutOfBandLeafTagView, SurroundingInlineTag,
    SurroundingInlineTagView,
};
use crate::token::{Event, EventView, Tag, TagView};
use vstd::prelude::*;

verus! {

/// A tag of a node of the main tree, with the kind of node that carries it.
#[derive(Debug)]
pub enum ConvertedInbandTag {
    ContainerBlock(ContainerBlockTag),
    LeafBlock(LeafBlockTag),
    MarkupBlock(MarkupBlockTag),
    SurroundingInline(SurroundingInlineTag),
    ContentInline(ContentInlineTag),
}

/// Value of a [`ConvertedInbandTag`].
pub enum ConvertedInbandTagView {
    ContainerBlock(ContainerBlockTagView),
    LeafBlock(LeafBlockTagView),
    MarkupBlock(MarkupBlockTagView),
    SurroundingInline(SurroundingInlineTagView),
    ContentInline(ContentInlineTagView),
}

impl View for ConvertedInbandTag {
    type V = ConvertedInbandTagView;

    open spec fn view(&self) -> ConvertedInbandTagView {
        match *self {
            ConvertedInbandTag::ContainerBlock(t) => ConvertedInbandTagView::ContainerBlock(t@),
            ConvertedInbandTag::LeafBlock(t) => ConvertedInbandTagView::LeafBlock(t@),
            ConvertedInbandTag::MarkupBlock(t) => ConvertedInbandTagView::MarkupBlock(t@),
            ConvertedInbandTag::SurroundingInline(t) => ConvertedInbandTagView::SurroundingInline(
                t@,
            ),
            ConvertedInbandTag::ContentInline(t) => ConvertedInbandTagView::ContentInline(t@),
        }
    }
}

/// A tag of an out-of-band node, with the kind of node that carries it.
#[derive(Debug)]
pub enum ConvertedOutofbandTag {
    OutOfBandContainer(OutOfBandContainerTag),
    OutOfBandLeaf(OutOfBandLeafTag),
}

/// Value of a [`ConvertedOutofbandTag`].
pub enum ConvertedOutofbandTagView {
    OutOfBandContainer(OutOfBandContainerTagView),
    OutOfBandLeaf(OutOfBandLeafTagView),
}

impl View for ConvertedOutofbandTag {
    type V = ConvertedOutofbandTagView;

    open spec fn view(&self) -> ConvertedOutofbandTagView {
        match *self {
            ConvertedOutofbandTag::OutOfBandContainer(t) => {
                ConvertedOutofbandTagView::OutOfBandContainer(t@)
            },
            ConvertedOutofbandTag::OutOfBandLeaf(t) => ConvertedOutofbandTagView::OutOfBandLeaf(t@),
        }
    }
}

/// A tag of a tree node of any kind.
#[derive(Debug)]
pub enum ConvertedTag {
    InBand(ConvertedInbandTag),
    OutOfBand(ConvertedOutofbandTag),
}

/// Value of a [`ConvertedTag`].
pub enum ConvertedTagView {
    InBand(ConvertedInbandTagView),
    OutOfBand(ConvertedOutofbandTagView),
}

impl View for ConvertedTag {
    type V = ConvertedTagView;

    open spec fn view(&self) -> ConvertedTagView {
        match *self {
            ConvertedTag::InBand(t) => ConvertedTagView::InBand(t@),
            ConvertedTag::OutOfBand(t) => ConvertedTagView::OutOfBand(t@),
        }
    }
}

/// The node tag that an opening token's tag stands for. Footnote definitions
/// are out of band; every other tag belongs to the main tree.
pub open spec fn convert_tag_spec(tag: TagView) -> ConvertedTagView {
    match tag {
        TagView::Paragraph => ConvertedTagView::InBand(
            ConvertedInbandTagView::LeafBlock(LeafBlockTagView::Paragraph),
        ),
        TagView::Heading(level) => ConvertedTagView::InBand(
            ConvertedInbandTagView::LeafBlock(LeafBlockTagView::Heading(level)),
        ),
        TagView::BlockQuote => ConvertedTagView::InBand(
            ConvertedInbandTagView::ContainerBlock(ContainerBlockTagView::BlockQuote),
        ),
        TagView::CodeBlock(kind) => ConvertedTagView::InBand(
            ConvertedInbandTagView::LeafBlock(LeafBlockTagView::CodeBlock(kind)),
        ),
        TagView::List(start) => ConvertedTagView::InBand(
            ConvertedInbandTagView::ContainerBlock(ContainerBlockTagView::List(start)),
        ),
        TagView::Item => ConvertedTagView::InBand(
            ConvertedInbandTagView::ContainerBlock(ContainerBlockTagView::ListItem),
        ),
        TagView::FootnoteDefinition(label) => ConvertedTagView::OutOfBand(
            ConvertedOutofbandTagView::OutOfBandContainer(
                OutOfBandContainerTagView::FootNoteDef(label),
            ),
        ),
        TagView::Table(columns) => ConvertedTagView::InBand(
            ConvertedInbandTagView::ContainerBlock(ContainerBlockTagView::Table(columns)),
        ),
        TagView::TableHead => ConvertedTagView::InBand(
            ConvertedInbandTagView::ContainerBlock(ContainerBlockTagView::TableHead),
        ),
        TagView::TableRow => ConvertedTagView::InBand(
            ConvertedInbandTagView::ContainerBlock(ContainerBlockTagView::TableRow),
        ),
        TagView::TableCell => ConvertedTagView::InBand(
            ConvertedInbandTagView::LeafBlock(LeafBlockTagView::TableCell),
        ),
        TagView::Emphasis => ConvertedTagView::InBand(
            ConvertedInbandTagView::SurroundingInline(SurroundingInlineTagView::Emphasis),
        ),
        TagView::Strong => ConvertedTagView::InBand(
            ConvertedInbandTagView::SurroundingInline(SurroundingInlineTagView::Strong),
        ),
        TagView::Strikethrough => ConvertedTagView::InBand(
            ConvertedInbandTagView::SurroundingInline(SurroundingInlineTagView::Strikethrough),
        ),
        TagView::Link(kind, dest, title) => ConvertedTagView::InBand(
            ConvertedInbandTagView::SurroundingInline(
                SurroundingInlineTagView::Link(kind, dest, title),
            ),
        ),
        TagView::Image(kind, dest, title) => ConvertedTagView::InBand(
            ConvertedInbandTagView::SurroundingInline(
                SurroundingInlineTagView::Image(kind, dest, title),
            ),
        ),
    }
}

/// Classifies the tag of an opening token.
pub fn convert_tag(tag: Tag) -> (res: ConvertedTag)
    ensures
        res@ == convert_tag_spec(tag@),
{
    let inband = match tag {
        Tag::Paragraph => ConvertedInbandTag::LeafBlock(LeafBlockTag::Paragraph),
        Tag::Heading(level) => ConvertedInbandTag::LeafBlock(LeafBlockTag::Heading(level)),
        Tag::BlockQuote => ConvertedInbandTag::ContainerBlock(ContainerBlockTag::BlockQuote),
        Tag::CodeBlock(kind) => ConvertedInbandTag::LeafBlock(LeafBlockTag::CodeBlock(kind)),
        Tag::List(start) => ConvertedInbandTag::ContainerBlock(ContainerBlockTag::List(start)),
        Tag::Item => ConvertedInbandTag::ContainerBlock(ContainerBlockTag::ListItem),
        Tag::FootnoteDefinition(label) => {
            return ConvertedTag::OutOfBand(
                ConvertedOutofbandTag::OutOfBandContainer(OutOfBandContainerTag::FootNoteDef(label)),
            );
        },
        Tag::Table(columns) => ConvertedInbandTag::ContainerBlock(
            ContainerBlockTag::Table(columns),
        ),
        Tag::TableHead => ConvertedInbandTag::ContainerBlock(ContainerBlockTag::TableHead),
        Tag::TableRow => ConvertedInbandTag::ContainerBlock(ContainerBlockTag::TableRow),
        Tag::TableCell => ConvertedInbandTag::LeafBlock(LeafBlockTag::TableCell),
        Tag::Emphasis => ConvertedInbandTag::SurroundingInline(SurroundingInlineTag::Emphasis),
        Tag::Strong => ConvertedInbandTag::SurroundingInline(SurroundingInlineTag::Strong),
        Tag::Strikethrough => ConvertedInbandTag::SurroundingInline(
            SurroundingInlineTag::Strikethrough,
        ),
        Tag::Link(kind, dest, title) => ConvertedInbandTag::SurroundingInline(
            SurroundingInlineTag::Link(kind, dest, title),
        ),
        Tag::Image(kind, dest, title) => ConvertedInbandTag::SurroundingInline(
            SurroundingInlineTag::Image(kind, dest, title),
        ),
    };
    ConvertedTag::InBand(inband)
}

/// What a node's tag becomes in a token stream.
#[derive(Debug)]
pub enum UnconvertedTag {
    /// An opening and a closing token around the node's children.
    SpanEvent(Event, Event),
    /// An opening and a closing token with nothing to traverse between them.
    SpanEventWithoutLength(Event, Event),
    /// One token.
    SingleEvent(Event),
    /// No token of its own: only the children's tokens.
    TransparentEvent,
    /// No token form exists for this tag; it carries the tag's name.
    Custom(String),
}

/// Value of an [`UnconvertedTag`].
pub enum UnconvertedTagView {
    SpanEvent(EventView, EventView),
    SpanEventWithoutLength(EventView, EventView),
    SingleEvent(EventView),
    TransparentEvent,
    Custom(Seq<char>),
}

impl View for UnconvertedTag {
    type V = UnconvertedTagView;

    open spec fn view(&self) -> UnconvertedTagView {
        match *self {
            UnconvertedTag::SpanEvent(start, end) => UnconvertedTagView::SpanEvent(start@, end@),
            UnconvertedTag::SpanEventWithoutLength(start, end) => {
                UnconvertedTagView::SpanEventWithoutLength(start@, end@)
            },
            UnconvertedTag::SingleEvent(e) => UnconvertedTagView::SingleEvent(e@),
            UnconvertedTag::TransparentEvent => UnconvertedTagView::TransparentEvent,
            UnconvertedTag::Custom(name) => UnconvertedTagView::Custom(name@),
        }
    }
}

/// The opening and closing tokens of one tag.
pub open spec fn span_of(tag: TagView) -> UnconvertedTagView {
    UnconvertedTagView::SpanEvent(EventView::Start(tag), EventView::End(tag))
}

/// The token form of a container block's tag.
pub open spec fn unconvert_container_spec(tag: ContainerBlockTagView) -> UnconvertedTagView {
    match tag {
        ContainerBlockTagView::BlockQuote => span_of(TagView::BlockQuote),
        ContainerBlockTagView::List(start) => span_of(TagView::List(start)),
        ContainerBlockTagView::ListItem => span_of(TagView::Item),
        ContainerBlockTagView::Table(columns) => span_of(TagView::Table(columns)),
        ContainerBlockTagView::TableHead => span_of(TagView::TableHead),
        ContainerBlockTagView::TableRow => span_of(TagView::TableRow),
        ContainerBlockTagView::Custom(name) => UnconvertedTagView::Custom(name),
    }
}

/// The token form of a leaf block's tag. A block of raw HTML has no tokens of
/// its own: its fragments are its tokens.
pub open spec fn unconvert_leaf_spec(tag: LeafBlockTagView) -> UnconvertedTagView {
    match tag {
        LeafBlockTagView::Paragraph => span_of(TagView::Paragraph),
        LeafBlockTagView::Heading(level) => span_of(TagView::Heading(level)),
        LeafBlockTagView::CodeBlock(kind) => span_of(TagView::CodeBlock(kind)),
        LeafBlockTagView::TableCell => span_of(TagView::TableCell),
        LeafBlockTagView::Html => UnconvertedTagView::TransparentEvent,
        LeafBlockTagView::Custom(name) => UnconvertedTagView::Custom(name),
    }
}

/// The token form of a markup block's tag.
pub open spec fn unconvert_markup_spec(tag: MarkupBlockTagView) -> UnconvertedTagView {
    match tag {
        MarkupBlockTagView::Rule => UnconvertedTagView::SingleEvent(EventView::Rule),
        MarkupBlockTagView::Custom(name) => UnconvertedTagView::Custom(name),
    }
}

/// The token form of a surrounding inline node's tag.
pub open spec fn unconvert_surrounding_spec(tag: SurroundingInlineTagView) -> UnconvertedTagView {
    match tag {
        SurroundingInlineTagView::Emphasis => span_of(TagView::Emphasis),
        SurroundingInlineTagView::Strong => span_of(TagView::Strong),
        SurroundingInlineTagView::Strikethrough => span_of(TagView::Strikethrough),
        SurroundingInlineTagView::Link(kind, dest, title) => span_of(
            TagView::Link(kind, dest, title),
        ),
        SurroundingInlineTagView::Image(kind, dest, title) => span_of(
            TagView::Image(kind, dest, title),
        ),
        SurroundingInlineTagView::Custom(name) => UnconvertedTagView::Custom(name),
    }
}

/// The token form of a content inline node's tag.
pub open spec fn unconvert_content_spec(tag: ContentInlineTagView) -> UnconvertedTagView {
    match tag {
        ContentInlineTagView::Text(span) => UnconvertedTagView::SingleEvent(EventView::Text(span)),
        ContentInlineTagView::Code(span) => UnconvertedTagView::SingleEvent(EventView::Code(span)),
        ContentInlineTagView::RawHtml(span) => UnconvertedTagView::SingleEvent(
            EventView::Html(span),
        ),
        ContentInlineTagView::FootnoteRef(label) => UnconvertedTagView::SingleEvent(
            EventView::FootnoteReference(label),
        ),
        ContentInlineTagView::TaskListMarker(checked) => UnconvertedTagView::SingleEvent(
            EventView::TaskListMarker(checked),
        ),
        ContentInlineTagView::SoftBreak => UnconvertedTagView::SingleEvent(EventView::SoftBreak),
        ContentInlineTagView::HardBreak => UnconvertedTagView::SingleEvent(EventView::HardBreak),
        ContentInlineTagView::Custom(name) => UnconvertedTagView::Custom(name),
    }
}

/// The token form of an out-of-band container's tag.
pub open spec fn unconvert_oob_container_spec(tag: OutOfBandContainerTagView) -> UnconvertedTagView {
    match tag {
        OutOfBandContainerTagView::FootNoteDef(label) => span_of(
            TagView::FootnoteDefinition(label),
        ),
        OutOfBandContainerTagView::Custom(name) => UnconvertedTagView::Custom(name),
    }
}

/// The token form of an out-of-band leaf's tag.
pub open spec fn unconvert_oob_leaf_spec(tag: OutOfBandLeafTagView) -> UnconvertedTagView {
    match tag {
        OutOfBandLeafTagView::Custom(name) => UnconvertedTagView::Custom(name),
    }
}

/// The token form of a node tag of any kind.
pub open spec fn unconvert_tag_spec(tag: ConvertedTagView) -> UnconvertedTagView {
    match tag {
        ConvertedTagView::InBand(ConvertedInbandTagView::ContainerBlock(t)) => {
            unconvert_container_spec(t)
        },
        ConvertedTagView::InBand(ConvertedInbandTagView::LeafBlock(t)) => unconvert_leaf_spec(t),
        ConvertedTagView::InBand(ConvertedInbandTagView::MarkupBlock(t)) => unconvert_markup_spec(
            t,
        ),
        ConvertedTagView::InBand(ConvertedInbandTagView::SurroundingInline(t)) => {
            unconvert_surrounding_spec(t)
        },
        ConvertedTagView::InBand(ConvertedInbandTagView::ContentInline(t)) => {
            unconvert_content_spec(t)
        },
        ConvertedTagView::OutOfBand(ConvertedOutofbandTagView::OutOfBandContainer(t)) => {
            unconvert_oob_container_spec(t)
        },
        ConvertedTagView::OutOfBand(ConvertedOutofbandTagView::OutOfBandLeaf(t)) => {
            unconvert_oob_leaf_spec(t)
        },
    }
}

impl UnconvertedTag {
    /// The opening and the closing token of a tag, around children.
    pub fn new_span_event_with_tag(tag: Tag) -> (res: Self)
        ensures
            res@ == span_of(tag@),
    {
        UnconvertedTag::SpanEvent(Event::Start(tag.clone()), Event::End(tag))
    }

    /// The opening and the closing token of a tag, with nothing between them.
    pub fn new_single_event_with_tag(tag: Tag) -> (res: Self)
        ensures
            res@ == UnconvertedTagView::SpanEventWithoutLength(
                EventView::Start(tag@),
                EventView::End(tag@),
            ),
    {
        UnconvertedTag::SpanEventWithoutLength(Event::Start(tag.clone()), Event::End(tag))
    }

    /// One token.
    pub fn new_single_event(e: Event) -> (res: Self)
        ensures
            res@ == UnconvertedTagView::SingleEvent(e@),
    {
        UnconvertedTag::SingleEvent(e)
    }

    /// No token: the children stand for the node.
    pub fn new_transparent_span_event() -> (res: Self)
        ensures
            res@ == UnconvertedTagView::TransparentEvent,
    {
        UnconvertedTag::TransparentEvent
    }

    /// No token form: the tag's name is kept.
    pub fn new_custom_event(name: String) -> (res: Self)
        ensures
            res@ == UnconvertedTagView::Custom(name@),
    {
        UnconvertedTag::Custom(name)
    }
}

/// Gives the token form of a node's tag.
pub fn unconvert_tag(t: ConvertedTag) -> (res: UnconvertedTag)
    ensures
        res@ == unconvert_tag_spec(t@),
{
    match t {
        ConvertedTag::InBand(t) => match t {
            ConvertedInbandTag::ContainerBlock(t) => match t {
                ContainerBlockTag::BlockQuote => UnconvertedTag::new_span_event_with_tag(
                    Tag::BlockQuote,
                ),
                ContainerBlockTag::List(start) => UnconvertedTag::new_span_event_with_tag(
                    Tag::List(start),
                ),
                ContainerBlockTag::ListItem => UnconvertedTag::new_span_event_with_tag(Tag::Item),
                ContainerBlockTag::Table(columns) => UnconvertedTag::new_span_event_with_tag(
                    Tag::Table(columns),
                ),
                ContainerBlockTag::TableHead => UnconvertedTag::new_span_event_with_tag(
                    Tag::TableHead,
                ),
                ContainerBlockTag::TableRow => UnconvertedTag::new_span_event_with_tag(
                    Tag::TableRow,
                ),
                ContainerBlockTag::Custom(name) => UnconvertedTag::new_custom_event(name),
            },
            ConvertedInbandTag::LeafBlock(t) => match t {
                LeafBlockTag::Paragraph => UnconvertedTag::new_span_event_with_tag(Tag::Paragraph),
                LeafBlockTag::Heading(level) => UnconvertedTag::new_span_event_with_tag(
                    Tag::Heading(level),
                ),
                LeafBlockTag::CodeBlock(kind) => UnconvertedTag::new_span_event_with_tag(
                    Tag::CodeBlock(kind),
                ),
                LeafBlockTag::TableCell => UnconvertedTag::new_span_event_with_tag(Tag::TableCell),
                LeafBlockTag::Html => UnconvertedTag::new_transparent_span_event(),
                LeafBlockTag::Custom(name) => UnconvertedTag::new_custom_event(name),
            },
            ConvertedInbandTag::MarkupBlock(t) => match t {
                MarkupBlockTag::Rule => UnconvertedTag::new_single_event(Event::Rule),
                MarkupBlockTag::Custom(name) => UnconvertedTag::new_custom_event(name),
            },
            ConvertedInbandTag::SurroundingInline(t) => match t {
                SurroundingInlineTag::Emphasis => UnconvertedTag::new_span_event_with_tag(
                    Tag::Emphasis,
                ),
                SurroundingInlineTag::Strong => UnconvertedTag::new_span_event_with_tag(
                    Tag::Strong,
                ),
                SurroundingInlineTag::Strikethrough => UnconvertedTag::new_span_event_with_tag(
                    Tag::Strikethrough,
                ),
                SurroundingInlineTag::Link(kind, dest, title) => {
                    UnconvertedTag::new_span_event_with_tag(Tag::Link(kind, dest, title))
                },
                SurroundingInlineTag::Image(kind, dest, title) => {
                    UnconvertedTag::new_span_event_with_tag(Tag::Image(kind, dest, title))
                },
                SurroundingInlineTag::Custom(name) => UnconvertedTag::new_custom_event(name),
            },
            ConvertedInbandTag::ContentInline(t) => match t {
                ContentInlineTag::Text(span) => UnconvertedTag::new_single_event(
                    Event::Text(span),
                ),
                ContentInlineTag::Code(span) => UnconvertedTag::new_single_event(
                    Event::Code(span),
                ),
                ContentInlineTag::RawHtml(span) => UnconvertedTag::new_single_event(
                    Event::Html(span),
                ),
                ContentInlineTag::FootnoteRef(label) => UnconvertedTag::new_single_event(
                    Event::FootnoteReference(label),
                ),
                ContentInlineTag::TaskListMarker(checked) => UnconvertedTag::new_single_event(
                    Event::TaskListMarker(checked),
                ),
                ContentInlineTag::SoftBreak => UnconvertedTag::new_single_event(Event::SoftBreak),
                ContentInlineTag::HardBreak => UnconvertedTag::new_single_event(Event::HardBreak),
                ContentInlineTag::Custom(name) => UnconvertedTag::new_custom_event(name),
            },
        },
        ConvertedTag::OutOfBand(t) => match t {
            ConvertedOutofbandTag::OutOfBandContainer(t) => match t {
                OutOfBandContainerTag::FootNoteDef(label) => {
                    UnconvertedTag::new_span_event_with_tag(Tag::FootnoteDefinition(label))
                },
                OutOfBandContainerTag::Custom(name) => UnconvertedTag::new_custom_event(name),
            },
            ConvertedOutofbandTag::OutOfBandLeaf(t) => match t {
                OutOfBandLeafTag::Custom(name) => UnconvertedTag::new_custom_event(name),
            },
        },
    }
}

/// Every tag of a token comes back from its node tag as the pair of
/// tokens that open and close it.
pub proof fn lemma_convert_then_unconvert(tag: TagView)
    ensures
        unconvert_tag_spec(convert_tag_spec(tag)) == span_of(tag),
{
}

/// Whether a tag belongs to inline content.
pub open spec fn is_tag_inline(tag: TagView) -> bool {
    match tag {
        TagView::Emphasis
        | TagView::Strong
        | TagView::Strikethrough
        | TagView::Link(_, _, _)
        | TagView::Image(_, _, _) => true,
        _ => false,
    }
}

/// Whether a token belongs to inline content: an inline tag, opening or
/// closing, or any atomic token but a thematic break.
pub open spec fn is_token_inline_spec(e: EventView) -> bool {
    match e {
        EventView::Start(tag) => is_tag_inline(tag),
        EventView::End(tag) => is_tag_inline(tag),
        EventView::Rule => false,
        _ => true,
    }
}

/// Tells inline tokens from block tokens.
pub fn is_token_inline(e: &Event) -> (res: bool)
    ensures
        res == is_token_inline_spec(e@),
{
    match e {
        Event::Start(tag) | Event::End(tag) => match tag {
            Tag::Paragraph
            | Tag::Heading(_)
            | Tag::BlockQuote
            | Tag::CodeBlock(_)
            | Tag::List(_)
            | Tag::Item
            | Tag::FootnoteDefinition(_)
            | Tag::Table(_)
            | Tag::TableHead
            | Tag::TableRow
            | Tag::TableCell => false,
            Tag::Emphasis
            | Tag::Strong
            | Tag::Strikethrough
            | Tag::Link(_, _, _)
            | Tag::Image(_, _, _) => true,
        },
        Event::Text(_)
        | Event::Code(_)
        | Event::Html(_)
        | Event::FootnoteReference(_)
        | Event::SoftBreak
        | Event::HardBreak
        | Event::TaskListMarker(_) => true,
        Event::Rule => false,
    }
}

} // verus!
