//! Building a document tree from a token stream.
use crate::ast::{
    blocks_view, inlines_view, lemma_blocks_view_push, lemma_container_view,
    lemma_inlines_view_push, lemma_out_of_bands_view_push, lemma_surrounding_view,
    out_of_bands_view, BlockNode, BlockNodeView, ContainerBlockTag, ContainerBlockTagView,
    ContentInlineTag, ContentInlineTagView, Document, DocumentView, InlineNode, InlineNodeView,
    LeafBlockTag, LeafBlockTagView, MarkupBlockTag, MarkupBlockTagView, OutOfBandNode,
    OutOfBandNodeView,
};
use crate::tag::{
    convert_tag, convert_tag_spec, is_token_inline, is_token_inline_spec, ConvertedInbandTag,
    ConvertedInbandTagView, ConvertedOutofbandTag, ConvertedOutofbandTagView, ConvertedTag,
    ConvertedTagView,
};
use crate::token::{events_view, Event, EventView, Tag, TagView};
use vstd::prelude::*;

verus! {

/// The one error of building and of serialising: the token stream is not
/// well formed, or a tag has no token form.
#[derive(Clone, Copy, Debug, PartialEq, Eq, Structural)]
pub struct FromTokensError;

impl FromTokensError {
    /// The error's message.
    pub fn message(&self) -> (res: String)
        ensures
            res@ == "FromTokensError"@,
    {
        "FromTokensError".to_owned()
    }
}

/// Which kind of children the node under construction takes.
#[derive(Clone, Copy, Debug, PartialEq, Eq, Structural)]
pub enum ChildKind {
    Blocks,
    Inlines,
    Nothing,
}

/// What a stretch of tokens contributes: the children it adds to the node
/// under construction, the out-of-band nodes it defines, and the position
/// of the first token after it.
pub struct Loaded {
    pub blocks: Seq<BlockNodeView>,
    pub inlines: Seq<InlineNodeView>,
    pub outofbands: Seq<OutOfBandNodeView>,
    pub next: int,
}

/// Nothing loaded, standing at `next`.
pub open spec fn loaded_nothing(next: int) -> Loaded {
    Loaded { blocks: Seq::empty(), inlines: Seq::empty(), outofbands: Seq::empty(), next }
}

/// One block loaded.
pub open spec fn loaded_block(
    node: BlockNodeView,
    outofbands: Seq<OutOfBandNodeView>,
    next: int,
) -> Loaded {
    Loaded { blocks: seq![node], inlines: Seq::empty(), outofbands, next }
}

/// One inline node loaded.
pub open spec fn loaded_inline(
    node: InlineNodeView,
    outofbands: Seq<OutOfBandNodeView>,
    next: int,
) -> Loaded {
    Loaded { blocks: Seq::empty(), inlines: seq![node], outofbands, next }
}

/// What `first` and then `rest` contribute together; nothing if the rest failed.
pub open spec fn join(first: Loaded, rest: Option<Loaded>) -> Option<Loaded> {
    match rest {
        Some(r) => Some(
            Loaded {
                blocks: first.blocks + r.blocks,
                inlines: first.inlines + r.inlines,
                outofbands: first.outofbands + r.outofbands,
                next: r.next,
            },
        ),
        None => None,
    }
}

/// The position after the balanced region that starts at `pos`: one atomic
/// token, or an opening token with everything up to the token that closes
/// it. `stack` holds the tags that are open. A region cut short by the end
/// of the stream ends there. `None` if a closing token does not match the
/// innermost open tag.
pub open spec fn region_end(ts: Seq<EventView>, pos: int, end: int, stack: Seq<TagView>) -> Option<
    int,
>
    decreases end - pos,
{
    if pos < 0 || pos >= end || end > ts.len() {
        Some(pos)
    } else {
        match ts[pos] {
            EventView::Start(tag) => region_end(ts, pos + 1, end, stack.push(tag)),
            EventView::End(tag) => if stack.len() == 0 || stack.last() != tag {
                None
            } else if stack.len() == 1 {
                Some(pos + 1)
            } else {
                region_end(ts, pos + 1, end, stack.drop_last())
            },
            _ => if stack.len() == 0 {
                Some(pos + 1)
            } else {
                region_end(ts, pos + 1, end, stack)
            },
        }
    }
}

/// The raw HTML fragments that stand in a row from `pos` on, each as a content node.
pub open spec fn html_fragments(ts: Seq<EventView>, pos: int, end: int) -> Seq<InlineNodeView>
    decreases end - pos,
{
    if 0 <= pos < end <= ts.len() {
        match ts[pos] {
            EventView::Html(span) => seq![
                InlineNodeView::Content { tag: ContentInlineTagView::RawHtml(span) },
            ] + html_fragments(ts, pos + 1, end),
            _ => Seq::empty(),
        }
    } else {
        Seq::empty()
    }
}

/// The content node of an atomic inline token, if the token is one.
pub open spec fn content_of(e: EventView) -> Option<ContentInlineTagView> {
    match e {
        EventView::Text(span) => Some(ContentInlineTagView::Text(span)),
        EventView::Code(span) => Some(ContentInlineTagView::Code(span)),
        EventView::Html(span) => Some(ContentInlineTagView::RawHtml(span)),
        EventView::FootnoteReference(label) => Some(ContentInlineTagView::FootnoteRef(label)),
        EventView::SoftBreak => Some(ContentInlineTagView::SoftBreak),
        EventView::HardBreak => Some(ContentInlineTagView::HardBreak),
        EventView::TaskListMarker(checked) => Some(ContentInlineTagView::TaskListMarker(checked)),
        _ => None,
    }
}

/// A paragraph around the inline nodes gathered in a list item, if there are any.
pub open spec fn flushed(pending: Seq<InlineNodeView>) -> Seq<BlockNodeView> {
    if pending.len() == 0 {
        Seq::empty()
    } else {
        seq![BlockNodeView::Leaf { tag: LeafBlockTagView::Paragraph, contents: pending }]
    }
}

/// What the tokens from `pos` up to `end` contribute to a node that takes
/// children of the given kind, read until the token that closes
/// `terminator`, or until `end` where there is no terminator. `None` where
/// the stream is not well formed: a closing token that is not the
/// terminator, the end of the stream before the terminator, content where
/// no inline children are taken, a block where no blocks are taken.
pub open spec fn load_nodes(
    ts: Seq<EventView>,
    pos: int,
    end: int,
    terminator: Option<TagView>,
    kind: ChildKind,
) -> Option<Loaded>
    decreases end - pos, 1int,
{
    if pos < 0 || end > ts.len() {
        None
    } else if pos >= end {
        if terminator is None {
            Some(loaded_nothing(pos))
        } else {
            None
        }
    } else if ts[pos] is End {
        if terminator == Some(ts[pos]->End_0) {
            Some(loaded_nothing(pos + 1))
        } else {
            None
        }
    } else {
        match load_one(ts, pos, end, kind) {
            Some(one) => if pos < one.next <= end {
                join(one, load_nodes(ts, one.next, end, terminator, kind))
            } else {
                None
            },
            None => None,
        }
    }
}

/// What the node that starts at `pos` contributes; the token at `pos` is
/// no closing token. A list item among blocks and a run of raw HTML among
/// blocks are read in their own ways; an out-of-band tag adds no child but
/// an out-of-band node, followed by those found inside it.
pub open spec fn load_one(ts: Seq<EventView>, pos: int, end: int, kind: ChildKind) -> Option<
    Loaded,
>
    decreases end - pos, 0int,
{
    if pos < 0 || pos >= end || end > ts.len() {
        None
    } else if ts[pos] == EventView::Start(TagView::Item) && kind == ChildKind::Blocks {
        match load_item(ts, pos + 1, end, Seq::empty()) {
            Some(item) => Some(
                loaded_block(
                    BlockNodeView::Container {
                        tag: ContainerBlockTagView::ListItem,
                        children: item.blocks,
                    },
                    item.outofbands,
                    item.next,
                ),
            ),
            None => None,
        }
    } else if ts[pos] is Html && kind == ChildKind::Blocks {
        let fragments = html_fragments(ts, pos, end);
        Some(
            loaded_block(
                BlockNodeView::Leaf { tag: LeafBlockTagView::Html, contents: fragments },
                Seq::empty(),
                pos + fragments.len(),
            ),
        )
    } else {
        match ts[pos] {
            EventView::Start(tag) => match convert_tag_spec(tag) {
                ConvertedTagView::InBand(ConvertedInbandTagView::ContainerBlock(t)) => {
                    if kind == ChildKind::Blocks {
                        match load_nodes(ts, pos + 1, end, Some(tag), ChildKind::Blocks) {
                            Some(inner) => Some(
                                loaded_block(
                                    BlockNodeView::Container { tag: t, children: inner.blocks },
                                    inner.outofbands,
                                    inner.next,
                                ),
                            ),
                            None => None,
                        }
                    } else {
                        None
                    }
                },
                ConvertedTagView::InBand(ConvertedInbandTagView::LeafBlock(t)) => {
                    if kind == ChildKind::Blocks {
                        match load_nodes(ts, pos + 1, end, Some(tag), ChildKind::Inlines) {
                            Some(inner) => Some(
                                loaded_block(
                                    BlockNodeView::Leaf { tag: t, contents: inner.inlines },
                                    inner.outofbands,
                                    inner.next,
                                ),
                            ),
                            None => None,
                        }
                    } else {
                        None
                    }
                },
                ConvertedTagView::InBand(ConvertedInbandTagView::SurroundingInline(t)) => {
                    if kind == ChildKind::Inlines {
                        match load_nodes(ts, pos + 1, end, Some(tag), ChildKind::Inlines) {
                            Some(inner) => Some(
                                loaded_inline(
                                    InlineNodeView::Surrounding { tag: t, contents: inner.inlines },
                                    inner.outofbands,
                                    inner.next,
                                ),
                            ),
                            None => None,
                        }
                    } else {
                        None
                    }
                },
                ConvertedTagView::InBand(_) => None,
                ConvertedTagView::OutOfBand(ConvertedOutofbandTagView::OutOfBandContainer(t)) => {
                    match load_nodes(ts, pos + 1, end, Some(tag), ChildKind::Blocks) {
                        Some(inner) => Some(
                            Loaded {
                                blocks: Seq::empty(),
                                inlines: Seq::empty(),
                                outofbands: seq![
                                    OutOfBandNodeView::OutOfBandContainer {
                                        tag: t,
                                        children: inner.blocks,
                                    },
                                ] + inner.outofbands,
                                next: inner.next,
                            },
                        ),
                        None => None,
                    }
                },
                ConvertedTagView::OutOfBand(ConvertedOutofbandTagView::OutOfBandLeaf(t)) => {
                    match load_nodes(ts, pos + 1, end, Some(tag), ChildKind::Inlines) {
                        Some(inner) => Some(
                            Loaded {
                                blocks: Seq::empty(),
                                inlines: Seq::empty(),
                                outofbands: seq![
                                    OutOfBandNodeView::OutOfBandLeaf {
                                        tag: t,
                                        contents: inner.inlines,
                                    },
                                ] + inner.outofbands,
                                next: inner.next,
                            },
                        ),
                        None => None,
                    }
                },
            },
            EventView::End(_) => None,
            EventView::Rule => if kind == ChildKind::Blocks {
                Some(
                    loaded_block(
                        BlockNodeView::Markup { tag: MarkupBlockTagView::Rule },
                        Seq::empty(),
                        pos + 1,
                    ),
                )
            } else {
                None
            },
            other => if kind == ChildKind::Inlines && content_of(other) is Some {
                Some(
                    loaded_inline(
                        InlineNodeView::Content { tag: content_of(other)->0 },
                        Seq::empty(),
                        pos + 1,
                    ),
                )
            } else {
                None
            },
        }
    }
}

/// The children of a list item whose opening token has been read, from
/// `pos` on, with `pending` the inline nodes gathered since the last block.
/// Inline regions are read as inline nodes and gathered; at the first token
/// that is not inline the gathered nodes become one paragraph. The item ends
/// at its closing token; every other block region is read as blocks.
pub open spec fn load_item(
    ts: Seq<EventView>,
    pos: int,
    end: int,
    pending: Seq<InlineNodeView>,
) -> Option<Loaded>
    decreases end - pos, 2int,
{
    if pos < 0 || pos >= end || end > ts.len() {
        None
    } else if is_token_inline_spec(ts[pos]) {
        match region_end(ts, pos, end, Seq::empty()) {
            Some(stop) => if pos < stop <= end {
                match load_nodes(ts, pos, stop, None, ChildKind::Inlines) {
                    Some(inner) => join(
                        Loaded {
                            blocks: Seq::empty(),
                            inlines: Seq::empty(),
                            outofbands: inner.outofbands,
                            next: stop,
                        },
                        load_item(ts, stop, end, pending + inner.inlines),
                    ),
                    None => None,
                }
            } else {
                None
            },
            None => None,
        }
    } else if ts[pos] is End {
        if ts[pos] == EventView::End(TagView::Item) {
            Some(
                Loaded {
                    blocks: flushed(pending),
                    inlines: Seq::empty(),
                    outofbands: Seq::empty(),
                    next: pos + 1,
                },
            )
        } else {
            None
        }
    } else {
        match region_end(ts, pos, end, Seq::empty()) {
            Some(stop) => if pos < stop <= end {
                match load_nodes(ts, pos, stop, None, ChildKind::Blocks) {
                    Some(inner) => join(
                        Loaded {
                            blocks: flushed(pending) + inner.blocks,
                            inlines: Seq::empty(),
                            outofbands: inner.outofbands,
                            next: stop,
                        },
                        load_item(ts, stop, end, Seq::empty()),
                    ),
                    None => None,
                }
            } else {
                None
            },
            None => None,
        }
    }
}

/// The document that a whole token stream stands for, if it is well formed.
pub open spec fn load_document(ts: Seq<EventView>) -> Option<DocumentView> {
    match load_nodes(ts, 0, ts.len() as int, None, ChildKind::Blocks) {
        Some(all) => Some(DocumentView { blocks: all.blocks, outofbands: all.outofbands }),
        None => None,
    }
}

/// The children of the node under construction, by the kind it takes.
#[derive(Debug)]
pub enum InBandContext {
    ChildrenBlocks { blocks: Vec<BlockNode> },
    ChildrenInlines { inlines: Vec<InlineNode> },
    ChildrenNone,
}

impl InBandContext {
    /// The kind of children that the context takes.
    pub open spec fn kind(&self) -> ChildKind {
        match *self {
            InBandContext::ChildrenBlocks { .. } => ChildKind::Blocks,
            InBandContext::ChildrenInlines { .. } => ChildKind::Inlines,
            InBandContext::ChildrenNone => ChildKind::Nothing,
        }
    }

    /// The blocks gathered so far; none where the context takes no blocks.
    pub open spec fn blocks(&self) -> Seq<BlockNodeView> {
        match *self {
            InBandContext::ChildrenBlocks { blocks } => blocks_view(blocks@),
            _ => Seq::empty(),
        }
    }

    /// The inline nodes gathered so far; none where the context takes none.
    pub open spec fn inlines(&self) -> Seq<InlineNodeView> {
        match *self {
            InBandContext::ChildrenInlines { inlines } => inlines_view(inlines@),
            _ => Seq::empty(),
        }
    }

    fn is_blocks(&self) -> (res: bool)
        ensures
            res == (self.kind() == ChildKind::Blocks),
    {
        match self {
            InBandContext::ChildrenBlocks { .. } => true,
            _ => false,
        }
    }

    fn is_inlines(&self) -> (res: bool)
        ensures
            res == (self.kind() == ChildKind::Inlines),
    {
        match self {
            InBandContext::ChildrenInlines { .. } => true,
            _ => false,
        }
    }

    fn push_block(&mut self, node: BlockNode)
        requires
            old(self).kind() == ChildKind::Blocks,
        ensures
            final(self).kind() == ChildKind::Blocks,
            final(self).blocks() == old(self).blocks().push(node@),
            final(self).inlines() == old(self).inlines(),
    {
        match self {
            InBandContext::ChildrenBlocks { blocks } => {
                proof {
                    lemma_blocks_view_push(blocks@, node);
                }
                blocks.push(node);
            },
            _ => {},
        }
    }

    fn push_inline(&mut self, node: InlineNode)
        requires
            old(self).kind() == ChildKind::Inlines,
        ensures
            final(self).kind() == ChildKind::Inlines,
            final(self).inlines() == old(self).inlines().push(node@),
            final(self).blocks() == old(self).blocks(),
    {
        match self {
            InBandContext::ChildrenInlines { inlines } => {
                proof {
                    lemma_inlines_view_push(inlines@, node);
                }
                inlines.push(node);
            },
            _ => {},
        }
    }

    fn into_blocks(self) -> (res: Vec<BlockNode>)
        requires
            self.kind() == ChildKind::Blocks,
        ensures
            blocks_view(res@) == self.blocks(),
    {
        match self {
            InBandContext::ChildrenBlocks { blocks } => blocks,
            _ => Vec::new(),
        }
    }

    fn into_inlines(self) -> (res: Vec<InlineNode>)
        requires
            self.kind() == ChildKind::Inlines,
        ensures
            inlines_view(res@) == self.inlines(),
    {
        match self {
            InBandContext::ChildrenInlines { inlines } => inlines,
            _ => Vec::new(),
        }
    }
}

/// The value of an optional terminator.
pub open spec fn terminator_view(terminator: Option<&Tag>) -> Option<TagView> {
    match terminator {
        Some(tag) => Some(tag@),
        None => None,
    }
}

/// Values of a sequence of tags, in order.
pub open spec fn tags_view(list: Seq<Tag>) -> Seq<TagView> {
    list.map_values(|t: Tag| t@)
}

/// Finds where the balanced region that starts at `start` ends.
pub fn read_token_or_token_region(tokens: &Vec<Event>, start: usize, end: usize) -> (res: Result<
    usize,
    FromTokensError,
>)
    requires
        start <= end <= tokens.len(),
    ensures
        match res {
            Ok(stop) => region_end(events_view(tokens@), start as int, end as int, Seq::empty())
                == Some(stop as int) && start <= stop <= end && (start < end ==> start < stop),
            Err(_) => region_end(events_view(tokens@), start as int, end as int, Seq::empty())
                is None,
        },
{
    let ghost ts = events_view(tokens@);
    let mut stack: Vec<Tag> = Vec::new();
    let mut pos: usize = start;
    proof {
        assert(tags_view(stack@) =~= Seq::empty());
    }
    while pos < end
        invariant
            start <= pos <= end <= tokens.len(),
            ts == events_view(tokens@),
            region_end(ts, start as int, end as int, Seq::empty()) == region_end(
                ts,
                pos as int,
                end as int,
                tags_view(stack@),
            ),
            pos > start ==> stack.len() > 0,
        decreases end - pos,
    {
        let ghost before = tags_view(stack@);
        match &tokens[pos] {
            Event::Start(tag) => {
                let copy = tag.clone();
                proof {
                    assert(tags_view(stack@.push(copy)) =~= before.push(tag@));
                }
                stack.push(copy);
            },
            Event::End(tag) => {
                match stack.pop() {
                    Some(open) => {
                        proof {
                            assert(before.last() == open@);
                            assert(tags_view(stack@) =~= before.drop_last());
                        }
                        if !open.same_as(tag) {
                            return Err(FromTokensError);
                        }
                    },
                    None => {
                        return Err(FromTokensError);
                    },
                }
            },
            _ => {},
        }
        pos += 1;
        if stack.len() == 0 {
            return Ok(pos);
        }
    }
    Ok(pos)
}

/// Gathers the run of raw HTML fragments that starts at `start`.
fn load_html_fragments(tokens: &Vec<Event>, start: usize, end: usize) -> (res: (
    Vec<InlineNode>,
    usize,
))
    requires
        start < end <= tokens.len(),
        tokens@[start as int] is Html,
    ensures
        inlines_view(res.0@) == html_fragments(events_view(tokens@), start as int, end as int),
        res.1 == start + res.0@.len(),
        start < res.1 <= end,
{
    let ghost ts = events_view(tokens@);
    let mut contents: Vec<InlineNode> = Vec::new();
    let mut pos: usize = start;
    proof {
        assert(inlines_view(contents@) =~= Seq::empty());
    }
    while pos < end
        invariant
            start <= pos <= end <= tokens.len(),
            ts == events_view(tokens@),
            pos == start + contents@.len(),
            pos == start ==> tokens@[start as int] is Html,
            html_fragments(ts, start as int, end as int) == inlines_view(contents@)
                + html_fragments(ts, pos as int, end as int),
        decreases end - pos,
    {
        match &tokens[pos] {
            Event::Html(span) => {
                let node = InlineNode::Content { tag: ContentInlineTag::RawHtml(span.clone()) };
                proof {
                    lemma_inlines_view_push(contents@, node);
                    assert(inlines_view(contents@).push(node@) + html_fragments(
                        ts,
                        pos + 1,
                        end as int,
                    ) =~= inlines_view(contents@) + html_fragments(ts, pos as int, end as int));
                }
                contents.push(node);
                pos += 1;
            },
            _ => {
                proof {
                    assert(inlines_view(contents@) + html_fragments(ts, pos as int, end as int)
                        =~= inlines_view(contents@));
                }
                return (contents, pos);
            },
        }
    }
    proof {
        assert(inlines_view(contents@) + html_fragments(ts, pos as int, end as int)
            =~= inlines_view(contents@));
    }
    (contents, pos)
}

/// Whether a context and an out-of-band collector have grown by exactly what was loaded.
pub open spec fn grown_by(
    before: InBandContext,
    after: InBandContext,
    oob_before: Seq<OutOfBandNode>,
    oob_after: Seq<OutOfBandNode>,
    loaded: Loaded,
) -> bool {
    &&& after.kind() == before.kind()
    &&& after.blocks() == before.blocks() + loaded.blocks
    &&& after.inlines() == before.inlines() + loaded.inlines
    &&& out_of_bands_view(oob_after) == out_of_bands_view(oob_before) + loaded.outofbands
}

proof fn lemma_join_join(a: Loaded, b: Loaded, rest: Option<Loaded>)
    ensures
        join(a, join(b, rest)) == join(
            Loaded {
                blocks: a.blocks + b.blocks,
                inlines: a.inlines + b.inlines,
                outofbands: a.outofbands + b.outofbands,
                next: b.next,
            },
            rest,
        ),
{
    if let Some(r) = rest {
        assert(a.blocks + (b.blocks + r.blocks) =~= (a.blocks + b.blocks) + r.blocks);
        assert(a.inlines + (b.inlines + r.inlines) =~= (a.inlines + b.inlines) + r.inlines);
        assert(a.outofbands + (b.outofbands + r.outofbands) =~= (a.outofbands + b.outofbands)
            + r.outofbands);
    }
}

proof fn lemma_out_of_bands_view_add(a: Seq<OutOfBandNode>, b: Seq<OutOfBandNode>)
    ensures
        out_of_bands_view(a + b) == out_of_bands_view(a) + out_of_bands_view(b),
{
    assert(out_of_bands_view(a + b) =~= out_of_bands_view(a) + out_of_bands_view(b));
}

/// Adds an out-of-band node and, after it, those that were found inside it.
fn push_out_of_band(
    outofbands: &mut Vec<OutOfBandNode>,
    node: OutOfBandNode,
    nested: Vec<OutOfBandNode>,
)
    ensures
        out_of_bands_view(final(outofbands)@) == out_of_bands_view(old(outofbands)@) + (seq![
            node@,
        ] + out_of_bands_view(nested@)),
{
    let mut nested = nested;
    proof {
        lemma_out_of_bands_view_push(outofbands@, node);
        lemma_out_of_bands_view_add(outofbands@.push(node), nested@);
        assert(out_of_bands_view(outofbands@).push(node@) + out_of_bands_view(nested@)
            =~= out_of_bands_view(outofbands@) + (seq![node@] + out_of_bands_view(nested@)));
    }
    outofbands.push(node);
    outofbands.append(&mut nested);
}

/// Reads the node that starts at `pos` into the context.
fn load_one_node(
    tokens: &Vec<Event>,
    pos: usize,
    end: usize,
    in_band_ctx: &mut InBandContext,
    outofbands: &mut Vec<OutOfBandNode>,
) -> (res: Result<usize, FromTokensError>)
    requires
        pos < end <= tokens.len(),
    ensures
        match res {
            Ok(next) => {
                let one = load_one(
                    events_view(tokens@),
                    pos as int,
                    end as int,
                    old(in_band_ctx).kind(),
                );
                &&& one is Some
                &&& one->0.next == next
                &&& pos < next <= end
                &&& grown_by(
                    *old(in_band_ctx),
                    *final(in_band_ctx),
                    old(outofbands)@,
                    final(outofbands)@,
                    one->0,
                )
            },
            Err(_) => load_one(
                events_view(tokens@),
                pos as int,
                end as int,
                old(in_band_ctx).kind(),
            ) is None,
        },
    decreases end - pos, 0int,
{
    broadcast use {lemma_container_view, lemma_surrounding_view};

    let ghost ts = events_view(tokens@);
    let ghost ctx0 = *in_band_ctx;
    let ghost oob0 = outofbands@;
    let token = &tokens[pos];
    proof {
        assert(ts[pos as int] == token@);
        assert(ctx0.blocks() + Seq::<BlockNodeView>::empty() =~= ctx0.blocks());
        assert(ctx0.inlines() + Seq::<InlineNodeView>::empty() =~= ctx0.inlines());
        assert(out_of_bands_view(oob0) + Seq::<OutOfBandNodeView>::empty() =~= out_of_bands_view(
            oob0,
        ));
    }
    if in_band_ctx.is_blocks() {
        match token {
            Event::Start(Tag::Item) => {
                match load_list_item(tokens, pos + 1, end, outofbands) {
                    Ok((children, next)) => {
                        let node = BlockNode::Container {
                            tag: ContainerBlockTag::ListItem,
                            children,
                        };
                        in_band_ctx.push_block(node);
                        proof {
                            assert(ctx0.blocks().push(node@) =~= ctx0.blocks() + seq![node@]);
                        }
                        return Ok(next);
                    },
                    Err(e) => {
                        return Err(e);
                    },
                }
            },
            Event::Html(_) => {
                let (contents, next) = load_html_fragments(tokens, pos, end);
                let node = BlockNode::Leaf { tag: LeafBlockTag::Html, contents };
                in_band_ctx.push_block(node);
                proof {
                    assert(ctx0.blocks().push(node@) =~= ctx0.blocks() + seq![node@]);
                }
                return Ok(next);
            },
            _ => {},
        }
    }
    match token {
        Event::Start(tag) => match convert_tag(tag.clone()) {
            ConvertedTag::InBand(in_band_tag) => {
                if in_band_ctx.is_blocks() {
                    match in_band_tag {
                        ConvertedInbandTag::ContainerBlock(t) => {
                            let mut inner = InBandContext::ChildrenBlocks { blocks: Vec::new() };
                            proof {
                                assert(inner.blocks() =~= Seq::empty());
                            }
                            match load_ast_nodes(
                                tokens,
                                pos + 1,
                                end,
                                Some(tag),
                                &mut inner,
                                outofbands,
                            ) {
                                Ok(next) => {
                                    let children = inner.into_blocks();
                                    let node = BlockNode::Container { tag: t, children };
                                    in_band_ctx.push_block(node);
                                    proof {
                                        let l = load_nodes(
                                            ts,
                                            pos + 1,
                                            end as int,
                                            Some(tag@),
                                            ChildKind::Blocks,
                                        )->0;
                                        assert(Seq::<BlockNodeView>::empty() + l.blocks
                                            =~= l.blocks);
                                        assert(ctx0.blocks().push(node@) =~= ctx0.blocks()
                                            + seq![node@]);
                                    }
                                    Ok(next)
                                },
                                Err(e) => Err(e),
                            }
                        },
                        ConvertedInbandTag::LeafBlock(t) => {
                            let mut inner = InBandContext::ChildrenInlines { inlines: Vec::new() };
                            proof {
                                assert(inner.inlines() =~= Seq::empty());
                            }
                            match load_ast_nodes(
                                tokens,
                                pos + 1,
                                end,
                                Some(tag),
                                &mut inner,
                                outofbands,
                            ) {
                                Ok(next) => {
                                    let contents = inner.into_inlines();
                                    let node = BlockNode::Leaf { tag: t, contents };
                                    in_band_ctx.push_block(node);
                                    proof {
                                        let l = load_nodes(
                                            ts,
                                            pos + 1,
                                            end as int,
                                            Some(tag@),
                                            ChildKind::Inlines,
                                        )->0;
                                        assert(Seq::<InlineNodeView>::empty() + l.inlines
                                            =~= l.inlines);
                                        assert(ctx0.blocks().push(node@) =~= ctx0.blocks()
                                            + seq![node@]);
                                    }
                                    Ok(next)
                                },
                                Err(e) => Err(e),
                            }
                        },
                        _ => Err(FromTokensError),
                    }
                } else if in_band_ctx.is_inlines() {
                    match in_band_tag {
                        ConvertedInbandTag::SurroundingInline(t) => {
                            let mut inner = InBandContext::ChildrenInlines { inlines: Vec::new() };
                            proof {
                                assert(inner.inlines() =~= Seq::empty());
                            }
                            match load_ast_nodes(
                                tokens,
                                pos + 1,
                                end,
                                Some(tag),
                                &mut inner,
                                outofbands,
                            ) {
                                Ok(next) => {
                                    let contents = inner.into_inlines();
                                    let node = InlineNode::Surrounding { tag: t, contents };
                                    in_band_ctx.push_inline(node);
                                    proof {
                                        let l = load_nodes(
                                            ts,
                                            pos + 1,
                                            end as int,
                                            Some(tag@),
                                            ChildKind::Inlines,
                                        )->0;
                                        assert(Seq::<InlineNodeView>::empty() + l.inlines
                                            =~= l.inlines);
                                        assert(ctx0.inlines().push(node@) =~= ctx0.inlines()
                                            + seq![node@]);
                                    }
                                    Ok(next)
                                },
                                Err(e) => Err(e),
                            }
                        },
                        _ => Err(FromTokensError),
                    }
                } else {
                    Err(FromTokensError)
                }
            },
            ConvertedTag::OutOfBand(out_of_band_tag) => {
                let mut nested: Vec<OutOfBandNode> = Vec::new();
                proof {
                    assert(out_of_bands_view(nested@) =~= Seq::empty());
                }
                match out_of_band_tag {
                    ConvertedOutofbandTag::OutOfBandContainer(t) => {
                        let mut inner = InBandContext::ChildrenBlocks { blocks: Vec::new() };
                        proof {
                            assert(inner.blocks() =~= Seq::empty());
                        }
                        match load_ast_nodes(
                            tokens,
                            pos + 1,
                            end,
                            Some(tag),
                            &mut inner,
                            &mut nested,
                        ) {
                            Ok(next) => {
                                let children = inner.into_blocks();
                                let node = OutOfBandNode::OutOfBandContainer { tag: t, children };
                                proof {
                                    let l = load_nodes(
                                        ts,
                                        pos + 1,
                                        end as int,
                                        Some(tag@),
                                        ChildKind::Blocks,
                                    )->0;
                                    assert(Seq::<BlockNodeView>::empty() + l.blocks =~= l.blocks);
                                    assert(Seq::<OutOfBandNodeView>::empty() + l.outofbands
                                        =~= l.outofbands);
                                }
                                push_out_of_band(outofbands, node, nested);
                                Ok(next)
                            },
                            Err(e) => Err(e),
                        }
                    },
                    ConvertedOutofbandTag::OutOfBandLeaf(t) => {
                        let mut inner = InBandContext::ChildrenInlines { inlines: Vec::new() };
                        proof {
                            assert(inner.inlines() =~= Seq::empty());
                        }
                        match load_ast_nodes(
                            tokens,
                            pos + 1,
                            end,
                            Some(tag),
                            &mut inner,
                            &mut nested,
                        ) {
                            Ok(next) => {
                                let contents = inner.into_inlines();
                                let node = OutOfBandNode::OutOfBandLeaf { tag: t, contents };
                                proof {
                                    let l = load_nodes(
                                        ts,
                                        pos + 1,
                                        end as int,
                                        Some(tag@),
                                        ChildKind::Inlines,
                                    )->0;
                                    assert(Seq::<InlineNodeView>::empty() + l.inlines
                                        =~= l.inlines);
                                    assert(Seq::<OutOfBandNodeView>::empty() + l.outofbands
                                        =~= l.outofbands);
                                }
                                push_out_of_band(outofbands, node, nested);
                                Ok(next)
                            },
                            Err(e) => Err(e),
                        }
                    },
                }
            },
        },
        Event::End(_) => Err(FromTokensError),
        Event::Rule => {
            if in_band_ctx.is_blocks() {
                let node = BlockNode::Markup { tag: MarkupBlockTag::Rule };
                in_band_ctx.push_block(node);
                proof {
                    assert(ctx0.blocks().push(node@) =~= ctx0.blocks() + seq![node@]);
                }
                Ok(pos + 1)
            } else {
                Err(FromTokensError)
            }
        },
        Event::Text(span) => push_content(in_band_ctx, ContentInlineTag::Text(span.clone()), pos),
        Event::Code(span) => push_content(in_band_ctx, ContentInlineTag::Code(span.clone()), pos),
        Event::Html(span) => push_content(
            in_band_ctx,
            ContentInlineTag::RawHtml(span.clone()),
            pos,
        ),
        Event::FootnoteReference(label) => push_content(
            in_band_ctx,
            ContentInlineTag::FootnoteRef(label.clone()),
            pos,
        ),
        Event::SoftBreak => push_content(in_band_ctx, ContentInlineTag::SoftBreak, pos),
        Event::HardBreak => push_content(in_band_ctx, ContentInlineTag::HardBreak, pos),
        Event::TaskListMarker(checked) => push_content(
            in_band_ctx,
            ContentInlineTag::TaskListMarker(*checked),
            pos,
        ),
    }
}

/// Adds a content node where inline children are taken; fails elsewhere.
fn push_content(in_band_ctx: &mut InBandContext, tag: ContentInlineTag, pos: usize) -> (res: Result<
    usize,
    FromTokensError,
>)
    requires
        pos < usize::MAX,
    ensures
        match res {
            Ok(next) => {
                &&& old(in_band_ctx).kind() == ChildKind::Inlines
                &&& next == pos + 1
                &&& final(in_band_ctx).kind() == ChildKind::Inlines
                &&& final(in_band_ctx).blocks() == old(in_band_ctx).blocks()
                &&& final(in_band_ctx).inlines() == old(in_band_ctx).inlines() + seq![
                    InlineNodeView::Content { tag: tag@ },
                ]
            },
            Err(_) => old(in_band_ctx).kind() != ChildKind::Inlines,
        },
{
    if in_band_ctx.is_inlines() {
        let node = InlineNode::Content { tag };
        proof {
            assert(in_band_ctx.inlines().push(node@) =~= in_band_ctx.inlines() + seq![node@]);
        }
        in_band_ctx.push_inline(node);
        Ok(pos + 1)
    } else {
        Err(FromTokensError)
    }
}

/// Reads the children of a list item whose opening token has been read.
fn load_list_item(
    tokens: &Vec<Event>,
    start: usize,
    end: usize,
    outofbands: &mut Vec<OutOfBandNode>,
) -> (res: Result<(Vec<BlockNode>, usize), FromTokensError>)
    requires
        start <= end <= tokens.len(),
    ensures
        match res {
            Ok((children, next)) => {
                let item = load_item(events_view(tokens@), start as int, end as int, Seq::empty());
                &&& item is Some
                &&& item->0.next == next
                &&& start < next <= end
                &&& blocks_view(children@) == item->0.blocks
                &&& out_of_bands_view(final(outofbands)@) == out_of_bands_view(old(outofbands)@)
                    + item->0.outofbands
            },
            Err(_) => load_item(events_view(tokens@), start as int, end as int, Seq::empty())
                is None,
        },
    decreases end - start, 2int,
{
    let ghost ts = events_view(tokens@);
    let ghost oob0 = outofbands@;
    let mut children: Vec<BlockNode> = Vec::new();
    let mut pending: Vec<InlineNode> = Vec::new();
    let mut pos: usize = start;
    let ghost done = loaded_nothing(start as int);
    proof {
        assert(blocks_view(children@) =~= Seq::empty());
        assert(inlines_view(pending@) =~= Seq::empty());
        assert(out_of_bands_view(oob0) + done.outofbands =~= out_of_bands_view(oob0));
        lemma_join_nothing(start as int, load_item(ts, start as int, end as int, Seq::empty()));
    }
    loop
        invariant
            start <= pos <= end <= tokens.len(),
            ts == events_view(tokens@),
            oob0 == old(outofbands)@,
            done.blocks == blocks_view(children@),
            done.inlines == Seq::<InlineNodeView>::empty(),
            done.next == pos,
            out_of_bands_view(outofbands@) == out_of_bands_view(oob0) + done.outofbands,
            load_item(ts, start as int, end as int, Seq::empty()) == join(
                done,
                load_item(ts, pos as int, end as int, inlines_view(pending@)),
            ),
        decreases end - pos,
    {
        if pos >= end {
            return Err(FromTokensError);
        }
        let token = &tokens[pos];
        let ghost pending0 = inlines_view(pending@);
        proof {
            assert(ts[pos as int] == token@);
        }
        if is_token_inline(token) {
            let stop = match read_token_or_token_region(tokens, pos, end) {
                Ok(stop) => stop,
                Err(e) => {
                    return Err(e);
                },
            };
            let mut inner = InBandContext::ChildrenInlines { inlines: pending };
            match load_ast_nodes(tokens, pos, stop, None, &mut inner, outofbands) {
                Ok(_) => {},
                Err(e) => {
                    return Err(e);
                },
            }
            pending = inner.into_inlines();
            proof {
                let l = load_nodes(ts, pos as int, stop as int, None, ChildKind::Inlines)->0;
                let step = Loaded {
                    blocks: Seq::empty(),
                    inlines: Seq::empty(),
                    outofbands: l.outofbands,
                    next: stop as int,
                };
                let rest = load_item(ts, stop as int, end as int, pending0 + l.inlines);
                lemma_join_join(done, step, rest);
                let both = Loaded {
                    blocks: done.blocks + step.blocks,
                    inlines: done.inlines + step.inlines,
                    outofbands: done.outofbands + step.outofbands,
                    next: stop as int,
                };
                assert(both.blocks =~= done.blocks);
                assert(both.inlines =~= Seq::empty());
                assert(out_of_bands_view(oob0) + both.outofbands =~= (out_of_bands_view(oob0)
                    + done.outofbands) + l.outofbands);
                done = both;
            }
            pos = stop;
        } else {
            let ghost mut flushed_now = Seq::<BlockNodeView>::empty();
            if pending.len() > 0 {
                let paragraph = BlockNode::Leaf { tag: LeafBlockTag::Paragraph, contents: pending };
                proof {
                    lemma_blocks_view_push(children@, paragraph);
                    flushed_now = seq![paragraph@];
                }
                children.push(paragraph);
                pending = Vec::new();
            }
            proof {
                assert(flushed_now == flushed(pending0));
                assert(blocks_view(children@) =~= done.blocks + flushed_now);
                assert(inlines_view(pending@) =~= Seq::empty());
            }
            if let Event::End(tag) = token {
                match tag {
                    Tag::Item => {
                        proof {
                            assert(out_of_bands_view(oob0) + (done.outofbands + Seq::<
                                OutOfBandNodeView,
                            >::empty()) =~= out_of_bands_view(oob0) + done.outofbands);
                            assert(done.inlines + Seq::<InlineNodeView>::empty() =~= done.inlines);
                        }
                        return Ok((children, pos + 1));
                    },
                    _ => {
                        return Err(FromTokensError);
                    },
                }
            }
            let stop = match read_token_or_token_region(tokens, pos, end) {
                Ok(stop) => stop,
                Err(e) => {
                    return Err(e);
                },
            };
            let mut inner = InBandContext::ChildrenBlocks { blocks: children };
            match load_ast_nodes(tokens, pos, stop, None, &mut inner, outofbands) {
                Ok(_) => {},
                Err(e) => {
                    return Err(e);
                },
            }
            children = inner.into_blocks();
            proof {
                let l = load_nodes(ts, pos as int, stop as int, None, ChildKind::Blocks)->0;
                let step = Loaded {
                    blocks: flushed_now + l.blocks,
                    inlines: Seq::empty(),
                    outofbands: l.outofbands,
                    next: stop as int,
                };
                let rest = load_item(ts, stop as int, end as int, Seq::empty());
                lemma_join_join(done, step, rest);
                let both = Loaded {
                    blocks: done.blocks + step.blocks,
                    inlines: done.inlines + step.inlines,
                    outofbands: done.outofbands + step.outofbands,
                    next: stop as int,
                };
                assert(both.blocks =~= (done.blocks + flushed_now) + l.blocks);
                assert(both.inlines =~= Seq::empty());
                assert(out_of_bands_view(oob0) + both.outofbands =~= (out_of_bands_view(oob0)
                    + done.outofbands) + l.outofbands);
                done = both;
            }
            pos = stop;
        }
    }
}

proof fn lemma_join_nothing(at: int, rest: Option<Loaded>)
    ensures
        join(loaded_nothing(at), rest) == rest,
{
    if let Some(r) = rest {
        assert(Seq::<BlockNodeView>::empty() + r.blocks =~= r.blocks);
        assert(Seq::<InlineNodeView>::empty() + r.inlines =~= r.inlines);
        assert(Seq::<OutOfBandNodeView>::empty() + r.outofbands =~= r.outofbands);
    }
}

/// Reads tokens from `start` into the context until the token that closes
/// `terminator`, or until `end` where there is no terminator.
pub fn load_ast_nodes(
    tokens: &Vec<Event>,
    start: usize,
    end: usize,
    terminator: Option<&Tag>,
    in_band_ctx: &mut InBandContext,
    outofbands: &mut Vec<OutOfBandNode>,
) -> (res: Result<usize, FromTokensError>)
    requires
        start <= end <= tokens.len(),
    ensures
        match res {
            Ok(next) => {
                let all = load_nodes(
                    events_view(tokens@),
                    start as int,
                    end as int,
                    terminator_view(terminator),
                    old(in_band_ctx).kind(),
                );
                &&& all is Some
                &&& all->0.next == next
                &&& start <= next <= end
                &&& grown_by(
                    *old(in_band_ctx),
                    *final(in_band_ctx),
                    old(outofbands)@,
                    final(outofbands)@,
                    all->0,
                )
            },
            Err(_) => load_nodes(
                events_view(tokens@),
                start as int,
                end as int,
                terminator_view(terminator),
                old(in_band_ctx).kind(),
            ) is None,
        },
    decreases end - start, 1int,
{
    let ghost ts = events_view(tokens@);
    let ghost ctx0 = *in_band_ctx;
    let ghost oob0 = outofbands@;
    let ghost kind = in_band_ctx.kind();
    let ghost term = terminator_view(terminator);
    let mut pos: usize = start;
    let ghost done = loaded_nothing(start as int);
    proof {
        assert(ctx0.blocks() + done.blocks =~= ctx0.blocks());
        assert(ctx0.inlines() + done.inlines =~= ctx0.inlines());
        assert(out_of_bands_view(oob0) + done.outofbands =~= out_of_bands_view(oob0));
        lemma_join_nothing(start as int, load_nodes(ts, start as int, end as int, term, kind));
    }
    loop
        invariant
            start <= pos <= end <= tokens.len(),
            ts == events_view(tokens@),
            term == terminator_view(terminator),
            ctx0 == *old(in_band_ctx),
            oob0 == old(outofbands)@,
            kind == ctx0.kind(),
            done.next == pos,
            grown_by(ctx0, *in_band_ctx, oob0, outofbands@, done),
            load_nodes(ts, start as int, end as int, term, kind) == join(
                done,
                load_nodes(ts, pos as int, end as int, term, kind),
            ),
        decreases end - pos,
    {
        if pos >= end {
            proof {
                lemma_join_nothing_right(done, pos as int);
            }
            if terminator.is_none() {
                return Ok(pos);
            } else {
                return Err(FromTokensError);
            }
        }
        proof {
            assert(ts[pos as int] == tokens@[pos as int]@);
        }
        if let Event::End(tag) = &tokens[pos] {
            proof {
                lemma_join_nothing_right(done, pos + 1);
            }
            match terminator {
                Some(expected) => {
                    if expected.same_as(tag) {
                        return Ok(pos + 1);
                    } else {
                        return Err(FromTokensError);
                    }
                },
                None => {
                    return Err(FromTokensError);
                },
            }
        }
        match load_one_node(tokens, pos, end, in_band_ctx, outofbands) {
            Ok(next) => {
                proof {
                    let one = load_one(ts, pos as int, end as int, kind)->0;
                    let rest = load_nodes(ts, next as int, end as int, term, kind);
                    lemma_join_join(done, one, rest);
                    let both = Loaded {
                        blocks: done.blocks + one.blocks,
                        inlines: done.inlines + one.inlines,
                        outofbands: done.outofbands + one.outofbands,
                        next: next as int,
                    };
                    assert(ctx0.blocks() + both.blocks =~= (ctx0.blocks() + done.blocks)
                        + one.blocks);
                    assert(ctx0.inlines() + both.inlines =~= (ctx0.inlines() + done.inlines)
                        + one.inlines);
                    assert(out_of_bands_view(oob0) + both.outofbands =~= (out_of_bands_view(oob0)
                        + done.outofbands) + one.outofbands);
                    done = both;
                }
                pos = next;
            },
            Err(e) => {
                return Err(e);
            },
        }
    }
}

proof fn lemma_join_nothing_right(first: Loaded, at: int)
    ensures
        join(first, Some(loaded_nothing(at))) == Some(
            Loaded {
                blocks: first.blocks,
                inlines: first.inlines,
                outofbands: first.outofbands,
                next: at,
            },
        ),
{
    assert(first.blocks + Seq::<BlockNodeView>::empty() =~= first.blocks);
    assert(first.inlines + Seq::<InlineNodeView>::empty() =~= first.inlines);
    assert(first.outofbands + Seq::<OutOfBandNodeView>::empty() =~= first.outofbands);
}

/// Builds the document that a token stream stands for. Fails, with no
/// document, exactly when the stream is not well formed.
pub fn cmark_ast_from_tokens(tokens: Vec<Event>) -> (res: Result<Document, FromTokensError>)
    ensures
        match res {
            Ok(doc) => load_document(events_view(tokens@)) == Some(doc@),
            Err(_) => load_document(events_view(tokens@)) is None,
        },
{
    let mut in_band_ctx = InBandContext::ChildrenBlocks { blocks: Vec::new() };
    let mut outofbands: Vec<OutOfBandNode> = Vec::new();
    proof {
        assert(in_band_ctx.blocks() =~= Seq::empty());
        assert(out_of_bands_view(outofbands@) =~= Seq::empty());
    }
    match load_ast_nodes(&tokens, 0, tokens.len(), None, &mut in_band_ctx, &mut outofbands) {
        Ok(_) => {
            let blocks = in_band_ctx.into_blocks();
            proof {
                let all = load_nodes(
                    events_view(tokens@),
                    0,
                    tokens@.len() as int,
                    None,
                    ChildKind::Blocks,
                )->0;
                assert(Seq::<BlockNodeView>::empty() + all.blocks =~= all.blocks);
                assert(Seq::<OutOfBandNodeView>::empty() + all.outofbands =~= all.outofbands);
            }
            Ok(Document { blocks, outofbands })
        },
        Err(e) => Err(e),
    }
}

} // verus!
