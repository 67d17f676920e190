//! From tokens to a tree and back: when the tokens come back as they were.
use crate::ast::{
    BlockNodeView, ContainerBlockTagView, ContentInlineTagView, InlineNodeView, LeafBlockTagView,
    MarkupBlockTagView, OutOfBandNodeView,
};
use crate::from_tokens::{
    content_of, flushed, html_fragments, join, load_document, load_item, load_nodes, load_one,
    region_end, ChildKind, Loaded,
};
use crate::into_tokens::{
    block_piece, block_pieces, document_steps, inline_piece, inline_pieces, lemma_block_pieces,
    lemma_inline_pieces, lemma_pieces_steps_add, lemma_pieces_steps_one, out_of_band_piece,
    out_of_band_pieces, piece_steps, pieces_steps, steps_tokens, Piece, Step,
};
use crate::tag::{
    convert_tag_spec, is_token_inline_spec, lemma_convert_then_unconvert,
    ConvertedInbandTagView, ConvertedOutofbandTagView, ConvertedTagView,
};
use crate::token::{EventView, TagView};
use crate::well_formed::{
    lemma_loaded_nodes_close, lemma_loaded_one_closes, lemma_open_tags_split, open_tags,
    with_terminator,
};
use vstd::prelude::*;

verus! {

/// The tags that are open where token `i` stands.
pub open spec fn open_at(ts: Seq<EventView>, i: int) -> Option<Seq<TagView>> {
    open_tags(ts, 0, i, Seq::empty())
}

/// Whether token `i` starts inline content directly in a list item. The
/// builder puts such content in a paragraph that the stream does not hold.
pub open spec fn inline_in_item(ts: Seq<EventView>, i: int) -> bool {
    &&& is_token_inline_spec(ts[i])
    &&& !(ts[i] is End)
    &&& open_at(ts, i) is Some
    &&& open_at(ts, i)->0.len() > 0
    &&& open_at(ts, i)->0.last() == TagView::Item
}

/// Whether a token opens an out-of-band node.
pub open spec fn opens_out_of_band(e: EventView) -> bool {
    e is Start && convert_tag_spec(e->Start_0) is OutOfBand
}

/// Whether nothing is open where token `i` stands.
pub open spec fn at_top(ts: Seq<EventView>, i: int) -> bool {
    open_at(ts, i) == Some(Seq::<TagView>::empty())
}

/// Whether the stream holds its content where the tree will hold it: no
/// inline content directly in a list item, every out-of-band node opened
/// with nothing else open, and no main block after the first of them.
pub open spec fn in_tree_order(ts: Seq<EventView>) -> bool {
    &&& forall|i: int| 0 <= i < ts.len() ==> !#[trigger] inline_in_item(ts, i)
    &&& forall|i: int| 0 <= i < ts.len() && opens_out_of_band(#[trigger] ts[i]) ==> at_top(ts, i)
    &&& forall|i: int, j: int|
        0 <= i < j < ts.len() && opens_out_of_band(#[trigger] ts[i]) && #[trigger] at_top(ts, j)
            && !(ts[j] is End) ==> opens_out_of_band(ts[j])
}

/// A token as a step, for each token.
pub open spec fn as_steps(tokens: Seq<EventView>) -> Seq<Step> {
    tokens.map_values(|e: EventView| Step::Token(e))
}

/// The step that closes the terminator, if there is one.
pub open spec fn closing(terminator: Option<TagView>) -> Seq<Step> {
    match terminator {
        Some(tag) => seq![Step::Token(EventView::End(tag))],
        None => Seq::empty(),
    }
}

/// The steps of serialising what was loaded: blocks, inline nodes, out-of-band nodes.
pub open spec fn loaded_steps(l: Loaded) -> Seq<Step> {
    pieces_steps(block_pieces(l.blocks)) + pieces_steps(inline_pieces(l.inlines)) + pieces_steps(
        out_of_band_pieces(l.outofbands),
    )
}

proof fn lemma_as_steps_split(ts: Seq<EventView>, a: int, b: int, c: int)
    requires
        0 <= a <= b <= c <= ts.len(),
    ensures
        as_steps(ts.subrange(a, c)) == as_steps(ts.subrange(a, b)) + as_steps(ts.subrange(b, c)),
{
    assert(as_steps(ts.subrange(a, c)) =~= as_steps(ts.subrange(a, b)) + as_steps(
        ts.subrange(b, c),
    ));
}

proof fn lemma_as_steps_one(ts: Seq<EventView>, a: int)
    requires
        0 <= a < ts.len(),
    ensures
        as_steps(ts.subrange(a, a + 1)) == seq![Step::Token(ts[a])],
        as_steps(ts.subrange(a, a)) == Seq::<Step>::empty(),
{
    assert(as_steps(ts.subrange(a, a + 1)) =~= seq![Step::Token(ts[a])]);
    assert(as_steps(ts.subrange(a, a)) =~= Seq::<Step>::empty());
}

proof fn lemma_no_pieces()
    ensures
        pieces_steps(Seq::<Piece>::empty()) == Seq::<Step>::empty(),
        block_pieces(Seq::<BlockNodeView>::empty()) == Seq::<Piece>::empty(),
        inline_pieces(Seq::<InlineNodeView>::empty()) == Seq::<Piece>::empty(),
        out_of_band_pieces(Seq::<OutOfBandNodeView>::empty()) == Seq::<Piece>::empty(),
{
    assert(out_of_band_pieces(Seq::<OutOfBandNodeView>::empty()) =~= Seq::<Piece>::empty());
}

proof fn lemma_block_pieces_add(a: Seq<BlockNodeView>, b: Seq<BlockNodeView>)
    ensures
        pieces_steps(block_pieces(a + b)) == pieces_steps(block_pieces(a)) + pieces_steps(
            block_pieces(b),
        ),
{
    lemma_block_pieces(a + b);
    lemma_block_pieces(a);
    lemma_block_pieces(b);
    assert(block_pieces(a + b) =~= block_pieces(a) + block_pieces(b));
    lemma_pieces_steps_add(block_pieces(a), block_pieces(b));
}

proof fn lemma_inline_pieces_add(a: Seq<InlineNodeView>, b: Seq<InlineNodeView>)
    ensures
        pieces_steps(inline_pieces(a + b)) == pieces_steps(inline_pieces(a)) + pieces_steps(
            inline_pieces(b),
        ),
{
    lemma_inline_pieces(a + b);
    lemma_inline_pieces(a);
    lemma_inline_pieces(b);
    assert(inline_pieces(a + b) =~= inline_pieces(a) + inline_pieces(b));
    lemma_pieces_steps_add(inline_pieces(a), inline_pieces(b));
}

proof fn lemma_out_of_band_pieces_add(a: Seq<OutOfBandNodeView>, b: Seq<OutOfBandNodeView>)
    ensures
        pieces_steps(out_of_band_pieces(a + b)) == pieces_steps(out_of_band_pieces(a))
            + pieces_steps(out_of_band_pieces(b)),
{
    assert(out_of_band_pieces(a + b) =~= out_of_band_pieces(a) + out_of_band_pieces(b));
    lemma_pieces_steps_add(out_of_band_pieces(a), out_of_band_pieces(b));
}

proof fn lemma_one_block_steps(node: BlockNodeView)
    ensures
        pieces_steps(block_pieces(seq![node])) == piece_steps(block_piece(node)),
{
    lemma_block_pieces(seq![node]);
    assert(block_pieces(seq![node]) =~= seq![block_piece(node)]);
    lemma_pieces_steps_one(block_piece(node));
}

proof fn lemma_one_inline_steps(node: InlineNodeView)
    ensures
        pieces_steps(inline_pieces(seq![node])) == piece_steps(inline_piece(node)),
{
    lemma_inline_pieces(seq![node]);
    assert(inline_pieces(seq![node]) =~= seq![inline_piece(node)]);
    lemma_pieces_steps_one(inline_piece(node));
}

proof fn lemma_one_out_of_band_steps(node: OutOfBandNodeView)
    ensures
        pieces_steps(out_of_band_pieces(seq![node])) == piece_steps(out_of_band_piece(node)),
{
    assert(out_of_band_pieces(seq![node]) =~= seq![out_of_band_piece(node)]);
    lemma_pieces_steps_one(out_of_band_piece(node));
}

/// A run of raw HTML fragments serialises to the tokens it was read from.
proof fn lemma_html_fragments_steps(ts: Seq<EventView>, pos: int, end: int)
    requires
        0 <= pos <= end <= ts.len(),
    ensures
        pos + html_fragments(ts, pos, end).len() <= end,
        pieces_steps(inline_pieces(html_fragments(ts, pos, end))) == as_steps(
            ts.subrange(pos, pos + html_fragments(ts, pos, end).len()),
        ),
    decreases end - pos,
{
    lemma_no_pieces();
    if pos < end && ts[pos] is Html {
        let span = ts[pos]->Html_0;
        let node = InlineNodeView::Content { tag: ContentInlineTagView::RawHtml(span) };
        let rest = html_fragments(ts, pos + 1, end);
        lemma_html_fragments_steps(ts, pos + 1, end);
        lemma_inline_pieces_add(seq![node], rest);
        lemma_one_inline_steps(node);
        lemma_as_steps_one(ts, pos);
        lemma_as_steps_split(ts, pos, pos + 1, pos + 1 + rest.len());
    } else {
        assert(as_steps(ts.subrange(pos, pos)) =~= Seq::<Step>::empty());
    }
}

proof fn lemma_open_at_next(ts: Seq<EventView>, pos: int, next: int, stack: Seq<TagView>)
    requires
        0 <= pos <= next <= ts.len(),
        open_at(ts, pos) == Some(stack),
    ensures
        open_at(ts, next) == open_tags(ts, pos, next, stack),
{
    lemma_open_tags_split(ts, 0, pos, next, Seq::empty());
}

proof fn lemma_open_after_start(ts: Seq<EventView>, pos: int, stack: Seq<TagView>)
    requires
        0 <= pos < ts.len(),
        ts[pos] is Start,
        open_at(ts, pos) == Some(stack),
    ensures
        open_at(ts, pos + 1) == Some(stack.push(ts[pos]->Start_0)),
{
    lemma_open_at_next(ts, pos, pos + 1, stack);
    assert(open_tags(ts, pos + 1, pos + 1, stack.push(ts[pos]->Start_0)) == Some(
        stack.push(ts[pos]->Start_0),
    ));
}

/// The steps of two loads in a row are the steps of the first, then those
/// of the second, where the first adds no out-of-band node before a block
/// of the second.
proof fn lemma_joined_steps(one: Loaded, rest: Loaded, c: Seq<Step>)
    requires
        one.inlines.len() == 0 && rest.inlines.len() == 0 && (one.outofbands.len() == 0
            || rest.blocks.len() == 0) || one.blocks.len() == 0 && rest.blocks.len() == 0
            && one.outofbands.len() == 0,
    ensures
        loaded_steps(join(one, Some(rest))->0) + c == loaded_steps(one) + (loaded_steps(rest) + c),
{
    lemma_no_pieces();
    lemma_block_pieces_add(one.blocks, rest.blocks);
    lemma_inline_pieces_add(one.inlines, rest.inlines);
    lemma_out_of_band_pieces_add(one.outofbands, rest.outofbands);
    let b1 = pieces_steps(block_pieces(one.blocks));
    let b2 = pieces_steps(block_pieces(rest.blocks));
    let i1 = pieces_steps(inline_pieces(one.inlines));
    let i2 = pieces_steps(inline_pieces(rest.inlines));
    let o1 = pieces_steps(out_of_band_pieces(one.outofbands));
    let o2 = pieces_steps(out_of_band_pieces(rest.outofbands));
    let none = Seq::<Step>::empty();
    if one.inlines.len() == 0 && rest.inlines.len() == 0 {
        assert(one.inlines =~= Seq::<InlineNodeView>::empty());
        assert(rest.inlines =~= Seq::<InlineNodeView>::empty());
        assert(i1 == none && i2 == none);
        if one.outofbands.len() == 0 {
            assert(one.outofbands =~= Seq::<OutOfBandNodeView>::empty());
            assert(o1 == none);
            assert(((b1 + b2) + (none + none) + (none + o2)) + c =~= (b1 + none + none) + ((b2
                + none + o2) + c));
        } else {
            assert(rest.blocks =~= Seq::<BlockNodeView>::empty());
            assert(b2 == none);
            assert(((b1 + none) + (none + none) + (o1 + o2)) + c =~= (b1 + none + o1) + ((none
                + none + o2) + c));
        }
    } else {
        assert(one.blocks =~= Seq::<BlockNodeView>::empty());
        assert(rest.blocks =~= Seq::<BlockNodeView>::empty());
        assert(one.outofbands =~= Seq::<OutOfBandNodeView>::empty());
        assert(b1 == none && b2 == none && o1 == none);
        assert(((none + none) + (i1 + i2) + (none + o2)) + c =~= (none + i1 + none) + ((none + i2
            + o2) + c));
    }
}

/// Once an out-of-band node has been opened, the rest of a stream in tree
/// order adds no main block.
proof fn lemma_only_out_of_band_follows(ts: Seq<EventView>, seen: int, pos: int, end: int)
    requires
        0 <= seen < pos <= end <= ts.len(),
        in_tree_order(ts),
        opens_out_of_band(ts[seen]),
        at_top(ts, pos),
        load_nodes(ts, pos, end, None, ChildKind::Blocks) is Some,
    ensures
        load_nodes(ts, pos, end, None, ChildKind::Blocks)->0.blocks.len() == 0,
    decreases end - pos,
{
    if pos < end {
        let one = load_one(ts, pos, end, ChildKind::Blocks)->0;
        assert(opens_out_of_band(ts[pos]));
        lemma_loaded_one_closes(ts, pos, end, ChildKind::Blocks, Seq::empty());
        lemma_open_at_next(ts, pos, one.next, Seq::empty());
        lemma_only_out_of_band_follows(ts, seen, one.next, end);
        let rest = load_nodes(ts, one.next, end, None, ChildKind::Blocks)->0;
        assert(one.blocks + rest.blocks =~= Seq::<BlockNodeView>::empty());
    }
}

/// What the builder read up to a terminator serialises to the tokens it
/// was read from, in a stream that is in tree order.
proof fn lemma_nodes_come_back(
    ts: Seq<EventView>,
    pos: int,
    end: int,
    terminator: Option<TagView>,
    kind: ChildKind,
    stack: Seq<TagView>,
)
    requires
        0 <= pos <= end <= ts.len(),
        in_tree_order(ts),
        open_at(ts, pos) == Some(with_terminator(stack, terminator)),
        with_terminator(stack, terminator).len() == 0 ==> kind == ChildKind::Blocks,
        load_nodes(ts, pos, end, terminator, kind) is Some,
    ensures
        ({
            let l = load_nodes(ts, pos, end, terminator, kind)->0;
            &&& pos <= l.next <= end
            &&& kind != ChildKind::Blocks ==> l.blocks.len() == 0
            &&& kind != ChildKind::Inlines ==> l.inlines.len() == 0
            &&& with_terminator(stack, terminator).len() > 0 ==> l.outofbands.len() == 0
            &&& as_steps(ts.subrange(pos, l.next)) == loaded_steps(l) + closing(terminator)
        }),
    decreases end - pos, 1int,
{
    lemma_no_pieces();
    let l = load_nodes(ts, pos, end, terminator, kind)->0;
    let full = with_terminator(stack, terminator);
    if pos >= end {
        assert(as_steps(ts.subrange(pos, pos)) =~= Seq::<Step>::empty());
        assert(loaded_steps(l) + closing(terminator) =~= Seq::<Step>::empty());
    } else if ts[pos] is End {
        lemma_as_steps_one(ts, pos);
        assert(loaded_steps(l) + closing(terminator) =~= closing(terminator));
    } else {
        let one = load_one(ts, pos, end, kind)->0;
        lemma_one_comes_back(ts, pos, end, kind, full);
        lemma_loaded_one_closes(ts, pos, end, kind, full);
        lemma_open_at_next(ts, pos, one.next, full);
        lemma_nodes_come_back(ts, one.next, end, terminator, kind, stack);
        let rest = load_nodes(ts, one.next, end, terminator, kind)->0;
        lemma_as_steps_split(ts, pos, one.next, rest.next);
        if one.outofbands.len() > 0 {
            assert(at_top(ts, pos));
            if one.next < end {
                lemma_only_out_of_band_follows(ts, pos, one.next, end);
            }
        }
        lemma_joined_steps(one, rest, closing(terminator));
    }
}

/// What the builder read as one node serialises to the tokens it was read from.
proof fn lemma_one_comes_back(
    ts: Seq<EventView>,
    pos: int,
    end: int,
    kind: ChildKind,
    stack: Seq<TagView>,
)
    requires
        0 <= pos < end <= ts.len(),
        in_tree_order(ts),
        open_at(ts, pos) == Some(stack),
        stack.len() == 0 ==> kind == ChildKind::Blocks,
        load_one(ts, pos, end, kind) is Some,
    ensures
        ({
            let one = load_one(ts, pos, end, kind)->0;
            &&& pos < one.next <= end
            &&& kind != ChildKind::Blocks ==> one.blocks.len() == 0
            &&& kind != ChildKind::Inlines ==> one.inlines.len() == 0
            &&& stack.len() > 0 ==> one.outofbands.len() == 0
            &&& one.outofbands.len() > 0 ==> opens_out_of_band(ts[pos]) && one.blocks.len() == 0
                && one.inlines.len() == 0
            &&& as_steps(ts.subrange(pos, one.next)) == loaded_steps(one)
        }),
    decreases end - pos, 0int,
{
    lemma_no_pieces();
    let one = load_one(ts, pos, end, kind)->0;
    lemma_loaded_one_closes(ts, pos, end, kind, stack);
    lemma_as_steps_one(ts, pos);
    lemma_as_steps_split(ts, pos, pos + 1, one.next);
    if ts[pos] == EventView::Start(TagView::Item) && kind == ChildKind::Blocks {
        let item = load_item(ts, pos + 1, end, Seq::empty())->0;
        lemma_open_after_start(ts, pos, stack);
        lemma_item_comes_back(ts, pos + 1, end, stack);
        let node = BlockNodeView::Container {
            tag: ContainerBlockTagView::ListItem,
            children: item.blocks,
        };
        lemma_one_block_steps(node);
        assert(loaded_steps(one) =~= piece_steps(block_piece(node)));
    } else if ts[pos] is Html && kind == ChildKind::Blocks {
        let fragments = html_fragments(ts, pos, end);
        lemma_html_fragments_steps(ts, pos, end);
        let node = BlockNodeView::Leaf { tag: LeafBlockTagView::Html, contents: fragments };
        lemma_one_block_steps(node);
        assert(loaded_steps(one) =~= piece_steps(block_piece(node)));
    } else {
        match ts[pos] {
            EventView::Start(tag) => {
                lemma_convert_then_unconvert(tag);
                lemma_open_after_start(ts, pos, stack);
                let start = seq![Step::Token(EventView::Start(tag))];
                let close = seq![Step::Token(EventView::End(tag))];
                match convert_tag_spec(tag) {
                    ConvertedTagView::InBand(ConvertedInbandTagView::ContainerBlock(t)) => {
                        let inner = load_nodes(ts, pos + 1, end, Some(tag), ChildKind::Blocks)->0;
                        lemma_nodes_come_back(ts, pos + 1, end, Some(tag), ChildKind::Blocks, stack);
                        let node = BlockNodeView::Container { tag: t, children: inner.blocks };
                        lemma_one_block_steps(node);
                        assert(inner.inlines =~= Seq::<InlineNodeView>::empty());
                        assert(inner.outofbands =~= Seq::<OutOfBandNodeView>::empty());
                        assert(loaded_steps(inner) =~= pieces_steps(block_pieces(inner.blocks)));
                        assert(loaded_steps(one) =~= piece_steps(block_piece(node)));
                        assert(start + (loaded_steps(inner) + close) =~= start + loaded_steps(
                            inner,
                        ) + close);
                    },
                    ConvertedTagView::InBand(ConvertedInbandTagView::LeafBlock(t)) => {
                        let inner = load_nodes(ts, pos + 1, end, Some(tag), ChildKind::Inlines)->0;
                        lemma_nodes_come_back(
                            ts,
                            pos + 1,
                            end,
                            Some(tag),
                            ChildKind::Inlines,
                            stack,
                        );
                        let node = BlockNodeView::Leaf { tag: t, contents: inner.inlines };
                        lemma_one_block_steps(node);
                        assert(inner.blocks =~= Seq::<BlockNodeView>::empty());
                        assert(inner.outofbands =~= Seq::<OutOfBandNodeView>::empty());
                        assert(loaded_steps(inner) =~= pieces_steps(inline_pieces(inner.inlines)));
                        assert(loaded_steps(one) =~= piece_steps(block_piece(node)));
                        assert(start + (loaded_steps(inner) + close) =~= start + loaded_steps(
                            inner,
                        ) + close);
                    },
                    ConvertedTagView::InBand(ConvertedInbandTagView::SurroundingInline(t)) => {
                        let inner = load_nodes(ts, pos + 1, end, Some(tag), ChildKind::Inlines)->0;
                        lemma_nodes_come_back(
                            ts,
                            pos + 1,
                            end,
                            Some(tag),
                            ChildKind::Inlines,
                            stack,
                        );
                        let node = InlineNodeView::Surrounding { tag: t, contents: inner.inlines };
                        lemma_one_inline_steps(node);
                        assert(inner.blocks =~= Seq::<BlockNodeView>::empty());
                        assert(inner.outofbands =~= Seq::<OutOfBandNodeView>::empty());
                        assert(loaded_steps(inner) =~= pieces_steps(inline_pieces(inner.inlines)));
                        assert(loaded_steps(one) =~= piece_steps(inline_piece(node)));
                        assert(start + (loaded_steps(inner) + close) =~= start + loaded_steps(
                            inner,
                        ) + close);
                    },
                    ConvertedTagView::InBand(_) => {},
                    ConvertedTagView::OutOfBand(
                        ConvertedOutofbandTagView::OutOfBandContainer(t),
                    ) => {
                        assert(opens_out_of_band(ts[pos]));
                        assert(at_top(ts, pos));
                        let inner = load_nodes(ts, pos + 1, end, Some(tag), ChildKind::Blocks)->0;
                        lemma_nodes_come_back(ts, pos + 1, end, Some(tag), ChildKind::Blocks, stack);
                        let node = OutOfBandNodeView::OutOfBandContainer {
                            tag: t,
                            children: inner.blocks,
                        };
                        lemma_one_out_of_band_steps(node);
                        assert(inner.inlines =~= Seq::<InlineNodeView>::empty());
                        assert(inner.outofbands =~= Seq::<OutOfBandNodeView>::empty());
                        assert(one.outofbands =~= seq![node]);
                        assert(loaded_steps(inner) =~= pieces_steps(block_pieces(inner.blocks)));
                        assert(loaded_steps(one) =~= piece_steps(out_of_band_piece(node)));
                        assert(start + (loaded_steps(inner) + close) =~= start + loaded_steps(
                            inner,
                        ) + close);
                    },
                    ConvertedTagView::OutOfBand(ConvertedOutofbandTagView::OutOfBandLeaf(_)) => {},
                }
            },
            EventView::End(_) => {},
            EventView::Rule => {
                let node = BlockNodeView::Markup { tag: MarkupBlockTagView::Rule };
                lemma_one_block_steps(node);
                assert(loaded_steps(one) =~= piece_steps(block_piece(node)));
                assert(as_steps(ts.subrange(pos + 1, pos + 1)) =~= Seq::<Step>::empty());
            },
            other => {
                let node = InlineNodeView::Content { tag: content_of(other)->0 };
                lemma_one_inline_steps(node);
                assert(loaded_steps(one) =~= piece_steps(inline_piece(node)));
                assert(as_steps(ts.subrange(pos + 1, pos + 1)) =~= Seq::<Step>::empty());
            },
        }
    }
}

/// What the builder read as the rest of a list item serialises to the
/// tokens it was read from, up to the token that closes the item.
proof fn lemma_item_comes_back(ts: Seq<EventView>, pos: int, end: int, stack: Seq<TagView>)
    requires
        0 <= pos <= end <= ts.len(),
        in_tree_order(ts),
        open_at(ts, pos) == Some(stack.push(TagView::Item)),
        load_item(ts, pos, end, Seq::empty()) is Some,
    ensures
        ({
            let item = load_item(ts, pos, end, Seq::empty())->0;
            &&& pos < item.next <= end
            &&& item.inlines.len() == 0
            &&& item.outofbands.len() == 0
            &&& as_steps(ts.subrange(pos, item.next)) == pieces_steps(block_pieces(item.blocks))
                + seq![Step::Token(EventView::End(TagView::Item))]
        }),
    decreases end - pos, 2int,
{
    lemma_no_pieces();
    let open = stack.push(TagView::Item);
    let item = load_item(ts, pos, end, Seq::empty())->0;
    let none = Seq::<InlineNodeView>::empty();
    assert(flushed(none) =~= Seq::<BlockNodeView>::empty());
    if is_token_inline_spec(ts[pos]) {
        if ts[pos] is End {
            assert(region_end(ts, pos, end, Seq::empty()) is None);
        } else {
            assert(inline_in_item(ts, pos));
        }
    } else if ts[pos] is End {
        lemma_as_steps_one(ts, pos);
        assert(pieces_steps(block_pieces(item.blocks)) + seq![
            Step::Token(EventView::End(TagView::Item)),
        ] =~= seq![Step::Token(EventView::End(TagView::Item))]);
    } else {
        let stop = region_end(ts, pos, end, Seq::empty())->0;
        let inner = load_nodes(ts, pos, stop, None, ChildKind::Blocks)->0;
        lemma_nodes_come_back(ts, pos, stop, None, ChildKind::Blocks, open);
        lemma_loaded_nodes_close(ts, pos, stop, None, ChildKind::Blocks, open);
        lemma_open_at_next(ts, pos, stop, open);
        lemma_item_comes_back(ts, stop, end, stack);
        let rest = load_item(ts, stop, end, Seq::empty())->0;
        lemma_as_steps_split(ts, pos, stop, rest.next);
        assert(inner.inlines =~= Seq::<InlineNodeView>::empty());
        assert(inner.outofbands =~= Seq::<OutOfBandNodeView>::empty());
        assert(loaded_steps(inner) + closing(None) =~= pieces_steps(block_pieces(inner.blocks)));
        assert(flushed(none) + inner.blocks =~= inner.blocks);
        lemma_block_pieces_add(inner.blocks, rest.blocks);
        let close = seq![Step::Token(EventView::End(TagView::Item))];
        assert(pieces_steps(block_pieces(inner.blocks)) + (pieces_steps(block_pieces(rest.blocks))
            + close) =~= (pieces_steps(block_pieces(inner.blocks)) + pieces_steps(
            block_pieces(rest.blocks),
        )) + close);
        assert(item.outofbands =~= Seq::<OutOfBandNodeView>::empty());
        assert(item.inlines =~= Seq::<InlineNodeView>::empty());
    }
}

/// Round trip: where the builder accepts a token stream that is in tree
/// order, serialising the document that it built gives the stream back,
/// token for token, and no step of the serialisation fails.
pub proof fn lemma_round_trip(ts: Seq<EventView>)
    requires
        load_document(ts) is Some,
        in_tree_order(ts),
    ensures
        document_steps(load_document(ts)->0) == as_steps(ts),
        steps_tokens(document_steps(load_document(ts)->0)) == Some(ts),
{
    lemma_no_pieces();
    let all = load_nodes(ts, 0, ts.len() as int, None, ChildKind::Blocks)->0;
    lemma_nodes_come_back(ts, 0, ts.len() as int, None, ChildKind::Blocks, Seq::empty());
    lemma_loaded_nodes_close(ts, 0, ts.len() as int, None, ChildKind::Blocks, Seq::empty());
    assert(ts.subrange(0, ts.len() as int) =~= ts);
    assert(all.inlines =~= Seq::<InlineNodeView>::empty());
    lemma_pieces_steps_add(block_pieces(all.blocks), out_of_band_pieces(all.outofbands));
    assert(loaded_steps(all) + closing(None) =~= pieces_steps(block_pieces(all.blocks))
        + pieces_steps(out_of_band_pieces(all.outofbands)));
    assert(as_steps(ts).map_values(|s: Step| s->Token_0) =~= ts);
}

} // verus!
