//! Turning a document tree back into a token stream, one token at a time.
use crate::ast::{
    blocks_view, inlines_view, lemma_container_view, lemma_surrounding_view, out_of_bands_view,
    BlockNode, BlockNodeView, Document, DocumentView, InlineNode, InlineNodeView, OutOfBandNode,
    OutOfBandNodeView,
};
use crate::clause::{clauses_view, translations_view, Clause, ClauseView, DocumentClauseList};
use crate::from_tokens::FromTokensError;
use crate::tag::{
    unconvert_container_spec, unconvert_content_spec, unconvert_leaf_spec, unconvert_markup_spec,
    unconvert_oob_container_spec, unconvert_oob_leaf_spec, unconvert_surrounding_spec,
    unconvert_tag, ConvertedInbandTag, ConvertedOutofbandTag, ConvertedTag, UnconvertedTag,
    UnconvertedTagView,
};
use crate::token::{Event, EventView, Tag, TagView};
use std::collections::VecDeque;
use vstd::prelude::*;

verus! {

/// One step of a serialisation: a token, or the failure on a tag that has no token form.
pub enum Step {
    Token(EventView),
    Unsupported,
}

/// What is left to serialise, as a tree: a token, or a node with the token
/// form of its tag and its children.
pub enum Piece {
    Token(EventView),
    Node { form: UnconvertedTagView, children: Seq<Piece> },
}

/// An inline node as a piece.
pub open spec fn inline_piece(node: InlineNodeView) -> Piece
    decreases node,
{
    match node {
        InlineNodeView::Surrounding { tag, contents } => Piece::Node {
            form: unconvert_surrounding_spec(tag),
            children: inline_pieces_upto(contents, contents.len()),
        },
        InlineNodeView::Content { tag } => Piece::Node {
            form: unconvert_content_spec(tag),
            children: Seq::empty(),
        },
    }
}

/// The first `n` nodes of a list as pieces.
pub open spec fn inline_pieces_upto(list: Seq<InlineNodeView>, n: nat) -> Seq<Piece>
    decreases list, n,
{
    if n == 0 || n > list.len() {
        Seq::empty()
    } else {
        inline_pieces_upto(list, (n - 1) as nat).push(inline_piece(list[n - 1]))
    }
}

/// A list of inline nodes as pieces, in order.
pub open spec fn inline_pieces(list: Seq<InlineNodeView>) -> Seq<Piece> {
    inline_pieces_upto(list, list.len())
}

/// A block node as a piece.
pub open spec fn block_piece(node: BlockNodeView) -> Piece
    decreases node,
{
    match node {
        BlockNodeView::Container { tag, children } => Piece::Node {
            form: unconvert_container_spec(tag),
            children: block_pieces_upto(children, children.len()),
        },
        BlockNodeView::Leaf { tag, contents } => Piece::Node {
            form: unconvert_leaf_spec(tag),
            children: inline_pieces(contents),
        },
        BlockNodeView::Markup { tag } => Piece::Node {
            form: unconvert_markup_spec(tag),
            children: Seq::empty(),
        },
    }
}

/// The first `n` blocks of a list as pieces.
pub open spec fn block_pieces_upto(list: Seq<BlockNodeView>, n: nat) -> Seq<Piece>
    decreases list, n,
{
    if n == 0 || n > list.len() {
        Seq::empty()
    } else {
        block_pieces_upto(list, (n - 1) as nat).push(block_piece(list[n - 1]))
    }
}

/// A list of block nodes as pieces, in order.
pub open spec fn block_pieces(list: Seq<BlockNodeView>) -> Seq<Piece> {
    block_pieces_upto(list, list.len())
}

/// An out-of-band node as a piece.
pub open spec fn out_of_band_piece(node: OutOfBandNodeView) -> Piece {
    match node {
        OutOfBandNodeView::OutOfBandContainer { tag, children } => Piece::Node {
            form: unconvert_oob_container_spec(tag),
            children: block_pieces(children),
        },
        OutOfBandNodeView::OutOfBandLeaf { tag, contents } => Piece::Node {
            form: unconvert_oob_leaf_spec(tag),
            children: inline_pieces(contents),
        },
    }
}

/// A list of out-of-band nodes as pieces, in order.
pub open spec fn out_of_band_pieces(list: Seq<OutOfBandNodeView>) -> Seq<Piece> {
    list.map_values(|n: OutOfBandNodeView| out_of_band_piece(n))
}

/// The steps of serialising one piece, depth first. A tag with an opening
/// and a closing token puts them around its children's steps; a transparent
/// tag leaves only its children's steps; a tag of one token, or of two with
/// nothing between them, gives just those; a tag without a token form is
/// one failing step, and its children are not visited.
pub open spec fn piece_steps(piece: Piece) -> Seq<Step>
    decreases piece,
{
    match piece {
        Piece::Token(e) => seq![Step::Token(e)],
        Piece::Node { form, children } => match form {
            UnconvertedTagView::SpanEvent(start, end) => seq![Step::Token(start)] + pieces_steps(
                children,
            ) + seq![Step::Token(end)],
            UnconvertedTagView::SpanEventWithoutLength(start, end) => seq![
                Step::Token(start),
                Step::Token(end),
            ],
            UnconvertedTagView::SingleEvent(e) => seq![Step::Token(e)],
            UnconvertedTagView::TransparentEvent => pieces_steps(children),
            UnconvertedTagView::Custom(_) => seq![Step::Unsupported],
        },
    }
}

/// The steps of serialising a list of pieces, one piece after another.
pub open spec fn pieces_steps(list: Seq<Piece>) -> Seq<Step>
    decreases list,
{
    if list.len() == 0 {
        Seq::empty()
    } else {
        piece_steps(list[0]) + pieces_steps(list.subrange(1, list.len() as int))
    }
}

/// The number of pieces in a piece, itself included.
pub open spec fn piece_weight(piece: Piece) -> nat
    decreases piece,
{
    match piece {
        Piece::Token(_) => 1,
        Piece::Node { form, children } => 1 + pieces_weight(children),
    }
}

/// The number of pieces in a list of pieces, at any depth.
pub open spec fn pieces_weight(list: Seq<Piece>) -> nat
    decreases list,
{
    if list.len() == 0 {
        0
    } else {
        piece_weight(list[0]) + pieces_weight(list.subrange(1, list.len() as int))
    }
}

/// The steps of serialising a document: its main blocks, then its out-of-band nodes.
pub open spec fn document_steps(doc: DocumentView) -> Seq<Step> {
    pieces_steps(block_pieces(doc.blocks) + out_of_band_pieces(doc.outofbands))
}

/// The list of pieces is the list of nodes, each as a piece.
pub proof fn lemma_inline_pieces(list: Seq<InlineNodeView>)
    ensures
        inline_pieces(list) == list.map_values(|n: InlineNodeView| inline_piece(n)),
{
    lemma_inline_pieces_upto(list, list.len());
    assert(list.subrange(0, list.len() as int) =~= list);
}

proof fn lemma_inline_pieces_upto(list: Seq<InlineNodeView>, n: nat)
    requires
        n <= list.len(),
    ensures
        inline_pieces_upto(list, n) == list.subrange(0, n as int).map_values(
            |n: InlineNodeView| inline_piece(n),
        ),
    decreases n,
{
    if n > 0 {
        lemma_inline_pieces_upto(list, (n - 1) as nat);
    }
    assert(inline_pieces_upto(list, n) =~= list.subrange(0, n as int).map_values(
        |n: InlineNodeView| inline_piece(n),
    ));
}

/// The list of pieces is the list of blocks, each as a piece.
pub proof fn lemma_block_pieces(list: Seq<BlockNodeView>)
    ensures
        block_pieces(list) == list.map_values(|n: BlockNodeView| block_piece(n)),
{
    lemma_block_pieces_upto(list, list.len());
    assert(list.subrange(0, list.len() as int) =~= list);
}

proof fn lemma_block_pieces_upto(list: Seq<BlockNodeView>, n: nat)
    requires
        n <= list.len(),
    ensures
        block_pieces_upto(list, n) == list.subrange(0, n as int).map_values(
            |n: BlockNodeView| block_piece(n),
        ),
    decreases n,
{
    if n > 0 {
        lemma_block_pieces_upto(list, (n - 1) as nat);
    }
    assert(block_pieces_upto(list, n) =~= list.subrange(0, n as int).map_values(
        |n: BlockNodeView| block_piece(n),
    ));
}

/// The steps of two lists of pieces joined are the steps of the first, then those of the second.
pub proof fn lemma_pieces_steps_add(a: Seq<Piece>, b: Seq<Piece>)
    ensures
        pieces_steps(a + b) == pieces_steps(a) + pieces_steps(b),
    decreases a.len(),
{
    if a.len() == 0 {
        assert(a + b =~= b);
        assert(pieces_steps(a) + pieces_steps(b) =~= pieces_steps(b));
    } else {
        let rest = a.subrange(1, a.len() as int);
        assert((a + b).subrange(1, (a + b).len() as int) =~= rest + b);
        lemma_pieces_steps_add(rest, b);
        assert(piece_steps(a[0]) + (pieces_steps(rest) + pieces_steps(b)) =~= (piece_steps(a[0])
            + pieces_steps(rest)) + pieces_steps(b));
    }
}

/// The weight of two lists of pieces joined is the sum of their weights.
pub proof fn lemma_pieces_weight_add(a: Seq<Piece>, b: Seq<Piece>)
    ensures
        pieces_weight(a + b) == pieces_weight(a) + pieces_weight(b),
    decreases a.len(),
{
    if a.len() == 0 {
        assert(a + b =~= b);
    } else {
        let rest = a.subrange(1, a.len() as int);
        assert((a + b).subrange(1, (a + b).len() as int) =~= rest + b);
        lemma_pieces_weight_add(rest, b);
    }
}

/// The steps of a list of one piece are the steps of that piece.
pub proof fn lemma_pieces_steps_one(piece: Piece)
    ensures
        pieces_steps(seq![piece]) == piece_steps(piece),
        pieces_weight(seq![piece]) == piece_weight(piece),
{
    let list = seq![piece];
    let rest = list.subrange(1, list.len() as int);
    assert(list.len() == 1);
    assert(list[0] == piece);
    assert(rest.len() == 0);
    assert(pieces_steps(rest) =~= Seq::empty());
    assert(pieces_weight(rest) == 0);
    assert(pieces_steps(list) == piece_steps(list[0]) + pieces_steps(rest));
    assert(piece_steps(piece) + Seq::<Step>::empty() =~= piece_steps(piece));
}

/// Something that waits to be serialised: a token, or a node of the tree.
#[derive(Debug)]
pub enum EventIterItem {
    Event(Event),
    Inline(InlineNode),
    Block(BlockNode),
    OutOfBand(OutOfBandNode),
}

impl EventIterItem {
    /// The item as a piece.
    pub open spec fn piece(&self) -> Piece {
        match *self {
            EventIterItem::Event(e) => Piece::Token(e@),
            EventIterItem::Inline(node) => inline_piece(node@),
            EventIterItem::Block(node) => block_piece(node@),
            EventIterItem::OutOfBand(node) => out_of_band_piece(node@),
        }
    }
}

/// A list of waiting items as pieces, in order.
pub open spec fn items_pieces(items: Seq<EventIterItem>) -> Seq<Piece> {
    items.map_values(|i: EventIterItem| i.piece())
}

/// Putting a list of items in front of those that a collection holds.
pub trait ExtendFront<A> {
    /// The items that the collection holds, front first.
    spec fn held(&self) -> Seq<A>;

    /// Puts `items` in front, in their order.
    fn extend_front(&mut self, items: Vec<A>)
        ensures
            final(self).held() == items@ + old(self).held(),
    ;
}

impl<A> ExtendFront<A> for VecDeque<A> {
    open spec fn held(&self) -> Seq<A> {
        self@
    }

    fn extend_front(&mut self, items: Vec<A>) {
        let mut rest = items;
        while rest.len() > 0
            invariant
                rest@ + self@ == items@ + old(self)@,
            decreases rest@.len(),
        {
            let ghost shorter = rest@.drop_last();
            let v = rest.pop().unwrap();
            proof {
                assert(rest@ + (seq![v] + self@) =~= shorter.push(v) + self@);
            }
            self.push_front(v);
        }
        proof {
            assert(rest@ + self@ =~= self@);
        }
    }
}

/// The inline nodes of a list as waiting items.
fn wrap_inlines(contents: Vec<InlineNode>) -> (res: Vec<EventIterItem>)
    ensures
        items_pieces(res@) == inline_pieces(inlines_view(contents@)),
{
    let mut rest = contents;
    let mut reversed: Vec<EventIterItem> = Vec::new();
    proof {
        assert(rest@ + reversed@.reverse().map_values(|i: EventIterItem| i->Inline_0)
            =~= contents@);
    }
    while rest.len() > 0
        invariant
            rest@ + reversed@.reverse().map_values(|i: EventIterItem| i->Inline_0) == contents@,
            forall|k: int| 0 <= k < reversed@.len() ==> reversed@[k] is Inline,
        decreases rest@.len(),
    {
        let ghost prev = reversed@;
        let ghost shorter = rest@.drop_last();
        let node = rest.pop().unwrap();
        reversed.push(EventIterItem::Inline(node));
        proof {
            assert(rest@ + reversed@.reverse().map_values(|i: EventIterItem| i->Inline_0)
                =~= shorter.push(node) + prev.reverse().map_values(
                |i: EventIterItem| i->Inline_0,
            ));
        }
    }
    let res = turned_round(reversed);
    proof {
        assert(rest@ =~= Seq::empty());
        assert(contents@ =~= res@.map_values(|i: EventIterItem| i->Inline_0));
        lemma_inline_pieces(inlines_view(contents@));
        assert(items_pieces(res@) =~= inlines_view(contents@).map_values(
            |n: InlineNodeView| inline_piece(n),
        ));
    }
    res
}

/// The block nodes of a list as waiting items.
fn wrap_blocks(children: Vec<BlockNode>) -> (res: Vec<EventIterItem>)
    ensures
        items_pieces(res@) == block_pieces(blocks_view(children@)),
{
    let mut rest = children;
    let mut reversed: Vec<EventIterItem> = Vec::new();
    proof {
        assert(rest@ + reversed@.reverse().map_values(|i: EventIterItem| i->Block_0)
            =~= children@);
    }
    while rest.len() > 0
        invariant
            rest@ + reversed@.reverse().map_values(|i: EventIterItem| i->Block_0) == children@,
            forall|k: int| 0 <= k < reversed@.len() ==> reversed@[k] is Block,
        decreases rest@.len(),
    {
        let ghost prev = reversed@;
        let ghost shorter = rest@.drop_last();
        let node = rest.pop().unwrap();
        reversed.push(EventIterItem::Block(node));
        proof {
            assert(rest@ + reversed@.reverse().map_values(|i: EventIterItem| i->Block_0)
                =~= shorter.push(node) + prev.reverse().map_values(
                |i: EventIterItem| i->Block_0,
            ));
        }
    }
    let res = turned_round(reversed);
    proof {
        assert(rest@ =~= Seq::empty());
        assert(children@ =~= res@.map_values(|i: EventIterItem| i->Block_0));
        lemma_block_pieces(blocks_view(children@));
        assert(items_pieces(res@) =~= blocks_view(children@).map_values(
            |n: BlockNodeView| block_piece(n),
        ));
    }
    res
}

/// The out-of-band nodes of a list as waiting items.
fn wrap_out_of_bands(nodes: Vec<OutOfBandNode>) -> (res: Vec<EventIterItem>)
    ensures
        items_pieces(res@) == out_of_band_pieces(out_of_bands_view(nodes@)),
{
    let mut rest = nodes;
    let mut reversed: Vec<EventIterItem> = Vec::new();
    proof {
        assert(rest@ + reversed@.reverse().map_values(|i: EventIterItem| i->OutOfBand_0)
            =~= nodes@);
    }
    while rest.len() > 0
        invariant
            rest@ + reversed@.reverse().map_values(|i: EventIterItem| i->OutOfBand_0) == nodes@,
            forall|k: int| 0 <= k < reversed@.len() ==> reversed@[k] is OutOfBand,
        decreases rest@.len(),
    {
        let ghost prev = reversed@;
        let ghost shorter = rest@.drop_last();
        let node = rest.pop().unwrap();
        reversed.push(EventIterItem::OutOfBand(node));
        proof {
            assert(rest@ + reversed@.reverse().map_values(|i: EventIterItem| i->OutOfBand_0)
                =~= shorter.push(node) + prev.reverse().map_values(
                |i: EventIterItem| i->OutOfBand_0,
            ));
        }
    }
    let res = turned_round(reversed);
    proof {
        assert(rest@ =~= Seq::empty());
        assert(nodes@ =~= res@.map_values(|i: EventIterItem| i->OutOfBand_0));
        assert(items_pieces(res@) =~= out_of_band_pieces(out_of_bands_view(nodes@)));
    }
    res
}

/// The same items in the opposite order.
fn turned_round(items: Vec<EventIterItem>) -> (res: Vec<EventIterItem>)
    ensures
        res@ == items@.reverse(),
{
    let mut rest = items;
    let mut res: Vec<EventIterItem> = Vec::new();
    proof {
        assert(res@ + rest@.reverse() =~= items@.reverse());
    }
    while rest.len() > 0
        invariant
            res@ + rest@.reverse() == items@.reverse(),
        decreases rest@.len(),
    {
        let ghost shorter = rest@.drop_last();
        let item = rest.pop().unwrap();
        proof {
            assert(res@.push(item) + rest@.reverse() =~= res@ + shorter.push(item).reverse());
        }
        res.push(item);
    }
    proof {
        assert(res@ + rest@.reverse() =~= res@);
    }
    res
}

/// A token stream in the making. Its value is the sequence of steps that
/// are still to come.
pub struct EventIter {
    items: VecDeque<EventIterItem>,
}

impl View for EventIter {
    type V = Seq<Step>;

    closed spec fn view(&self) -> Seq<Step> {
        pieces_steps(items_pieces(self.items@))
    }
}

/// The tokens of a sequence of steps, if none of the steps fails.
pub open spec fn steps_tokens(steps: Seq<Step>) -> Option<Seq<EventView>> {
    if forall|i: int| 0 <= i < steps.len() ==> steps[i] is Token {
        Some(steps.map_values(|s: Step| s->Token_0))
    } else {
        None
    }
}

proof fn lemma_items_pieces_add(a: Seq<EventIterItem>, b: Seq<EventIterItem>)
    ensures
        items_pieces(a + b) == items_pieces(a) + items_pieces(b),
{
    assert(items_pieces(a + b) =~= items_pieces(a) + items_pieces(b));
}

proof fn lemma_pieces_head(head: Piece, rest: Seq<Piece>)
    ensures
        pieces_steps(seq![head] + rest) == piece_steps(head) + pieces_steps(rest),
        pieces_weight(seq![head] + rest) == piece_weight(head) + pieces_weight(rest),
{
    lemma_pieces_steps_one(head);
    lemma_pieces_steps_add(seq![head], rest);
    lemma_pieces_weight_add(seq![head], rest);
}

impl EventIter {
    /// The token form of an item's tag and the item's children as waiting
    /// items; a token is handed back as it is.
    fn open_item(item: EventIterItem) -> (res: Result<(UnconvertedTag, Vec<EventIterItem>), Event>)
        ensures
            match res {
                Ok((form, children)) => item.piece() == (Piece::Node {
                    form: form@,
                    children: items_pieces(children@),
                }),
                Err(e) => item.piece() == Piece::Token(e@),
            },
    {
        broadcast use {lemma_container_view, lemma_surrounding_view};

        match item {
            EventIterItem::Event(e) => Err(e),
            EventIterItem::Inline(node) => match node {
                InlineNode::Surrounding { tag, contents } => {
                    let form = unconvert_tag(
                        ConvertedTag::InBand(ConvertedInbandTag::SurroundingInline(tag)),
                    );
                    Ok((form, wrap_inlines(contents)))
                },
                InlineNode::Content { tag } => {
                    let form = unconvert_tag(
                        ConvertedTag::InBand(ConvertedInbandTag::ContentInline(tag)),
                    );
                    let none: Vec<EventIterItem> = Vec::new();
                    proof {
                        assert(items_pieces(none@) =~= Seq::empty());
                    }
                    Ok((form, none))
                },
            },
            EventIterItem::Block(node) => match node {
                BlockNode::Container { tag, children } => {
                    let form = unconvert_tag(
                        ConvertedTag::InBand(ConvertedInbandTag::ContainerBlock(tag)),
                    );
                    Ok((form, wrap_blocks(children)))
                },
                BlockNode::Leaf { tag, contents } => {
                    let form = unconvert_tag(
                        ConvertedTag::InBand(ConvertedInbandTag::LeafBlock(tag)),
                    );
                    Ok((form, wrap_inlines(contents)))
                },
                BlockNode::Markup { tag } => {
                    let form = unconvert_tag(
                        ConvertedTag::InBand(ConvertedInbandTag::MarkupBlock(tag)),
                    );
                    let none: Vec<EventIterItem> = Vec::new();
                    proof {
                        assert(items_pieces(none@) =~= Seq::empty());
                    }
                    Ok((form, none))
                },
            },
            EventIterItem::OutOfBand(node) => match node {
                OutOfBandNode::OutOfBandContainer { tag, children } => {
                    let form = unconvert_tag(
                        ConvertedTag::OutOfBand(ConvertedOutofbandTag::OutOfBandContainer(tag)),
                    );
                    Ok((form, wrap_blocks(children)))
                },
                OutOfBandNode::OutOfBandLeaf { tag, contents } => {
                    let form = unconvert_tag(
                        ConvertedTag::OutOfBand(ConvertedOutofbandTag::OutOfBandLeaf(tag)),
                    );
                    Ok((form, wrap_inlines(contents)))
                },
            },
        }
    }

    /// Takes the next step: the next token, nothing at the end of the
    /// stream, or the failure on a tag that has no token form. Either way
    /// the step is behind the stream afterwards.
    pub fn next(&mut self) -> (res: Result<Option<Event>, FromTokensError>)
        ensures
            match res {
                Ok(Some(e)) => {
                    &&& old(self)@.len() > 0
                    &&& old(self)@[0] == Step::Token(e@)
                    &&& final(self)@ == old(self)@.subrange(1, old(self)@.len() as int)
                },
                Ok(None) => old(self)@.len() == 0 && final(self)@.len() == 0,
                Err(_) => {
                    &&& old(self)@.len() > 0
                    &&& old(self)@[0] == Step::Unsupported
                    &&& final(self)@ == old(self)@.subrange(1, old(self)@.len() as int)
                },
            },
    {
        loop
            invariant
                self@ == old(self)@,
            decreases pieces_weight(items_pieces(self.items@)),
        {
            let ghost before = self.items@;
            let next_item = match self.items.pop_front() {
                Some(item) => item,
                None => {
                    proof {
                        assert(items_pieces(before) =~= Seq::empty());
                    }
                    return Ok(None);
                },
            };
            let ghost rest = self.items@;
            let ghost rest_steps = pieces_steps(items_pieces(rest));
            proof {
                assert(before =~= seq![next_item] + rest);
                lemma_items_pieces_add(seq![next_item], rest);
                assert(items_pieces(seq![next_item]) =~= seq![next_item.piece()]);
                lemma_pieces_head(next_item.piece(), items_pieces(rest));
            }
            let (form, children) = match EventIter::open_item(next_item) {
                Ok(opened) => opened,
                Err(e) => {
                    proof {
                        assert((seq![Step::Token(e@)] + rest_steps).subrange(
                            1,
                            1 + rest_steps.len() as int,
                        ) =~= rest_steps);
                    }
                    return Ok(Some(e));
                },
            };
            let ghost inner = pieces_steps(items_pieces(children@));
            match form {
                UnconvertedTag::SpanEvent(start, end) => {
                    let closing = EventIterItem::Event(end);
                    self.items.push_front(closing);
                    ExtendFront::extend_front(&mut self.items, children);
                    proof {
                        assert(self.items@ =~= children@ + (seq![closing] + rest));
                        lemma_items_pieces_add(children@, seq![closing] + rest);
                        lemma_items_pieces_add(seq![closing], rest);
                        assert(items_pieces(seq![closing]) =~= seq![closing.piece()]);
                        lemma_pieces_steps_add(
                            items_pieces(children@),
                            seq![closing.piece()] + items_pieces(rest),
                        );
                        lemma_pieces_head(closing.piece(), items_pieces(rest));
                        let whole = (seq![Step::Token(start@)] + inner + seq![Step::Token(end@)])
                            + rest_steps;
                        assert(whole.subrange(1, whole.len() as int) =~= inner + (seq![
                            Step::Token(end@),
                        ] + rest_steps));
                    }
                    return Ok(Some(start));
                },
                UnconvertedTag::SpanEventWithoutLength(start, end) => {
                    let closing = EventIterItem::Event(end);
                    self.items.push_front(closing);
                    proof {
                        assert(self.items@ =~= seq![closing] + rest);
                        lemma_items_pieces_add(seq![closing], rest);
                        assert(items_pieces(seq![closing]) =~= seq![closing.piece()]);
                        lemma_pieces_head(closing.piece(), items_pieces(rest));
                        let whole = seq![Step::Token(start@), Step::Token(end@)] + rest_steps;
                        assert(whole.subrange(1, whole.len() as int) =~= seq![Step::Token(end@)]
                            + rest_steps);
                    }
                    return Ok(Some(start));
                },
                UnconvertedTag::SingleEvent(e) => {
                    proof {
                        assert((seq![Step::Token(e@)] + rest_steps).subrange(
                            1,
                            1 + rest_steps.len() as int,
                        ) =~= rest_steps);
                    }
                    return Ok(Some(e));
                },
                UnconvertedTag::TransparentEvent => {
                    ExtendFront::extend_front(&mut self.items, children);
                    proof {
                        lemma_items_pieces_add(children@, rest);
                        lemma_pieces_steps_add(items_pieces(children@), items_pieces(rest));
                        lemma_pieces_weight_add(items_pieces(children@), items_pieces(rest));
                    }
                },
                UnconvertedTag::Custom(_) => {
                    proof {
                        assert((seq![Step::Unsupported] + rest_steps).subrange(
                            1,
                            1 + rest_steps.len() as int,
                        ) =~= rest_steps);
                    }
                    return Err(FromTokensError);
                },
            }
        }
    }

    /// Runs the stream to its end and gathers the tokens. Fails at the
    /// first tag that has no token form, and only then.
    pub fn collect_events(self) -> (res: Result<Vec<Event>, FromTokensError>)
        ensures
            match res {
                Ok(events) => steps_tokens(self@) == Some(crate::token::events_view(events@)),
                Err(_) => steps_tokens(self@) is None,
            },
    {
        let mut stream = self;
        let mut events: Vec<Event> = Vec::new();
        proof {
            assert(crate::token::events_view(events@) =~= Seq::empty());
        }
        loop
            invariant
                forall|i: int| 0 <= i < events@.len() ==> self@[i] == Step::Token(events@[i]@),
                events@.len() <= self@.len(),
                stream@ == self@.subrange(events@.len() as int, self@.len() as int),
            decreases stream@.len(),
        {
            match stream.next() {
                Ok(Some(e)) => {
                    events.push(e);
                },
                Ok(None) => {
                    proof {
                        assert(crate::token::events_view(events@) =~= self@.map_values(
                            |s: Step| s->Token_0,
                        ));
                    }
                    return Ok(events);
                },
                Err(e) => {
                    proof {
                        assert(self@[events@.len() as int] == Step::Unsupported);
                    }
                    return Err(e);
                },
            }
        }
    }
}

impl Document {
    /// Starts the serialisation of the document: its main blocks first,
    /// then its out-of-band nodes.
    pub fn into_tokens(self) -> (res: EventIter)
        ensures
            res@ == document_steps(self@),
    {
        let mut items: VecDeque<EventIterItem> = VecDeque::new();
        let blocks = wrap_blocks(self.blocks);
        let outofbands = wrap_out_of_bands(self.outofbands);
        ExtendFront::extend_front(&mut items, outofbands);
        ExtendFront::extend_front(&mut items, blocks);
        proof {
            assert(items@ =~= blocks@ + outofbands@);
            lemma_items_pieces_add(blocks@, outofbands@);
        }
        EventIter { items }
    }
}

/// One rendering of a clause as pieces: a heading of level three with the
/// language tag as its text, then a paragraph around the content.
pub open spec fn translation_pieces(translation: (Seq<char>, Seq<InlineNodeView>)) -> Seq<Piece> {
    seq![
        Piece::Token(EventView::Start(TagView::Heading(3))),
        Piece::Token(EventView::Text(translation.0)),
        Piece::Token(EventView::End(TagView::Heading(3))),
        Piece::Token(EventView::Start(TagView::Paragraph)),
    ] + inline_pieces(translation.1) + seq![Piece::Token(EventView::End(TagView::Paragraph))]
}

/// The first `n` renderings of a clause as pieces, in order.
pub open spec fn translations_pieces_upto(
    translations: Seq<(Seq<char>, Seq<InlineNodeView>)>,
    n: nat,
) -> Seq<Piece>
    decreases n,
{
    if n == 0 || n > translations.len() {
        Seq::empty()
    } else {
        translations_pieces_upto(translations, (n - 1) as nat) + translation_pieces(
            translations[n - 1],
        )
    }
}

/// A clause as pieces: an ordered list that starts at the clause's number,
/// with one item around the clause's content; then its renderings.
pub open spec fn clause_pieces(clause: ClauseView) -> Seq<Piece> {
    seq![
        Piece::Token(EventView::Start(TagView::List(Some(clause.idx as u64)))),
        Piece::Token(EventView::Start(TagView::Item)),
    ] + inline_pieces(clause.contents) + seq![
        Piece::Token(EventView::End(TagView::Item)),
        Piece::Token(EventView::End(TagView::List(Some(clause.idx as u64)))),
    ] + translations_pieces_upto(clause.translations, clause.translations.len())
}

/// The first `n` clauses of a list as pieces, with a thematic break before
/// every clause but the first.
pub open spec fn clause_list_pieces_upto(list: Seq<ClauseView>, n: nat) -> Seq<Piece>
    decreases n,
{
    if n == 0 || n > list.len() {
        Seq::empty()
    } else if n == 1 {
        clause_pieces(list[0])
    } else {
        clause_list_pieces_upto(list, (n - 1) as nat) + seq![Piece::Token(EventView::Rule)]
            + clause_pieces(list[n - 1])
    }
}

/// The steps of serialising a list of clauses.
pub open spec fn clause_list_steps(list: Seq<ClauseView>) -> Seq<Step> {
    pieces_steps(clause_list_pieces_upto(list, list.len()))
}

/// Puts a token at the back of the waiting items.
fn push_token(items: &mut VecDeque<EventIterItem>, e: Event)
    ensures
        items_pieces(final(items)@) == items_pieces(old(items)@).push(Piece::Token(e@)),
{
    proof {
        assert(items_pieces(items@.push(EventIterItem::Event(e))) =~= items_pieces(items@).push(
            Piece::Token(e@),
        ));
    }
    items.push_back(EventIterItem::Event(e));
}

/// Puts the inline nodes of a list at the back of the waiting items.
fn push_inlines(items: &mut VecDeque<EventIterItem>, contents: Vec<InlineNode>)
    ensures
        items_pieces(final(items)@) == items_pieces(old(items)@) + inline_pieces(
            inlines_view(contents@),
        ),
{
    let wrapped = wrap_inlines(contents);
    let ghost before = items@;
    proof {
        assert(before + wrapped@.subrange(0, 0) =~= before);
    }
    for item in it: wrapped
        invariant
            it.seq() == wrapped@,
            items@ == before + wrapped@.subrange(0, it.index() as int),
    {
        proof {
            assert(wrapped@.subrange(0, it.index() + 1) =~= wrapped@.subrange(
                0,
                it.index() as int,
            ).push(item));
            assert((before + wrapped@.subrange(0, it.index() as int)).push(item) =~= before
                + wrapped@.subrange(0, it.index() as int).push(item));
        }
        items.push_back(item);
    }
    proof {
        assert(wrapped@.subrange(0, wrapped@.len() as int) =~= wrapped@);
        lemma_items_pieces_add(before, wrapped@);
    }
}

/// Puts one rendering of a clause at the back of the waiting items.
fn push_translation(items: &mut VecDeque<EventIterItem>, lang: String, lang_items: Vec<InlineNode>)
    ensures
        items_pieces(final(items)@) == items_pieces(old(items)@) + translation_pieces(
            (lang@, inlines_view(lang_items@)),
        ),
{
    let ghost before = items_pieces(items@);
    push_token(items, Event::Start(Tag::Heading(3)));
    push_token(items, Event::Text(lang));
    push_token(items, Event::End(Tag::Heading(3)));
    push_token(items, Event::Start(Tag::Paragraph));
    push_inlines(items, lang_items);
    push_token(items, Event::End(Tag::Paragraph));
    proof {
        assert(items_pieces(items@) =~= before + translation_pieces(
            (lang@, inlines_view(lang_items@)),
        ));
    }
}

/// Puts a clause at the back of the waiting items.
fn push_clause(items: &mut VecDeque<EventIterItem>, clause: Clause)
    ensures
        items_pieces(final(items)@) == items_pieces(old(items)@) + clause_pieces(clause@),
{
    let ghost before = items_pieces(items@);
    let ghost value = clause@;
    let Clause { clause_contents, clause_idx, clause_translations } = clause;
    let start: u64 = clause_idx as u64;
    push_token(items, Event::Start(Tag::List(Some(start))));
    push_token(items, Event::Start(Tag::Item));
    push_inlines(items, clause_contents);
    push_token(items, Event::End(Tag::Item));
    push_token(items, Event::End(Tag::List(Some(start))));
    let ghost head = items_pieces(items@);
    let ghost translations = translations_view(clause_translations@);
    proof {
        assert(head + translations_pieces_upto(translations, 0) =~= head);
    }
    for translation in it: clause_translations
        invariant
            it.seq() == clause_translations@,
            translations == translations_view(clause_translations@),
            items_pieces(items@) == head + translations_pieces_upto(
                translations,
                it.index() as nat,
            ),
    {
        let ghost i = it.index() as int;
        let ghost sofar = translations_pieces_upto(translations, i as nat);
        let (lang, lang_items) = translation;
        proof {
            assert(translations[i] == (lang@, inlines_view(lang_items@)));
        }
        push_translation(items, lang, lang_items);
        proof {
            assert((head + sofar) + translation_pieces(translations[i]) =~= head + (sofar
                + translation_pieces(translations[i])));
        }
    }
    proof {
        assert(head =~= before + (seq![
            Piece::Token(EventView::Start(TagView::List(Some(value.idx as u64)))),
            Piece::Token(EventView::Start(TagView::Item)),
        ] + inline_pieces(value.contents) + seq![
            Piece::Token(EventView::End(TagView::Item)),
            Piece::Token(EventView::End(TagView::List(Some(value.idx as u64)))),
        ]));
        assert(items_pieces(items@) =~= before + clause_pieces(value));
    }
}

impl DocumentClauseList {
    /// Starts the serialisation of the clauses, one after another, with a
    /// thematic break between two clauses.
    pub fn into_tokens(self) -> (res: EventIter)
        ensures
            res@ == clause_list_steps(self@),
    {
        let mut items: VecDeque<EventIterItem> = VecDeque::new();
        let ghost list = self@;
        let clauses = self.clauses;
        let mut first: bool = true;
        proof {
            assert(items_pieces(items@) =~= Seq::empty());
        }
        for clause in it: clauses
            invariant
                it.seq() == clauses@,
                list == clauses_view(clauses@),
                first == (it.index() == 0),
                items_pieces(items@) == clause_list_pieces_upto(list, it.index() as nat),
        {
            let ghost i = it.index() as int;
            let ghost sofar = items_pieces(items@);
            proof {
                assert(list[i] == clause@);
            }
            if !first {
                push_token(&mut items, Event::Rule);
                proof {
                    assert(sofar.push(Piece::Token(EventView::Rule)) =~= sofar + seq![
                        Piece::Token(EventView::Rule),
                    ]);
                }
            } else {
                proof {
                    assert(Seq::<Piece>::empty() + clause_pieces(list[0]) =~= clause_pieces(
                        list[0],
                    ));
                }
            }
            push_clause(&mut items, clause);
            first = false;
        }
        EventIter { items }
    }
}

} // verus!
