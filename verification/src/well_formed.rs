//! Nesting of tags in a token stream, and what the builder owes to it.
use crate::from_tokens::{
    html_fragments, load_document, load_item, load_nodes, load_one, region_end, ChildKind,
};
use crate::tag::{
    convert_tag_spec, is_token_inline_spec, ConvertedInbandTagView, ConvertedOutofbandTagView,
    ConvertedTagView,
};
use crate::token::{EventView, TagView};
use vstd::prelude::*;

verus! {

/// The tags that are open after the tokens from `pos` up to `end`, given
/// those that were open before them, innermost last. `None` where a
/// closing token does not match the innermost open tag, or nothing is open.
pub open spec fn open_tags(ts: Seq<EventView>, pos: int, end: int, stack: Seq<TagView>) -> Option<
    Seq<TagView>,
>
    decreases end - pos,
{
    if pos < 0 || pos >= end || end > ts.len() {
        Some(stack)
    } else {
        match ts[pos] {
            EventView::Start(tag) => open_tags(ts, pos + 1, end, stack.push(tag)),
            EventView::End(tag) => if stack.len() > 0 && stack.last() == tag {
                open_tags(ts, pos + 1, end, stack.drop_last())
            } else {
                None
            },
            _ => open_tags(ts, pos + 1, end, stack),
        }
    }
}

/// Whether some closing token of the stream does not match the innermost
/// tag that is open where it stands.
pub open spec fn has_mismatched_close(ts: Seq<EventView>) -> bool {
    open_tags(ts, 0, ts.len() as int, Seq::empty()) is None
}

/// The stack with the terminator, if there is one, as its innermost tag.
pub open spec fn with_terminator(stack: Seq<TagView>, terminator: Option<TagView>) -> Seq<TagView> {
    match terminator {
        Some(tag) => stack.push(tag),
        None => stack,
    }
}

/// Reading a stretch of tokens in two parts leaves open what reading it whole leaves open.
pub proof fn lemma_open_tags_split(ts: Seq<EventView>, pos: int, mid: int, end: int, stack: Seq<TagView>)
    requires
        0 <= pos <= mid <= end <= ts.len(),
        open_tags(ts, pos, mid, stack) is Some,
    ensures
        open_tags(ts, pos, end, stack) == open_tags(
            ts,
            mid,
            end,
            open_tags(ts, pos, mid, stack)->0,
        ),
    decreases mid - pos,
{
    if pos < mid {
        match ts[pos] {
            EventView::Start(tag) => lemma_open_tags_split(ts, pos + 1, mid, end, stack.push(tag)),
            EventView::End(tag) => lemma_open_tags_split(
                ts,
                pos + 1,
                mid,
                end,
                stack.drop_last(),
            ),
            _ => lemma_open_tags_split(ts, pos + 1, mid, end, stack),
        }
    }
}

proof fn lemma_html_run(ts: Seq<EventView>, pos: int, end: int, stack: Seq<TagView>)
    requires
        0 <= pos <= end <= ts.len(),
    ensures
        pos + html_fragments(ts, pos, end).len() <= end,
        open_tags(ts, pos, pos + html_fragments(ts, pos, end).len(), stack) == Some(stack),
    decreases end - pos,
{
    if pos < end && ts[pos] is Html {
        lemma_html_run(ts, pos + 1, end, stack);
    }
}

/// What the builder reads up to a terminator closes the terminator and
/// leaves open what was open before.
pub proof fn lemma_loaded_nodes_close(
    ts: Seq<EventView>,
    pos: int,
    end: int,
    terminator: Option<TagView>,
    kind: ChildKind,
    stack: Seq<TagView>,
)
    requires
        0 <= pos <= end <= ts.len(),
        load_nodes(ts, pos, end, terminator, kind) is Some,
    ensures
        pos <= load_nodes(ts, pos, end, terminator, kind)->0.next <= end,
        terminator is None ==> load_nodes(ts, pos, end, terminator, kind)->0.next == end,
        open_tags(
            ts,
            pos,
            load_nodes(ts, pos, end, terminator, kind)->0.next,
            with_terminator(stack, terminator),
        ) == Some(stack),
    decreases end - pos, 1int,
{
    if pos >= end {
    } else if ts[pos] is End {
        let full = with_terminator(stack, terminator);
        assert(full.drop_last() =~= stack);
        assert(open_tags(ts, pos + 1, pos + 1, stack) == Some(stack));
    } else {
        let one = load_one(ts, pos, end, kind)->0;
        let full = with_terminator(stack, terminator);
        lemma_loaded_one_closes(ts, pos, end, kind, full);
        lemma_loaded_nodes_close(ts, one.next, end, terminator, kind, stack);
        let rest = load_nodes(ts, one.next, end, terminator, kind)->0;
        lemma_open_tags_split(ts, pos, one.next, rest.next, full);
    }
}

/// What the builder reads as one node leaves open what was open before.
pub proof fn lemma_loaded_one_closes(
    ts: Seq<EventView>,
    pos: int,
    end: int,
    kind: ChildKind,
    stack: Seq<TagView>,
)
    requires
        0 <= pos < end <= ts.len(),
        load_one(ts, pos, end, kind) is Some,
    ensures
        pos < load_one(ts, pos, end, kind)->0.next <= end,
        open_tags(ts, pos, load_one(ts, pos, end, kind)->0.next, stack) == Some(stack),
    decreases end - pos, 0int,
{
    if ts[pos] == EventView::Start(TagView::Item) && kind == ChildKind::Blocks {
        lemma_loaded_item_closes(ts, pos + 1, end, Seq::empty(), stack);
    } else if ts[pos] is Html && kind == ChildKind::Blocks {
        lemma_html_run(ts, pos, end, stack);
    } else {
        match ts[pos] {
            EventView::Start(tag) => {
                match convert_tag_spec(tag) {
                    ConvertedTagView::InBand(ConvertedInbandTagView::ContainerBlock(_)) => {
                        lemma_loaded_nodes_close(
                            ts,
                            pos + 1,
                            end,
                            Some(tag),
                            ChildKind::Blocks,
                            stack,
                        );
                    },
                    ConvertedTagView::InBand(ConvertedInbandTagView::LeafBlock(_)) => {
                        lemma_loaded_nodes_close(
                            ts,
                            pos + 1,
                            end,
                            Some(tag),
                            ChildKind::Inlines,
                            stack,
                        );
                    },
                    ConvertedTagView::InBand(ConvertedInbandTagView::SurroundingInline(_)) => {
                        lemma_loaded_nodes_close(
                            ts,
                            pos + 1,
                            end,
                            Some(tag),
                            ChildKind::Inlines,
                            stack,
                        );
                    },
                    ConvertedTagView::InBand(_) => {},
                    ConvertedTagView::OutOfBand(
                        ConvertedOutofbandTagView::OutOfBandContainer(_),
                    ) => {
                        lemma_loaded_nodes_close(
                            ts,
                            pos + 1,
                            end,
                            Some(tag),
                            ChildKind::Blocks,
                            stack,
                        );
                    },
                    ConvertedTagView::OutOfBand(ConvertedOutofbandTagView::OutOfBandLeaf(_)) => {
                        lemma_loaded_nodes_close(
                            ts,
                            pos + 1,
                            end,
                            Some(tag),
                            ChildKind::Inlines,
                            stack,
                        );
                    },
                }
            },
            _ => {
                assert(open_tags(ts, pos + 1, pos + 1, stack) == Some(stack));
            },
        }
    }
}

/// What the builder reads as the rest of a list item closes the item.
pub proof fn lemma_loaded_item_closes(
    ts: Seq<EventView>,
    pos: int,
    end: int,
    pending: Seq<crate::ast::InlineNodeView>,
    stack: Seq<TagView>,
)
    requires
        0 <= pos <= end <= ts.len(),
        load_item(ts, pos, end, pending) is Some,
    ensures
        pos < load_item(ts, pos, end, pending)->0.next <= end,
        open_tags(
            ts,
            pos,
            load_item(ts, pos, end, pending)->0.next,
            stack.push(TagView::Item),
        ) == Some(stack),
    decreases end - pos, 2int,
{
    let open = stack.push(TagView::Item);
    if is_token_inline_spec(ts[pos]) {
        let stop = region_end(ts, pos, end, Seq::empty())->0;
        let inner = load_nodes(ts, pos, stop, None, ChildKind::Inlines)->0;
        lemma_loaded_nodes_close(ts, pos, stop, None, ChildKind::Inlines, open);
        lemma_loaded_item_closes(ts, stop, end, pending + inner.inlines, stack);
        let rest = load_item(ts, stop, end, pending + inner.inlines)->0;
        lemma_open_tags_split(ts, pos, stop, rest.next, open);
    } else if ts[pos] is End {
        assert(open.drop_last() =~= stack);
        assert(open_tags(ts, pos + 1, pos + 1, stack) == Some(stack));
    } else {
        let stop = region_end(ts, pos, end, Seq::empty())->0;
        lemma_loaded_nodes_close(ts, pos, stop, None, ChildKind::Blocks, open);
        lemma_loaded_item_closes(ts, stop, end, Seq::empty(), stack);
        let rest = load_item(ts, stop, end, Seq::empty())->0;
        lemma_open_tags_split(ts, pos, stop, rest.next, open);
    }
}

/// A stream with a closing token that does not match the innermost open
/// tag is not well formed: the builder gives no document for it.
pub proof fn lemma_mismatched_close_is_rejected(ts: Seq<EventView>)
    requires
        has_mismatched_close(ts),
    ensures
        load_document(ts) is None,
{
    if load_nodes(ts, 0, ts.len() as int, None, ChildKind::Blocks) is Some {
        lemma_loaded_nodes_close(ts, 0, ts.len() as int, None, ChildKind::Blocks, Seq::empty());
    }
}

} // verus!
