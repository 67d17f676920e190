//! Sentence segmentation: cutting the inline content of every leaf at the
//! sentence boundaries of its plain text, and wrapping each sentence.
use crate::ast::{
    blocks_view, inlines_view, lemma_blocks_view_push, lemma_container_view,
    lemma_inlines_view_push, lemma_out_of_bands_view_push, lemma_surrounding_view,
    out_of_bands_view, BlockNode, BlockNodeView, ContentInlineTag,
    ContentInlineTagView, Document, DocumentView, InlineNode, InlineNodeView, OutOfBandNode,
    OutOfBandNodeView, SurroundingInlineTag, SurroundingInlineTagView,
};
use crate::textualize::{
    lemma_list_text_add, lemma_list_text_push, list_text, node_text, textualize_inline_list,
    textualize_inline_node,
};
use vstd::prelude::*;
use vstd::slice::slice_subrange;
use vstd::string::*;
use vstd::utf8::{decode_utf8, encode_utf8, encode_utf8_decode_utf8, is_char_boundary};

verus! {

/// The tag of the wrapper that marks one sentence.
pub open spec fn sentence_tag_view() -> SurroundingInlineTagView {
    SurroundingInlineTagView::Custom("Sentence"@)
}

/// The tag of the wrapper that marks one sentence.
pub fn sentence_tag() -> (res: SurroundingInlineTag)
    ensures
        res@ == sentence_tag_view(),
{
    SurroundingInlineTag::Custom("Sentence".to_owned())
}

/// The length of a text in bytes of UTF-8: the unit of every offset here.
pub open spec fn byte_len(text: Seq<char>) -> nat {
    encode_utf8(text).len()
}

/// The length in bytes of the plain text of a list of inline nodes.
pub open spec fn flat_len(list: Seq<InlineNodeView>) -> nat {
    byte_len(list_text(list))
}

/// The part of a text before the byte offset `mid`.
pub open spec fn text_before(text: Seq<char>, mid: int) -> Seq<char> {
    decode_utf8(encode_utf8(text).subrange(0, mid))
}

/// The part of a text from the byte offset `mid` on.
pub open spec fn text_after(text: Seq<char>, mid: int) -> Seq<char> {
    decode_utf8(encode_utf8(text).subrange(mid, encode_utf8(text).len() as int))
}

/// Whether the offset `p` cuts a text that starts at the offset `base`:
/// it lies strictly inside the text and between two characters.
pub open spec fn cuts_inside(text: Seq<char>, base: nat, p: usize) -> bool {
    &&& base < p < base + byte_len(text)
    &&& is_char_boundary(encode_utf8(text), p - base)
}

/// The pieces of a text that starts at the offset `base`, cut at every
/// offset of `positions`, taken in their order, that cuts what is left of it.
pub open spec fn text_pieces(text: Seq<char>, positions: Seq<usize>, base: nat) -> Seq<Seq<char>>
    decreases positions.len(),
{
    if positions.len() == 0 {
        seq![text]
    } else if cuts_inside(text, base, positions[0]) {
        seq![text_before(text, positions[0] - base)] + text_pieces(
            text_after(text, positions[0] - base),
            positions.subrange(1, positions.len() as int),
            positions[0] as nat,
        )
    } else {
        text_pieces(text, positions.subrange(1, positions.len() as int), base)
    }
}

/// A text node for each piece.
pub open spec fn text_nodes(pieces: Seq<Seq<char>>) -> Seq<InlineNodeView> {
    pieces.map_values(
        |s: Seq<char>| InlineNodeView::Content { tag: ContentInlineTagView::Text(s) },
    )
}

/// Whether a wrapper may be cut in two: emphasis, strong and strikethrough.
pub open spec fn is_splittable(tag: SurroundingInlineTagView) -> bool {
    tag is Emphasis || tag is Strong || tag is Strikethrough
}

/// The offsets that are left once the counter stands at `acc`: the leading
/// offsets up to `acc` are passed.
pub open spec fn remaining_after(positions: Seq<usize>, acc: nat) -> Seq<usize>
    decreases positions.len(),
{
    if positions.len() > 0 && positions[0] <= acc {
        remaining_after(positions.subrange(1, positions.len() as int), acc)
    } else {
        positions
    }
}

/// Whether `pos` is one of the offsets.
pub open spec fn is_split_point_spec(pos: nat, positions: Seq<usize>) -> bool {
    exists|i: int| 0 <= i < positions.len() && positions[i] == pos
}

/// One group of nodes under the wrapper's tag; a single node that carries
/// that very tag stays as it is.
pub open spec fn wrap_group(group: Seq<InlineNodeView>, tag: SurroundingInlineTagView)
    -> InlineNodeView {
    if group.len() == 1 && group[0] is Surrounding && group[0]->Surrounding_tag == tag {
        group[0]
    } else {
        InlineNodeView::Surrounding { tag, contents: group }
    }
}

/// The pending group as a wrapper, if it holds anything.
pub open spec fn closed_group(pending: Seq<InlineNodeView>, tag: SurroundingInlineTagView) -> Seq<
    InlineNodeView,
> {
    if pending.len() == 0 {
        Seq::empty()
    } else {
        seq![wrap_group(pending, tag)]
    }
}

/// The nodes from index `i` on, regrouped under `tag`. `seen` is the offset
/// at which node `i` starts and `pending` the group that is open. A node
/// with empty text joins the open group. Before any other node the open
/// group is closed if it holds anything and `seen` is one of the offsets.
pub open spec fn regroup_from(
    nodes: Seq<InlineNodeView>,
    i: nat,
    tag: SurroundingInlineTagView,
    positions: Seq<usize>,
    seen: nat,
    pending: Seq<InlineNodeView>,
) -> Seq<InlineNodeView>
    decreases nodes.len() - i,
{
    if i >= nodes.len() {
        closed_group(pending, tag)
    } else if node_text(nodes[i as int]).len() == 0 {
        regroup_from(nodes, i + 1, tag, positions, seen, pending.push(nodes[i as int]))
    } else if pending.len() > 0 && is_split_point_spec(seen, positions) {
        seq![wrap_group(pending, tag)] + regroup_from(
            nodes,
            i + 1,
            tag,
            positions,
            seen + byte_len(node_text(nodes[i as int])),
            seq![nodes[i as int]],
        )
    } else {
        regroup_from(
            nodes,
            i + 1,
            tag,
            positions,
            seen + byte_len(node_text(nodes[i as int])),
            pending.push(nodes[i as int]),
        )
    }
}

/// A list of nodes that starts at the offset `acc`, regrouped under `tag`:
/// a new group starts wherever a node with text starts at one of the offsets.
pub open spec fn regroup(
    nodes: Seq<InlineNodeView>,
    tag: SurroundingInlineTagView,
    positions: Seq<usize>,
    acc: nat,
) -> Seq<InlineNodeView> {
    regroup_from(nodes, 0, tag, positions, acc, Seq::empty())
}

/// Where a walk over inline nodes stands: the nodes it has produced, the
/// offsets that are left, and the counter.
pub struct Walk {
    pub nodes: Seq<InlineNodeView>,
    pub positions: Seq<usize>,
    pub acc: nat,
}

/// What one node becomes when the counter stands at `acc`. A text is cut
/// into its pieces. The children of emphasis, strong and strikethrough are
/// walked from the same counter and regrouped under the wrapper's tag.
/// Every other node stays whole.
pub open spec fn split_node(node: InlineNodeView, positions: Seq<usize>, acc: nat) -> Seq<
    InlineNodeView,
>
    decreases node,
{
    match node {
        InlineNodeView::Surrounding { tag, contents } => if is_splittable(tag) {
            let inner = if positions.len() == 0 {
                contents
            } else {
                split_upto(contents, contents.len(), positions, acc).nodes
            };
            regroup(inner, tag, positions, acc)
        } else {
            seq![node]
        },
        InlineNodeView::Content { tag } => match tag {
            ContentInlineTagView::Text(span) => text_nodes(text_pieces(span, positions, acc)),
            _ => seq![node],
        },
    }
}

/// The walk over the first `n` nodes of a list. After each node the
/// counter grows by the length of what the node became, and the offsets up
/// to the counter are passed.
pub open spec fn split_upto(list: Seq<InlineNodeView>, n: nat, positions: Seq<usize>, acc: nat)
    -> Walk
    decreases list, n,
{
    if n == 0 || n > list.len() {
        Walk { nodes: Seq::empty(), positions, acc }
    } else {
        let before = split_upto(list, (n - 1) as nat, positions, acc);
        let pieces = split_node(list[n - 1], before.positions, before.acc);
        let acc_after = before.acc + flat_len(pieces);
        Walk {
            nodes: before.nodes + pieces,
            positions: remaining_after(before.positions, acc_after),
            acc: acc_after,
        }
    }
}

/// A list of nodes cut at the offsets; untouched where no offset is left.
pub open spec fn split_list(list: Seq<InlineNodeView>, positions: Seq<usize>, acc: nat) -> Seq<
    InlineNodeView,
> {
    if positions.len() == 0 {
        list
    } else {
        split_upto(list, list.len(), positions, acc).nodes
    }
}

/// The offsets among `starts` that are not zero, in their order.
pub open spec fn nonzero_upto(starts: Seq<usize>, n: nat) -> Seq<usize>
    decreases n,
{
    if n == 0 || n > starts.len() {
        Seq::empty()
    } else if starts[n - 1] == 0 {
        nonzero_upto(starts, (n - 1) as nat)
    } else {
        nonzero_upto(starts, (n - 1) as nat).push(starts[n - 1])
    }
}

/// The inline content of a leaf, segmented at the places where sentences
/// start. With no sentence it stays as it is. Otherwise it is cut at every
/// start but zero, and the pieces are grouped into sentence wrappers.
pub open spec fn segment_at(list: Seq<InlineNodeView>, starts: Seq<usize>) -> Seq<InlineNodeView> {
    if starts.len() == 0 {
        list
    } else {
        let positions = nonzero_upto(starts, starts.len());
        regroup(split_list(list, positions, 0), sentence_tag_view(), positions, 0)
    }
}

/// The length of a string in bytes.
pub fn byte_length(s: &str) -> (res: usize)
    ensures
        res == byte_len(s@),
{
    s.as_bytes().len()
}

/// Tells whether `pos` is one of the offsets.
pub fn is_split_point(pos: usize, proposed_split_positions: &[usize]) -> (res: bool)
    ensures
        res == is_split_point_spec(pos as nat, proposed_split_positions@),
{
    let mut i: usize = 0;
    while i < proposed_split_positions.len()
        invariant
            i <= proposed_split_positions@.len(),
            forall|k: int| 0 <= k < i ==> proposed_split_positions@[k] != pos,
        decreases proposed_split_positions@.len() - i,
    {
        if proposed_split_positions[i] == pos {
            return true;
        }
        i += 1;
    }
    false
}

proof fn lemma_text_nodes_push(pieces: Seq<Seq<char>>, piece: Seq<char>)
    ensures
        text_nodes(pieces.push(piece)) == text_nodes(pieces).push(
            InlineNodeView::Content { tag: ContentInlineTagView::Text(piece) },
        ),
{
    assert(text_nodes(pieces.push(piece)) =~= text_nodes(pieces).push(
        InlineNodeView::Content { tag: ContentInlineTagView::Text(piece) },
    ));
}

/// Cuts a text that starts at `accumulative_length` at the offsets that
/// cut it, and appends a text node for each piece to `output`.
pub fn split_text(
    input: &String,
    output: &mut Vec<InlineNode>,
    proposed_split_positions: &[usize],
    accumulative_length: usize,
)
    ensures
        inlines_view(final(output)@) == inlines_view(old(output)@) + text_nodes(
            text_pieces(input@, proposed_split_positions@, accumulative_length as nat),
        ),
{
    let ghost positions = proposed_split_positions@;
    let ghost out0 = inlines_view(output@);
    let ghost all = text_pieces(input@, positions, accumulative_length as nat);
    let mut rest: &str = input.as_str();
    let mut base: usize = accumulative_length;
    let mut i: usize = 0;
    let ghost done: Seq<Seq<char>> = Seq::empty();
    proof {
        assert(positions.subrange(0, positions.len() as int) =~= positions);
        assert(done + all =~= all);
        assert(out0 + text_nodes(done) =~= out0);
    }
    while i < proposed_split_positions.len()
        invariant
            i <= positions.len(),
            positions == proposed_split_positions@,
            inlines_view(output@) == out0 + text_nodes(done),
            all == done + text_pieces(
                rest@,
                positions.subrange(i as int, positions.len() as int),
                base as nat,
            ),
        decreases positions.len() - i,
    {
        let p = proposed_split_positions[i];
        let total = byte_length(rest);
        let ghost left = positions.subrange(i as int, positions.len() as int);
        proof {
            assert(left[0] == p);
            assert(left.subrange(1, left.len() as int) =~= positions.subrange(
                i + 1,
                positions.len() as int,
            ));
        }
        if base < p && p - base < total && rest.is_char_boundary(p - base) {
            let ghost whole = rest@;
            let (head, tail) = rest.split_at(p - base);
            let piece = head.to_owned();
            proof {
                let mid = (p - base) as int;
                let bytes = encode_utf8(whole);
                encode_utf8_decode_utf8(head@);
                encode_utf8_decode_utf8(tail@);
                assert(head@ == text_before(whole, mid));
                assert(tail@ == text_after(whole, mid));
                let node = InlineNode::Content { tag: ContentInlineTag::Text(piece) };
                lemma_inlines_view_push(output@, node);
                lemma_text_nodes_push(done, head@);
                assert((out0 + text_nodes(done)).push(node@) =~= out0 + text_nodes(done).push(
                    node@,
                ));
                assert(done.push(head@) + text_pieces(
                    tail@,
                    positions.subrange(i + 1, positions.len() as int),
                    p as nat,
                ) =~= done + (seq![head@] + text_pieces(
                    tail@,
                    positions.subrange(i + 1, positions.len() as int),
                    p as nat,
                )));
                done = done.push(head@);
            }
            output.push(InlineNode::Content { tag: ContentInlineTag::Text(piece) });
            rest = tail;
            base = p;
        }
        i += 1;
    }
    let last = rest.to_owned();
    proof {
        let node = InlineNode::Content { tag: ContentInlineTag::Text(last) };
        lemma_inlines_view_push(output@, node);
        lemma_text_nodes_push(done, rest@);
        assert((out0 + text_nodes(done)).push(node@) =~= out0 + text_nodes(done).push(node@));
        assert(done + seq![rest@] =~= done.push(rest@));
    }
    output.push(InlineNode::Content { tag: ContentInlineTag::Text(last) });
}

/// The bytes of two texts joined are the bytes of the first, then those of the second.
pub proof fn lemma_encode_add(a: Seq<char>, b: Seq<char>)
    ensures
        encode_utf8(a + b) == encode_utf8(a) + encode_utf8(b),
    decreases a.len(),
{
    if a.len() == 0 {
        assert(a + b =~= b);
        assert(encode_utf8(a) + encode_utf8(b) =~= encode_utf8(b));
    } else {
        assert((a + b).drop_first() =~= a.drop_first() + b);
        lemma_encode_add(a.drop_first(), b);
        assert(encode_utf8(a + b) =~= encode_utf8(a) + encode_utf8(b));
    }
}

/// A text of no bytes has no characters, and the other way round.
pub proof fn lemma_byte_len_zero(text: Seq<char>)
    ensures
        byte_len(text) == 0 <==> text.len() == 0,
{
    if text.len() > 0 {
        assert(encode_utf8(text) == vstd::utf8::encode_scalar(text[0] as u32) + encode_utf8(
            text.drop_first(),
        ));
    }
}

/// The length of a list that starts with `node` is the node's length and the rest's.
pub proof fn lemma_flat_len_head(node: InlineNodeView, rest: Seq<InlineNodeView>)
    ensures
        flat_len(seq![node] + rest) == byte_len(node_text(node)) + flat_len(rest),
{
    lemma_list_text_add(seq![node], rest);
    lemma_list_text_push(Seq::empty(), node);
    assert(Seq::<InlineNodeView>::empty().push(node) =~= seq![node]);
    assert(list_text(Seq::<InlineNodeView>::empty()) =~= Seq::<char>::empty());
    assert(Seq::<char>::empty() + node_text(node) =~= node_text(node));
    lemma_encode_add(node_text(node), list_text(rest));
}

/// The tagged wrapper around a group, or the group's only node where it
/// carries the tag already.
fn wrap_nodes(group: Vec<InlineNode>, wrapper_tag: &SurroundingInlineTag) -> (res: InlineNode)
    requires
        group@.len() > 0,
    ensures
        res@ == wrap_group(inlines_view(group@), wrapper_tag@),
{
    broadcast use lemma_surrounding_view;

    let mut group = group;
    if group.len() == 1 {
        let keep = match &group[0] {
            InlineNode::Surrounding { tag, .. } => tag.same_as(wrapper_tag),
            InlineNode::Content { .. } => false,
        };
        if keep {
            let node = group.pop().unwrap();
            return node;
        }
    }
    InlineNode::Surrounding { tag: wrapper_tag.clone(), contents: group }
}

/// Regroups a list of nodes that starts at `accumulative_length` under
/// wrappers with `wrapper_tag`, and appends the wrappers to `output`.
pub fn regroup_inlines(
    input: Vec<InlineNode>,
    output: &mut Vec<InlineNode>,
    wrapper_tag: &SurroundingInlineTag,
    proposed_split_positions: &[usize],
    accumulative_length: usize,
)
    requires
        accumulative_length + flat_len(inlines_view(input@)) <= usize::MAX,
    ensures
        inlines_view(final(output)@) == inlines_view(old(output)@) + regroup(
            inlines_view(input@),
            wrapper_tag@,
            proposed_split_positions@,
            accumulative_length as nat,
        ),
{
    let ghost nodes = inlines_view(input@);
    let ghost tag = wrapper_tag@;
    let ghost positions = proposed_split_positions@;
    let ghost out0 = inlines_view(output@);
    let ghost all = regroup(nodes, tag, positions, accumulative_length as nat);
    let mut intermediate_list: Vec<InlineNode> = Vec::new();
    let mut seen: usize = accumulative_length;
    let ghost done: Seq<InlineNodeView> = Seq::empty();
    proof {
        assert(inlines_view(intermediate_list@) =~= Seq::empty());
        assert(out0 + done =~= out0);
        assert(done + all =~= all);
        assert(nodes.subrange(0, nodes.len() as int) =~= nodes);
    }
    for node in it: input
        invariant
            it.seq() == input@,
            nodes == inlines_view(input@),
            tag == wrapper_tag@,
            positions == proposed_split_positions@,
            inlines_view(output@) == out0 + done,
            seen + flat_len(nodes.subrange(it.index() as int, nodes.len() as int))
                <= usize::MAX,
            all == done + regroup_from(
                nodes,
                it.index() as nat,
                tag,
                positions,
                seen as nat,
                inlines_view(intermediate_list@),
            ),
    {
        let ghost i = it.index() as int;
        let mut textualize_str = String::new();
        textualize_inline_node(&node, &mut textualize_str);
        proof {
            assert(nodes[i] == node@);
            assert(Seq::<char>::empty() + node_text(node@) =~= node_text(node@));
            assert(nodes.subrange(i, nodes.len() as int) =~= seq![nodes[i]] + nodes.subrange(
                i + 1,
                nodes.len() as int,
            ));
            lemma_flat_len_head(nodes[i], nodes.subrange(i + 1, nodes.len() as int));
            lemma_inlines_view_push(intermediate_list@, node);
        }
        if textualize_str.as_str().is_empty() {
            intermediate_list.push(node);
        } else {
            let length = byte_length(textualize_str.as_str());
            if intermediate_list.len() > 0 && is_split_point(seen, proposed_split_positions) {
                let wrapped = wrap_nodes(intermediate_list, wrapper_tag);
                proof {
                    lemma_inlines_view_push(output@, wrapped);
                    assert((out0 + done).push(wrapped@) =~= out0 + done.push(wrapped@));
                    let rest = regroup_from(
                        nodes,
                        (i + 1) as nat,
                        tag,
                        positions,
                        (seen + length) as nat,
                        seq![nodes[i]],
                    );
                    assert(done.push(wrapped@) + rest =~= done + (seq![wrapped@] + rest));
                    done = done.push(wrapped@);
                }
                output.push(wrapped);
                intermediate_list = Vec::new();
                proof {
                    lemma_inlines_view_push(intermediate_list@, node);
                    assert(inlines_view(intermediate_list@) =~= Seq::empty());
                    assert(Seq::<InlineNodeView>::empty().push(node@) =~= seq![node@]);
                }
            }
            intermediate_list.push(node);
            seen = seen + length;
        }
    }
    if intermediate_list.len() > 0 {
        let wrapped = wrap_nodes(intermediate_list, wrapper_tag);
        proof {
            lemma_inlines_view_push(output@, wrapped);
            assert((out0 + done).push(wrapped@) =~= out0 + (done + seq![wrapped@]));
        }
        output.push(wrapped);
    } else {
        proof {
            assert(done + Seq::<InlineNodeView>::empty() =~= done);
        }
    }
}

/// The offsets from `cursor` on.
pub open spec fn left_from(positions: Seq<usize>, cursor: int) -> Seq<usize> {
    positions.subrange(cursor, positions.len() as int)
}

/// Moves the cursor past every leading offset up to `acc`.
fn skip_passed(proposed_split_positions: &[usize], cursor: &mut usize, acc: usize)
    requires
        *old(cursor) <= proposed_split_positions@.len(),
    ensures
        *old(cursor) <= *final(cursor) <= proposed_split_positions@.len(),
        left_from(proposed_split_positions@, *final(cursor) as int) == remaining_after(
            left_from(proposed_split_positions@, *old(cursor) as int),
            acc as nat,
        ),
{
    let ghost positions = proposed_split_positions@;
    let ghost start = left_from(positions, *cursor as int);
    while *cursor < proposed_split_positions.len() && proposed_split_positions[*cursor] <= acc
        invariant
            positions == proposed_split_positions@,
            *old(cursor) <= *cursor <= positions.len(),
            start == left_from(positions, *old(cursor) as int),
            remaining_after(start, acc as nat) == remaining_after(
                left_from(positions, *cursor as int),
                acc as nat,
            ),
        decreases positions.len() - *cursor,
    {
        proof {
            let left = left_from(positions, *cursor as int);
            assert(left[0] == positions[*cursor as int]);
            assert(left.subrange(1, left.len() as int) =~= left_from(positions, *cursor + 1));
        }
        *cursor += 1;
    }
    proof {
        let left = left_from(positions, *cursor as int);
        if left.len() > 0 {
            assert(left[0] == positions[*cursor as int]);
        }
    }
}

/// What `split_inline_node` and `split_inlines` leave behind, given the
/// nodes that were produced.
pub open spec fn walked(
    positions: Seq<usize>,
    cursor_before: usize,
    cursor_after: usize,
    flat_before: Seq<char>,
    flat_after: Seq<char>,
    produced: Seq<InlineNodeView>,
) -> bool {
    &&& flat_after == flat_before + list_text(produced)
    &&& cursor_before <= cursor_after <= positions.len()
    &&& left_from(positions, cursor_after as int) == remaining_after(
        left_from(positions, cursor_before as int),
        byte_len(flat_after),
    )
}

/// Cuts one node and appends what it becomes to `output`. `flat` holds the
/// plain text of everything before the node, so that its length in bytes is
/// the counter; the text of what the node becomes is appended to it. The
/// cursor moves past the offsets that the counter has reached.
pub fn split_inline_node(
    input: InlineNode,
    output: &mut Vec<InlineNode>,
    proposed_split_positions: &[usize],
    cursor: &mut usize,
    flat: &mut String,
)
    requires
        *old(cursor) <= proposed_split_positions@.len(),
    ensures
        inlines_view(final(output)@) == inlines_view(old(output)@) + split_node(
            input@,
            left_from(proposed_split_positions@, *old(cursor) as int),
            byte_len(old(flat)@),
        ),
        walked(
            proposed_split_positions@,
            *old(cursor),
            *final(cursor),
            old(flat)@,
            final(flat)@,
            split_node(
                input@,
                left_from(proposed_split_positions@, *old(cursor) as int),
                byte_len(old(flat)@),
            ),
        ),
    decreases input,
{
    broadcast use lemma_surrounding_view;

    let ghost positions = proposed_split_positions@;
    let ghost left = left_from(positions, *cursor as int);
    let ghost out0 = inlines_view(output@);
    let ghost flat0 = flat@;
    let ghost whole = input@;
    let accumulative_length = byte_length(flat.as_str());
    let remaining = slice_subrange(
        proposed_split_positions,
        *cursor,
        proposed_split_positions.len(),
    );
    let mut splitted_nodes: Vec<InlineNode> = Vec::new();
    proof {
        assert(inlines_view(splitted_nodes@) =~= Seq::empty());
    }
    match input {
        InlineNode::Surrounding { tag, contents } => {
            let splittable = match &tag {
                SurroundingInlineTag::Emphasis
                | SurroundingInlineTag::Strong
                | SurroundingInlineTag::Strikethrough => true,
                _ => false,
            };
            if splittable {
                let mut contents = contents;
                let mut inner_cursor: usize = *cursor;
                let mut inner_flat = flat.clone();
                split_inlines(
                    &mut contents,
                    proposed_split_positions,
                    &mut inner_cursor,
                    &mut inner_flat,
                );
                if remaining.len() == 0 {
                    textualize_inline_list(&contents, &mut inner_flat);
                }
                // The text up to the end of the children exists, so its
                // length fits: the regrouping below cannot overflow.
                let reach = byte_length(inner_flat.as_str());
                proof {
                    lemma_encode_add(flat0, list_text(inlines_view(contents@)));
                }
                regroup_inlines(
                    contents,
                    &mut splitted_nodes,
                    &tag,
                    remaining,
                    accumulative_length,
                );
                proof {
                    assert(Seq::<InlineNodeView>::empty() + split_node(
                        whole,
                        left,
                        byte_len(flat0),
                    ) =~= split_node(whole, left, byte_len(flat0)));
                }
            } else {
                let node = InlineNode::Surrounding { tag, contents };
                proof {
                    lemma_inlines_view_push(splitted_nodes@, node);
                    assert(Seq::<InlineNodeView>::empty().push(node@) =~= seq![whole]);
                }
                splitted_nodes.push(node);
            }
        },
        InlineNode::Content { tag } => match tag {
            ContentInlineTag::Text(span) => {
                split_text(&span, &mut splitted_nodes, remaining, accumulative_length);
                proof {
                    assert(Seq::<InlineNodeView>::empty() + split_node(
                        whole,
                        left,
                        byte_len(flat0),
                    ) =~= split_node(whole, left, byte_len(flat0)));
                }
            },
            other => {
                let node = InlineNode::Content { tag: other };
                proof {
                    lemma_inlines_view_push(splitted_nodes@, node);
                    assert(Seq::<InlineNodeView>::empty().push(node@) =~= seq![whole]);
                }
                splitted_nodes.push(node);
            },
        },
    }
    textualize_inline_list(&splitted_nodes, flat);
    proof {
        let pieces = inlines_view(splitted_nodes@);
        assert(inlines_view(output@ + splitted_nodes@) =~= out0 + pieces);
    }
    output.append(&mut splitted_nodes);
    let new_accumulative_length = byte_length(flat.as_str());
    skip_passed(proposed_split_positions, cursor, new_accumulative_length);
}

/// Cuts every node of a list in turn; does nothing where no offset is left.
pub fn split_inlines(
    inlines: &mut Vec<InlineNode>,
    proposed_split_positions: &[usize],
    cursor: &mut usize,
    flat: &mut String,
)
    requires
        *old(cursor) <= proposed_split_positions@.len(),
    ensures
        *old(cursor) <= *final(cursor) <= proposed_split_positions@.len(),
        inlines_view(final(inlines)@) == split_list(
            inlines_view(old(inlines)@),
            left_from(proposed_split_positions@, *old(cursor) as int),
            byte_len(old(flat)@),
        ),
        *old(cursor) == proposed_split_positions@.len() ==> final(flat)@ == old(flat)@,
        *old(cursor) < proposed_split_positions@.len() ==> final(flat)@ == old(flat)@ + list_text(
            inlines_view(final(inlines)@),
        ),
    decreases *old(inlines),
{
    if *cursor >= proposed_split_positions.len() {
        proof {
            assert(left_from(proposed_split_positions@, *cursor as int).len() == 0);
        }
        return ;
    }
    let ghost positions = proposed_split_positions@;
    let ghost left = left_from(positions, *cursor as int);
    let ghost flat0 = flat@;
    let ghost acc0 = byte_len(flat0);
    let ghost nodes = inlines_view(inlines@);
    let mut input: Vec<InlineNode> = Vec::new();
    core::mem::swap(inlines, &mut input);
    proof {
        assert(inlines_view(inlines@) =~= Seq::empty());
        assert(flat0 + list_text(Seq::<InlineNodeView>::empty()) =~= flat0);
        assert(left.len() > 0);
    }
    for node in it: input
        invariant
            it.seq() == input@,
            input == *old(inlines),
            nodes == inlines_view(input@),
            positions == proposed_split_positions@,
            left == left_from(positions, *old(cursor) as int),
            flat0 == old(flat)@,
            acc0 == byte_len(flat0),
            *old(cursor) <= *cursor <= positions.len(),
            inlines_view(inlines@) == split_upto(nodes, it.index() as nat, left, acc0).nodes,
            left_from(positions, *cursor as int) == split_upto(
                nodes,
                it.index() as nat,
                left,
                acc0,
            ).positions,
            byte_len(flat@) == split_upto(nodes, it.index() as nat, left, acc0).acc,
            flat@ == flat0 + list_text(inlines_view(inlines@)),
    {
        let ghost i = it.index() as int;
        let ghost before = split_upto(nodes, i as nat, left, acc0);
        let ghost flat1 = flat@;
        proof {
            assert(decreases_to!(input => input[i]));
            assert(nodes[i] == node@);
        }
        split_inline_node(node, inlines, proposed_split_positions, cursor, flat);
        proof {
            let pieces = split_node(nodes[i], before.positions, before.acc);
            lemma_encode_add(flat1, list_text(pieces));
            lemma_list_text_add(before.nodes, pieces);
            assert(flat0 + (list_text(before.nodes) + list_text(pieces)) =~= (flat0 + list_text(
                before.nodes,
            )) + list_text(pieces));
        }
    }
}

/// The byte offsets at which the sentences of a text start, as the Unicode
/// sentence boundary rules of the `unicode-segmentation` crate find them.
pub uninterp spec fn unicode_sentence_starts(text: Seq<char>) -> Seq<usize>;

/// How far the address `at` lies behind the address `base`.
pub fn offset_from(base: usize, at: usize) -> (res: usize)
    ensures
        res == if at >= base {
            at - base
        } else {
            0
        },
{
    if at >= base {
        at - base
    } else {
        0
    }
}

/// Calls `UnicodeSegmentation::unicode_sentences` of `unicode-segmentation`
/// on the text and gives, for each sentence that it yields, the byte offset
/// of the sentence in the text. The sentences are slices of the text, so
/// each offset is the distance from the text's first byte to the slice's.
/// Nothing is proved of the offsets: they are what the crate finds.
#[verifier::external_body]
fn sentence_starts(text: &str) -> (res: Vec<usize>)
    ensures
        res@ == unicode_sentence_starts(text@),
{
    let base = text.as_ptr() as usize;
    unicode_segmentation::UnicodeSegmentation::unicode_sentences(text)
        .map(|sentence| offset_from(base, sentence.as_ptr() as usize))
        .collect()
}

/// The offsets among `starts` that are not zero.
fn nonzero_starts(starts: &[usize]) -> (res: Vec<usize>)
    ensures
        res@ == nonzero_upto(starts@, starts@.len()),
{
    let mut res: Vec<usize> = Vec::new();
    let mut i: usize = 0;
    while i < starts.len()
        invariant
            i <= starts@.len(),
            res@ == nonzero_upto(starts@, i as nat),
        decreases starts@.len() - i,
    {
        if starts[i] != 0 {
            res.push(starts[i]);
        }
        i += 1;
    }
    res
}

/// Segments the inline content of a leaf at the given sentence starts.
pub fn segment_inlines(inlines: &mut Vec<InlineNode>, starts: &[usize])
    ensures
        inlines_view(final(inlines)@) == segment_at(inlines_view(old(inlines)@), starts@),
{
    if starts.len() == 0 {
        return ;
    }
    let offsets = nonzero_starts(starts);
    let mut cursor: usize = 0;
    let mut flat = String::new();
    let ghost before = inlines_view(inlines@);
    proof {
        assert(left_from(offsets@, 0) =~= offsets@);
    }
    split_inlines(inlines, offsets.as_slice(), &mut cursor, &mut flat);
    if offsets.len() == 0 {
        textualize_inline_list(inlines, &mut flat);
    }
    // The whole text exists, so its length fits: the regrouping below
    // cannot overflow.
    let reach = byte_length(flat.as_str());
    proof {
        assert(Seq::<char>::empty() + list_text(inlines_view(inlines@)) =~= list_text(
            inlines_view(inlines@),
        ));
    }
    let mut regroup_input: Vec<InlineNode> = Vec::new();
    core::mem::swap(inlines, &mut regroup_input);
    let tag = sentence_tag();
    proof {
        assert(inlines_view(inlines@) =~= Seq::empty());
        assert(Seq::<InlineNodeView>::empty() + regroup(
            inlines_view(regroup_input@),
            tag@,
            offsets@,
            0,
        ) =~= regroup(inlines_view(regroup_input@), tag@, offsets@, 0));
    }
    regroup_inlines(regroup_input, inlines, &tag, offsets.as_slice(), 0);
}

/// The inline content of a leaf after segmentation.
pub open spec fn segmented_inlines(list: Seq<InlineNodeView>) -> Seq<InlineNodeView> {
    segment_at(list, unicode_sentence_starts(list_text(list)))
}

/// Segments the inline content of a leaf into sentences.
pub fn perform_sentence_segment_for_leaf_contents(inlines: &mut Vec<InlineNode>)
    ensures
        inlines_view(final(inlines)@) == segmented_inlines(inlines_view(old(inlines)@)),
{
    let mut textualize_result = String::new();
    textualize_inline_list(inlines, &mut textualize_result);
    proof {
        assert(Seq::<char>::empty() + list_text(inlines_view(inlines@)) =~= list_text(
            inlines_view(inlines@),
        ));
    }
    let starts = sentence_starts(textualize_result.as_str());
    segment_inlines(inlines, starts.as_slice());
}

/// A block after segmentation: every leaf in it has its content segmented.
pub open spec fn segmented_block(block: BlockNodeView) -> BlockNodeView
    decreases block,
{
    match block {
        BlockNodeView::Container { tag, children } => BlockNodeView::Container {
            tag,
            children: segmented_blocks_upto(children, children.len()),
        },
        BlockNodeView::Leaf { tag, contents } => BlockNodeView::Leaf {
            tag,
            contents: segmented_inlines(contents),
        },
        BlockNodeView::Markup { tag } => block,
    }
}

/// The first `n` blocks of a list after segmentation.
pub open spec fn segmented_blocks_upto(list: Seq<BlockNodeView>, n: nat) -> Seq<BlockNodeView>
    decreases list, n,
{
    if n == 0 || n > list.len() {
        Seq::empty()
    } else {
        segmented_blocks_upto(list, (n - 1) as nat).push(segmented_block(list[n - 1]))
    }
}

/// A list of blocks after segmentation.
pub open spec fn segmented_blocks(list: Seq<BlockNodeView>) -> Seq<BlockNodeView> {
    segmented_blocks_upto(list, list.len())
}

/// An out-of-band node after segmentation.
pub open spec fn segmented_out_of_band(node: OutOfBandNodeView) -> OutOfBandNodeView {
    match node {
        OutOfBandNodeView::OutOfBandContainer { tag, children } => {
            OutOfBandNodeView::OutOfBandContainer { tag, children: segmented_blocks(children) }
        },
        OutOfBandNodeView::OutOfBandLeaf { tag, contents } => OutOfBandNodeView::OutOfBandLeaf {
            tag,
            contents: segmented_inlines(contents),
        },
    }
}

/// A document after segmentation: its main blocks and its out-of-band
/// nodes, each segmented, in their places.
pub open spec fn segmented_document(doc: DocumentView) -> DocumentView {
    DocumentView {
        blocks: segmented_blocks(doc.blocks),
        outofbands: doc.outofbands.map_values(|n: OutOfBandNodeView| segmented_out_of_band(n)),
    }
}

/// Segments every block of a list.
fn segment_blocks(children: Vec<BlockNode>) -> (res: Vec<BlockNode>)
    ensures
        blocks_view(res@) == segmented_blocks(blocks_view(children@)),
    decreases children, 1int,
{
    let ghost all = blocks_view(children@);
    let mut res: Vec<BlockNode> = Vec::new();
    proof {
        assert(blocks_view(res@) =~= Seq::empty());
    }
    for block in it: children
        invariant
            it.seq() == children@,
            all == blocks_view(children@),
            blocks_view(res@) == segmented_blocks_upto(all, it.index() as nat),
    {
        let ghost i = it.index() as int;
        proof {
            assert(decreases_to!(children => children[i]));
            assert(all[i] == block@);
        }
        let mut block = block;
        perform_sentence_segment_for_block_node(&mut block);
        proof {
            lemma_blocks_view_push(res@, block);
        }
        res.push(block);
    }
    res
}

/// Segments the content of every leaf in a block.
pub fn perform_sentence_segment_for_block_node(block: &mut BlockNode)
    ensures
        final(block)@ == segmented_block(old(block)@),
    decreases *old(block), 0int,
{
    broadcast use lemma_container_view;

    match block {
        BlockNode::Container { children, .. } => {
            let mut taken: Vec<BlockNode> = Vec::new();
            core::mem::swap(children, &mut taken);
            let mut done = segment_blocks(taken);
            core::mem::swap(children, &mut done);
        },
        BlockNode::Leaf { contents, .. } => {
            perform_sentence_segment_for_leaf_contents(contents);
        },
        BlockNode::Markup { .. } => {},
    }
}

/// Segments the content of every leaf in an out-of-band node.
pub fn perform_sentence_segment_for_out_of_band_node(oob: &mut OutOfBandNode)
    ensures
        final(oob)@ == segmented_out_of_band(old(oob)@),
{
    match oob {
        OutOfBandNode::OutOfBandContainer { children, .. } => {
            let mut taken: Vec<BlockNode> = Vec::new();
            core::mem::swap(children, &mut taken);
            let mut done = segment_blocks(taken);
            core::mem::swap(children, &mut done);
        },
        OutOfBandNode::OutOfBandLeaf { contents, .. } => {
            perform_sentence_segment_for_leaf_contents(contents);
        },
    }
}

impl Document {
    /// Segments the content of every leaf of the document into sentences:
    /// the main blocks first, then the out-of-band nodes.
    pub fn perform_sentence_segment(&mut self)
        ensures
            final(self)@ == segmented_document(old(self)@),
    {
        let mut blocks: Vec<BlockNode> = Vec::new();
        core::mem::swap(&mut self.blocks, &mut blocks);
        let mut blocks = segment_blocks(blocks);
        core::mem::swap(&mut self.blocks, &mut blocks);
        let mut outofbands: Vec<OutOfBandNode> = Vec::new();
        core::mem::swap(&mut self.outofbands, &mut outofbands);
        let ghost all = out_of_bands_view(outofbands@);
        let mut done: Vec<OutOfBandNode> = Vec::new();
        proof {
            assert(out_of_bands_view(done@) =~= all.subrange(0, 0).map_values(
                |n: OutOfBandNodeView| segmented_out_of_band(n),
            ));
        }
        for outofband in it: outofbands
            invariant
                it.seq() == outofbands@,
                all == out_of_bands_view(outofbands@),
                out_of_bands_view(done@) == all.subrange(0, it.index() as int).map_values(
                    |n: OutOfBandNodeView| segmented_out_of_band(n),
                ),
        {
            let ghost i = it.index() as int;
            let mut outofband = outofband;
            proof {
                assert(all[i] == outofband@);
            }
            perform_sentence_segment_for_out_of_band_node(&mut outofband);
            proof {
                lemma_out_of_bands_view_push(done@, outofband);
                assert(all.subrange(0, i + 1).map_values(
                    |n: OutOfBandNodeView| segmented_out_of_band(n),
                ) =~= all.subrange(0, i).map_values(
                    |n: OutOfBandNodeView| segmented_out_of_band(n),
                ).push(outofband@));
            }
            done.push(outofband);
        }
        proof {
            assert(all.subrange(0, all.len() as int) =~= all);
        }
        core::mem::swap(&mut self.outofbands, &mut done);
    }
}

} // verus!
