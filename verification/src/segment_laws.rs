//! What segmentation keeps: the text of plain content, and the text
//! inside a wrapper that is cut in two.
use crate::ast::{ContentInlineTagView, InlineNodeView, SurroundingInlineTagView};
use crate::sentence_segment::{
    byte_len, closed_group, cuts_inside, is_split_point_spec, is_splittable, lemma_byte_len_zero,
    nonzero_upto, regroup_from, segment_at, sentence_tag_view, split_list, split_node,
    split_upto, text_after, text_before, text_nodes, text_pieces, wrap_group,
};
use crate::textualize::{
    lemma_list_text_add, lemma_list_text_push, list_text, list_text_upto, node_text,
};
use vstd::prelude::*;
use vstd::utf8::{
    decode_utf8_encode_utf8, decode_utf8_split, encode_utf8, encode_utf8_decode_utf8,
    encode_utf8_valid_utf8, valid_utf8_split,
};

verus! {

/// A text node.
pub open spec fn text_node(span: Seq<char>) -> InlineNodeView {
    InlineNodeView::Content { tag: ContentInlineTagView::Text(span) }
}

/// A text cut between two characters is its two parts, one after the
/// other, and the first part has as many bytes as the cut says.
pub proof fn lemma_cut_text(text: Seq<char>, mid: int)
    requires
        0 <= mid <= byte_len(text),
        vstd::utf8::is_char_boundary(encode_utf8(text), mid),
    ensures
        text_before(text, mid) + text_after(text, mid) == text,
        byte_len(text_before(text, mid)) == mid,
        byte_len(text_after(text, mid)) == byte_len(text) - mid,
{
    let bytes = encode_utf8(text);
    encode_utf8_valid_utf8(text);
    encode_utf8_decode_utf8(text);
    decode_utf8_split(bytes, mid);
    valid_utf8_split(bytes, mid);
    decode_utf8_encode_utf8(bytes.subrange(0, mid));
    decode_utf8_encode_utf8(bytes.subrange(mid, bytes.len() as int));
}

proof fn lemma_list_text_one(node: InlineNodeView)
    ensures
        list_text(seq![node]) == node_text(node),
{
    lemma_list_text_push(Seq::empty(), node);
    assert(Seq::<InlineNodeView>::empty().push(node) =~= seq![node]);
    assert(list_text(Seq::<InlineNodeView>::empty()) =~= Seq::<char>::empty());
    assert(Seq::<char>::empty() + node_text(node) =~= node_text(node));
}

proof fn lemma_list_text_head(node: InlineNodeView, rest: Seq<InlineNodeView>)
    ensures
        list_text(seq![node] + rest) == node_text(node) + list_text(rest),
{
    lemma_list_text_add(seq![node], rest);
    lemma_list_text_one(node);
}

/// The pieces of a text, one after another, are the text.
pub proof fn lemma_text_pieces_keep_text(text: Seq<char>, positions: Seq<usize>, base: nat)
    ensures
        list_text(text_nodes(text_pieces(text, positions, base))) == text,
    decreases positions.len(),
{
    if positions.len() == 0 {
        assert(text_nodes(seq![text]) =~= seq![text_node(text)]);
        lemma_list_text_one(text_node(text));
    } else {
        let rest = positions.subrange(1, positions.len() as int);
        if cuts_inside(text, base, positions[0]) {
            let mid = positions[0] - base;
            let head = text_before(text, mid);
            let tail = text_after(text, mid);
            lemma_cut_text(text, mid);
            lemma_text_pieces_keep_text(tail, rest, positions[0] as nat);
            let later = text_pieces(tail, rest, positions[0] as nat);
            assert(text_nodes(seq![head] + later) =~= seq![text_node(head)] + text_nodes(later));
            lemma_list_text_head(text_node(head), text_nodes(later));
        } else {
            lemma_text_pieces_keep_text(text, rest, base);
        }
    }
}

/// Whether a node is no emphasis, strong or strikethrough wrapper.
pub open spec fn is_plain(node: InlineNodeView) -> bool {
    match node {
        InlineNodeView::Surrounding { tag, contents } => !is_splittable(tag),
        InlineNodeView::Content { tag } => true,
    }
}

/// Whether no node of the list is an emphasis, strong or strikethrough wrapper.
pub open spec fn all_plain(list: Seq<InlineNodeView>) -> bool {
    forall|i: int| 0 <= i < list.len() ==> is_plain(#[trigger] list[i])
}

proof fn lemma_split_plain_node_keeps_text(node: InlineNodeView, positions: Seq<usize>, acc: nat)
    requires
        is_plain(node),
    ensures
        list_text(split_node(node, positions, acc)) == node_text(node),
{
    match node {
        InlineNodeView::Content { tag: ContentInlineTagView::Text(span) } => {
            lemma_text_pieces_keep_text(span, positions, acc);
        },
        _ => {
            lemma_list_text_one(node);
        },
    }
}

proof fn lemma_split_plain_keeps_text(
    list: Seq<InlineNodeView>,
    n: nat,
    positions: Seq<usize>,
    acc: nat,
)
    requires
        all_plain(list),
        n <= list.len(),
    ensures
        list_text(split_upto(list, n, positions, acc).nodes) == list_text_upto(list, n),
    decreases n,
{
    if n == 0 {
        assert(list_text(Seq::<InlineNodeView>::empty()) =~= Seq::<char>::empty());
    } else {
        let before = split_upto(list, (n - 1) as nat, positions, acc);
        lemma_split_plain_keeps_text(list, (n - 1) as nat, positions, acc);
        let pieces = split_node(list[n - 1], before.positions, before.acc);
        lemma_split_plain_node_keeps_text(list[n - 1], before.positions, before.acc);
        lemma_list_text_add(before.nodes, pieces);
    }
}

proof fn lemma_wrapper_without_text_of_its_own(
    group: Seq<InlineNodeView>,
    tag: SurroundingInlineTagView,
)
    requires
        tag is Custom,
        group.len() > 0,
    ensures
        node_text(wrap_group(group, tag)) == list_text(group),
{
    if group.len() == 1 && group[0] is Surrounding && group[0]->Surrounding_tag == tag {
        assert(group =~= seq![group[0]]);
        lemma_list_text_one(group[0]);
    }
}

proof fn lemma_regroup_keeps_text(
    nodes: Seq<InlineNodeView>,
    i: nat,
    tag: SurroundingInlineTagView,
    positions: Seq<usize>,
    seen: nat,
    pending: Seq<InlineNodeView>,
)
    requires
        tag is Custom,
        i <= nodes.len(),
    ensures
        list_text(regroup_from(nodes, i, tag, positions, seen, pending)) == list_text(pending)
            + list_text(nodes.subrange(i as int, nodes.len() as int)),
    decreases nodes.len() - i,
{
    let rest = nodes.subrange(i as int, nodes.len() as int);
    if i >= nodes.len() {
        assert(rest =~= Seq::<InlineNodeView>::empty());
        assert(list_text(Seq::<InlineNodeView>::empty()) =~= Seq::<char>::empty());
        assert(list_text(pending) + Seq::<char>::empty() =~= list_text(pending));
        if pending.len() > 0 {
            lemma_wrapper_without_text_of_its_own(pending, tag);
            lemma_list_text_one(wrap_group(pending, tag));
        }
    } else {
        let node = nodes[i as int];
        let later = nodes.subrange(i as int + 1, nodes.len() as int);
        assert(rest =~= seq![node] + later);
        lemma_list_text_head(node, later);
        lemma_list_text_push(pending, node);
        let len = byte_len(node_text(node));
        if node_text(node).len() == 0 {
            lemma_regroup_keeps_text(nodes, i + 1, tag, positions, seen, pending.push(node));
            assert((list_text(pending) + node_text(node)) + list_text(later) =~= list_text(
                pending,
            ) + (node_text(node) + list_text(later)));
        } else if pending.len() > 0 && is_split_point_spec(seen, positions) {
            lemma_regroup_keeps_text(nodes, i + 1, tag, positions, seen + len, seq![node]);
            lemma_wrapper_without_text_of_its_own(pending, tag);
            lemma_list_text_one(node);
            lemma_list_text_head(
                wrap_group(pending, tag),
                regroup_from(nodes, i + 1, tag, positions, seen + len, seq![node]),
            );
        } else {
            lemma_regroup_keeps_text(nodes, i + 1, tag, positions, seen + len, pending.push(node));
            assert((list_text(pending) + node_text(node)) + list_text(later) =~= list_text(
                pending,
            ) + (node_text(node) + list_text(later)));
        }
    }
}

/// Segmentation keeps the plain text of a leaf's content, whatever the
/// sentence starts are, where no node of the content is an emphasis, strong
/// or strikethrough wrapper: the sentence wrappers add nothing to the text,
/// and the pieces of a text make up the text. So its length stays too.
pub proof fn lemma_segmentation_keeps_text(list: Seq<InlineNodeView>, starts: Seq<usize>)
    requires
        all_plain(list),
    ensures
        list_text(segment_at(list, starts)) == list_text(list),
        byte_len(list_text(segment_at(list, starts))) == byte_len(list_text(list)),
{
    if starts.len() > 0 {
        let positions = nonzero_upto(starts, starts.len());
        let cut = split_list(list, positions, 0);
        if positions.len() > 0 {
            lemma_split_plain_keeps_text(list, list.len(), positions, 0);
        }
        lemma_regroup_keeps_text(cut, 0, sentence_tag_view(), positions, 0, Seq::empty());
        assert(cut.subrange(0, cut.len() as int) =~= cut);
        assert(list_text(Seq::<InlineNodeView>::empty()) =~= Seq::<char>::empty());
        assert(Seq::<char>::empty() + list_text(cut) =~= list_text(cut));
    }
}

/// An emphasis, strong or strikethrough wrapper around one text, cut by
/// one offset inside the text, becomes two wrappers with the same tag, one
/// around each part of the text; the two parts make up the text.
pub proof fn lemma_split_wrapped_text_in_two(
    tag: SurroundingInlineTagView,
    text: Seq<char>,
    acc: nat,
    p: usize,
)
    requires
        is_splittable(tag),
        cuts_inside(text, acc, p),
    ensures
        split_node(
            InlineNodeView::Surrounding { tag, contents: seq![text_node(text)] },
            seq![p],
            acc,
        ) == seq![
            InlineNodeView::Surrounding {
                tag,
                contents: seq![text_node(text_before(text, p - acc))],
            },
            InlineNodeView::Surrounding {
                tag,
                contents: seq![text_node(text_after(text, p - acc))],
            },
        ],
        text_before(text, p - acc) + text_after(text, p - acc) == text,
{
    let mid = p - acc;
    let head = text_before(text, mid);
    let tail = text_after(text, mid);
    let positions = seq![p];
    let none = positions.subrange(1, 1);
    let contents = seq![text_node(text)];
    lemma_cut_text(text, mid);
    lemma_byte_len_zero(head);
    lemma_byte_len_zero(tail);
    assert(none.len() == 0);
    assert(text_pieces(tail, none, p as nat) == seq![tail]);
    assert(text_pieces(text, positions, acc) == seq![head] + seq![tail]);
    let pieces = seq![text_node(head), text_node(tail)];
    assert(text_nodes(seq![head] + seq![tail]) =~= pieces);
    assert(split_node(contents[0], positions, acc) == pieces);
    let start = split_upto(contents, 0, positions, acc);
    assert(start.nodes + pieces =~= pieces);
    assert(split_upto(contents, 1, positions, acc).nodes == pieces);
    let first = seq![pieces[0]];
    assert(Seq::<InlineNodeView>::empty().push(pieces[0]) =~= first);
    assert(is_split_point_spec(p as nat, positions)) by {
        assert(positions[0] == p);
    }
    let second = seq![pieces[1]];
    assert(regroup_from(pieces, 2, tag, positions, (p + byte_len(tail)) as nat, second)
        == closed_group(second, tag));
    assert(regroup_from(pieces, 1, tag, positions, p as nat, first) == seq![
        wrap_group(first, tag),
    ] + regroup_from(pieces, 2, tag, positions, (p + byte_len(tail)) as nat, second));
    assert(regroup_from(pieces, 0, tag, positions, acc, Seq::empty()) == regroup_from(
        pieces,
        1,
        tag,
        positions,
        p as nat,
        first,
    ));
    assert(seq![wrap_group(first, tag)] + seq![wrap_group(second, tag)] =~= seq![
        wrap_group(first, tag),
        wrap_group(second, tag),
    ]);
}

} // verus!
