//! The plain text that stands for inline content when lengths are measured.
use crate::ast::{
    inlines_view, lemma_surrounding_view, ContentInlineTag, ContentInlineTagView, InlineNode,
    InlineNodeView, SurroundingInlineTag, SurroundingInlineTagView,
};
use vstd::prelude::*;
use vstd::string::*;

verus! {

/// The plain text of one inline node. Text stands for itself, a soft break
/// is a space and a hard break a line feed. Emphasis, strong and
/// strikethrough put their children's text in parentheses; a wrapper with
/// another name adds nothing to its children's text. Everything else is a
/// fixed word in parentheses.
pub open spec fn node_text(node: InlineNodeView) -> Seq<char>
    decreases node,
{
    match node {
        InlineNodeView::Surrounding { tag, contents } => match tag {
            SurroundingInlineTagView::Emphasis
            | SurroundingInlineTagView::Strong
            | SurroundingInlineTagView::Strikethrough => "("@ + list_text_upto(
                contents,
                contents.len(),
            ) + ")"@,
            SurroundingInlineTagView::Link(_, _, _) => "(link)"@,
            SurroundingInlineTagView::Image(_, _, _) => "(image)"@,
            SurroundingInlineTagView::Custom(_) => list_text_upto(contents, contents.len()),
        },
        InlineNodeView::Content { tag } => match tag {
            ContentInlineTagView::Text(span) => span,
            ContentInlineTagView::Code(_) => "(code)"@,
            ContentInlineTagView::RawHtml(_) => "(raw html)"@,
            ContentInlineTagView::FootnoteRef(_) => "(ref)"@,
            ContentInlineTagView::TaskListMarker(_) => "(marker)"@,
            ContentInlineTagView::SoftBreak => " "@,
            ContentInlineTagView::HardBreak => "\n"@,
            ContentInlineTagView::Custom(name) => "("@ + name + ")"@,
        },
    }
}

/// The plain text of the first `n` nodes of a list, one after another.
pub open spec fn list_text_upto(list: Seq<InlineNodeView>, n: nat) -> Seq<char>
    decreases list, n,
{
    if n == 0 || n > list.len() {
        Seq::empty()
    } else {
        list_text_upto(list, (n - 1) as nat) + node_text(list[n - 1])
    }
}

/// The plain text of a list of inline nodes: the texts of its nodes, one after another.
pub open spec fn list_text(list: Seq<InlineNodeView>) -> Seq<char> {
    list_text_upto(list, list.len())
}

/// The text of a list with one more node is the list's text, then the node's.
pub proof fn lemma_list_text_push(list: Seq<InlineNodeView>, node: InlineNodeView)
    ensures
        list_text(list.push(node)) == list_text(list) + node_text(node),
{
    assert(list.push(node).subrange(0, list.len() as int) =~= list.subrange(
        0,
        list.len() as int,
    ));
    lemma_list_text_prefix(list.push(node), list, list.len());
}

proof fn lemma_list_text_prefix(a: Seq<InlineNodeView>, b: Seq<InlineNodeView>, n: nat)
    requires
        n <= a.len(),
        n <= b.len(),
        a.subrange(0, n as int) == b.subrange(0, n as int),
    ensures
        list_text_upto(a, n) == list_text_upto(b, n),
    decreases n,
{
    if n > 0 {
        assert(a.subrange(0, n - 1) =~= a.subrange(0, n as int).subrange(0, n - 1));
        assert(b.subrange(0, n - 1) =~= b.subrange(0, n as int).subrange(0, n - 1));
        lemma_list_text_prefix(a, b, (n - 1) as nat);
        assert(a[n - 1] == a.subrange(0, n as int)[n - 1]);
        assert(b[n - 1] == b.subrange(0, n as int)[n - 1]);
    }
}

/// The text of two lists joined is the text of the first, then that of the second.
pub proof fn lemma_list_text_add(a: Seq<InlineNodeView>, b: Seq<InlineNodeView>)
    ensures
        list_text(a + b) == list_text(a) + list_text(b),
    decreases b.len(),
{
    if b.len() == 0 {
        assert(a + b =~= a);
        assert(list_text(a) + list_text(b) =~= list_text(a));
    } else {
        let front = b.drop_last();
        assert(a + b =~= (a + front).push(b.last()));
        assert(b =~= front.push(b.last()));
        lemma_list_text_push(a + front, b.last());
        lemma_list_text_push(front, b.last());
        lemma_list_text_add(a, front);
        assert((list_text(a) + list_text(front)) + node_text(b.last()) =~= list_text(a) + (
        list_text(front) + node_text(b.last())));
    }
}

/// Appends the plain text of a list of inline nodes to `textualize_result`.
pub fn textualize_inline_list(inlines: &Vec<InlineNode>, textualize_result: &mut String)
    ensures
        final(textualize_result)@ == old(textualize_result)@ + list_text(inlines_view(inlines@)),
    decreases *inlines, 1int,
{
    let ghost before = textualize_result@;
    let ghost all = inlines_view(inlines@);
    let mut i: usize = 0;
    proof {
        assert(before + list_text_upto(all, 0) =~= before);
    }
    while i < inlines.len()
        invariant
            i <= inlines.len(),
            all == inlines_view(inlines@),
            textualize_result@ == before + list_text_upto(all, i as nat),
        decreases inlines.len() - i,
    {
        proof {
            assert(decreases_to!(*inlines => inlines[i as int]));
            assert(all[i as int] == inlines@[i as int]@);
            assert((before + list_text_upto(all, i as nat)) + node_text(all[i as int]) =~= before
                + list_text_upto(all, (i + 1) as nat));
        }
        textualize_inline_node(&inlines[i], textualize_result);
        i += 1;
    }
}

/// Appends the plain text of one inline node to `textualize_result`.
pub fn textualize_inline_node(node: &InlineNode, textualize_result: &mut String)
    ensures
        final(textualize_result)@ == old(textualize_result)@ + node_text(node@),
    decreases *node, 0int,
{
    broadcast use lemma_surrounding_view;

    let ghost before = textualize_result@;
    match node {
        InlineNode::Surrounding { tag, contents } => match tag {
            SurroundingInlineTag::Emphasis
            | SurroundingInlineTag::Strong
            | SurroundingInlineTag::Strikethrough => {
                textualize_result.append("(");
                textualize_inline_list(contents, textualize_result);
                textualize_result.append(")");
                proof {
                    assert(((before + "("@) + list_text(inlines_view(contents@))) + ")"@
                        =~= before + ("("@ + list_text(inlines_view(contents@)) + ")"@));
                }
            },
            SurroundingInlineTag::Link(_, _, _) => {
                textualize_result.append("(link)");
            },
            SurroundingInlineTag::Image(_, _, _) => {
                textualize_result.append("(image)");
            },
            SurroundingInlineTag::Custom(_) => {
                textualize_inline_list(contents, textualize_result);
            },
        },
        InlineNode::Content { tag } => match tag {
            ContentInlineTag::Text(span) => {
                textualize_result.append(span.as_str());
            },
            ContentInlineTag::Code(_) => {
                textualize_result.append("(code)");
            },
            ContentInlineTag::RawHtml(_) => {
                textualize_result.append("(raw html)");
            },
            ContentInlineTag::FootnoteRef(_) => {
                textualize_result.append("(ref)");
            },
            ContentInlineTag::TaskListMarker(_) => {
                textualize_result.append("(marker)");
            },
            ContentInlineTag::SoftBreak => {
                textualize_result.append(" ");
            },
            ContentInlineTag::HardBreak => {
                textualize_result.append("\n");
            },
            ContentInlineTag::Custom(name) => {
                textualize_result.append("(");
                textualize_result.append(name.as_str());
                textualize_result.append(")");
                proof {
                    assert(((before + "("@) + name@) + ")"@ =~= before + ("("@ + name@ + ")"@));
                }
            },
        },
    }
}

} // verus!
