use mdtranslation::ast::{ContentInlineTag, InlineNode, LinkType, SurroundingInlineTag};
use mdtranslation::textualize::{textualize_inline_list, textualize_inline_node};

fn content(tag: ContentInlineTag) -> InlineNode {
    InlineNode::Content { tag }
}

fn around(tag: SurroundingInlineTag, contents: Vec<InlineNode>) -> InlineNode {
    InlineNode::Surrounding { tag, contents }
}

fn text_of(node: &InlineNode) -> String {
    let mut out = String::new();
    textualize_inline_node(node, &mut out);
    out
}

#[test]
fn content_nodes_as_text() {
    let s = |x: &str| x.to_string();
    assert_eq!(text_of(&content(ContentInlineTag::Text(s("héllo")))), "héllo");
    assert_eq!(text_of(&content(ContentInlineTag::Code(s("x")))), "(code)");
    assert_eq!(text_of(&content(ContentInlineTag::RawHtml(s("<b>")))), "(raw html)");
    assert_eq!(text_of(&content(ContentInlineTag::FootnoteRef(s("1")))), "(ref)");
    assert_eq!(text_of(&content(ContentInlineTag::TaskListMarker(true))), "(marker)");
    assert_eq!(text_of(&content(ContentInlineTag::SoftBreak)), " ");
    assert_eq!(text_of(&content(ContentInlineTag::HardBreak)), "\n");
    assert_eq!(text_of(&content(ContentInlineTag::Custom(s("mine")))), "(mine)");
}

#[test]
fn wrappers_as_text() {
    let s = |x: &str| x.to_string();
    let inner = || vec![content(ContentInlineTag::Text(s("a"))), content(ContentInlineTag::SoftBreak)];
    assert_eq!(text_of(&around(SurroundingInlineTag::Emphasis, inner())), "(a )");
    assert_eq!(text_of(&around(SurroundingInlineTag::Strong, inner())), "(a )");
    assert_eq!(text_of(&around(SurroundingInlineTag::Strikethrough, inner())), "(a )");
    assert_eq!(text_of(&around(SurroundingInlineTag::Emphasis, vec![])), "()");
    assert_eq!(
        text_of(&around(SurroundingInlineTag::Link(LinkType::Inline, s("d"), s("t")), inner())),
        "(link)"
    );
    assert_eq!(
        text_of(&around(SurroundingInlineTag::Image(LinkType::Inline, s("d"), s("t")), inner())),
        "(image)"
    );
    assert_eq!(text_of(&around(SurroundingInlineTag::Custom(s("Sentence")), inner())), "a ");
    let nested = around(
        SurroundingInlineTag::Strong,
        vec![around(SurroundingInlineTag::Emphasis, inner()), content(ContentInlineTag::HardBreak)],
    );
    assert_eq!(text_of(&nested), "((a )\n)");
}

#[test]
fn a_list_is_appended_to_what_is_there() {
    let list = vec![
        content(ContentInlineTag::Text("x".to_string())),
        content(ContentInlineTag::Code("y".to_string())),
    ];
    let mut out = String::from(">");
    textualize_inline_list(&list, &mut out);
    assert_eq!(out, ">x(code)");
    textualize_inline_list(&Vec::new(), &mut out);
    assert_eq!(out, ">x(code)");
}
