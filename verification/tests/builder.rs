use mdtranslation::ast::{
    BlockNode, ContainerBlockTag, ContentInlineTag, InlineNode, LeafBlockTag, MarkupBlockTag,
    OutOfBandContainerTag, OutOfBandNode, SurroundingInlineTag,
};
use mdtranslation::from_tokens::{cmark_ast_from_tokens, read_token_or_token_region};
use mdtranslation::token::{Event, Tag};

fn text(s: &str) -> Event {
    Event::Text(s.to_string())
}

fn show<T: std::fmt::Debug>(value: &T) -> String {
    format!("{:?}", value)
}

#[test]
fn paragraph_with_text_builds_one_leaf() {
    let tokens = vec![
        Event::Start(Tag::Paragraph),
        text("Hello world. How are you?"),
        Event::End(Tag::Paragraph),
    ];
    let doc = cmark_ast_from_tokens(tokens).unwrap();
    assert_eq!(doc.blocks.len(), 1);
    assert_eq!(doc.outofbands.len(), 0);
    match &doc.blocks[0] {
        BlockNode::Leaf { tag: LeafBlockTag::Paragraph, contents } => {
            assert_eq!(contents.len(), 1);
            match &contents[0] {
                InlineNode::Content { tag: ContentInlineTag::Text(s) } => {
                    assert_eq!(s.as_str(), "Hello world. How are you?")
                }
                other => panic!("unexpected node {:?}", other),
            }
        }
        other => panic!("unexpected block {:?}", other),
    }
}

#[test]
fn empty_stream_builds_empty_document() {
    let doc = cmark_ast_from_tokens(Vec::new()).unwrap();
    assert!(doc.blocks.is_empty());
    assert!(doc.outofbands.is_empty());
}

#[test]
fn nested_blocks_and_inlines() {
    let tokens = vec![
        Event::Start(Tag::BlockQuote),
        Event::Start(Tag::Heading(2)),
        Event::Start(Tag::Strong),
        text("a"),
        Event::End(Tag::Strong),
        Event::SoftBreak,
        Event::Code("b".to_string()),
        Event::End(Tag::Heading(2)),
        Event::Rule,
        Event::End(Tag::BlockQuote),
    ];
    let doc = cmark_ast_from_tokens(tokens).unwrap();
    let expected = vec![BlockNode::Container {
        tag: ContainerBlockTag::BlockQuote,
        children: vec![
            BlockNode::Leaf {
                tag: LeafBlockTag::Heading(2),
                contents: vec![
                    InlineNode::Surrounding {
                        tag: SurroundingInlineTag::Strong,
                        contents: vec![InlineNode::Content {
                            tag: ContentInlineTag::Text("a".to_string()),
                        }],
                    },
                    InlineNode::Content { tag: ContentInlineTag::SoftBreak },
                    InlineNode::Content { tag: ContentInlineTag::Code("b".to_string()) },
                ],
            },
            BlockNode::Markup { tag: MarkupBlockTag::Rule },
        ],
    }];
    assert_eq!(show(&doc.blocks), show(&expected));
    assert!(doc.outofbands.is_empty());
}

#[test]
fn inline_content_of_a_list_item_becomes_a_paragraph() {
    let tokens = vec![
        Event::Start(Tag::List(None)),
        Event::Start(Tag::Item),
        text("foo"),
        Event::Start(Tag::Emphasis),
        text("bar"),
        Event::End(Tag::Emphasis),
        Event::Start(Tag::List(Some(3))),
        Event::Start(Tag::Item),
        Event::Start(Tag::Paragraph),
        text("inner"),
        Event::End(Tag::Paragraph),
        Event::End(Tag::Item),
        Event::End(Tag::List(Some(3))),
        text("tail"),
        Event::End(Tag::Item),
        Event::End(Tag::List(None)),
    ];
    let doc = cmark_ast_from_tokens(tokens).unwrap();
    let paragraph = |contents: Vec<InlineNode>| BlockNode::Leaf {
        tag: LeafBlockTag::Paragraph,
        contents,
    };
    let t = |s: &str| InlineNode::Content { tag: ContentInlineTag::Text(s.to_string()) };
    let expected = vec![BlockNode::Container {
        tag: ContainerBlockTag::List(None),
        children: vec![BlockNode::Container {
            tag: ContainerBlockTag::ListItem,
            children: vec![
                paragraph(vec![
                    t("foo"),
                    InlineNode::Surrounding {
                        tag: SurroundingInlineTag::Emphasis,
                        contents: vec![t("bar")],
                    },
                ]),
                BlockNode::Container {
                    tag: ContainerBlockTag::List(Some(3)),
                    children: vec![BlockNode::Container {
                        tag: ContainerBlockTag::ListItem,
                        children: vec![paragraph(vec![t("inner")])],
                    }],
                },
                paragraph(vec![t("tail")]),
            ],
        }],
    }];
    assert_eq!(show(&doc.blocks), show(&expected));
}

#[test]
fn raw_html_fragments_merge_into_one_leaf() {
    let tokens = vec![
        Event::Html("<div>\n".to_string()),
        Event::Html("x\n".to_string()),
        Event::Html("</div>\n".to_string()),
        Event::Start(Tag::Paragraph),
        Event::Html("<b>".to_string()),
        Event::End(Tag::Paragraph),
    ];
    let doc = cmark_ast_from_tokens(tokens).unwrap();
    let raw = |s: &str| InlineNode::Content { tag: ContentInlineTag::RawHtml(s.to_string()) };
    let expected = vec![
        BlockNode::Leaf {
            tag: LeafBlockTag::Html,
            contents: vec![raw("<div>\n"), raw("x\n"), raw("</div>\n")],
        },
        BlockNode::Leaf { tag: LeafBlockTag::Paragraph, contents: vec![raw("<b>")] },
    ];
    assert_eq!(show(&doc.blocks), show(&expected));
}

#[test]
fn footnote_definitions_are_hoisted_in_order_of_discovery() {
    let tokens = vec![
        Event::Start(Tag::BlockQuote),
        Event::Start(Tag::FootnoteDefinition("a".to_string())),
        Event::Start(Tag::Paragraph),
        text("one"),
        Event::End(Tag::Paragraph),
        Event::Start(Tag::FootnoteDefinition("b".to_string())),
        Event::End(Tag::FootnoteDefinition("b".to_string())),
        Event::End(Tag::FootnoteDefinition("a".to_string())),
        Event::End(Tag::BlockQuote),
        Event::Start(Tag::Paragraph),
        Event::FootnoteReference("a".to_string()),
        Event::End(Tag::Paragraph),
    ];
    let doc = cmark_ast_from_tokens(tokens).unwrap();
    assert_eq!(doc.blocks.len(), 2);
    match &doc.blocks[0] {
        BlockNode::Container { tag: ContainerBlockTag::BlockQuote, children } => {
            assert!(children.is_empty())
        }
        other => panic!("unexpected block {:?}", other),
    }
    let expected = vec![
        OutOfBandNode::OutOfBandContainer {
            tag: OutOfBandContainerTag::FootNoteDef("a".to_string()),
            children: vec![BlockNode::Leaf {
                tag: LeafBlockTag::Paragraph,
                contents: vec![InlineNode::Content {
                    tag: ContentInlineTag::Text("one".to_string()),
                }],
            }],
        },
        OutOfBandNode::OutOfBandContainer {
            tag: OutOfBandContainerTag::FootNoteDef("b".to_string()),
            children: vec![],
        },
    ];
    assert_eq!(show(&doc.outofbands), show(&expected));
}

#[test]
fn mismatched_close_is_an_error() {
    let tokens = vec![
        Event::Start(Tag::Paragraph),
        Event::Start(Tag::Emphasis),
        text("x"),
        Event::End(Tag::Strong),
        Event::End(Tag::Paragraph),
    ];
    assert!(cmark_ast_from_tokens(tokens).is_err());
    let tokens = vec![Event::Start(Tag::Heading(1)), Event::End(Tag::Heading(2))];
    assert!(cmark_ast_from_tokens(tokens).is_err());
}

#[test]
fn close_without_open_is_an_error() {
    assert!(cmark_ast_from_tokens(vec![Event::End(Tag::Paragraph)]).is_err());
}

#[test]
fn end_of_stream_before_the_terminator_is_an_error() {
    let tokens = vec![Event::Start(Tag::Paragraph), text("x")];
    assert!(cmark_ast_from_tokens(tokens).is_err());
    let tokens = vec![Event::Start(Tag::List(None)), Event::Start(Tag::Item), text("x")];
    assert!(cmark_ast_from_tokens(tokens).is_err());
}

#[test]
fn content_outside_inline_context_is_an_error() {
    assert!(cmark_ast_from_tokens(vec![text("x")]).is_err());
    assert!(cmark_ast_from_tokens(vec![Event::SoftBreak]).is_err());
    assert!(cmark_ast_from_tokens(vec![Event::TaskListMarker(true)]).is_err());
    let tokens = vec![
        Event::Start(Tag::BlockQuote),
        Event::Code("x".to_string()),
        Event::End(Tag::BlockQuote),
    ];
    assert!(cmark_ast_from_tokens(tokens).is_err());
}

#[test]
fn markup_outside_block_context_is_an_error() {
    let tokens = vec![Event::Start(Tag::Paragraph), Event::Rule, Event::End(Tag::Paragraph)];
    assert!(cmark_ast_from_tokens(tokens).is_err());
}

#[test]
fn block_inside_inline_context_is_an_error() {
    let tokens = vec![
        Event::Start(Tag::Paragraph),
        Event::Start(Tag::BlockQuote),
        Event::End(Tag::BlockQuote),
        Event::End(Tag::Paragraph),
    ];
    assert!(cmark_ast_from_tokens(tokens).is_err());
    let tokens = vec![Event::Start(Tag::Emphasis), Event::End(Tag::Emphasis)];
    assert!(cmark_ast_from_tokens(tokens).is_err());
}

#[test]
fn list_item_closed_by_another_tag_is_an_error() {
    let tokens = vec![
        Event::Start(Tag::List(None)),
        Event::Start(Tag::Item),
        Event::End(Tag::List(None)),
    ];
    assert!(cmark_ast_from_tokens(tokens).is_err());
}

#[test]
fn region_reader_finds_the_matching_close() {
    let tokens = vec![
        Event::Start(Tag::Emphasis),
        Event::Start(Tag::Strong),
        text("x"),
        Event::End(Tag::Strong),
        Event::End(Tag::Emphasis),
        text("y"),
    ];
    assert_eq!(read_token_or_token_region(&tokens, 0, 6).unwrap(), 5);
    assert_eq!(read_token_or_token_region(&tokens, 1, 6).unwrap(), 4);
    assert_eq!(read_token_or_token_region(&tokens, 2, 6).unwrap(), 3);
    assert_eq!(read_token_or_token_region(&tokens, 5, 6).unwrap(), 6);
    assert_eq!(read_token_or_token_region(&tokens, 0, 3).unwrap(), 3);
    assert!(read_token_or_token_region(&tokens, 3, 6).is_err());
    assert_eq!(read_token_or_token_region(&tokens, 6, 6).unwrap(), 6);
}

#[test]
fn error_message() {
    let err = cmark_ast_from_tokens(vec![Event::Rule, Event::End(Tag::Item)]).unwrap_err();
    assert_eq!(err.message(), "FromTokensError");
}
