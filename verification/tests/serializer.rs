use mdtranslation::ast::{
    BlockNode, CodeBlockKind, ContainerBlockTag, ContentInlineTag, Document, InlineNode,
    LeafBlockTag, LinkType, MarkupBlockTag, OutOfBandLeafTag, OutOfBandNode, SurroundingInlineTag,
};
use mdtranslation::from_tokens::cmark_ast_from_tokens;
use mdtranslation::into_tokens::ExtendFront;
use mdtranslation::token::{Event, Tag};
use std::collections::VecDeque;

fn text(s: &str) -> Event {
    Event::Text(s.to_string())
}

fn show<T: std::fmt::Debug>(value: &T) -> String {
    format!("{:?}", value)
}

fn copy(tokens: &Vec<Event>) -> Vec<Event> {
    tokens.iter().map(|e| e.clone()).collect()
}

fn there_and_back(tokens: &Vec<Event>) -> Vec<Event> {
    cmark_ast_from_tokens(copy(tokens)).unwrap().into_tokens().collect_events().unwrap()
}

#[test]
fn tokens_in_tree_order_come_back_as_they_were() {
    let tokens = vec![
        Event::Start(Tag::Heading(1)),
        text("Title"),
        Event::End(Tag::Heading(1)),
        Event::Start(Tag::Paragraph),
        text("a "),
        Event::Start(Tag::Link(LinkType::Inline, "u".to_string(), "t".to_string())),
        Event::Start(Tag::Strong),
        text("b"),
        Event::End(Tag::Strong),
        Event::End(Tag::Link(LinkType::Inline, "u".to_string(), "t".to_string())),
        Event::HardBreak,
        Event::FootnoteReference("n".to_string()),
        Event::TaskListMarker(false),
        Event::End(Tag::Paragraph),
        Event::Rule,
        Event::Start(Tag::CodeBlock(CodeBlockKind::Fenced("sh".to_string()))),
        text("ls\n"),
        Event::End(Tag::CodeBlock(CodeBlockKind::Fenced("sh".to_string()))),
        Event::Start(Tag::List(Some(1))),
        Event::Start(Tag::Item),
        Event::Start(Tag::Paragraph),
        text("x"),
        Event::End(Tag::Paragraph),
        Event::Start(Tag::BlockQuote),
        Event::End(Tag::BlockQuote),
        Event::End(Tag::Item),
        Event::Start(Tag::Item),
        Event::End(Tag::Item),
        Event::End(Tag::List(Some(1))),
        Event::Start(Tag::FootnoteDefinition("n".to_string())),
        Event::Start(Tag::Paragraph),
        text("note"),
        Event::End(Tag::Paragraph),
        Event::End(Tag::FootnoteDefinition("n".to_string())),
        Event::Start(Tag::FootnoteDefinition("m".to_string())),
        Event::End(Tag::FootnoteDefinition("m".to_string())),
    ];
    assert_eq!(show(&there_and_back(&tokens)), show(&tokens));
}

#[test]
fn raw_html_fragments_come_back_one_by_one() {
    let tokens = vec![
        Event::Html("<div>\n".to_string()),
        Event::Html("</div>\n".to_string()),
        Event::Start(Tag::Paragraph),
        text("x"),
        Event::End(Tag::Paragraph),
        Event::Html("<hr>\n".to_string()),
    ];
    assert_eq!(show(&there_and_back(&tokens)), show(&tokens));
}

#[test]
fn inline_content_of_a_list_item_comes_back_in_a_paragraph() {
    let tokens = vec![
        Event::Start(Tag::List(None)),
        Event::Start(Tag::Item),
        text("foo"),
        Event::End(Tag::Item),
        Event::End(Tag::List(None)),
    ];
    let expected = vec![
        Event::Start(Tag::List(None)),
        Event::Start(Tag::Item),
        Event::Start(Tag::Paragraph),
        text("foo"),
        Event::End(Tag::Paragraph),
        Event::End(Tag::Item),
        Event::End(Tag::List(None)),
    ];
    assert_eq!(show(&there_and_back(&tokens)), show(&expected));
}

#[test]
fn out_of_band_nodes_come_after_all_main_blocks() {
    let tokens = vec![
        Event::Start(Tag::FootnoteDefinition("n".to_string())),
        Event::End(Tag::FootnoteDefinition("n".to_string())),
        Event::Rule,
    ];
    let expected = vec![
        Event::Rule,
        Event::Start(Tag::FootnoteDefinition("n".to_string())),
        Event::End(Tag::FootnoteDefinition("n".to_string())),
    ];
    assert_eq!(show(&there_and_back(&tokens)), show(&expected));
}

#[test]
fn next_gives_one_token_at_a_time() {
    let doc = Document {
        blocks: vec![BlockNode::Leaf {
            tag: LeafBlockTag::Paragraph,
            contents: vec![InlineNode::Content { tag: ContentInlineTag::SoftBreak }],
        }],
        outofbands: vec![],
    };
    let mut stream = doc.into_tokens();
    assert_eq!(show(&stream.next()), show(&Ok::<_, ()>(Some(Event::Start(Tag::Paragraph)))));
    assert_eq!(show(&stream.next()), show(&Ok::<_, ()>(Some(Event::SoftBreak))));
    assert_eq!(show(&stream.next()), show(&Ok::<_, ()>(Some(Event::End(Tag::Paragraph)))));
    assert!(matches!(stream.next(), Ok(None)));
    assert!(matches!(stream.next(), Ok(None)));
}

#[test]
fn a_custom_tag_fails_where_it_stands() {
    let doc = Document {
        blocks: vec![
            BlockNode::Markup { tag: MarkupBlockTag::Rule },
            BlockNode::Leaf {
                tag: LeafBlockTag::Paragraph,
                contents: vec![InlineNode::Surrounding {
                    tag: SurroundingInlineTag::Custom("Sentence".to_string()),
                    contents: vec![InlineNode::Content { tag: ContentInlineTag::HardBreak }],
                }],
            },
        ],
        outofbands: vec![],
    };
    assert!(doc.clone().into_tokens().collect_events().is_err());
    let mut stream = doc.into_tokens();
    assert!(matches!(stream.next(), Ok(Some(Event::Rule))));
    assert!(matches!(stream.next(), Ok(Some(Event::Start(Tag::Paragraph)))));
    assert!(stream.next().is_err());
    assert!(matches!(stream.next(), Ok(Some(Event::End(Tag::Paragraph)))));
    assert!(matches!(stream.next(), Ok(None)));
}

#[test]
fn custom_tags_of_every_kind_fail() {
    let name = || "mine".to_string();
    let docs = vec![
        Document {
            blocks: vec![BlockNode::Container {
                tag: ContainerBlockTag::Custom(name()),
                children: vec![],
            }],
            outofbands: vec![],
        },
        Document {
            blocks: vec![BlockNode::Leaf { tag: LeafBlockTag::Custom(name()), contents: vec![] }],
            outofbands: vec![],
        },
        Document {
            blocks: vec![BlockNode::Markup { tag: MarkupBlockTag::Custom(name()) }],
            outofbands: vec![],
        },
        Document {
            blocks: vec![BlockNode::Leaf {
                tag: LeafBlockTag::Paragraph,
                contents: vec![InlineNode::Content { tag: ContentInlineTag::Custom(name()) }],
            }],
            outofbands: vec![],
        },
        Document {
            blocks: vec![],
            outofbands: vec![OutOfBandNode::OutOfBandLeaf {
                tag: OutOfBandLeafTag::Custom(name()),
                contents: vec![],
            }],
        },
    ];
    for doc in docs {
        assert!(doc.into_tokens().collect_events().is_err());
    }
}

#[test]
fn an_empty_html_leaf_gives_no_token() {
    let doc = Document {
        blocks: vec![
            BlockNode::Leaf { tag: LeafBlockTag::Html, contents: vec![] },
            BlockNode::Markup { tag: MarkupBlockTag::Rule },
        ],
        outofbands: vec![],
    };
    let events = doc.into_tokens().collect_events().unwrap();
    assert_eq!(show(&events), show(&vec![Event::Rule]));
}

#[test]
fn extend_front_keeps_the_order() {
    let mut deque: VecDeque<u32> = VecDeque::new();
    deque.push_back(4);
    deque.push_back(5);
    ExtendFront::extend_front(&mut deque, vec![1, 2, 3]);
    assert_eq!(deque.into_iter().collect::<Vec<u32>>(), vec![1, 2, 3, 4, 5]);
    let mut empty: VecDeque<u32> = VecDeque::new();
    ExtendFront::extend_front(&mut empty, vec![]);
    assert!(empty.is_empty());
}
