use mdtranslation::ast::{
    Alignment, CodeBlockKind, ContainerBlockTag, ContentInlineTag, LeafBlockTag, LinkType,
    MarkupBlockTag, OutOfBandLeafTag, SurroundingInlineTag,
};
use mdtranslation::tag::{
    convert_tag, is_token_inline, unconvert_tag, ConvertedInbandTag, ConvertedOutofbandTag,
    ConvertedTag, UnconvertedTag,
};
use mdtranslation::token::{Event, Tag};

fn all_tags() -> Vec<Tag> {
    vec![
        Tag::Paragraph,
        Tag::Heading(4),
        Tag::BlockQuote,
        Tag::CodeBlock(CodeBlockKind::Indented),
        Tag::CodeBlock(CodeBlockKind::Fenced("rust".to_string())),
        Tag::List(None),
        Tag::List(Some(7)),
        Tag::Item,
        Tag::FootnoteDefinition("note".to_string()),
        Tag::Table(vec![Alignment::Unset, Alignment::Left, Alignment::Center, Alignment::Right]),
        Tag::TableHead,
        Tag::TableRow,
        Tag::TableCell,
        Tag::Emphasis,
        Tag::Strong,
        Tag::Strikethrough,
        Tag::Link(LinkType::Inline, "dest".to_string(), "title".to_string()),
        Tag::Image(LinkType::Autolink, "src".to_string(), "alt".to_string()),
    ]
}

#[test]
fn every_tag_comes_back_as_its_opening_and_closing_tokens() {
    for tag in all_tags() {
        match unconvert_tag(convert_tag(tag.clone())) {
            UnconvertedTag::SpanEvent(Event::Start(open), Event::End(close)) => {
                assert!(open.same_as(&tag), "{:?}", tag);
                assert!(close.same_as(&tag), "{:?}", tag);
            }
            other => panic!("{:?} became {:?}", tag, other),
        }
    }
}

#[test]
fn tags_are_classified_by_kind() {
    let kind = |tag: Tag| match convert_tag(tag) {
        ConvertedTag::InBand(ConvertedInbandTag::ContainerBlock(_)) => "container",
        ConvertedTag::InBand(ConvertedInbandTag::LeafBlock(_)) => "leaf",
        ConvertedTag::InBand(ConvertedInbandTag::MarkupBlock(_)) => "markup",
        ConvertedTag::InBand(ConvertedInbandTag::SurroundingInline(_)) => "surrounding",
        ConvertedTag::InBand(ConvertedInbandTag::ContentInline(_)) => "content",
        ConvertedTag::OutOfBand(ConvertedOutofbandTag::OutOfBandContainer(_)) => "oob container",
        ConvertedTag::OutOfBand(ConvertedOutofbandTag::OutOfBandLeaf(_)) => "oob leaf",
    };
    let kinds: Vec<&str> = all_tags().into_iter().map(kind).collect();
    assert_eq!(
        kinds,
        vec![
            "leaf",
            "leaf",
            "container",
            "leaf",
            "leaf",
            "container",
            "container",
            "container",
            "oob container",
            "container",
            "container",
            "container",
            "leaf",
            "surrounding",
            "surrounding",
            "surrounding",
            "surrounding",
            "surrounding",
        ]
    );
}

#[test]
fn custom_tags_have_no_token_form() {
    let name = || "mine".to_string();
    let customs = vec![
        ConvertedTag::InBand(ConvertedInbandTag::ContainerBlock(ContainerBlockTag::Custom(name()))),
        ConvertedTag::InBand(ConvertedInbandTag::LeafBlock(LeafBlockTag::Custom(name()))),
        ConvertedTag::InBand(ConvertedInbandTag::MarkupBlock(MarkupBlockTag::Custom(name()))),
        ConvertedTag::InBand(ConvertedInbandTag::SurroundingInline(SurroundingInlineTag::Custom(
            name(),
        ))),
        ConvertedTag::InBand(ConvertedInbandTag::ContentInline(ContentInlineTag::Custom(name()))),
        ConvertedTag::OutOfBand(ConvertedOutofbandTag::OutOfBandLeaf(OutOfBandLeafTag::Custom(
            name(),
        ))),
    ];
    for tag in customs {
        match unconvert_tag(tag) {
            UnconvertedTag::Custom(n) => assert_eq!(n, "mine"),
            other => panic!("unexpected {:?}", other),
        }
    }
}

#[test]
fn other_token_forms() {
    let leaf = ConvertedTag::InBand(ConvertedInbandTag::LeafBlock(LeafBlockTag::Html));
    assert!(matches!(unconvert_tag(leaf), UnconvertedTag::TransparentEvent));
    let rule = ConvertedTag::InBand(ConvertedInbandTag::MarkupBlock(MarkupBlockTag::Rule));
    assert!(matches!(unconvert_tag(rule), UnconvertedTag::SingleEvent(Event::Rule)));
    let marker =
        ConvertedTag::InBand(ConvertedInbandTag::ContentInline(ContentInlineTag::TaskListMarker(
            true,
        )));
    assert!(matches!(
        unconvert_tag(marker),
        UnconvertedTag::SingleEvent(Event::TaskListMarker(true))
    ));
    let raw = ConvertedTag::InBand(ConvertedInbandTag::ContentInline(ContentInlineTag::RawHtml(
        "<i>".to_string(),
    )));
    match unconvert_tag(raw) {
        UnconvertedTag::SingleEvent(Event::Html(s)) => assert_eq!(s, "<i>"),
        other => panic!("unexpected {:?}", other),
    }
}

#[test]
fn inline_tokens_and_block_tokens() {
    let inline = vec![
        Event::Start(Tag::Emphasis),
        Event::End(Tag::Strong),
        Event::Start(Tag::Strikethrough),
        Event::Start(Tag::Link(LinkType::Inline, String::new(), String::new())),
        Event::End(Tag::Image(LinkType::Inline, String::new(), String::new())),
        Event::Text("x".to_string()),
        Event::Code("x".to_string()),
        Event::Html("x".to_string()),
        Event::FootnoteReference("x".to_string()),
        Event::SoftBreak,
        Event::HardBreak,
        Event::TaskListMarker(false),
    ];
    for e in &inline {
        assert!(is_token_inline(e), "{:?}", e);
    }
    let block = vec![
        Event::Rule,
        Event::Start(Tag::Paragraph),
        Event::End(Tag::Heading(1)),
        Event::Start(Tag::BlockQuote),
        Event::Start(Tag::CodeBlock(CodeBlockKind::Indented)),
        Event::Start(Tag::List(None)),
        Event::End(Tag::Item),
        Event::Start(Tag::FootnoteDefinition("x".to_string())),
        Event::Start(Tag::Table(vec![])),
        Event::Start(Tag::TableHead),
        Event::Start(Tag::TableRow),
        Event::Start(Tag::TableCell),
    ];
    for e in &block {
        assert!(!is_token_inline(e), "{:?}", e);
    }
}

#[test]
fn tags_compare_by_kind_and_payload() {
    let tags = all_tags();
    for (i, a) in tags.iter().enumerate() {
        for (j, b) in tags.iter().enumerate() {
            assert_eq!(a.same_as(b), i == j, "{:?} {:?}", a, b);
        }
    }
    let a = Tag::Table(vec![Alignment::Left, Alignment::Right]);
    let b = Tag::Table(vec![Alignment::Left]);
    assert!(!a.same_as(&b));
    let c = Tag::Link(LinkType::Inline, "d".to_string(), "t".to_string());
    let d = Tag::Link(LinkType::Inline, "d".to_string(), "u".to_string());
    assert!(!c.same_as(&d));
}

#[test]
fn tags_and_tokens_compare_with_the_operator() {
    assert_eq!(Tag::List(Some(2)), Tag::List(Some(2)));
    assert_ne!(Tag::List(Some(2)), Tag::List(None));
    assert_eq!(
        Event::Start(Tag::CodeBlock(CodeBlockKind::Fenced("a".to_string()))),
        Event::Start(Tag::CodeBlock(CodeBlockKind::Fenced("a".to_string())))
    );
    assert_ne!(Event::Text("a".to_string()), Event::Code("a".to_string()));
    assert_ne!(Event::Start(Tag::Item), Event::End(Tag::Item));
    assert_eq!(
        vec![Event::Rule, Event::TaskListMarker(true)],
        vec![Event::Rule, Event::TaskListMarker(true)]
    );
    assert_eq!(ContainerBlockTag::Table(vec![Alignment::Left]), ContainerBlockTag::Table(vec![Alignment::Left]));
    assert_ne!(ContainerBlockTag::Table(vec![Alignment::Left]), ContainerBlockTag::Table(vec![]));
    assert_ne!(LeafBlockTag::Heading(1), LeafBlockTag::Heading(2));
    assert_eq!(LeafBlockTag::CodeBlock(CodeBlockKind::Indented), LeafBlockTag::CodeBlock(CodeBlockKind::Indented));
    assert_ne!(MarkupBlockTag::Rule, MarkupBlockTag::Custom("Rule".to_string()));
    assert_eq!(OutOfBandLeafTag::Custom("x".to_string()), OutOfBandLeafTag::Custom("x".to_string()));
    assert_eq!(SurroundingInlineTag::Custom("Sentence".to_string()), SurroundingInlineTag::Custom("Sentence".to_string()));
    assert_ne!(SurroundingInlineTag::Emphasis, SurroundingInlineTag::Strong);
    assert_ne!(ContentInlineTag::SoftBreak, ContentInlineTag::HardBreak);
    assert_eq!(ContentInlineTag::Text("a".to_string()), ContentInlineTag::Text("a".to_string()));
}
