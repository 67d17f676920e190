use mdtranslation::ast::{
    BlockNode, ContentInlineTag, Document, InlineNode, LeafBlockTag, LinkType,
    SurroundingInlineTag,
};
use mdtranslation::from_tokens::cmark_ast_from_tokens;
use mdtranslation::sentence_segment::{
    is_split_point, offset_from, perform_sentence_segment_for_leaf_contents, regroup_inlines,
    segment_inlines, split_text,
};
use mdtranslation::textualize::textualize_inline_list;
use mdtranslation::token::{Event, Tag};

fn text(s: &str) -> InlineNode {
    InlineNode::Content { tag: ContentInlineTag::Text(s.to_string()) }
}

fn around(tag: SurroundingInlineTag, contents: Vec<InlineNode>) -> InlineNode {
    InlineNode::Surrounding { tag, contents }
}

fn sentence(contents: Vec<InlineNode>) -> InlineNode {
    around(SurroundingInlineTag::Custom("Sentence".to_string()), contents)
}

fn show<T: std::fmt::Debug>(value: &T) -> String {
    format!("{:?}", value)
}

fn flat(list: &Vec<InlineNode>) -> String {
    let mut out = String::new();
    textualize_inline_list(list, &mut out);
    out
}

fn leaf_contents(doc: &Document, at: usize) -> &Vec<InlineNode> {
    match &doc.blocks[at] {
        BlockNode::Leaf { contents, .. } => contents,
        other => panic!("not a leaf: {:?}", other),
    }
}

fn segmented(list: Vec<InlineNode>) -> Vec<InlineNode> {
    let mut list = list;
    perform_sentence_segment_for_leaf_contents(&mut list);
    list
}

fn segmented_at(list: Vec<InlineNode>, starts: &[usize]) -> Vec<InlineNode> {
    let mut list = list;
    segment_inlines(&mut list, starts);
    list
}

#[test]
fn paragraph_of_two_sentences_gets_two_wrappers() {
    let tokens = vec![
        Event::Start(Tag::Paragraph),
        Event::Text("Hello world. How are you?".to_string()),
        Event::End(Tag::Paragraph),
    ];
    let mut doc = cmark_ast_from_tokens(tokens).unwrap();
    doc.perform_sentence_segment();
    let contents = leaf_contents(&doc, 0);
    let expected = vec![sentence(vec![text("Hello world. ")]), sentence(vec![text("How are you?")])];
    assert_eq!(show(contents), show(&expected));
    assert_eq!(flat(contents), "Hello world. How are you?");
    assert!(matches!(&doc.blocks[0], BlockNode::Leaf { tag: LeafBlockTag::Paragraph, .. }));
}

#[test]
fn emphasis_over_two_sentences() {
    let tokens = vec![
        Event::Start(Tag::Paragraph),
        Event::Start(Tag::Emphasis),
        Event::Text("Hello. World.".to_string()),
        Event::End(Tag::Emphasis),
        Event::End(Tag::Paragraph),
    ];
    let mut doc = cmark_ast_from_tokens(tokens).unwrap();
    doc.perform_sentence_segment();
    let contents = leaf_contents(&doc, 0);
    let expected = vec![sentence(vec![
        around(SurroundingInlineTag::Emphasis, vec![text("Hello. W")]),
        around(SurroundingInlineTag::Emphasis, vec![text("orld.")]),
    ])];
    assert_eq!(show(contents), show(&expected));
    assert_eq!(flat(contents), "(Hello. W)(orld.)");
}

#[test]
fn a_wrapped_text_cut_once_becomes_two_wrappers() {
    let list = vec![around(SurroundingInlineTag::Strong, vec![text("abcdef")])];
    let expected = vec![sentence(vec![
        around(SurroundingInlineTag::Strong, vec![text("abc")]),
        around(SurroundingInlineTag::Strong, vec![text("def")]),
    ])];
    assert_eq!(show(&segmented_at(list, &[0, 3])), show(&expected));
}

#[test]
fn content_without_a_sentence_stays_as_it_is() {
    let list = segmented(vec![text("!!!")]);
    assert_eq!(show(&list), show(&vec![text("!!!")]));
    let list = segmented(vec![]);
    assert!(list.is_empty());
    let list = segmented_at(vec![text("abc")], &[]);
    assert_eq!(show(&list), show(&vec![text("abc")]));
}

#[test]
fn one_sentence_gets_one_wrapper() {
    let list = segmented(vec![text("Just one.")]);
    assert_eq!(show(&list), show(&vec![sentence(vec![text("Just one.")])]));
}

#[test]
fn a_sentence_that_starts_late_is_cut_off_from_what_is_before_it() {
    let list = segmented(vec![text("!!! Hello. World.")]);
    let expected = vec![
        sentence(vec![text("!!! ")]),
        sentence(vec![text("Hello. ")]),
        sentence(vec![text("World.")]),
    ];
    assert_eq!(show(&list), show(&expected));
}

#[test]
fn sentences_across_nodes() {
    let code = || InlineNode::Content { tag: ContentInlineTag::Code("x".to_string()) };
    let link = || {
        around(
            SurroundingInlineTag::Link(LinkType::Inline, "u".to_string(), String::new()),
            vec![text("One. Two.")],
        )
    };
    let list = segmented(vec![text("See "), link(), text(" now. Then "), code(), text(" ran.")]);
    assert_eq!(flat(&list), "See (link) now. Then (code) ran.");
    let expected = vec![
        sentence(vec![text("See "), link(), text(" now. ")]),
        sentence(vec![text("Then "), code(), text(" ran.")]),
    ];
    assert_eq!(show(&list), show(&expected));
}

#[test]
fn text_of_more_than_one_byte_a_character() {
    let list = segmented(vec![text("Привет, мир. Как дела?")]);
    let expected =
        vec![sentence(vec![text("Привет, мир. ")]), sentence(vec![text("Как дела?")])];
    assert_eq!(show(&list), show(&expected));
}

#[test]
fn explicit_starts_cut_a_text() {
    let list = segmented_at(vec![text("abcdef")], &[0, 2, 4]);
    let expected =
        vec![sentence(vec![text("ab")]), sentence(vec![text("cd")]), sentence(vec![text("ef")])];
    assert_eq!(show(&list), show(&expected));
}

#[test]
fn a_start_beyond_the_text_is_ignored() {
    let list = segmented_at(vec![text("abc")], &[0, 3, 10]);
    assert_eq!(show(&list), show(&vec![sentence(vec![text("abc")])]));
}

#[test]
fn a_start_inside_a_character_is_ignored() {
    let list = segmented_at(vec![text("éa")], &[0, 1]);
    assert_eq!(show(&list), show(&vec![sentence(vec![text("éa")])]));
    let list = segmented_at(vec![text("éa")], &[0, 2]);
    assert_eq!(show(&list), show(&vec![sentence(vec![text("é")]), sentence(vec![text("a")])]));
}

#[test]
fn atomic_nodes_are_never_cut() {
    let code = || InlineNode::Content { tag: ContentInlineTag::Code("x".to_string()) };
    let list = segmented_at(vec![code(), text("ab")], &[0, 3, 6, 7]);
    let expected = vec![sentence(vec![code()]), sentence(vec![text("a")]), sentence(vec![text("b")])];
    assert_eq!(show(&list), show(&expected));
}

#[test]
fn nodes_without_text_join_the_open_group() {
    let empty = || text("");
    let list = segmented_at(vec![text("ab"), empty(), text("cd")], &[0, 2]);
    let expected = vec![sentence(vec![text("ab"), empty()]), sentence(vec![text("cd")])];
    assert_eq!(show(&list), show(&expected));
}

#[test]
fn plain_content_keeps_its_text() {
    let code = || InlineNode::Content { tag: ContentInlineTag::Code("x".to_string()) };
    let list = vec![text("One. Two"), InlineNode::Content { tag: ContentInlineTag::SoftBreak }, code(), text(". Three.")];
    let before = flat(&list);
    let after = segmented(list);
    assert_eq!(flat(&after), before);
    assert_eq!(flat(&after).len(), before.len());
    assert_eq!(after.len(), 3);
}

#[test]
fn split_text_appends_the_pieces() {
    let mut out = vec![text("kept")];
    split_text(&"abcdef".to_string(), &mut out, &[12, 13, 15, 20], 10);
    assert_eq!(show(&out), show(&vec![text("kept"), text("ab"), text("c"), text("de"), text("f")]));
    let mut out = Vec::new();
    split_text(&"abc".to_string(), &mut out, &[10, 13], 10);
    assert_eq!(show(&out), show(&vec![text("abc")]));
}

#[test]
fn regroup_wraps_each_group_once() {
    let mut out = Vec::new();
    let tag = SurroundingInlineTag::Emphasis;
    let em = |s: &str| around(SurroundingInlineTag::Emphasis, vec![text(s)]);
    regroup_inlines(vec![em("a"), text("b"), text("c")], &mut out, &tag, &[8, 9], 5);
    let expected = vec![em("a"), around(SurroundingInlineTag::Emphasis, vec![text("b")]), around(SurroundingInlineTag::Emphasis, vec![text("c")])];
    assert_eq!(show(&out), show(&expected));
}

#[test]
fn split_points_and_offsets() {
    assert!(is_split_point(3, &[1, 3, 5]));
    assert!(!is_split_point(4, &[1, 3, 5]));
    assert!(!is_split_point(0, &[]));
    assert_eq!(offset_from(100, 113), 13);
    assert_eq!(offset_from(100, 100), 0);
    assert_eq!(offset_from(100, 99), 0);
}

#[test]
fn every_leaf_of_a_document_is_segmented() {
    let para = |s: &str| {
        vec![
            Event::Start(Tag::Paragraph),
            Event::Text(s.to_string()),
            Event::End(Tag::Paragraph),
        ]
    };
    let mut tokens = vec![Event::Start(Tag::BlockQuote)];
    tokens.extend(para("A b. C d."));
    tokens.push(Event::End(Tag::BlockQuote));
    tokens.push(Event::Rule);
    tokens.push(Event::Start(Tag::FootnoteDefinition("n".to_string())));
    tokens.extend(para("E f. G h."));
    tokens.push(Event::End(Tag::FootnoteDefinition("n".to_string())));
    let mut doc = cmark_ast_from_tokens(tokens).unwrap();
    doc.perform_sentence_segment();
    let expected_main = vec![sentence(vec![text("A b. ")]), sentence(vec![text("C d.")])];
    let expected_note = vec![sentence(vec![text("E f. ")]), sentence(vec![text("G h.")])];
    match &doc.blocks[0] {
        BlockNode::Container { children, .. } => match &children[0] {
            BlockNode::Leaf { contents, .. } => assert_eq!(show(contents), show(&expected_main)),
            other => panic!("unexpected {:?}", other),
        },
        other => panic!("unexpected {:?}", other),
    }
    assert!(matches!(&doc.blocks[1], BlockNode::Markup { .. }));
    match &doc.outofbands[0] {
        mdtranslation::ast::OutOfBandNode::OutOfBandContainer { children, .. } => {
            match &children[0] {
                BlockNode::Leaf { contents, .. } => {
                    assert_eq!(show(contents), show(&expected_note))
                }
                other => panic!("unexpected {:?}", other),
            }
        }
        other => panic!("unexpected {:?}", other),
    }
}
