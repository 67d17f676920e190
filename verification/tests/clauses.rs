use mdtranslation::ast::{ContentInlineTag, InlineNode};
use mdtranslation::clause::{Clause, DocumentClauseList};
use mdtranslation::from_tokens::cmark_ast_from_tokens;
use mdtranslation::token::{Event, Tag};

fn text(s: &str) -> InlineNode {
    InlineNode::Content { tag: ContentInlineTag::Text(s.to_string()) }
}

fn show<T: std::fmt::Debug>(value: &T) -> String {
    format!("{:?}", value)
}

fn para(s: &str) -> Vec<Event> {
    vec![Event::Start(Tag::Paragraph), Event::Text(s.to_string()), Event::End(Tag::Paragraph)]
}

fn document_with_a_footnote() -> Vec<Event> {
    let mut tokens = vec![Event::Start(Tag::FootnoteDefinition("n".to_string()))];
    tokens.extend(para("Note one. Note two."));
    tokens.push(Event::End(Tag::FootnoteDefinition("n".to_string())));
    tokens.extend(para("Hello world. How are you?"));
    tokens.push(Event::Start(Tag::BlockQuote));
    tokens.extend(para("Quoted."));
    tokens.push(Event::End(Tag::BlockQuote));
    tokens
}

#[test]
fn two_sentences_give_two_clauses() {
    let mut doc = cmark_ast_from_tokens(para("Hello world. How are you?")).unwrap();
    doc.perform_sentence_segment();
    let list = doc.extract_clause_list(&"en-US".to_string());
    assert_eq!(list.clauses.len(), 2);
    assert_eq!(list.clauses[0].clause_idx, 1);
    assert_eq!(list.clauses[1].clause_idx, 2);
    assert_eq!(show(&list.clauses[0].clause_contents), show(&vec![text("Hello world. ")]));
    assert_eq!(show(&list.clauses[1].clause_contents), show(&vec![text("How are you?")]));
    assert_eq!(
        show(&list.clauses[1].clause_translations),
        show(&vec![("en-US".to_string(), vec![text("How are you?")])])
    );
}

#[test]
fn clauses_of_a_footnote_come_after_those_of_the_main_blocks() {
    let mut doc = cmark_ast_from_tokens(document_with_a_footnote()).unwrap();
    doc.perform_sentence_segment();
    let list = doc.extract_clause_list(&"en-US".to_string());
    let found: Vec<(usize, String)> = list
        .clauses
        .iter()
        .map(|c| (c.clause_idx, show(&c.clause_contents)))
        .collect();
    let expected = vec![
        (1, show(&vec![text("Hello world. ")])),
        (2, show(&vec![text("How are you?")])),
        (3, show(&vec![text("Quoted.")])),
        (4, show(&vec![text("Note one. ")])),
        (5, show(&vec![text("Note two.")])),
    ];
    assert_eq!(found, expected);
}

#[test]
fn extracting_twice_gives_the_same_clauses() {
    let mut doc = cmark_ast_from_tokens(document_with_a_footnote()).unwrap();
    doc.perform_sentence_segment();
    let before = show(&doc);
    let first = doc.extract_clause_list(&"en-US".to_string());
    let second = doc.extract_clause_list(&"en-US".to_string());
    assert_eq!(show(&first), show(&second));
    assert_eq!(show(&doc), before);
}

#[test]
fn a_document_without_sentence_wrappers_has_no_clause() {
    let doc = cmark_ast_from_tokens(document_with_a_footnote()).unwrap();
    let list = doc.extract_clause_list(&"en-US".to_string());
    assert!(list.clauses.is_empty());
    assert!(list.into_tokens().collect_events().unwrap().is_empty());
}

#[test]
fn clauses_as_tokens() {
    let list = DocumentClauseList {
        clauses: vec![
            Clause {
                clause_contents: vec![text("Hi.")],
                clause_idx: 1,
                clause_translations: vec![
                    ("en-US".to_string(), vec![text("Hi.")]),
                    ("fr-FR".to_string(), vec![text("Salut.")]),
                ],
            },
            Clause {
                clause_contents: vec![text("Bye.")],
                clause_idx: 2,
                clause_translations: vec![],
            },
        ],
    };
    let t = |s: &str| Event::Text(s.to_string());
    let expected = vec![
        Event::Start(Tag::List(Some(1))),
        Event::Start(Tag::Item),
        t("Hi."),
        Event::End(Tag::Item),
        Event::End(Tag::List(Some(1))),
        Event::Start(Tag::Heading(3)),
        t("en-US"),
        Event::End(Tag::Heading(3)),
        Event::Start(Tag::Paragraph),
        t("Hi."),
        Event::End(Tag::Paragraph),
        Event::Start(Tag::Heading(3)),
        t("fr-FR"),
        Event::End(Tag::Heading(3)),
        Event::Start(Tag::Paragraph),
        t("Salut."),
        Event::End(Tag::Paragraph),
        Event::Rule,
        Event::Start(Tag::List(Some(2))),
        Event::Start(Tag::Item),
        t("Bye."),
        Event::End(Tag::Item),
        Event::End(Tag::List(Some(2))),
    ];
    assert_eq!(show(&list.into_tokens().collect_events().unwrap()), show(&expected));
}

#[test]
fn extracted_clauses_as_tokens() {
    let mut doc = cmark_ast_from_tokens(para("One. Two.")).unwrap();
    doc.perform_sentence_segment();
    let events =
        doc.extract_clause_list(&"en-US".to_string()).into_tokens().collect_events().unwrap();
    assert_eq!(events.len(), 11 + 1 + 11);
    assert!(matches!(&events[0], Event::Start(Tag::List(Some(1)))));
    assert!(matches!(&events[11], Event::Rule));
    assert!(matches!(&events[12], Event::Start(Tag::List(Some(2)))));
}
