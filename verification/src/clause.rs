//! Clauses: the sentences of a segmented document, numbered in reading
//! order and paired with their renderings by language.
use crate::ast::{
    clone_inlines, inlines_view, lemma_container_view, lemma_surrounding_view, BlockNode,
    BlockNodeView, Document, DocumentView, InlineNode, InlineNodeView, OutOfBandNode,
    OutOfBandNodeView,
};
use crate::sentence_segment::{sentence_tag, sentence_tag_view};
use vstd::prelude::*;

verus! {

/// One sentence of a document, with its number and its renderings: pairs
/// of a language tag and inline content.
#[derive(Debug)]
pub struct Clause {
    pub clause_contents: Vec<InlineNode>,
    pub clause_idx: usize,
    pub clause_translations: Vec<(String, Vec<InlineNode>)>,
}

/// Value of a [`Clause`].
pub struct ClauseView {
    pub contents: Seq<InlineNodeView>,
    pub idx: nat,
    pub translations: Seq<(Seq<char>, Seq<InlineNodeView>)>,
}

/// Values of a list of renderings.
pub open spec fn translations_view(list: Seq<(String, Vec<InlineNode>)>) -> Seq<
    (Seq<char>, Seq<InlineNodeView>),
> {
    list.map_values(|t: (String, Vec<InlineNode>)| (t.0@, inlines_view(t.1@)))
}

impl View for Clause {
    type V = ClauseView;

    open spec fn view(&self) -> ClauseView {
        ClauseView {
            contents: inlines_view(self.clause_contents@),
            idx: self.clause_idx as nat,
            translations: translations_view(self.clause_translations@),
        }
    }
}

/// Values of a list of clauses.
pub open spec fn clauses_view(list: Seq<Clause>) -> Seq<ClauseView> {
    list.map_values(|c: Clause| c@)
}

/// The clauses of a document, in reading order.
#[derive(Debug)]
pub struct DocumentClauseList {
    pub clauses: Vec<Clause>,
}

impl View for DocumentClauseList {
    type V = Seq<ClauseView>;

    open spec fn view(&self) -> Seq<ClauseView> {
        clauses_view(self.clauses@)
    }
}

/// The contents of the sentence wrappers among the first `n` nodes of a
/// leaf's content, in order. Only wrappers that stand directly in the
/// content count.
pub open spec fn sentences_upto(list: Seq<InlineNodeView>, n: nat) -> Seq<Seq<InlineNodeView>>
    decreases n,
{
    if n == 0 || n > list.len() {
        Seq::empty()
    } else {
        match list[n - 1] {
            InlineNodeView::Surrounding { tag, contents } => if tag == sentence_tag_view() {
                sentences_upto(list, (n - 1) as nat).push(contents)
            } else {
                sentences_upto(list, (n - 1) as nat)
            },
            _ => sentences_upto(list, (n - 1) as nat),
        }
    }
}

/// The sentences of a leaf's content.
pub open spec fn sentences_of_inlines(list: Seq<InlineNodeView>) -> Seq<Seq<InlineNodeView>> {
    sentences_upto(list, list.len())
}

/// The sentences of a block, depth first: those of its leaves, in order.
pub open spec fn sentences_of_block(block: BlockNodeView) -> Seq<Seq<InlineNodeView>>
    decreases block,
{
    match block {
        BlockNodeView::Container { tag, children } => sentences_of_blocks_upto(
            children,
            children.len(),
        ),
        BlockNodeView::Leaf { tag, contents } => sentences_of_inlines(contents),
        BlockNodeView::Markup { tag } => Seq::empty(),
    }
}

/// The sentences of the first `n` blocks of a list.
pub open spec fn sentences_of_blocks_upto(list: Seq<BlockNodeView>, n: nat) -> Seq<
    Seq<InlineNodeView>,
>
    decreases list, n,
{
    if n == 0 || n > list.len() {
        Seq::empty()
    } else {
        sentences_of_blocks_upto(list, (n - 1) as nat) + sentences_of_block(list[n - 1])
    }
}

/// The sentences of a list of blocks.
pub open spec fn sentences_of_blocks(list: Seq<BlockNodeView>) -> Seq<Seq<InlineNodeView>> {
    sentences_of_blocks_upto(list, list.len())
}

/// The sentences of an out-of-band node.
pub open spec fn sentences_of_out_of_band(node: OutOfBandNodeView) -> Seq<Seq<InlineNodeView>> {
    match node {
        OutOfBandNodeView::OutOfBandContainer { tag, children } => sentences_of_blocks(children),
        OutOfBandNodeView::OutOfBandLeaf { tag, contents } => sentences_of_inlines(contents),
    }
}

/// The sentences of the first `n` out-of-band nodes of a list.
pub open spec fn sentences_of_out_of_bands_upto(list: Seq<OutOfBandNodeView>, n: nat) -> Seq<
    Seq<InlineNodeView>,
>
    decreases n,
{
    if n == 0 || n > list.len() {
        Seq::empty()
    } else {
        sentences_of_out_of_bands_upto(list, (n - 1) as nat) + sentences_of_out_of_band(
            list[n - 1],
        )
    }
}

/// The sentences of a document in reading order: those of the main
/// blocks, then those of the out-of-band nodes.
pub open spec fn document_sentences(doc: DocumentView) -> Seq<Seq<InlineNodeView>> {
    sentences_of_blocks(doc.blocks) + sentences_of_out_of_bands_upto(
        doc.outofbands,
        doc.outofbands.len(),
    )
}

/// A clause for each sentence, numbered from `first + 1` on, each with the
/// one rendering that pairs the source language with the sentence itself.
pub open spec fn numbered(sentences: Seq<Seq<InlineNodeView>>, first: nat, language: Seq<char>)
    -> Seq<ClauseView> {
    Seq::new(
        sentences.len(),
        |k: int|
            ClauseView {
                contents: sentences[k],
                idx: (first + k + 1) as nat,
                translations: seq![(language, sentences[k])],
            },
    )
}

/// The clauses of a document: its sentences, numbered from one.
pub open spec fn document_clauses(doc: DocumentView, language: Seq<char>) -> Seq<ClauseView> {
    numbered(document_sentences(doc), 0, language)
}

/// Numbering two runs of sentences one after the other numbers their
/// concatenation.
pub proof fn lemma_numbered_add(
    a: Seq<Seq<InlineNodeView>>,
    b: Seq<Seq<InlineNodeView>>,
    first: nat,
    language: Seq<char>,
)
    ensures
        numbered(a + b, first, language) == numbered(a, first, language) + numbered(
            b,
            first + a.len(),
            language,
        ),
{
    assert(numbered(a + b, first, language) =~= numbered(a, first, language) + numbered(
        b,
        first + a.len(),
        language,
    ));
}

/// Whether a list of clauses has grown by the clauses of `sentences`,
/// numbered on from its length.
pub open spec fn clauses_grown(
    before: Seq<Clause>,
    after: Seq<Clause>,
    sentences: Seq<Seq<InlineNodeView>>,
    language: Seq<char>,
) -> bool {
    clauses_view(after) == clauses_view(before) + numbered(sentences, before.len(), language)
}

proof fn lemma_clauses_grown_none(list: Seq<Clause>, language: Seq<char>)
    ensures
        clauses_grown(list, list, Seq::empty(), language),
{
    assert(clauses_view(list) + numbered(Seq::empty(), list.len(), language) =~= clauses_view(
        list,
    ));
}

proof fn lemma_clauses_grown_twice(
    a: Seq<Clause>,
    b: Seq<Clause>,
    c: Seq<Clause>,
    first: Seq<Seq<InlineNodeView>>,
    second: Seq<Seq<InlineNodeView>>,
    language: Seq<char>,
)
    requires
        clauses_grown(a, b, first, language),
        clauses_grown(b, c, second, language),
    ensures
        clauses_grown(a, c, first + second, language),
{
    lemma_numbered_add(first, second, a.len(), language);
    assert(clauses_view(b).len() == b.len());
    assert(clauses_view(a).len() == a.len());
    assert(b.len() == a.len() + first.len());
    assert((clauses_view(a) + numbered(first, a.len(), language)) + numbered(
        second,
        a.len() + first.len(),
        language,
    ) =~= clauses_view(a) + (numbered(first, a.len(), language) + numbered(
        second,
        a.len() + first.len(),
        language,
    )));
}

/// Appends a clause for each sentence wrapper in a leaf's content.
pub fn generate_clauses_for_leaf_contents(
    leaf_contents: &Vec<InlineNode>,
    clauses: &mut Vec<Clause>,
    source_language: &String,
)
    ensures
        clauses_grown(
            old(clauses)@,
            final(clauses)@,
            sentences_of_inlines(inlines_view(leaf_contents@)),
            source_language@,
        ),
{
    broadcast use lemma_surrounding_view;

    let ghost list = inlines_view(leaf_contents@);
    let ghost language = source_language@;
    let marker = sentence_tag();
    let mut i: usize = 0;
    proof {
        lemma_clauses_grown_none(clauses@, language);
    }
    while i < leaf_contents.len()
        invariant
            i <= leaf_contents.len(),
            list == inlines_view(leaf_contents@),
            language == source_language@,
            marker@ == sentence_tag_view(),
            clauses_grown(old(clauses)@, clauses@, sentences_upto(list, i as nat), language),
        decreases leaf_contents.len() - i,
    {
        let ghost before = clauses@;
        let ghost found = sentences_upto(list, i as nat);
        proof {
            assert(list[i as int] == leaf_contents@[i as int]@);
        }
        if let InlineNode::Surrounding { tag, contents } = &leaf_contents[i] {
            proof {
                assert(leaf_contents@[i as int] == (InlineNode::Surrounding {
                    tag: *tag,
                    contents: *contents,
                }));
                lemma_surrounding_view(*tag, *contents);
            }
            if tag.same_as(&marker) {
                let cur_idx = clauses.len().saturating_add(1);
                let mut clause_translations: Vec<(String, Vec<InlineNode>)> = Vec::new();
                clause_translations.push((source_language.clone(), clone_inlines(contents)));
                let clause = Clause {
                    clause_contents: clone_inlines(contents),
                    clause_idx: cur_idx,
                    clause_translations,
                };
                clauses.push(clause);
                // The list holds the clause, so its length, the clause's
                // number, fits: the addition above did not saturate.
                let count = clauses.len();
                proof {
                    let sentence = inlines_view(contents@);
                    assert(count == before.len() + 1);
                    assert(cur_idx == before.len() + 1);
                    assert(translations_view(clause.clause_translations@) =~= seq![
                        (language, sentence),
                    ]);
                    assert(clauses_view(clauses@) =~= clauses_view(before) + numbered(
                        seq![sentence],
                        before.len(),
                        language,
                    ));
                    lemma_clauses_grown_twice(
                        old(clauses)@,
                        before,
                        clauses@,
                        found,
                        seq![sentence],
                        language,
                    );
                    assert(found + seq![sentence] =~= found.push(sentence));
                    assert(list[i as int] == (InlineNodeView::Surrounding {
                        tag: tag@,
                        contents: sentence,
                    }));
                    assert(sentences_upto(list, (i + 1) as nat) == found.push(sentence));
                }
            } else {
                proof {
                    assert(list[i as int] == (InlineNodeView::Surrounding {
                        tag: tag@,
                        contents: inlines_view(contents@),
                    }));
                    assert(sentences_upto(list, (i + 1) as nat) == found);
                }
            }
        } else {
            proof {
                assert(list[i as int] is Content);
                assert(sentences_upto(list, (i + 1) as nat) == found);
            }
        }
        i += 1;
    }
}

/// Appends the clauses of every block of a list.
fn generate_clauses_for_blocks(
    blocks: &Vec<BlockNode>,
    clauses: &mut Vec<Clause>,
    source_language: &String,
)
    ensures
        clauses_grown(
            old(clauses)@,
            final(clauses)@,
            sentences_of_blocks(crate::ast::blocks_view(blocks@)),
            source_language@,
        ),
    decreases *blocks, 1int,
{
    let ghost list = crate::ast::blocks_view(blocks@);
    let ghost language = source_language@;
    let mut i: usize = 0;
    proof {
        lemma_clauses_grown_none(clauses@, language);
    }
    while i < blocks.len()
        invariant
            i <= blocks.len(),
            list == crate::ast::blocks_view(blocks@),
            language == source_language@,
            clauses_grown(
                old(clauses)@,
                clauses@,
                sentences_of_blocks_upto(list, i as nat),
                language,
            ),
        decreases blocks.len() - i,
    {
        let ghost before = clauses@;
        proof {
            assert(decreases_to!(*blocks => blocks[i as int]));
            assert(list[i as int] == blocks@[i as int]@);
        }
        generate_clauses_for_block_node(&blocks[i], clauses, source_language);
        proof {
            lemma_clauses_grown_twice(
                old(clauses)@,
                before,
                clauses@,
                sentences_of_blocks_upto(list, i as nat),
                sentences_of_block(list[i as int]),
                language,
            );
        }
        i += 1;
    }
}

/// Appends the clauses of a block: those of its leaves, depth first.
pub fn generate_clauses_for_block_node(
    block: &BlockNode,
    clauses: &mut Vec<Clause>,
    source_language: &String,
)
    ensures
        clauses_grown(
            old(clauses)@,
            final(clauses)@,
            sentences_of_block(block@),
            source_language@,
        ),
    decreases *block, 0int,
{
    broadcast use lemma_container_view;

    match block {
        BlockNode::Container { children, .. } => {
            generate_clauses_for_blocks(children, clauses, source_language);
        },
        BlockNode::Leaf { contents, .. } => {
            generate_clauses_for_leaf_contents(contents, clauses, source_language);
        },
        BlockNode::Markup { .. } => {
            proof {
                lemma_clauses_grown_none(clauses@, source_language@);
            }
        },
    }
}

/// Appends the clauses of an out-of-band node.
pub fn generate_clauses_for_out_of_band_node(
    oob: &OutOfBandNode,
    clauses: &mut Vec<Clause>,
    source_language: &String,
)
    ensures
        clauses_grown(
            old(clauses)@,
            final(clauses)@,
            sentences_of_out_of_band(oob@),
            source_language@,
        ),
{
    match oob {
        OutOfBandNode::OutOfBandContainer { children, .. } => {
            generate_clauses_for_blocks(children, clauses, source_language);
        },
        OutOfBandNode::OutOfBandLeaf { contents, .. } => {
            generate_clauses_for_leaf_contents(contents, clauses, source_language);
        },
    }
}

impl Document {
    /// Lists the sentences of the document as clauses, numbered from one
    /// in reading order: the main blocks first, then the out-of-band nodes.
    /// The document is left as it is, and the clauses depend on nothing but
    /// its value and the language: listing twice gives the same clauses.
    pub fn extract_clause_list(&self, source_language: &String) -> (res: DocumentClauseList)
        ensures
            res@ == document_clauses(self@, source_language@),
            res@.len() == document_sentences(self@).len(),
            forall|k: int| 0 <= k < res@.len() ==> (#[trigger] res@[k]).idx == k + 1,
    {
        let ghost language = source_language@;
        let ghost outofbands = crate::ast::out_of_bands_view(self.outofbands@);
        let mut clauses: Vec<Clause> = Vec::new();
        let ghost none = clauses@;
        generate_clauses_for_blocks(&self.blocks, &mut clauses, source_language);
        let ghost main = clauses@;
        let mut i: usize = 0;
        proof {
            lemma_clauses_grown_none(main, language);
        }
        while i < self.outofbands.len()
            invariant
                i <= self.outofbands.len(),
                language == source_language@,
                outofbands == crate::ast::out_of_bands_view(self.outofbands@),
                clauses_grown(
                    main,
                    clauses@,
                    sentences_of_out_of_bands_upto(outofbands, i as nat),
                    language,
                ),
            decreases self.outofbands.len() - i,
        {
            let ghost before = clauses@;
            proof {
                assert(outofbands[i as int] == self.outofbands@[i as int]@);
            }
            generate_clauses_for_out_of_band_node(
                &self.outofbands[i],
                &mut clauses,
                source_language,
            );
            proof {
                lemma_clauses_grown_twice(
                    main,
                    before,
                    clauses@,
                    sentences_of_out_of_bands_upto(outofbands, i as nat),
                    sentences_of_out_of_band(outofbands[i as int]),
                    language,
                );
            }
            i += 1;
        }
        proof {
            lemma_clauses_grown_twice(
                none,
                main,
                clauses@,
                sentences_of_blocks(self@.blocks),
                sentences_of_out_of_bands_upto(outofbands, outofbands.len()),
                language,
            );
            assert(clauses_view(none) + document_clauses(self@, language) =~= document_clauses(
                self@,
                language,
            ));
        }
        DocumentClauseList { clauses }
    }
}

} // verus!
