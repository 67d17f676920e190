//! The document tree: block nodes, inline nodes and out-of-band nodes, each
//! with the mathematical value (its view) that the contracts speak of.
use vstd::prelude::*;

verus! {

/// Alignment of a table column.
#[derive(Clone, Copy, Debug, PartialEq, Eq, Structural)]
pub enum Alignment {
    Unset,
    Left,
    Center,
    Right,
}

/// How a link or an image was written.
#[derive(Clone, Copy, Debug, PartialEq, Eq, Structural)]
pub enum LinkType {
    Inline,
    Reference,
    ReferenceUnknown,
    Collapsed,
    CollapsedUnknown,
    Shortcut,
    ShortcutUnknown,
    Autolink,
    Email,
}

/// Whether a code block is indented or fenced; a fenced one carries its info string.
#[derive(Debug)]
pub enum CodeBlockKind {
    Indented,
    Fenced(String),
}

/// Value of a [`CodeBlockKind`].
pub enum CodeBlockKindView {
    Indented,
    Fenced(Seq<char>),
}

impl View for CodeBlockKind {
    type V = CodeBlockKindView;

    open spec fn view(&self) -> CodeBlockKindView {
        match *self {
            CodeBlockKind::Indented => CodeBlockKindView::Indented,
            CodeBlockKind::Fenced(info) => CodeBlockKindView::Fenced(info@),
        }
    }
}

impl Clone for CodeBlockKind {
    fn clone(&self) -> (res: Self)
        ensures
            res@ == self@,
    {
        match self {
            CodeBlockKind::Indented => CodeBlockKind::Indented,
            CodeBlockKind::Fenced(info) => CodeBlockKind::Fenced(info.clone()),
        }
    }
}

impl CodeBlockKind {
    /// Whether two values are the same: the same kind and the same payload.
    pub fn same_as(&self, other: &CodeBlockKind) -> (res: bool)
        ensures
            res == (self@ == other@),
    {
        match (self, other) {
            (CodeBlockKind::Indented, CodeBlockKind::Indented) => true,
            (CodeBlockKind::Fenced(a), CodeBlockKind::Fenced(b)) => *a == *b,
            _ => false,
        }
    }
}

impl PartialEq for CodeBlockKind {
    fn eq(&self, other: &CodeBlockKind) -> (res: bool) {
        self.same_as(other)
    }
}

impl vstd::std_specs::cmp::PartialEqSpecImpl for CodeBlockKind {
    open spec fn obeys_eq_spec() -> bool {
        true
    }

    open spec fn eq_spec(&self, other: &CodeBlockKind) -> bool {
        self@ == other@
    }
}

/// Tag of a block that holds blocks.
#[derive(Debug)]
pub enum ContainerBlockTag {
    BlockQuote,
    List(Option<u64>),
    ListItem,
    Table(Vec<Alignment>),
    TableHead,
    TableRow,
    Custom(String),
}

/// Value of a [`ContainerBlockTag`].
pub enum ContainerBlockTagView {
    BlockQuote,
    List(Option<u64>),
    ListItem,
    Table(Seq<Alignment>),
    TableHead,
    TableRow,
    Custom(Seq<char>),
}

impl View for ContainerBlockTag {
    type V = ContainerBlockTagView;

    open spec fn view(&self) -> ContainerBlockTagView {
        match *self {
            ContainerBlockTag::BlockQuote => ContainerBlockTagView::BlockQuote,
            ContainerBlockTag::List(start) => ContainerBlockTagView::List(start),
            ContainerBlockTag::ListItem => ContainerBlockTagView::ListItem,
            ContainerBlockTag::Table(columns) => ContainerBlockTagView::Table(columns@),
            ContainerBlockTag::TableHead => ContainerBlockTagView::TableHead,
            ContainerBlockTag::TableRow => ContainerBlockTagView::TableRow,
            ContainerBlockTag::Custom(name) => ContainerBlockTagView::Custom(name@),
        }
    }
}

impl Clone for ContainerBlockTag {
    fn clone(&self) -> (res: Self)
        ensures
            res@ == self@,
    {
        match self {
            ContainerBlockTag::BlockQuote => ContainerBlockTag::BlockQuote,
            ContainerBlockTag::List(start) => ContainerBlockTag::List(*start),
            ContainerBlockTag::ListItem => ContainerBlockTag::ListItem,
            ContainerBlockTag::Table(columns) => ContainerBlockTag::Table(clone_alignments(columns)),
            ContainerBlockTag::TableHead => ContainerBlockTag::TableHead,
            ContainerBlockTag::TableRow => ContainerBlockTag::TableRow,
            ContainerBlockTag::Custom(name) => ContainerBlockTag::Custom(name.clone()),
        }
    }
}

/// A copy of a table's column alignments.
pub fn clone_alignments(columns: &Vec<Alignment>) -> (res: Vec<Alignment>)
    ensures
        res@ == columns@,
{
    let mut res: Vec<Alignment> = Vec::new();
    let mut i: usize = 0;
    while i < columns.len()
        invariant
            i <= columns.len(),
            res@ == columns@.subrange(0, i as int),
        decreases columns.len() - i,
    {
        res.push(columns[i]);
        proof {
            assert(columns@.subrange(0, i + 1) =~= columns@.subrange(0, i as int).push(
                columns@[i as int],
            ));
        }
        i += 1;
    }
    proof {
        assert(columns@.subrange(0, i as int) =~= columns@);
    }
    res
}

/// Whether two lists of column alignments are equal.
pub fn same_alignments(a: &Vec<Alignment>, b: &Vec<Alignment>) -> (res: bool)
    ensures
        res == (a@ == b@),
{
    if a.len() != b.len() {
        return false;
    }
    let mut i: usize = 0;
    while i < a.len()
        invariant
            i <= a.len(),
            a.len() == b.len(),
            a@.subrange(0, i as int) == b@.subrange(0, i as int),
        decreases a.len() - i,
    {
        if a[i] != b[i] {
            proof {
                assert(a@[i as int] != b@[i as int]);
            }
            return false;
        }
        proof {
            assert(a@.subrange(0, i + 1) =~= a@.subrange(0, i as int).push(a@[i as int]));
            assert(b@.subrange(0, i + 1) =~= b@.subrange(0, i as int).push(b@[i as int]));
        }
        i += 1;
    }
    proof {
        assert(a@.subrange(0, i as int) =~= a@);
        assert(b@.subrange(0, i as int) =~= b@);
    }
    true
}

impl ContainerBlockTag {
    /// Whether two values are the same: the same kind and the same payload.
    pub fn same_as(&self, other: &ContainerBlockTag) -> (res: bool)
        ensures
            res == (self@ == other@),
    {
        match (self, other) {
            (ContainerBlockTag::BlockQuote, ContainerBlockTag::BlockQuote) => true,
            (ContainerBlockTag::List(a), ContainerBlockTag::List(b)) => match (a, b) {
                (None, None) => true,
                (Some(x), Some(y)) => *x == *y,
                _ => false,
            },
            (ContainerBlockTag::ListItem, ContainerBlockTag::ListItem) => true,
            (ContainerBlockTag::Table(a), ContainerBlockTag::Table(b)) => same_alignments(a, b),
            (ContainerBlockTag::TableHead, ContainerBlockTag::TableHead) => true,
            (ContainerBlockTag::TableRow, ContainerBlockTag::TableRow) => true,
            (ContainerBlockTag::Custom(a), ContainerBlockTag::Custom(b)) => *a == *b,
            _ => false,
        }
    }
}

impl PartialEq for ContainerBlockTag {
    fn eq(&self, other: &ContainerBlockTag) -> (res: bool) {
        self.same_as(other)
    }
}

impl vstd::std_specs::cmp::PartialEqSpecImpl for ContainerBlockTag {
    open spec fn obeys_eq_spec() -> bool {
        true
    }

    open spec fn eq_spec(&self, other: &ContainerBlockTag) -> bool {
        self@ == other@
    }
}

/// Tag of a block that holds inline nodes.
#[derive(Debug)]
pub enum LeafBlockTag {
    Paragraph,
    Heading(u32),
    CodeBlock(CodeBlockKind),
    TableCell,
    Html,
    Custom(String),
}

/// Value of a [`LeafBlockTag`].
pub enum LeafBlockTagView {
    Paragraph,
    Heading(u32),
    CodeBlock(CodeBlockKindView),
    TableCell,
    Html,
    Custom(Seq<char>),
}

impl View for LeafBlockTag {
    type V = LeafBlockTagView;

    open spec fn view(&self) -> LeafBlockTagView {
        match *self {
            LeafBlockTag::Paragraph => LeafBlockTagView::Paragraph,
            LeafBlockTag::Heading(level) => LeafBlockTagView::Heading(level),
            LeafBlockTag::CodeBlock(kind) => LeafBlockTagView::CodeBlock(kind@),
            LeafBlockTag::TableCell => LeafBlockTagView::TableCell,
            LeafBlockTag::Html => LeafBlockTagView::Html,
            LeafBlockTag::Custom(name) => LeafBlockTagView::Custom(name@),
        }
    }
}

impl Clone for LeafBlockTag {
    fn clone(&self) -> (res: Self)
        ensures
            res@ == self@,
    {
        match self {
            LeafBlockTag::Paragraph => LeafBlockTag::Paragraph,
            LeafBlockTag::Heading(level) => LeafBlockTag::Heading(*level),
            LeafBlockTag::CodeBlock(kind) => LeafBlockTag::CodeBlock(kind.clone()),
            LeafBlockTag::TableCell => LeafBlockTag::TableCell,
            LeafBlockTag::Html => LeafBlockTag::Html,
            LeafBlockTag::Custom(name) => LeafBlockTag::Custom(name.clone()),
        }
    }
}

impl LeafBlockTag {
    /// Whether two values are the same: the same kind and the same payload.
    pub fn same_as(&self, other: &LeafBlockTag) -> (res: bool)
        ensures
            res == (self@ == other@),
    {
        match (self, other) {
            (LeafBlockTag::Paragraph, LeafBlockTag::Paragraph) => true,
            (LeafBlockTag::Heading(a), LeafBlockTag::Heading(b)) => *a == *b,
            (LeafBlockTag::CodeBlock(a), LeafBlockTag::CodeBlock(b)) => a.same_as(b),
            (LeafBlockTag::TableCell, LeafBlockTag::TableCell) => true,
            (LeafBlockTag::Html, LeafBlockTag::Html) => true,
            (LeafBlockTag::Custom(a), LeafBlockTag::Custom(b)) => *a == *b,
            _ => false,
        }
    }
}

impl PartialEq for LeafBlockTag {
    fn eq(&self, other: &LeafBlockTag) -> (res: bool) {
        self.same_as(other)
    }
}

impl vstd::std_specs::cmp::PartialEqSpecImpl for LeafBlockTag {
    open spec fn obeys_eq_spec() -> bool {
        true
    }

    open spec fn eq_spec(&self, other: &LeafBlockTag) -> bool {
        self@ == other@
    }
}

/// Tag of a block without children.
#[derive(Debug)]
pub enum MarkupBlockTag {
    Rule,
    Custom(String),
}

/// Value of a [`MarkupBlockTag`].
pub enum MarkupBlockTagView {
    Rule,
    Custom(Seq<char>),
}

impl View for MarkupBlockTag {
    type V = MarkupBlockTagView;

    open spec fn view(&self) -> MarkupBlockTagView {
        match *self {
            MarkupBlockTag::Rule => MarkupBlockTagView::Rule,
            MarkupBlockTag::Custom(name) => MarkupBlockTagView::Custom(name@),
        }
    }
}

impl Clone for MarkupBlockTag {
    fn clone(&self) -> (res: Self)
        ensures
            res@ == self@,
    {
        match self {
            MarkupBlockTag::Rule => MarkupBlockTag::Rule,
            MarkupBlockTag::Custom(name) => MarkupBlockTag::Custom(name.clone()),
        }
    }
}

impl MarkupBlockTag {
    /// Whether two values are the same: the same kind and the same payload.
    pub fn same_as(&self, other: &MarkupBlockTag) -> (res: bool)
        ensures
            res == (self@ == other@),
    {
        match (self, other) {
            (MarkupBlockTag::Rule, MarkupBlockTag::Rule) => true,
            (MarkupBlockTag::Custom(a), MarkupBlockTag::Custom(b)) => *a == *b,
            _ => false,
        }
    }
}

impl PartialEq for MarkupBlockTag {
    fn eq(&self, other: &MarkupBlockTag) -> (res: bool) {
        self.same_as(other)
    }
}

impl vstd::std_specs::cmp::PartialEqSpecImpl for MarkupBlockTag {
    open spec fn obeys_eq_spec() -> bool {
        true
    }

    open spec fn eq_spec(&self, other: &MarkupBlockTag) -> bool {
        self@ == other@
    }
}

/// Tag of an out-of-band node that holds blocks.
#[derive(Debug)]
pub enum OutOfBandContainerTag {
    FootNoteDef(String),
    Custom(String),
}

/// Value of an [`OutOfBandContainerTag`].
pub enum OutOfBandContainerTagView {
    FootNoteDef(Seq<char>),
    Custom(Seq<char>),
}

impl View for OutOfBandContainerTag {
    type V = OutOfBandContainerTagView;

    open spec fn view(&self) -> OutOfBandContainerTagView {
        match *self {
            OutOfBandContainerTag::FootNoteDef(label) => OutOfBandContainerTagView::FootNoteDef(
                label@,
            ),
            OutOfBandContainerTag::Custom(name) => OutOfBandContainerTagView::Custom(name@),
        }
    }
}

impl Clone for OutOfBandContainerTag {
    fn clone(&self) -> (res: Self)
        ensures
            res@ == self@,
    {
        match self {
            OutOfBandContainerTag::FootNoteDef(label) => OutOfBandContainerTag::FootNoteDef(
                label.clone(),
            ),
            OutOfBandContainerTag::Custom(name) => OutOfBandContainerTag::Custom(name.clone()),
        }
    }
}

impl OutOfBandContainerTag {
    /// Whether two values are the same: the same kind and the same payload.
    pub fn same_as(&self, other: &OutOfBandContainerTag) -> (res: bool)
        ensures
            res == (self@ == other@),
    {
        match (self, other) {
            (OutOfBandContainerTag::FootNoteDef(a), OutOfBandContainerTag::FootNoteDef(b)) => *a
                == *b,
            (OutOfBandContainerTag::Custom(a), OutOfBandContainerTag::Custom(b)) => *a == *b,
            _ => false,
        }
    }
}

impl PartialEq for OutOfBandContainerTag {
    fn eq(&self, other: &OutOfBandContainerTag) -> (res: bool) {
        self.same_as(other)
    }
}

impl vstd::std_specs::cmp::PartialEqSpecImpl for OutOfBandContainerTag {
    open spec fn obeys_eq_spec() -> bool {
        true
    }

    open spec fn eq_spec(&self, other: &OutOfBandContainerTag) -> bool {
        self@ == other@
    }
}

/// Tag of an out-of-band node that holds inline nodes.
#[derive(Debug)]
pub enum OutOfBandLeafTag {
    Custom(String),
}

/// Value of an [`OutOfBandLeafTag`].
pub enum OutOfBandLeafTagView {
    Custom(Seq<char>),
}

impl View for OutOfBandLeafTag {
    type V = OutOfBandLeafTagView;

    open spec fn view(&self) -> OutOfBandLeafTagView {
        match *self {
            OutOfBandLeafTag::Custom(name) => OutOfBandLeafTagView::Custom(name@),
        }
    }
}

impl Clone for OutOfBandLeafTag {
    fn clone(&self) -> (res: Self)
        ensures
            res@ == self@,
    {
        match self {
            OutOfBandLeafTag::Custom(name) => OutOfBandLeafTag::Custom(name.clone()),
        }
    }
}

impl OutOfBandLeafTag {
    /// Whether two values are the same: the same kind and the same payload.
    pub fn same_as(&self, other: &OutOfBandLeafTag) -> (res: bool)
        ensures
            res == (self@ == other@),
    {
        match (self, other) {
            (OutOfBandLeafTag::Custom(a), OutOfBandLeafTag::Custom(b)) => *a == *b,
        }
    }
}

impl PartialEq for OutOfBandLeafTag {
    fn eq(&self, other: &OutOfBandLeafTag) -> (res: bool) {
        self.same_as(other)
    }
}

impl vstd::std_specs::cmp::PartialEqSpecImpl for OutOfBandLeafTag {
    open spec fn obeys_eq_spec() -> bool {
        true
    }

    open spec fn eq_spec(&self, other: &OutOfBandLeafTag) -> bool {
        self@ == other@
    }
}

/// Tag of an inline node that wraps inline nodes.
#[derive(Debug)]
pub enum SurroundingInlineTag {
    Emphasis,
    Strong,
    Strikethrough,
    Link(LinkType, String, String),
    Image(LinkType, String, String),
    Custom(String),
}

/// Value of a [`SurroundingInlineTag`].
pub enum SurroundingInlineTagView {
    Emphasis,
    Strong,
    Strikethrough,
    Link(LinkType, Seq<char>, Seq<char>),
    Image(LinkType, Seq<char>, Seq<char>),
    Custom(Seq<char>),
}

impl View for SurroundingInlineTag {
    type V = SurroundingInlineTagView;

    open spec fn view(&self) -> SurroundingInlineTagView {
        match *self {
            SurroundingInlineTag::Emphasis => SurroundingInlineTagView::Emphasis,
            SurroundingInlineTag::Strong => SurroundingInlineTagView::Strong,
            SurroundingInlineTag::Strikethrough => SurroundingInlineTagView::Strikethrough,
            SurroundingInlineTag::Link(kind, dest, title) => SurroundingInlineTagView::Link(
                kind,
                dest@,
                title@,
            ),
            SurroundingInlineTag::Image(kind, dest, title) => SurroundingInlineTagView::Image(
                kind,
                dest@,
                title@,
            ),
            SurroundingInlineTag::Custom(name) => SurroundingInlineTagView::Custom(name@),
        }
    }
}

impl Clone for SurroundingInlineTag {
    fn clone(&self) -> (res: Self)
        ensures
            res@ == self@,
    {
        match self {
            SurroundingInlineTag::Emphasis => SurroundingInlineTag::Emphasis,
            SurroundingInlineTag::Strong => SurroundingInlineTag::Strong,
            SurroundingInlineTag::Strikethrough => SurroundingInlineTag::Strikethrough,
            SurroundingInlineTag::Link(kind, dest, title) => SurroundingInlineTag::Link(
                *kind,
                dest.clone(),
                title.clone(),
            ),
            SurroundingInlineTag::Image(kind, dest, title) => SurroundingInlineTag::Image(
                *kind,
                dest.clone(),
                title.clone(),
            ),
            SurroundingInlineTag::Custom(name) => SurroundingInlineTag::Custom(name.clone()),
        }
    }
}

impl SurroundingInlineTag {
    /// Whether two values are the same: the same kind and the same payload.
    pub fn same_as(&self, other: &SurroundingInlineTag) -> (res: bool)
        ensures
            res == (self@ == other@),
    {
        match (self, other) {
            (SurroundingInlineTag::Emphasis, SurroundingInlineTag::Emphasis) => true,
            (SurroundingInlineTag::Strong, SurroundingInlineTag::Strong) => true,
            (SurroundingInlineTag::Strikethrough, SurroundingInlineTag::Strikethrough) => true,
            (
                SurroundingInlineTag::Link(k1, d1, t1),
                SurroundingInlineTag::Link(k2, d2, t2),
            ) => *k1 == *k2 && *d1 == *d2 && *t1 == *t2,
            (
                SurroundingInlineTag::Image(k1, d1, t1),
                SurroundingInlineTag::Image(k2, d2, t2),
            ) => *k1 == *k2 && *d1 == *d2 && *t1 == *t2,
            (SurroundingInlineTag::Custom(n1), SurroundingInlineTag::Custom(n2)) => *n1 == *n2,
            _ => false,
        }
    }
}

impl PartialEq for SurroundingInlineTag {
    fn eq(&self, other: &SurroundingInlineTag) -> (res: bool) {
        self.same_as(other)
    }
}

impl vstd::std_specs::cmp::PartialEqSpecImpl for SurroundingInlineTag {
    open spec fn obeys_eq_spec() -> bool {
        true
    }

    open spec fn eq_spec(&self, other: &SurroundingInlineTag) -> bool {
        self@ == other@
    }
}

/// Tag of an inline node without children.
#[derive(Debug)]
pub enum ContentInlineTag {
    Text(String),
    Code(String),
    RawHtml(String),
    FootnoteRef(String),
    TaskListMarker(bool),
    SoftBreak,
    HardBreak,
    Custom(String),
}

/// Value of a [`ContentInlineTag`].
pub enum ContentInlineTagView {
    Text(Seq<char>),
    Code(Seq<char>),
    RawHtml(Seq<char>),
    FootnoteRef(Seq<char>),
    TaskListMarker(bool),
    SoftBreak,
    HardBreak,
    Custom(Seq<char>),
}

impl View for ContentInlineTag {
    type V = ContentInlineTagView;

    open spec fn view(&self) -> ContentInlineTagView {
        match *self {
            ContentInlineTag::Text(span) => ContentInlineTagView::Text(span@),
            ContentInlineTag::Code(span) => ContentInlineTagView::Code(span@),
            ContentInlineTag::RawHtml(span) => ContentInlineTagView::RawHtml(span@),
            ContentInlineTag::FootnoteRef(label) => ContentInlineTagView::FootnoteRef(label@),
            ContentInlineTag::TaskListMarker(checked) => ContentInlineTagView::TaskListMarker(
                checked,
            ),
            ContentInlineTag::SoftBreak => ContentInlineTagView::SoftBreak,
            ContentInlineTag::HardBreak => ContentInlineTagView::HardBreak,
            ContentInlineTag::Custom(name) => ContentInlineTagView::Custom(name@),
        }
    }
}

impl Clone for ContentInlineTag {
    fn clone(&self) -> (res: Self)
        ensures
            res@ == self@,
    {
        match self {
            ContentInlineTag::Text(span) => ContentInlineTag::Text(span.clone()),
            ContentInlineTag::Code(span) => ContentInlineTag::Code(span.clone()),
            ContentInlineTag::RawHtml(span) => ContentInlineTag::RawHtml(span.clone()),
            ContentInlineTag::FootnoteRef(label) => ContentInlineTag::FootnoteRef(label.clone()),
            ContentInlineTag::TaskListMarker(checked) => ContentInlineTag::TaskListMarker(*checked),
            ContentInlineTag::SoftBreak => ContentInlineTag::SoftBreak,
            ContentInlineTag::HardBreak => ContentInlineTag::HardBreak,
            ContentInlineTag::Custom(name) => ContentInlineTag::Custom(name.clone()),
        }
    }
}

impl ContentInlineTag {
    /// Whether two values are the same: the same kind and the same payload.
    pub fn same_as(&self, other: &ContentInlineTag) -> (res: bool)
        ensures
            res == (self@ == other@),
    {
        match (self, other) {
            (ContentInlineTag::Text(a), ContentInlineTag::Text(b)) => *a == *b,
            (ContentInlineTag::Code(a), ContentInlineTag::Code(b)) => *a == *b,
            (ContentInlineTag::RawHtml(a), ContentInlineTag::RawHtml(b)) => *a == *b,
            (ContentInlineTag::FootnoteRef(a), ContentInlineTag::FootnoteRef(b)) => *a == *b,
            (ContentInlineTag::TaskListMarker(a), ContentInlineTag::TaskListMarker(b)) => *a == *b,
            (ContentInlineTag::SoftBreak, ContentInlineTag::SoftBreak) => true,
            (ContentInlineTag::HardBreak, ContentInlineTag::HardBreak) => true,
            (ContentInlineTag::Custom(a), ContentInlineTag::Custom(b)) => *a == *b,
            _ => false,
        }
    }
}

impl PartialEq for ContentInlineTag {
    fn eq(&self, other: &ContentInlineTag) -> (res: bool) {
        self.same_as(other)
    }
}

impl vstd::std_specs::cmp::PartialEqSpecImpl for ContentInlineTag {
    open spec fn obeys_eq_spec() -> bool {
        true
    }

    open spec fn eq_spec(&self, other: &ContentInlineTag) -> bool {
        self@ == other@
    }
}

/// An inline node: a wrapper around further inline nodes, or a piece of content.
#[derive(Debug)]
#[allow(inconsistent_fields)]
pub enum InlineNode {
    Surrounding { tag: SurroundingInlineTag, contents: Vec<InlineNode> },
    Content { tag: ContentInlineTag },
}

/// Value of an [`InlineNode`].
#[allow(inconsistent_fields)]
pub enum InlineNodeView {
    Surrounding { tag: SurroundingInlineTagView, contents: Seq<InlineNodeView> },
    Content { tag: ContentInlineTagView },
}

/// Value of an inline node, by recursion on the node.
pub open spec fn inline_node_view(node: InlineNode) -> InlineNodeView
    decreases node, 0int,
{
    match node {
        InlineNode::Surrounding { tag, contents } => InlineNodeView::Surrounding {
            tag: tag@,
            contents: inline_prefix_view(contents, contents@.len()),
        },
        InlineNode::Content { tag } => InlineNodeView::Content { tag: tag@ },
    }
}

/// Values of the first `n` nodes of a list.
pub open spec fn inline_prefix_view(list: Vec<InlineNode>, n: nat) -> Seq<InlineNodeView>
    decreases list, 1int, n,
{
    if n == 0 || n > list@.len() {
        Seq::empty()
    } else {
        inline_prefix_view(list, (n - 1) as nat).push(inline_node_view(list[n - 1]))
    }
}

impl View for InlineNode {
    type V = InlineNodeView;

    open spec fn view(&self) -> InlineNodeView {
        inline_node_view(*self)
    }
}

/// Values of a sequence of inline nodes, in order.
pub open spec fn inlines_view(list: Seq<InlineNode>) -> Seq<InlineNodeView> {
    list.map_values(|n: InlineNode| n@)
}

proof fn lemma_inline_prefix_view(list: Vec<InlineNode>, n: nat)
    requires
        n <= list@.len(),
    ensures
        inline_prefix_view(list, n) == inlines_view(list@.subrange(0, n as int)),
    decreases n,
{
    if n > 0 {
        lemma_inline_prefix_view(list, (n - 1) as nat);
        assert(inlines_view(list@.subrange(0, n as int)) =~= inlines_view(
            list@.subrange(0, n - 1),
        ).push(list@[n - 1]@));
    } else {
        assert(inlines_view(list@.subrange(0, 0)) =~= Seq::empty());
    }
}

/// The value of a wrapper holds its tag's value and its children's values.
pub broadcast proof fn lemma_surrounding_view(tag: SurroundingInlineTag, contents: Vec<InlineNode>)
    ensures
        #[trigger] (InlineNode::Surrounding { tag, contents })@ == (InlineNodeView::Surrounding {
            tag: tag@,
            contents: inlines_view(contents@),
        }),
{
    lemma_inline_prefix_view(contents, contents@.len());
    assert(contents@.subrange(0, contents@.len() as int) =~= contents@);
}

/// The values of a list with one more node at its end.
pub proof fn lemma_inlines_view_push(list: Seq<InlineNode>, node: InlineNode)
    ensures
        inlines_view(list.push(node)) == inlines_view(list).push(node@),
{
    assert(inlines_view(list.push(node)) =~= inlines_view(list).push(node@));
}

impl InlineNode {
    /// A copy of the node with the same value.
    pub fn duplicate(&self) -> (res: InlineNode)
        ensures
            res@ == self@,
        decreases *self, 0int,
    {
        match self {
            InlineNode::Surrounding { tag, contents } => {
                let tag_copy = tag.clone();
                let copy = clone_inlines(contents);
                proof {
                    lemma_surrounding_view(*tag, *contents);
                    lemma_surrounding_view(tag_copy, copy);
                }
                InlineNode::Surrounding { tag: tag_copy, contents: copy }
            },
            InlineNode::Content { tag } => InlineNode::Content { tag: tag.clone() },
        }
    }
}

/// A copy of a list of inline nodes.
pub fn clone_inlines(list: &Vec<InlineNode>) -> (res: Vec<InlineNode>)
    ensures
        inlines_view(res@) == inlines_view(list@),
    decreases *list, 1int,
{
    let mut res: Vec<InlineNode> = Vec::new();
    let mut i: usize = 0;
    proof {
        assert(inlines_view(res@) =~= inlines_view(list@).subrange(0, 0));
    }
    while i < list.len()
        invariant
            i <= list.len(),
            inlines_view(res@) == inlines_view(list@).subrange(0, i as int),
        decreases list.len() - i,
    {
        proof {
            assert(decreases_to!(*list => list[i as int]));
        }
        let child = list[i].duplicate();
        proof {
            lemma_inlines_view_push(res@, child);
            assert(inlines_view(list@).subrange(0, i + 1) =~= inlines_view(list@).subrange(
                0,
                i as int,
            ).push(list@[i as int]@));
        }
        res.push(child);
        i += 1;
    }
    proof {
        assert(inlines_view(list@).subrange(0, i as int) =~= inlines_view(list@));
    }
    res
}

impl Clone for InlineNode {
    fn clone(&self) -> (res: Self)
        ensures
            res@ == self@,
    {
        self.duplicate()
    }
}

/// A block node: a container of blocks, a leaf of inline nodes, or bare markup.
#[derive(Debug)]
#[allow(inconsistent_fields)]
pub enum BlockNode {
    Container { tag: ContainerBlockTag, children: Vec<BlockNode> },
    Leaf { tag: LeafBlockTag, contents: Vec<InlineNode> },
    Markup { tag: MarkupBlockTag },
}

/// Value of a [`BlockNode`].
#[allow(inconsistent_fields)]
pub enum BlockNodeView {
    Container { tag: ContainerBlockTagView, children: Seq<BlockNodeView> },
    Leaf { tag: LeafBlockTagView, contents: Seq<InlineNodeView> },
    Markup { tag: MarkupBlockTagView },
}

/// Value of a block node, by recursion on the node.
pub open spec fn block_node_view(node: BlockNode) -> BlockNodeView
    decreases node, 0int,
{
    match node {
        BlockNode::Container { tag, children } => BlockNodeView::Container {
            tag: tag@,
            children: block_prefix_view(children, children@.len()),
        },
        BlockNode::Leaf { tag, contents } => BlockNodeView::Leaf {
            tag: tag@,
            contents: inlines_view(contents@),
        },
        BlockNode::Markup { tag } => BlockNodeView::Markup { tag: tag@ },
    }
}

/// Values of the first `n` blocks of a list.
pub open spec fn block_prefix_view(list: Vec<BlockNode>, n: nat) -> Seq<BlockNodeView>
    decreases list, 1int, n,
{
    if n == 0 || n > list@.len() {
        Seq::empty()
    } else {
        block_prefix_view(list, (n - 1) as nat).push(block_node_view(list[n - 1]))
    }
}

impl View for BlockNode {
    type V = BlockNodeView;

    open spec fn view(&self) -> BlockNodeView {
        block_node_view(*self)
    }
}

/// Values of a sequence of block nodes, in order.
pub open spec fn blocks_view(list: Seq<BlockNode>) -> Seq<BlockNodeView> {
    list.map_values(|n: BlockNode| n@)
}

proof fn lemma_block_prefix_view(list: Vec<BlockNode>, n: nat)
    requires
        n <= list@.len(),
    ensures
        block_prefix_view(list, n) == blocks_view(list@.subrange(0, n as int)),
    decreases n,
{
    if n > 0 {
        lemma_block_prefix_view(list, (n - 1) as nat);
        assert(blocks_view(list@.subrange(0, n as int)) =~= blocks_view(
            list@.subrange(0, n - 1),
        ).push(list@[n - 1]@));
    } else {
        assert(blocks_view(list@.subrange(0, 0)) =~= Seq::empty());
    }
}

/// The value of a container holds its tag's value and its children's values.
pub broadcast proof fn lemma_container_view(tag: ContainerBlockTag, children: Vec<BlockNode>)
    ensures
        #[trigger] (BlockNode::Container { tag, children })@ == (BlockNodeView::Container {
            tag: tag@,
            children: blocks_view(children@),
        }),
{
    lemma_block_prefix_view(children, children@.len());
    assert(children@.subrange(0, children@.len() as int) =~= children@);
}

/// The values of a list with one more block at its end.
pub proof fn lemma_blocks_view_push(list: Seq<BlockNode>, node: BlockNode)
    ensures
        blocks_view(list.push(node)) == blocks_view(list).push(node@),
{
    assert(blocks_view(list.push(node)) =~= blocks_view(list).push(node@));
}

impl BlockNode {
    /// A copy of the node with the same value.
    pub fn duplicate(&self) -> (res: BlockNode)
        ensures
            res@ == self@,
        decreases *self, 0int,
    {
        match self {
            BlockNode::Container { tag, children } => {
                let tag_copy = tag.clone();
                let copy = clone_blocks(children);
                proof {
                    lemma_container_view(*tag, *children);
                    lemma_container_view(tag_copy, copy);
                }
                BlockNode::Container { tag: tag_copy, children: copy }
            },
            BlockNode::Leaf { tag, contents } => BlockNode::Leaf {
                tag: tag.clone(),
                contents: clone_inlines(contents),
            },
            BlockNode::Markup { tag } => BlockNode::Markup { tag: tag.clone() },
        }
    }
}

/// A copy of a list of block nodes.
pub fn clone_blocks(list: &Vec<BlockNode>) -> (res: Vec<BlockNode>)
    ensures
        blocks_view(res@) == blocks_view(list@),
    decreases *list, 1int,
{
    let mut res: Vec<BlockNode> = Vec::new();
    let mut i: usize = 0;
    proof {
        assert(blocks_view(res@) =~= blocks_view(list@).subrange(0, 0));
    }
    while i < list.len()
        invariant
            i <= list.len(),
            blocks_view(res@) == blocks_view(list@).subrange(0, i as int),
        decreases list.len() - i,
    {
        proof {
            assert(decreases_to!(*list => list[i as int]));
        }
        let child = list[i].duplicate();
        proof {
            lemma_blocks_view_push(res@, child);
            assert(blocks_view(list@).subrange(0, i + 1) =~= blocks_view(list@).subrange(
                0,
                i as int,
            ).push(list@[i as int]@));
        }
        res.push(child);
        i += 1;
    }
    proof {
        assert(blocks_view(list@).subrange(0, i as int) =~= blocks_view(list@));
    }
    res
}

impl Clone for BlockNode {
    fn clone(&self) -> (res: Self)
        ensures
            res@ == self@,
    {
        self.duplicate()
    }
}

/// A node that the stream defines away from the place that refers to it.
#[derive(Debug)]
#[allow(inconsistent_fields)]
pub enum OutOfBandNode {
    OutOfBandContainer { tag: OutOfBandContainerTag, children: Vec<BlockNode> },
    OutOfBandLeaf { tag: OutOfBandLeafTag, contents: Vec<InlineNode> },
}

/// Value of an [`OutOfBandNode`].
#[allow(inconsistent_fields)]
pub enum OutOfBandNodeView {
    OutOfBandContainer { tag: OutOfBandContainerTagView, children: Seq<BlockNodeView> },
    OutOfBandLeaf { tag: OutOfBandLeafTagView, contents: Seq<InlineNodeView> },
}

impl View for OutOfBandNode {
    type V = OutOfBandNodeView;

    open spec fn view(&self) -> OutOfBandNodeView {
        match *self {
            OutOfBandNode::OutOfBandContainer { tag, children } => {
                OutOfBandNodeView::OutOfBandContainer {
                    tag: tag@,
                    children: blocks_view(children@),
                }
            },
            OutOfBandNode::OutOfBandLeaf { tag, contents } => OutOfBandNodeView::OutOfBandLeaf {
                tag: tag@,
                contents: inlines_view(contents@),
            },
        }
    }
}

/// Values of a sequence of out-of-band nodes, in order.
pub open spec fn out_of_bands_view(list: Seq<OutOfBandNode>) -> Seq<OutOfBandNodeView> {
    list.map_values(|n: OutOfBandNode| n@)
}

/// The values of a list with one more out-of-band node at its end.
pub proof fn lemma_out_of_bands_view_push(list: Seq<OutOfBandNode>, node: OutOfBandNode)
    ensures
        out_of_bands_view(list.push(node)) == out_of_bands_view(list).push(node@),
{
    assert(out_of_bands_view(list.push(node)) =~= out_of_bands_view(list).push(node@));
}

impl Clone for OutOfBandNode {
    fn clone(&self) -> (res: Self)
        ensures
            res@ == self@,
    {
        match self {
            OutOfBandNode::OutOfBandContainer { tag, children } => {
                OutOfBandNode::OutOfBandContainer {
                    tag: tag.clone(),
                    children: clone_blocks(children),
                }
            },
            OutOfBandNode::OutOfBandLeaf { tag, contents } => OutOfBandNode::OutOfBandLeaf {
                tag: tag.clone(),
                contents: clone_inlines(contents),
            },
        }
    }
}

/// A document: its main blocks, then the nodes defined out of band.
#[derive(Debug)]
pub struct Document {
    pub blocks: Vec<BlockNode>,
    pub outofbands: Vec<OutOfBandNode>,
}

/// Value of a [`Document`].
pub struct DocumentView {
    pub blocks: Seq<BlockNodeView>,
    pub outofbands: Seq<OutOfBandNodeView>,
}

impl View for Document {
    type V = DocumentView;

    open spec fn view(&self) -> DocumentView {
        DocumentView {
            blocks: blocks_view(self.blocks@),
            outofbands: out_of_bands_view(self.outofbands@),
        }
    }
}

impl Default for Document {
    fn default() -> (res: Self)
        ensures
            res@.blocks.len() == 0,
            res@.outofbands.len() == 0,
    {
        Document { blocks: Vec::new(), outofbands: Vec::new() }
    }
}

impl Clone for Document {
    fn clone(&self) -> (res: Self)
        ensures
            res@ == self@,
    {
        let blocks = clone_blocks(&self.blocks);
        let mut outofbands: Vec<OutOfBandNode> = Vec::new();
        let mut i: usize = 0;
        proof {
            assert(out_of_bands_view(outofbands@) =~= out_of_bands_view(self.outofbands@).subrange(
                0,
                0,
            ));
        }
        while i < self.outofbands.len()
            invariant
                i <= self.outofbands.len(),
                out_of_bands_view(outofbands@) == out_of_bands_view(self.outofbands@).subrange(
                    0,
                    i as int,
                ),
            decreases self.outofbands.len() - i,
        {
            let node = self.outofbands[i].clone();
            proof {
                lemma_out_of_bands_view_push(outofbands@, node);
                assert(out_of_bands_view(self.outofbands@).subrange(0, i + 1)
                    =~= out_of_bands_view(self.outofbands@).subrange(0, i as int).push(
                    self.outofbands@[i as int]@,
                ));
            }
            outofbands.push(node);
            i += 1;
        }
        proof {
            assert(out_of_bands_view(self.outofbands@).subrange(0, i as int) =~= out_of_bands_view(
                self.outofbands@,
            ));
        }
        Document { blocks, outofbands }
    }
}

} // verus!
