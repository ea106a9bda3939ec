//! The document tree the filter works on, and its mathematical model.
//!
//! Every executable type here has a ghost twin (`InlineModel` for `Inline`,
//! and so on) in which strings are `Seq<char>` and vectors are `Seq`s.  The
//! twin is the type's `deep_view()`, and every contract of the crate is stated
//! over these twins.
use vstd::prelude::*;

verus! {

/// What a node carries beside its content: an identifier, class tags, and
/// key-value pairs in the order they were written.
#[derive(Clone, Debug, PartialEq, Eq)]
pub struct Attr {
    pub identifier: String,
    pub classes: Vec<String>,
    pub attributes: Vec<(String, String)>,
}

/// Where a link or an image points.
#[derive(Clone, Debug, PartialEq, Eq)]
pub struct Target {
    pub url: String,
    pub title: String,
}

/// What a node carries, as contracts see it.
pub ghost struct AttrModel {
    pub identifier: Seq<char>,
    pub classes: Seq<Seq<char>>,
    pub attributes: Seq<(Seq<char>, Seq<char>)>,
}

/// Where a link points, as contracts see it.
pub ghost struct TargetModel {
    pub url: Seq<char>,
    pub title: Seq<char>,
}

impl DeepView for Attr {
    type V = AttrModel;

    open spec fn deep_view(&self) -> AttrModel {
        AttrModel {
            identifier: self.identifier@,
            classes: self.classes.deep_view(),
            attributes: self.attributes.deep_view(),
        }
    }
}

impl DeepView for Target {
    type V = TargetModel;

    open spec fn deep_view(&self) -> TargetModel {
        TargetModel { url: self.url@, title: self.title@ }
    }
}

/// The quotation marks of quoted text.
#[derive(Clone, Copy, Debug, PartialEq, Eq, Structural)]
pub enum QuoteType {
    SingleQuote,
    DoubleQuote,
}

/// Whether a formula stands on its own line or in the text.
#[derive(Clone, Copy, Debug, PartialEq, Eq, Structural)]
pub enum MathType {
    DisplayMath,
    InlineMath,
}

/// How a citation names its authors.
#[derive(Clone, Copy, Debug, PartialEq, Eq, Structural)]
pub enum CitationMode {
    AuthorInText,
    SuppressAuthor,
    NormalCitation,
}

/// One work cited, with what is written before and after it.
#[derive(Debug)]
pub struct Citation {
    pub id: String,
    pub prefix: Vec<Inline>,
    pub suffix: Vec<Inline>,
    pub mode: CitationMode,
    pub note_num: i64,
    pub hash: i64,
}

/// An inline node of the document tree.
#[derive(Debug)]
pub enum Inline {
    Str(String),
    Emph(Vec<Inline>),
    Underline(Vec<Inline>),
    Strong(Vec<Inline>),
    Strikeout(Vec<Inline>),
    Superscript(Vec<Inline>),
    Subscript(Vec<Inline>),
    SmallCaps(Vec<Inline>),
    Quoted(QuoteType, Vec<Inline>),
    Cite(Vec<Citation>, Vec<Inline>),
    Code(Attr, String),
    Space,
    SoftBreak,
    LineBreak,
    Math(MathType, String),
    /// Output format name, then the raw text for that format.
    RawInline(String, String),
    Link(Attr, Vec<Inline>, Target),
    Image(Attr, Vec<Inline>, Target),
    Note(Vec<BlockNode>),
    Span(Attr, Vec<Inline>),
}

/// A block node of the document tree.
///
/// Only the blocks that the filter looks into or builds have a variant of
/// their own.  Every other block travels as `Other`, as `pandoc_ast` holds
/// it: the filter never looks into it, and hands it on as it came.
#[derive(Debug)]
pub enum BlockNode {
    Plain(Vec<Inline>),
    Para(Vec<Inline>),
    Header(i64, Attr, Vec<Inline>),
    Div(Attr, Vec<BlockNode>),
    Other(pandoc_ast::Block),
}

/// `pandoc_ast::Block`, of which nothing is known here but that it is a
/// type.
#[verifier::external_type_specification]
#[verifier::external_body]
pub struct ExBlock(pandoc_ast::Block);

/// The text that formatting with `{:?}` writes for a block of `pandoc_ast`,
/// through the `Debug` that `pandoc_ast` derives for its `Block`.  This text
/// is what contracts see of such a block.
pub uninterp spec fn debug_text(block: pandoc_ast::Block) -> Seq<char>;

/// A value of the document's metadata.  A map is a list of entries; a lookup
/// takes the first entry with the key.
#[derive(Debug, PartialEq, Eq)]
pub enum MetaValue {
    MetaMap(Vec<(String, MetaValue)>),
    MetaList(Vec<MetaValue>),
    MetaBool(bool),
    MetaString(String),
    MetaInlines(Vec<Inline>),
    MetaBlocks(Vec<BlockNode>),
}

/// A citation as contracts see it.
pub ghost struct CitationModel {
    pub id: Seq<char>,
    pub prefix: Seq<InlineModel>,
    pub suffix: Seq<InlineModel>,
    pub mode: CitationMode,
    pub note_num: i64,
    pub hash: i64,
}

/// An inline node as contracts see it.
pub ghost enum InlineModel {
    Str(Seq<char>),
    Emph(Seq<InlineModel>),
    Underline(Seq<InlineModel>),
    Strong(Seq<InlineModel>),
    Strikeout(Seq<InlineModel>),
    Superscript(Seq<InlineModel>),
    Subscript(Seq<InlineModel>),
    SmallCaps(Seq<InlineModel>),
    Quoted(QuoteType, Seq<InlineModel>),
    Cite(Seq<CitationModel>, Seq<InlineModel>),
    Code(AttrModel, Seq<char>),
    Space,
    SoftBreak,
    LineBreak,
    Math(MathType, Seq<char>),
    RawInline(Seq<char>, Seq<char>),
    Link(AttrModel, Seq<InlineModel>, TargetModel),
    Image(AttrModel, Seq<InlineModel>, TargetModel),
    Note(Seq<BlockModel>),
    Span(AttrModel, Seq<InlineModel>),
}

/// A block as contracts see it.  A block that the filter does not look
/// into is seen as its `debug_text`.
pub ghost enum BlockModel {
    Plain(Seq<InlineModel>),
    Para(Seq<InlineModel>),
    Header(i64, AttrModel, Seq<InlineModel>),
    Div(AttrModel, Seq<BlockModel>),
    Other(Seq<char>),
}

/// A metadata value as contracts see it.
pub ghost enum MetaModel {
    MetaMap(Seq<(Seq<char>, MetaModel)>),
    MetaList(Seq<MetaModel>),
    MetaBool(bool),
    MetaString(Seq<char>),
    MetaInlines(Seq<InlineModel>),
    MetaBlocks(Seq<BlockModel>),
}

/// The model of an inline node.
pub open spec fn inline_model(i: Inline) -> InlineModel
    decreases i, 0nat,
{
    match i {
        Inline::Str(s) => InlineModel::Str(s@),
        Inline::Emph(v) => InlineModel::Emph(inlines_model(v@)),
        Inline::Underline(v) => InlineModel::Underline(inlines_model(v@)),
        Inline::Strong(v) => InlineModel::Strong(inlines_model(v@)),
        Inline::Strikeout(v) => InlineModel::Strikeout(inlines_model(v@)),
        Inline::Superscript(v) => InlineModel::Superscript(inlines_model(v@)),
        Inline::Subscript(v) => InlineModel::Subscript(inlines_model(v@)),
        Inline::SmallCaps(v) => InlineModel::SmallCaps(inlines_model(v@)),
        Inline::Quoted(q, v) => InlineModel::Quoted(q, inlines_model(v@)),
        Inline::Cite(c, v) => InlineModel::Cite(citations_model(c@), inlines_model(v@)),
        Inline::Code(a, s) => InlineModel::Code(a.deep_view(), s@),
        Inline::Space => InlineModel::Space,
        Inline::SoftBreak => InlineModel::SoftBreak,
        Inline::LineBreak => InlineModel::LineBreak,
        Inline::Math(m, s) => InlineModel::Math(m, s@),
        Inline::RawInline(f, s) => InlineModel::RawInline(f@, s@),
        Inline::Link(a, v, t) => InlineModel::Link(a.deep_view(), inlines_model(v@), t.deep_view()),
        Inline::Image(a, v, t) => InlineModel::Image(
            a.deep_view(),
            inlines_model(v@),
            t.deep_view(),
        ),
        Inline::Note(b) => InlineModel::Note(blocks_model(b@)),
        Inline::Span(a, v) => InlineModel::Span(a.deep_view(), inlines_model(v@)),
    }
}

/// The models of a run of inline nodes.
pub open spec fn inlines_model(s: Seq<Inline>) -> Seq<InlineModel>
    decreases s, 1nat,
{
    Seq::new(
        s.len(),
        |k: int|
            if 0 <= k < s.len() {
                inline_model(s[k])
            } else {
                InlineModel::Space
            },
    )
}

/// The model of a citation.
pub open spec fn citation_model(c: Citation) -> CitationModel
    decreases c, 0nat,
{
    CitationModel {
        id: c.id@,
        prefix: inlines_model(c.prefix@),
        suffix: inlines_model(c.suffix@),
        mode: c.mode,
        note_num: c.note_num,
        hash: c.hash,
    }
}

/// The models of a list of citations.
pub open spec fn citations_model(s: Seq<Citation>) -> Seq<CitationModel>
    decreases s, 1nat,
{
    Seq::new(
        s.len(),
        |k: int|
            if 0 <= k < s.len() {
                citation_model(s[k])
            } else {
                arbitrary()
            },
    )
}

/// The model of a block.
pub open spec fn block_model(b: BlockNode) -> BlockModel
    decreases b, 0nat,
{
    match b {
        BlockNode::Plain(v) => BlockModel::Plain(inlines_model(v@)),
        BlockNode::Para(v) => BlockModel::Para(inlines_model(v@)),
        BlockNode::Header(l, a, v) => BlockModel::Header(l, a.deep_view(), inlines_model(v@)),
        BlockNode::Div(a, v) => BlockModel::Div(a.deep_view(), blocks_model(v@)),
        BlockNode::Other(b) => BlockModel::Other(debug_text(b)),
    }
}

/// The models of a list of blocks.
pub open spec fn blocks_model(s: Seq<BlockNode>) -> Seq<BlockModel>
    decreases s, 1nat,
{
    Seq::new(
        s.len(),
        |k: int|
            if 0 <= k < s.len() {
                block_model(s[k])
            } else {
                arbitrary()
            },
    )
}

/// The model of a metadata value.
pub open spec fn meta_model(m: MetaValue) -> MetaModel
    decreases m, 0nat,
{
    match m {
        MetaValue::MetaMap(e) => MetaModel::MetaMap(meta_entries_model(e@)),
        MetaValue::MetaList(l) => MetaModel::MetaList(metas_model(l@)),
        MetaValue::MetaBool(b) => MetaModel::MetaBool(b),
        MetaValue::MetaString(s) => MetaModel::MetaString(s@),
        MetaValue::MetaInlines(v) => MetaModel::MetaInlines(inlines_model(v@)),
        MetaValue::MetaBlocks(v) => MetaModel::MetaBlocks(blocks_model(v@)),
    }
}

/// The models of a list of metadata values.
pub open spec fn metas_model(s: Seq<MetaValue>) -> Seq<MetaModel>
    decreases s, 1nat,
{
    Seq::new(
        s.len(),
        |k: int|
            if 0 <= k < s.len() {
                meta_model(s[k])
            } else {
                arbitrary()
            },
    )
}

/// The models of the entries of a metadata map.
pub open spec fn meta_entries_model(s: Seq<(String, MetaValue)>) -> Seq<(Seq<char>, MetaModel)>
    decreases s, 1nat,
{
    Seq::new(
        s.len(),
        |k: int|
            if 0 <= k < s.len() {
                (s[k].0@, meta_model(s[k].1))
            } else {
                arbitrary()
            },
    )
}

impl DeepView for Citation {
    type V = CitationModel;

    open spec fn deep_view(&self) -> CitationModel {
        citation_model(*self)
    }
}

impl DeepView for Inline {
    type V = InlineModel;

    open spec fn deep_view(&self) -> InlineModel {
        inline_model(*self)
    }
}

impl DeepView for BlockNode {
    type V = BlockModel;

    open spec fn deep_view(&self) -> BlockModel {
        block_model(*self)
    }
}

impl DeepView for MetaValue {
    type V = MetaModel;

    open spec fn deep_view(&self) -> MetaModel {
        meta_model(*self)
    }
}

/// The deep view of a vector of nodes is the sequence of the nodes' models.
pub broadcast proof fn lemma_inlines_deep_view(v: Vec<Inline>)
    ensures
        #[trigger] v.deep_view() == inlines_model(v@),
{
    assert(v.deep_view() =~= inlines_model(v@));
}

/// The same for a slice of inline nodes.
pub broadcast proof fn lemma_inline_slice_deep_view(v: &[Inline])
    ensures
        #[trigger] v.deep_view() == inlines_model(v@),
{
    assert(v.deep_view() =~= inlines_model(v@));
}

/// The same for citations.
pub broadcast proof fn lemma_citations_deep_view(v: Vec<Citation>)
    ensures
        #[trigger] v.deep_view() == citations_model(v@),
{
    assert(v.deep_view() =~= citations_model(v@));
}

/// The same for blocks.
pub broadcast proof fn lemma_blocks_deep_view(v: Vec<BlockNode>)
    ensures
        #[trigger] v.deep_view() == blocks_model(v@),
{
    assert(v.deep_view() =~= blocks_model(v@));
}

/// The same for metadata values.
pub broadcast proof fn lemma_metas_deep_view(v: Vec<MetaValue>)
    ensures
        #[trigger] v.deep_view() == metas_model(v@),
{
    assert(v.deep_view() =~= metas_model(v@));
}

/// The same for the entries of a metadata map.
pub broadcast proof fn lemma_meta_entries_deep_view(v: Vec<(String, MetaValue)>)
    ensures
        #[trigger] v.deep_view() == meta_entries_model(v@),
{
    assert(v.deep_view() =~= meta_entries_model(v@));
}

/// The deep view of every list of nodes in terms of the models above.
pub broadcast group group_document_views {
    lemma_inlines_deep_view,
    lemma_inline_slice_deep_view,
    lemma_citations_deep_view,
    lemma_blocks_deep_view,
    lemma_metas_deep_view,
    lemma_meta_entries_deep_view,
}

} // verus!
