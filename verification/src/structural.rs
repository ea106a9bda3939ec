//! Deep copies and structural comparison of document nodes.
//!
//! A copy has the same model as its source, and two nodes compare as the same
//! exactly when their models are equal.
use vstd::prelude::*;
use crate::document::{
    Attr, BlockNode, Citation, Inline, MetaValue, Target, debug_text, group_document_views,
};

verus! {

/// A copy of a list of strings.
pub fn copy_strings(v: &Vec<String>) -> (r: Vec<String>)
    ensures
        r.deep_view() == v.deep_view(),
{
    let mut out: Vec<String> = Vec::new();
    let mut k: usize = 0;
    while k < v.len()
        invariant
            k <= v.len(),
            out.len() == k,
            forall|j: int| 0 <= j < k ==> out[j].deep_view() == v[j].deep_view(),
        decreases v.len() - k,
    {
        out.push(v[k].clone());
        k += 1;
    }
    assert(out.deep_view() =~= v.deep_view());
    out
}

/// Whether two lists of strings hold the same strings in the same order.
pub fn same_strings(a: &Vec<String>, b: &Vec<String>) -> (r: bool)
    ensures
        r == (a.deep_view() == b.deep_view()),
{
    if a.len() != b.len() {
        assert(a.deep_view().len() != b.deep_view().len());
        return false;
    }
    let mut k: usize = 0;
    while k < a.len()
        invariant
            k <= a.len(),
            a.len() == b.len(),
            forall|j: int| 0 <= j < k ==> a[j].deep_view() == b[j].deep_view(),
        decreases a.len() - k,
    {
        if !(a[k] == b[k]) {
            assert(a.deep_view()[k as int] == a[k as int].deep_view());
            assert(b.deep_view()[k as int] == b[k as int].deep_view());
            return false;
        }
        k += 1;
    }
    assert(a.deep_view() =~= b.deep_view());
    true
}

/// A copy of a list of pairs of strings.
pub fn copy_pairs(v: &Vec<(String, String)>) -> (r: Vec<(String, String)>)
    ensures
        r.deep_view() == v.deep_view(),
{
    let mut out: Vec<(String, String)> = Vec::new();
    let mut k: usize = 0;
    while k < v.len()
        invariant
            k <= v.len(),
            out.len() == k,
            forall|j: int| 0 <= j < k ==> out[j].deep_view() == v[j].deep_view(),
        decreases v.len() - k,
    {
        out.push((v[k].0.clone(), v[k].1.clone()));
        k += 1;
    }
    assert(out.deep_view() =~= v.deep_view());
    out
}

/// Whether two lists of pairs hold the same pairs in the same order.
pub fn same_pairs(a: &Vec<(String, String)>, b: &Vec<(String, String)>) -> (r: bool)
    ensures
        r == (a.deep_view() == b.deep_view()),
{
    if a.len() != b.len() {
        assert(a.deep_view().len() != b.deep_view().len());
        return false;
    }
    let mut k: usize = 0;
    while k < a.len()
        invariant
            k <= a.len(),
            a.len() == b.len(),
            forall|j: int| 0 <= j < k ==> a[j].deep_view() == b[j].deep_view(),
        decreases a.len() - k,
    {
        if !(a[k].0 == b[k].0 && a[k].1 == b[k].1) {
            assert(a.deep_view()[k as int] == a[k as int].deep_view());
            assert(b.deep_view()[k as int] == b[k as int].deep_view());
            return false;
        }
        k += 1;
    }
    assert(a.deep_view() =~= b.deep_view());
    true
}

/// A copy of the identifier, classes and attributes of a node.
pub fn copy_attr(a: &Attr) -> (r: Attr)
    ensures
        r.deep_view() == a.deep_view(),
{
    Attr {
        identifier: a.identifier.clone(),
        classes: copy_strings(&a.classes),
        attributes: copy_pairs(&a.attributes),
    }
}

/// Whether two nodes carry the same identifier, classes and attributes.
pub fn same_attr(a: &Attr, b: &Attr) -> (r: bool)
    ensures
        r == (a.deep_view() == b.deep_view()),
{
    a.identifier == b.identifier && same_strings(&a.classes, &b.classes) && same_pairs(
        &a.attributes,
        &b.attributes,
    )
}

/// A copy of the target of a link.
pub fn copy_target(t: &Target) -> (r: Target)
    ensures
        r.deep_view() == t.deep_view(),
{
    Target { url: t.url.clone(), title: t.title.clone() }
}

/// Whether two targets are the same.
pub fn same_target(a: &Target, b: &Target) -> (r: bool)
    ensures
        r == (a.deep_view() == b.deep_view()),
{
    a.url == b.url && a.title == b.title
}

/// A copy of a citation.
pub fn copy_citation(c: &Citation) -> (r: Citation)
    ensures
        r.deep_view() == c.deep_view(),
    decreases *c, 0nat,
{
    broadcast use group_document_views;

    Citation {
        id: c.id.clone(),
        prefix: copy_inlines(&c.prefix),
        suffix: copy_inlines(&c.suffix),
        mode: c.mode,
        note_num: c.note_num,
        hash: c.hash,
    }
}

/// Whether two citations are the same.
pub fn same_citation(a: &Citation, b: &Citation) -> (r: bool)
    ensures
        r == (a.deep_view() == b.deep_view()),
    decreases *a, 0nat,
{
    broadcast use group_document_views;

    a.id == b.id && same_inlines(&a.prefix, &b.prefix) && same_inlines(&a.suffix, &b.suffix)
        && a.mode == b.mode && a.note_num == b.note_num && a.hash == b.hash
}

/// A copy of a list of citations.
pub fn copy_citations(v: &Vec<Citation>) -> (r: Vec<Citation>)
    ensures
        r.deep_view() == v.deep_view(),
    decreases *v, 1nat,
{
    let mut out: Vec<Citation> = Vec::new();
    let mut k: usize = 0;
    while k < v.len()
        invariant
            k <= v.len(),
            out.len() == k,
            forall|j: int| 0 <= j < k ==> out[j].deep_view() == v[j].deep_view(),
        decreases v.len() - k,
    {
        out.push(copy_citation(&v[k]));
        k += 1;
    }
    assert(out.deep_view() =~= v.deep_view());
    out
}

/// Whether two lists of citations are the same.
pub fn same_citations(a: &Vec<Citation>, b: &Vec<Citation>) -> (r: bool)
    ensures
        r == (a.deep_view() == b.deep_view()),
    decreases *a, 1nat,
{
    if a.len() != b.len() {
        assert(a.deep_view().len() != b.deep_view().len());
        return false;
    }
    let mut k: usize = 0;
    while k < a.len()
        invariant
            k <= a.len(),
            a.len() == b.len(),
            forall|j: int| 0 <= j < k ==> a[j].deep_view() == b[j].deep_view(),
        decreases a.len() - k,
    {
        if !(same_citation(&a[k], &b[k])) {
            assert(a.deep_view()[k as int] == a[k as int].deep_view());
            assert(b.deep_view()[k as int] == b[k as int].deep_view());
            return false;
        }
        k += 1;
    }
    assert(a.deep_view() =~= b.deep_view());
    true
}

/// A copy of an inline node, with everything inside it.
pub fn copy_inline(i: &Inline) -> (r: Inline)
    ensures
        r.deep_view() == i.deep_view(),
    decreases *i, 0nat,
{
    broadcast use group_document_views;

    match i {
        Inline::Str(s) => Inline::Str(s.clone()),
        Inline::Emph(v) => Inline::Emph(copy_inlines(v)),
        Inline::Underline(v) => Inline::Underline(copy_inlines(v)),
        Inline::Strong(v) => Inline::Strong(copy_inlines(v)),
        Inline::Strikeout(v) => Inline::Strikeout(copy_inlines(v)),
        Inline::Superscript(v) => Inline::Superscript(copy_inlines(v)),
        Inline::Subscript(v) => Inline::Subscript(copy_inlines(v)),
        Inline::SmallCaps(v) => Inline::SmallCaps(copy_inlines(v)),
        Inline::Quoted(q, v) => Inline::Quoted(*q, copy_inlines(v)),
        Inline::Cite(c, v) => Inline::Cite(copy_citations(c), copy_inlines(v)),
        Inline::Code(a, s) => Inline::Code(copy_attr(a), s.clone()),
        Inline::Space => Inline::Space,
        Inline::SoftBreak => Inline::SoftBreak,
        Inline::LineBreak => Inline::LineBreak,
        Inline::Math(m, s) => Inline::Math(*m, s.clone()),
        Inline::RawInline(f, s) => Inline::RawInline(f.clone(), s.clone()),
        Inline::Link(a, v, t) => Inline::Link(copy_attr(a), copy_inlines(v), copy_target(t)),
        Inline::Image(a, v, t) => Inline::Image(copy_attr(a), copy_inlines(v), copy_target(t)),
        Inline::Note(b) => Inline::Note(copy_blocks(b)),
        Inline::Span(a, v) => Inline::Span(copy_attr(a), copy_inlines(v)),
    }
}

/// Whether two inline nodes are the same, with everything inside them.
pub fn same_inline(a: &Inline, b: &Inline) -> (r: bool)
    ensures
        r == (a.deep_view() == b.deep_view()),
    decreases *a, 0nat,
{
    broadcast use group_document_views;

    match (a, b) {
        (Inline::Str(x), Inline::Str(y)) => *x == *y,
        (Inline::Emph(x), Inline::Emph(y)) => same_inlines(x, y),
        (Inline::Underline(x), Inline::Underline(y)) => same_inlines(x, y),
        (Inline::Strong(x), Inline::Strong(y)) => same_inlines(x, y),
        (Inline::Strikeout(x), Inline::Strikeout(y)) => same_inlines(x, y),
        (Inline::Superscript(x), Inline::Superscript(y)) => same_inlines(x, y),
        (Inline::Subscript(x), Inline::Subscript(y)) => same_inlines(x, y),
        (Inline::SmallCaps(x), Inline::SmallCaps(y)) => same_inlines(x, y),
        (Inline::Quoted(p, x), Inline::Quoted(q, y)) => *p == *q && same_inlines(x, y),
        (Inline::Cite(c, x), Inline::Cite(d, y)) => same_citations(c, d) && same_inlines(x, y),
        (Inline::Code(p, x), Inline::Code(q, y)) => same_attr(p, q) && *x == *y,
        (Inline::Space, Inline::Space) => true,
        (Inline::SoftBreak, Inline::SoftBreak) => true,
        (Inline::LineBreak, Inline::LineBreak) => true,
        (Inline::Math(p, x), Inline::Math(q, y)) => *p == *q && *x == *y,
        (Inline::RawInline(p, x), Inline::RawInline(q, y)) => *p == *q && *x == *y,
        (Inline::Link(p, x, s), Inline::Link(q, y, t)) => same_attr(p, q) && same_inlines(x, y)
            && same_target(s, t),
        (Inline::Image(p, x, s), Inline::Image(q, y, t)) => same_attr(p, q) && same_inlines(x, y)
            && same_target(s, t),
        (Inline::Note(x), Inline::Note(y)) => same_blocks(x, y),
        (Inline::Span(p, x), Inline::Span(q, y)) => same_attr(p, q) && same_inlines(x, y),
        _ => false,
    }
}

/// A copy of a run of inline nodes.
pub fn copy_inlines(v: &Vec<Inline>) -> (r: Vec<Inline>)
    ensures
        r.deep_view() == v.deep_view(),
    decreases *v, 1nat,
{
    let mut out: Vec<Inline> = Vec::new();
    let mut k: usize = 0;
    while k < v.len()
        invariant
            k <= v.len(),
            out.len() == k,
            forall|j: int| 0 <= j < k ==> out[j].deep_view() == v[j].deep_view(),
        decreases v.len() - k,
    {
        out.push(copy_inline(&v[k]));
        k += 1;
    }
    assert(out.deep_view() =~= v.deep_view());
    out
}

/// Whether two runs of inline nodes are the same.
pub fn same_inlines(a: &Vec<Inline>, b: &Vec<Inline>) -> (r: bool)
    ensures
        r == (a.deep_view() == b.deep_view()),
    decreases *a, 1nat,
{
    if a.len() != b.len() {
        assert(a.deep_view().len() != b.deep_view().len());
        return false;
    }
    let mut k: usize = 0;
    while k < a.len()
        invariant
            k <= a.len(),
            a.len() == b.len(),
            forall|j: int| 0 <= j < k ==> a[j].deep_view() == b[j].deep_view(),
        decreases a.len() - k,
    {
        if !(same_inline(&a[k], &b[k])) {
            assert(a.deep_view()[k as int] == a[k as int].deep_view());
            assert(b.deep_view()[k as int] == b[k as int].deep_view());
            return false;
        }
        k += 1;
    }
    assert(a.deep_view() =~= b.deep_view());
    true
}

/// `format!("{:?}", block)`, with the `Debug` that `pandoc_ast` derives for
/// its `Block`.  The contract gives the result its name, `debug_text`, and
/// claims no more of it.
#[verifier::external_body]
fn foreign_text(block: &pandoc_ast::Block) -> (r: String)
    ensures
        r@ == debug_text(*block),
{
    format!("{:?}", block)
}

/// `block.clone()`, with the `Clone` that `pandoc_ast` derives for its
/// `Block`.  The derived `clone` copies the block field by field, so the
/// copy is written as the block is: that is all the contract claims.
#[verifier::external_body]
fn foreign_copy(block: &pandoc_ast::Block) -> (r: pandoc_ast::Block)
    ensures
        debug_text(r) == debug_text(*block),
{
    block.clone()
}

/// A copy of a block, with everything inside it.
pub fn copy_block(b: &BlockNode) -> (r: BlockNode)
    ensures
        r.deep_view() == b.deep_view(),
    decreases *b, 0nat,
{
    broadcast use group_document_views;

    match b {
        BlockNode::Plain(v) => BlockNode::Plain(copy_inlines(v)),
        BlockNode::Para(v) => BlockNode::Para(copy_inlines(v)),
        BlockNode::Header(l, a, v) => BlockNode::Header(*l, copy_attr(a), copy_inlines(v)),
        BlockNode::Div(a, v) => BlockNode::Div(copy_attr(a), copy_blocks(v)),
        BlockNode::Other(b) => BlockNode::Other(foreign_copy(b)),
    }
}

/// Whether two blocks are the same, with everything inside them.
pub fn same_block(a: &BlockNode, b: &BlockNode) -> (r: bool)
    ensures
        r == (a.deep_view() == b.deep_view()),
    decreases *a, 0nat,
{
    broadcast use group_document_views;

    match (a, b) {
        (BlockNode::Plain(x), BlockNode::Plain(y)) => same_inlines(x, y),
        (BlockNode::Para(x), BlockNode::Para(y)) => same_inlines(x, y),
        (BlockNode::Header(l, p, x), BlockNode::Header(m, q, y)) => *l == *m && same_attr(p, q)
            && same_inlines(x, y),
        (BlockNode::Div(p, x), BlockNode::Div(q, y)) => same_attr(p, q) && same_blocks(x, y),
        (BlockNode::Other(x), BlockNode::Other(y)) => foreign_text(x) == foreign_text(y),
        _ => false,
    }
}

/// A copy of a list of blocks.
pub fn copy_blocks(v: &Vec<BlockNode>) -> (r: Vec<BlockNode>)
    ensures
        r.deep_view() == v.deep_view(),
    decreases *v, 1nat,
{
    let mut out: Vec<BlockNode> = Vec::new();
    let mut k: usize = 0;
    while k < v.len()
        invariant
            k <= v.len(),
            out.len() == k,
            forall|j: int| 0 <= j < k ==> out[j].deep_view() == v[j].deep_view(),
        decreases v.len() - k,
    {
        out.push(copy_block(&v[k]));
        k += 1;
    }
    assert(out.deep_view() =~= v.deep_view());
    out
}

/// Whether two lists of blocks are the same.
pub fn same_blocks(a: &Vec<BlockNode>, b: &Vec<BlockNode>) -> (r: bool)
    ensures
        r == (a.deep_view() == b.deep_view()),
    decreases *a, 1nat,
{
    if a.len() != b.len() {
        assert(a.deep_view().len() != b.deep_view().len());
        return false;
    }
    let mut k: usize = 0;
    while k < a.len()
        invariant
            k <= a.len(),
            a.len() == b.len(),
            forall|j: int| 0 <= j < k ==> a[j].deep_view() == b[j].deep_view(),
        decreases a.len() - k,
    {
        if !(same_block(&a[k], &b[k])) {
            assert(a.deep_view()[k as int] == a[k as int].deep_view());
            assert(b.deep_view()[k as int] == b[k as int].deep_view());
            return false;
        }
        k += 1;
    }
    assert(a.deep_view() =~= b.deep_view());
    true
}

/// A copy of a metadata value, with everything inside it.
pub fn copy_meta(m: &MetaValue) -> (r: MetaValue)
    ensures
        r.deep_view() == m.deep_view(),
    decreases *m, 0nat,
{
    broadcast use group_document_views;

    match m {
        MetaValue::MetaMap(e) => MetaValue::MetaMap(copy_meta_entries(e)),
        MetaValue::MetaList(l) => MetaValue::MetaList(copy_metas(l)),
        MetaValue::MetaBool(b) => MetaValue::MetaBool(*b),
        MetaValue::MetaString(s) => MetaValue::MetaString(s.clone()),
        MetaValue::MetaInlines(v) => MetaValue::MetaInlines(copy_inlines(v)),
        MetaValue::MetaBlocks(v) => MetaValue::MetaBlocks(copy_blocks(v)),
    }
}

/// A copy of a list of metadata values.
pub fn copy_metas(v: &Vec<MetaValue>) -> (r: Vec<MetaValue>)
    ensures
        r.deep_view() == v.deep_view(),
    decreases *v, 1nat,
{
    let mut out: Vec<MetaValue> = Vec::new();
    let mut k: usize = 0;
    while k < v.len()
        invariant
            k <= v.len(),
            out.len() == k,
            forall|j: int| 0 <= j < k ==> out[j].deep_view() == v[j].deep_view(),
        decreases v.len() - k,
    {
        out.push(copy_meta(&v[k]));
        k += 1;
    }
    assert(out.deep_view() =~= v.deep_view());
    out
}

/// A copy of the entries of a metadata map.
pub fn copy_meta_entries(v: &Vec<(String, MetaValue)>) -> (r: Vec<(String, MetaValue)>)
    ensures
        r.deep_view() == v.deep_view(),
    decreases *v, 1nat,
{
    let mut out: Vec<(String, MetaValue)> = Vec::new();
    let mut k: usize = 0;
    while k < v.len()
        invariant
            k <= v.len(),
            out.len() == k,
            forall|j: int| 0 <= j < k ==> out[j].deep_view() == v[j].deep_view(),
        decreases v.len() - k,
    {
        out.push((v[k].0.clone(), copy_meta(&v[k].1)));
        k += 1;
    }
    assert(out.deep_view() =~= v.deep_view());
    out
}

impl PartialEq for Inline {
    fn eq(&self, other: &Self) -> (r: bool) {
        same_inline(self, other)
    }
}

impl Eq for Inline {

}

impl vstd::std_specs::cmp::PartialEqSpecImpl for Inline {
    open spec fn obeys_eq_spec() -> bool {
        true
    }

    open spec fn eq_spec(&self, other: &Self) -> bool {
        self.deep_view() == other.deep_view()
    }
}

impl PartialEq for Citation {
    fn eq(&self, other: &Self) -> (r: bool) {
        same_citation(self, other)
    }
}

impl Eq for Citation {

}

impl vstd::std_specs::cmp::PartialEqSpecImpl for Citation {
    open spec fn obeys_eq_spec() -> bool {
        true
    }

    open spec fn eq_spec(&self, other: &Self) -> bool {
        self.deep_view() == other.deep_view()
    }
}

impl PartialEq for BlockNode {
    fn eq(&self, other: &Self) -> (r: bool) {
        same_block(self, other)
    }
}

impl Eq for BlockNode {

}

impl vstd::std_specs::cmp::PartialEqSpecImpl for BlockNode {
    open spec fn obeys_eq_spec() -> bool {
        true
    }

    open spec fn eq_spec(&self, other: &Self) -> bool {
        self.deep_view() == other.deep_view()
    }
}

impl Clone for Inline {
    fn clone(&self) -> (r: Self)
        ensures
            r.deep_view() == self.deep_view(),
    {
        copy_inline(self)
    }
}

impl Clone for Citation {
    fn clone(&self) -> (r: Self)
        ensures
            r.deep_view() == self.deep_view(),
    {
        copy_citation(self)
    }
}

impl Clone for BlockNode {
    fn clone(&self) -> (r: Self)
        ensures
            r.deep_view() == self.deep_view(),
    {
        copy_block(self)
    }
}

impl Clone for MetaValue {
    fn clone(&self) -> (r: Self)
        ensures
            r.deep_view() == self.deep_view(),
    {
        copy_meta(self)
    }
}

} // verus!
