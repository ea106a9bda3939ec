//! Plain text of inline content, and access to metadata values.
use vstd::prelude::*;
use crate::document::{
    Inline, InlineModel, MetaModel, MetaValue, group_document_views, lemma_meta_entries_deep_view,
    lemma_metas_deep_view,
};
use crate::structural::{copy_inlines, copy_meta};
use crate::text::{index_value, parse_index, split_at_char, split_text, str_eq};

verus! {

/// The plain text of an inline node: its words without any markup.  Notes
/// and images have none.
pub open spec fn inline_text(m: InlineModel) -> Seq<char>
    decreases m, 0nat,
{
    match m {
        InlineModel::Str(s) => s,
        InlineModel::Emph(v) => inlines_text(v),
        InlineModel::Underline(v) => inlines_text(v),
        InlineModel::Strong(v) => inlines_text(v),
        InlineModel::Strikeout(v) => inlines_text(v),
        InlineModel::Superscript(v) => inlines_text(v),
        InlineModel::Subscript(v) => inlines_text(v),
        InlineModel::SmallCaps(v) => inlines_text(v),
        InlineModel::Quoted(_, v) => inlines_text(v),
        InlineModel::Cite(_, v) => inlines_text(v),
        InlineModel::Code(_, s) => s,
        InlineModel::Space => " "@,
        InlineModel::SoftBreak => "\n"@,
        InlineModel::LineBreak => "\n"@,
        InlineModel::Math(_, s) => s,
        InlineModel::RawInline(_, s) => s,
        InlineModel::Link(_, v, _) => inlines_text(v),
        InlineModel::Image(_, _, _) => Seq::empty(),
        InlineModel::Note(_) => Seq::empty(),
        InlineModel::Span(_, v) => inlines_text(v),
    }
}

/// The plain texts of a run of inline nodes, joined without a separator.
pub open spec fn inlines_text(s: Seq<InlineModel>) -> Seq<char>
    decreases s, 1nat,
{
    if s.len() == 0 {
        Seq::empty()
    } else {
        inlines_text(s.drop_last()) + inline_text(s.last())
    }
}

fn push_inline_text(out: &mut String, i: &Inline)
    ensures
        final(out)@ == old(out)@ + inline_text(i.deep_view()),
    decreases *i, 0nat,
{
    broadcast use group_document_views;

    match i {
        Inline::Str(s) => out.append(s.as_str()),
        Inline::Emph(v) => push_inlines_text(out, v.as_slice()),
        Inline::Underline(v) => push_inlines_text(out, v.as_slice()),
        Inline::Strong(v) => push_inlines_text(out, v.as_slice()),
        Inline::Strikeout(v) => push_inlines_text(out, v.as_slice()),
        Inline::Superscript(v) => push_inlines_text(out, v.as_slice()),
        Inline::Subscript(v) => push_inlines_text(out, v.as_slice()),
        Inline::SmallCaps(v) => push_inlines_text(out, v.as_slice()),
        Inline::Quoted(_, v) => push_inlines_text(out, v.as_slice()),
        Inline::Cite(_, v) => push_inlines_text(out, v.as_slice()),
        Inline::Code(_, s) => out.append(s.as_str()),
        Inline::Space => out.append(" "),
        Inline::SoftBreak => out.append("\n"),
        Inline::LineBreak => out.append("\n"),
        Inline::Math(_, s) => out.append(s.as_str()),
        Inline::RawInline(_, s) => out.append(s.as_str()),
        Inline::Link(_, v, _) => push_inlines_text(out, v.as_slice()),
        Inline::Image(_, _, _) => {
            assert(out@ =~= old(out)@ + Seq::<char>::empty());
        },
        Inline::Note(_) => {
            assert(out@ =~= old(out)@ + Seq::<char>::empty());
        },
        Inline::Span(_, v) => push_inlines_text(out, v.as_slice()),
    }
}

fn push_inlines_text(out: &mut String, v: &[Inline])
    ensures
        final(out)@ == old(out)@ + inlines_text(v.deep_view()),
    decreases v@, 1nat,
{
    let mut k: usize = 0;
    assert(v.deep_view().take(0) =~= Seq::empty());
    assert(out@ =~= old(out)@ + Seq::<char>::empty());
    while k < v.len()
        invariant
            k <= v.len(),
            out@ == old(out)@ + inlines_text(v.deep_view().take(k as int)),
        decreases v.len() - k,
    {
        let ghost seen = v.deep_view().take(k as int);
        push_inline_text(out, &v[k]);
        proof {
            let next = v.deep_view().take(k + 1);
            assert(next.drop_last() =~= seen);
            assert(next.last() == v@[k as int].deep_view());
            assert(out@ =~= old(out)@ + inlines_text(next));
        }
        k += 1;
    }
    assert(v.deep_view().take(v.len() as int) =~= v.deep_view());
}

/// The plain text of a run of inline nodes.
pub fn stringify_inlines(i: &[Inline]) -> (r: String)
    ensures
        r@ == inlines_text(i.deep_view()),
{
    let mut out = String::new();
    push_inlines_text(&mut out, i);
    assert(out@ =~= inlines_text(i.deep_view()));
    out
}

/// The plain text of one inline node.
pub fn stringify(i: &Inline) -> (r: String)
    ensures
        r@ == inline_text(i.deep_view()),
{
    let mut out = String::new();
    push_inline_text(&mut out, i);
    assert(out@ =~= inline_text(i.deep_view()));
    out
}

/// What a best-effort reading keeps of a list: the readings of the items
/// that can be read, in their order.
pub open spec fn kept<A, B>(items: Seq<A>, read: spec_fn(A) -> Option<B>) -> Seq<B>
    decreases items.len(),
{
    if items.len() == 0 {
        Seq::empty()
    } else {
        match read(items.last()) {
            Some(b) => kept(items.drop_last(), read).push(b),
            None => kept(items.drop_last(), read),
        }
    }
}

/// Whatever is kept is the reading of one of the items.
pub proof fn lemma_kept_is_read<A, B>(items: Seq<A>, read: spec_fn(A) -> Option<B>, j: int)
    requires
        0 <= j < kept(items, read).len(),
    ensures
        exists|i: int| 0 <= i < items.len() && read(#[trigger] items[i]) == Some(kept(items, read)[j]),
    decreases items.len(),
{
    let rest = items.drop_last();
    if read(items.last()) is Some && j == kept(rest, read).len() {
        assert(read(items[items.len() - 1]) == Some(kept(items, read)[j]));
    } else {
        lemma_kept_is_read(rest, read, j);
        let i = choose|i: int| 0 <= i < rest.len() && read(#[trigger] rest[i]) == Some(kept(rest, read)[j]);
        assert(read(items[i]) == Some(kept(items, read)[j]));
    }
}

/// The text of a metadata value that is a string, or inline content made of
/// one plain word.
pub open spec fn meta_string(m: MetaModel) -> Option<Seq<char>> {
    match m {
        MetaModel::MetaString(s) => Some(s),
        MetaModel::MetaInlines(l) => if l.len() == 1 && l[0] is Str {
            Some(l[0]->Str_0)
        } else {
            None
        },
        _ => None,
    }
}

/// Reads a metadata value as a string.
pub fn meta_to_string(meta: &MetaValue) -> (r: Option<String>)
    ensures
        r.deep_view() == meta_string(meta.deep_view()),
{
    broadcast use group_document_views;

    match meta {
        MetaValue::MetaString(s) => Some(s.clone()),
        MetaValue::MetaInlines(l) => {
            if l.len() == 1 {
                match &l[0] {
                    Inline::Str(s) => Some(s.clone()),
                    _ => None,
                }
            } else {
                None
            }
        },
        _ => None,
    }
}

/// The inline content of a metadata value: a string is one plain word.
pub open spec fn meta_inlines(m: MetaModel) -> Option<Seq<InlineModel>> {
    match m {
        MetaModel::MetaString(s) => Some(seq![InlineModel::Str(s)]),
        MetaModel::MetaInlines(i) => Some(i),
        _ => None,
    }
}

/// Reads a metadata value as inline content.
pub fn meta_to_inline(meta: &MetaValue) -> (r: Option<Vec<Inline>>)
    ensures
        r.deep_view() == meta_inlines(meta.deep_view()),
{
    broadcast use group_document_views;

    match meta {
        MetaValue::MetaString(s) => {
            let mut text: Vec<Inline> = Vec::new();
            text.push(Inline::Str(s.clone()));
            assert(text.deep_view() =~= seq![InlineModel::Str(s@)]);
            Some(text)
        },
        MetaValue::MetaInlines(i) => Some(copy_inlines(i)),
        _ => None,
    }
}

/// The value that a metadata map gives for a key: that of its first entry
/// with the key.
pub open spec fn entry_value(entries: Seq<(Seq<char>, MetaModel)>, key: Seq<char>) -> Option<
    MetaModel,
>
    decreases entries.len(),
{
    if entries.len() == 0 {
        None
    } else if entries[0].0 == key {
        Some(entries[0].1)
    } else {
        entry_value(entries.drop_first(), key)
    }
}

/// Looks a key up in a metadata map.
pub fn meta_get<'a>(entries: &'a Vec<(String, MetaValue)>, key: &str) -> (r: Option<&'a MetaValue>)
    ensures
        r.deep_view() == entry_value(entries.deep_view(), key@),
{
    broadcast use group_document_views;

    let mut k: usize = 0;
    let ghost all = entries.deep_view();
    proof {
        assert(all.skip(0) =~= all);
    }
    while k < entries.len()
        invariant
            k <= entries.len(),
            all == entries.deep_view(),
            entry_value(all, key@) == entry_value(all.skip(k as int), key@),
        decreases entries.len() - k,
    {
        proof {
            assert(all.skip(k as int).drop_first() =~= all.skip(k + 1));
            assert(all.skip(k as int)[0] == entries@[k as int].deep_view());
        }
        if str_eq(entries[k].0.as_str(), key) {
            return Some(&entries[k].1);
        }
        k += 1;
    }
    None
}

/// One step into a metadata value: the field of a map, or the position in
/// a list.
#[derive(Debug, Clone, PartialEq, Eq)]
pub enum MetaSelect {
    Field(String),
    Index(usize),
}

/// A step as contracts see it.
pub ghost enum SelectModel {
    Field(Seq<char>),
    Index(nat),
}

impl DeepView for MetaSelect {
    type V = SelectModel;

    open spec fn deep_view(&self) -> SelectModel {
        match self {
            MetaSelect::Field(f) => SelectModel::Field(f@),
            MetaSelect::Index(i) => SelectModel::Index(*i as nat),
        }
    }
}

/// The value that a path of steps leads to, from a metadata value.  A field
/// leads on in a map that has it, a position in a list that is long enough;
/// anything else leads nowhere.
pub open spec fn meta_walk(m: MetaModel, path: Seq<SelectModel>) -> Option<MetaModel>
    decreases path.len(),
{
    if path.len() == 0 {
        Some(m)
    } else {
        match (path[0], m) {
            (SelectModel::Field(f), MetaModel::MetaMap(entries)) => match entry_value(entries, f) {
                Some(next) => meta_walk(next, path.drop_first()),
                None => None,
            },
            (SelectModel::Index(i), MetaModel::MetaList(items)) => if i < items.len() {
                meta_walk(items[i as int], path.drop_first())
            } else {
                None
            },
            _ => None,
        }
    }
}

/// Follows a path of steps from a metadata value, and hands out a copy of
/// what it leads to.
pub fn meta_deep_get_internal(meta: &MetaValue, path: &[MetaSelect]) -> (r: Option<MetaValue>)
    ensures
        r.deep_view() == meta_walk(meta.deep_view(), path.deep_view()),
{
    broadcast use group_document_views;

    let mut current = meta;
    let mut k: usize = 0;
    let ghost steps = path.deep_view();
    proof {
        assert(steps.skip(0) =~= steps);
    }
    while k < path.len()
        invariant
            k <= path.len(),
            steps == path.deep_view(),
            meta_walk(meta.deep_view(), steps) == meta_walk(
                current.deep_view(),
                steps.skip(k as int),
            ),
        decreases path.len() - k,
    {
        proof {
            assert(steps.skip(k as int).drop_first() =~= steps.skip(k + 1));
            assert(steps.skip(k as int)[0] == path@[k as int].deep_view());
        }
        match &path[k] {
            MetaSelect::Field(f) => {
                match current {
                    MetaValue::MetaMap(m) => {
                        proof {
                            lemma_meta_entries_deep_view(*m);
                        }
                        match meta_get(m, f.as_str()) {
                            Some(next) => {
                                current = next;
                            },
                            None => {
                                return None;
                            },
                        }
                    },
                    _ => {
                        return None;
                    },
                }
            },
            MetaSelect::Index(i) => {
                match current {
                    MetaValue::MetaList(l) => {
                        proof {
                            lemma_metas_deep_view(*l);
                        }
                        if *i < l.len() {
                            current = &l[*i];
                        } else {
                            return None;
                        }
                    },
                    _ => {
                        return None;
                    },
                }
            },
        }
        k += 1;
    }
    Some(copy_meta(current))
}

/// The step that one piece of a written path stands for: a position where
/// the piece is a number, else a field of that name.
pub open spec fn select_of(piece: Seq<char>) -> SelectModel {
    match index_value(piece, usize::MAX as nat) {
        Some(i) => SelectModel::Index(i),
        None => SelectModel::Field(piece),
    }
}

/// The steps of a path written with dots between them.
pub open spec fn selector_of(path: Seq<char>) -> Seq<SelectModel> {
    split_text(path, '.').map_values(|piece: Seq<char>| select_of(piece))
}

/// Reads a path written with dots as a sequence of steps.
pub fn string_to_selector(s: &str) -> (r: Vec<MetaSelect>)
    ensures
        r.deep_view() == selector_of(s@),
{
    let pieces = split_at_char(s, '.');
    let mut steps: Vec<MetaSelect> = Vec::new();
    let mut k: usize = 0;
    while k < pieces.len()
        invariant
            k <= pieces.len(),
            pieces.deep_view() == split_text(s@, '.'),
            steps.len() == k,
            forall|j: int| 0 <= j < k ==> steps@[j].deep_view() == select_of(pieces@[j]@),
        decreases pieces.len() - k,
    {
        let step = match parse_index(pieces[k].as_str()) {
            Some(i) => MetaSelect::Index(i),
            None => MetaSelect::Field(pieces[k].clone()),
        };
        steps.push(step);
        k += 1;
    }
    assert(steps.deep_view() =~= selector_of(s@)) by {
        assert forall|j: int| 0 <= j < steps.len() implies steps.deep_view()[j] == selector_of(
            s@,
        )[j] by {
            assert(pieces.deep_view()[j] == pieces@[j]@);
        }
    }
    steps
}

/// The value that a written path leads to in the metadata of a document.
pub open spec fn meta_lookup(entries: Seq<(Seq<char>, MetaModel)>, path: Seq<char>) -> Option<
    MetaModel,
> {
    meta_walk(MetaModel::MetaMap(entries), selector_of(path))
}

/// Follows a path written with dots, such as `lipics.mode`, from the
/// metadata of a document.
pub fn meta_deep_get(meta: &Vec<(String, MetaValue)>, path: &str) -> (r: Option<MetaValue>)
    ensures
        r.deep_view() == meta_lookup(meta.deep_view(), path@),
{
    broadcast use group_document_views;

    let selector = string_to_selector(path);
    proof {
        crate::text::lemma_split_text_nonempty(path@, '.');
    }
    let (first, rest) = selector.as_slice().split_at(1);
    proof {
        assert(first.deep_view()[0] == selector.deep_view()[0]);
        assert(rest.deep_view() =~= selector.deep_view().drop_first());
    }
    match &first[0] {
        MetaSelect::Field(f) => {
            match meta_get(meta, f.as_str()) {
                Some(m) => meta_deep_get_internal(m, rest),
                None => None,
            }
        },
        MetaSelect::Index(_) => None,
    }
}

} // verus!
