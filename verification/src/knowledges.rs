//! Knowledge directives: what a document may say about a term (introduce it,
//! introduce it again, refer to it), the base of known terms with their
//! spellings, and the three ways a directive is written out.
use vstd::prelude::*;
use crate::document::{
    Attr, AttrModel, Inline, InlineModel, MetaModel, MetaValue, Target, TargetModel,
    group_document_views,
};
use crate::structural::{copy_inlines, same_inlines};
use crate::text::{contains_string, decimal, lemma_decimal_injective, push_decimal, str_eq};
use crate::utils::{
    entry_value, inlines_text, kept, lemma_kept_is_read, meta_get, meta_inlines, meta_string, meta_to_inline,
    meta_to_string, stringify_inlines,
};

verus! {

/// The position of an entry in the knowledge base.
#[derive(Debug, Copy, Clone, PartialEq, Eq, Hash)]
pub struct KnowledgeId(pub usize);

/// What a directive asks for.
#[derive(Debug, Copy, Clone, PartialEq, Eq, Structural)]
pub enum KnowledgeCommandKind {
    /// Introduces a knowledge: the place that references point to.
    Intro,
    /// Introduces it again, without being a place to point to.
    Reintro,
    /// Refers to a knowledge.
    Ref,
}

/// One directive found in the document, independent of the output format.
#[derive(Debug, Clone, PartialEq, Eq)]
pub struct KnowledgeCommand {
    /// The identifier of the directive; empty where the author gave none.
    pub ident: String,
    pub kind: KnowledgeCommandKind,
    /// The visible text.
    pub content: Vec<Inline>,
    /// The name of the knowledge, where it is not the visible text.
    pub name: Option<String>,
    /// The scope in which the name is to be looked up.
    pub scope: Option<String>,
}

/// One spelling of a knowledge, with or without a scope.
///
/// Two spellings are equal when both are global or both are scoped, and
/// their contents, and their scopes, are the same.
#[derive(Debug, Clone)]
pub enum KnowledgeSynonym {
    Global(Vec<Inline>),
    Scoped(Vec<Inline>, String),
}

/// The spellings of one knowledge: at least one.  The first one is the one
/// shown.
#[derive(Debug, Clone, PartialEq, Eq)]
pub struct KnowledgeEntry {
    pub synonyms: Vec<KnowledgeSynonym>,
}

impl KnowledgeEntry {
    /// The entry has a spelling.
    pub open spec fn wf(&self) -> bool {
        self.synonyms.len() > 0
    }
}

/// A directive as contracts see it.
pub ghost struct CommandModel {
    pub ident: Seq<char>,
    pub kind: KnowledgeCommandKind,
    pub content: Seq<InlineModel>,
    pub name: Option<Seq<char>>,
    pub scope: Option<Seq<char>>,
}

/// A spelling as contracts see it.
pub ghost enum SynonymModel {
    Global(Seq<InlineModel>),
    Scoped(Seq<InlineModel>, Seq<char>),
}

impl DeepView for KnowledgeId {
    type V = nat;

    open spec fn deep_view(&self) -> nat {
        self.0 as nat
    }
}

impl DeepView for KnowledgeCommand {
    type V = CommandModel;

    open spec fn deep_view(&self) -> CommandModel {
        CommandModel {
            ident: self.ident@,
            kind: self.kind,
            content: self.content.deep_view(),
            name: self.name.deep_view(),
            scope: self.scope.deep_view(),
        }
    }
}

impl DeepView for KnowledgeSynonym {
    type V = SynonymModel;

    open spec fn deep_view(&self) -> SynonymModel {
        match self {
            KnowledgeSynonym::Global(i) => SynonymModel::Global(i.deep_view()),
            KnowledgeSynonym::Scoped(i, s) => SynonymModel::Scoped(i.deep_view(), s@),
        }
    }
}

impl DeepView for KnowledgeEntry {
    type V = Seq<SynonymModel>;

    open spec fn deep_view(&self) -> Seq<SynonymModel> {
        self.synonyms.deep_view()
    }
}

/// The text of a spelling: its plain text, then `@` and the scope where it
/// has one.
pub open spec fn synonym_text(s: SynonymModel) -> Seq<char> {
    match s {
        SynonymModel::Global(i) => inlines_text(i),
        SynonymModel::Scoped(i, scope) => inlines_text(i) + "@"@ + scope,
    }
}

impl KnowledgeSynonym {
    /// The text of this spelling, as the title of a reference shows it.
    pub fn to_string(&self) -> (r: String)
        ensures
            r@ == synonym_text(self.deep_view()),
    {
        match self {
            KnowledgeSynonym::Global(i) => stringify_inlines(i.as_slice()),
            KnowledgeSynonym::Scoped(i, s) => {
                let mut out = stringify_inlines(i.as_slice());
                out.append("@");
                out.append(s.as_str());
                out
            },
        }
    }

    /// Whether two spellings are the same: both global or both scoped, with
    /// the same content and the same scope.
    pub fn same(&self, other: &KnowledgeSynonym) -> (r: bool)
        ensures
            r == (self.deep_view() == other.deep_view()),
    {
        match (self, other) {
            (KnowledgeSynonym::Global(a), KnowledgeSynonym::Global(b)) => same_inlines(a, b),
            (KnowledgeSynonym::Scoped(a, s), KnowledgeSynonym::Scoped(b, t)) => same_inlines(a, b)
                && *s == *t,
            _ => false,
        }
    }

    /// A copy of this spelling.
    pub fn duplicate(&self) -> (r: KnowledgeSynonym)
        ensures
            r.deep_view() == self.deep_view(),
    {
        match self {
            KnowledgeSynonym::Global(a) => KnowledgeSynonym::Global(copy_inlines(a)),
            KnowledgeSynonym::Scoped(a, s) => KnowledgeSynonym::Scoped(copy_inlines(a), s.clone()),
        }
    }
}

impl PartialEq for KnowledgeSynonym {
    fn eq(&self, other: &Self) -> (r: bool) {
        self.same(other)
    }
}

impl Eq for KnowledgeSynonym {

}

impl vstd::std_specs::cmp::PartialEqSpecImpl for KnowledgeSynonym {
    open spec fn obeys_eq_spec() -> bool {
        true
    }

    open spec fn eq_spec(&self, other: &Self) -> bool {
        self.deep_view() == other.deep_view()
    }
}

fn copy_optional(s: &Option<String>) -> (r: Option<String>)
    ensures
        r.deep_view() == s.deep_view(),
{
    match s {
        Some(t) => Some(t.clone()),
        None => None,
    }
}

impl KnowledgeCommand {
    /// A copy of this directive.
    pub fn duplicate(&self) -> (r: KnowledgeCommand)
        ensures
            r.deep_view() == self.deep_view(),
    {
        KnowledgeCommand {
            ident: self.ident.clone(),
            kind: self.kind,
            content: copy_inlines(&self.content),
            name: copy_optional(&self.name),
            scope: copy_optional(&self.scope),
        }
    }
}

/// The kind that class tags ask for: `intro` before `reintro` before `ref`.
pub open spec fn kind_of_classes(classes: Seq<Seq<char>>) -> Option<KnowledgeCommandKind> {
    if classes.contains("intro"@) {
        Some(KnowledgeCommandKind::Intro)
    } else if classes.contains("reintro"@) {
        Some(KnowledgeCommandKind::Reintro)
    } else if classes.contains("ref"@) {
        Some(KnowledgeCommandKind::Ref)
    } else {
        None
    }
}

/// The kind of directive that class tags ask for, if any.
pub fn classes_to_knowledge_kind(classes: &[String]) -> (r: Option<KnowledgeCommandKind>)
    ensures
        r == kind_of_classes(classes.deep_view()),
{
    if contains_string(classes, "intro") {
        Some(KnowledgeCommandKind::Intro)
    } else if contains_string(classes, "reintro") {
        Some(KnowledgeCommandKind::Reintro)
    } else if contains_string(classes, "ref") {
        Some(KnowledgeCommandKind::Ref)
    } else {
        None
    }
}

/// The value that the last pair with the key gives, if there is one.
pub open spec fn last_value(pairs: Seq<(Seq<char>, Seq<char>)>, key: Seq<char>) -> Option<
    Seq<char>,
>
    decreases pairs.len(),
{
    if pairs.len() == 0 {
        None
    } else if pairs.last().0 == key {
        Some(pairs.last().1)
    } else {
        last_value(pairs.drop_last(), key)
    }
}

/// The name (key `kl`) and the scope (key `scope`) that key-value pairs give.
pub fn keyvals_to_knowledge_command(keyvals: &[(String, String)]) -> (r: (
    Option<String>,
    Option<String>,
))
    ensures
        r.0.deep_view() == last_value(keyvals.deep_view(), "kl"@),
        r.1.deep_view() == last_value(keyvals.deep_view(), "scope"@),
{
    let mut name: Option<String> = None;
    let mut scope: Option<String> = None;
    let mut k: usize = 0;
    proof {
        reveal_strlit("kl");
        reveal_strlit("scope");
        assert("kl"@.len() == 2 && "scope"@.len() == 5);
        assert(keyvals.deep_view().take(0) =~= Seq::empty());
    }
    while k < keyvals.len()
        invariant
            k <= keyvals.len(),
            "kl"@ != "scope"@,
            name.deep_view() == last_value(keyvals.deep_view().take(k as int), "kl"@),
            scope.deep_view() == last_value(keyvals.deep_view().take(k as int), "scope"@),
        decreases keyvals.len() - k,
    {
        proof {
            let next = keyvals.deep_view().take(k + 1);
            assert(next.drop_last() =~= keyvals.deep_view().take(k as int));
            assert(next.last() == keyvals@[k as int].deep_view());
        }
        if str_eq(keyvals[k].0.as_str(), "kl") {
            name = Some(keyvals[k].1.clone());
        } else if str_eq(keyvals[k].0.as_str(), "scope") {
            scope = Some(keyvals[k].1.clone());
        }
        k += 1;
    }
    assert(keyvals.deep_view().take(keyvals.len() as int) =~= keyvals.deep_view());
    (name, scope)
}

/// The directive that a node stands for: a span whose classes name a kind.
pub open spec fn command_of(m: InlineModel) -> Option<CommandModel> {
    match m {
        InlineModel::Span(attr, content) => match kind_of_classes(attr.classes) {
            Some(kind) => Some(
                CommandModel {
                    ident: attr.identifier,
                    kind,
                    content,
                    name: last_value(attr.attributes, "kl"@),
                    scope: last_value(attr.attributes, "scope"@),
                },
            ),
            None => None,
        },
        _ => None,
    }
}

/// Reads a span as a knowledge directive.  Any other node, and a span
/// without one of the three classes, is no directive.
pub fn span_to_knowledge(span: &Inline) -> (r: Option<KnowledgeCommand>)
    ensures
        r.deep_view() == command_of(span.deep_view()),
{
    broadcast use group_document_views;

    match span {
        Inline::Span(attr, inlines) => {
            let (name, scope) = keyvals_to_knowledge_command(attr.attributes.as_slice());
            match classes_to_knowledge_kind(attr.classes.as_slice()) {
                Some(kind) => Some(
                    KnowledgeCommand {
                        ident: attr.identifier.clone(),
                        kind,
                        content: copy_inlines(inlines),
                        name,
                        scope,
                    },
                ),
                None => None,
            }
        },
        _ => None,
    }
}

/// What one entry adds to a reverse index: each of its spellings now leads
/// to `id`, whatever it led to before.
pub open spec fn index_entry(
    index: Map<SynonymModel, nat>,
    synonyms: Seq<SynonymModel>,
    id: nat,
) -> Map<SynonymModel, nat>
    decreases synonyms.len(),
{
    if synonyms.len() == 0 {
        index
    } else {
        index_entry(index, synonyms.drop_last(), id).insert(synonyms.last(), id)
    }
}

/// The reverse index of a list of entries: from each spelling to the
/// position of its entry.  The entries are indexed in order, so of two
/// entries with one spelling the later one has it.
pub open spec fn reverse_index(forward: Seq<Seq<SynonymModel>>) -> Map<SynonymModel, nat>
    decreases forward.len(),
{
    if forward.len() == 0 {
        Map::empty()
    } else {
        index_entry(
            reverse_index(forward.drop_last()),
            forward.last(),
            (forward.len() - 1) as nat,
        )
    }
}

/// Every entry has at least one spelling.
pub open spec fn entries_valid(forward: Seq<Seq<SynonymModel>>) -> bool {
    forall|i: int| 0 <= i < forward.len() ==> (#[trigger] forward[i]).len() > 0
}

/// The entry that a spelling leads to, if any.
pub open spec fn resolved(forward: Seq<Seq<SynonymModel>>, key: SynonymModel) -> Option<nat> {
    let index = reverse_index(forward);
    if index.dom().contains(key) {
        Some(index[key])
    } else {
        None
    }
}

/// After an entry is indexed, its own spellings lead to it, and every other
/// spelling leads where it led before.
pub proof fn lemma_index_entry(
    index: Map<SynonymModel, nat>,
    synonyms: Seq<SynonymModel>,
    id: nat,
    key: SynonymModel,
)
    ensures
        synonyms.contains(key) ==> index_entry(index, synonyms, id).dom().contains(key)
            && index_entry(index, synonyms, id)[key] == id,
        !synonyms.contains(key) ==> (index_entry(index, synonyms, id).dom().contains(key)
            <==> index.dom().contains(key)),
        !synonyms.contains(key) && index.dom().contains(key) ==> index_entry(
            index,
            synonyms,
            id,
        )[key] == index[key],
    decreases synonyms.len(),
{
    if synonyms.len() > 0 {
        let rest = synonyms.drop_last();
        lemma_index_entry(index, rest, id, key);
        if synonyms.last() != key {
            if synonyms.contains(key) {
                let i = choose|i: int| 0 <= i < synonyms.len() && synonyms[i] == key;
                assert(rest[i] == key);
            }
            if rest.contains(key) {
                let i = choose|i: int| 0 <= i < rest.len() && rest[i] == key;
                assert(synonyms[i] == key);
            }
        } else {
            assert(synonyms[synonyms.len() - 1] == key);
        }
    }
}

/// A spelling leads to the last entry that lists it, and to none where no
/// entry lists it.
pub proof fn lemma_resolved_is_last_listing(forward: Seq<Seq<SynonymModel>>, key: SynonymModel)
    ensures
        match resolved(forward, key) {
            Some(id) => {
                &&& id < forward.len()
                &&& forward[id as int].contains(key)
                &&& forall|j: int| id < j < forward.len() ==> !forward[j].contains(key)
            },
            None => forall|j: int| 0 <= j < forward.len() ==> !forward[j].contains(key),
        },
    decreases forward.len(),
{
    if forward.len() > 0 {
        let rest = forward.drop_last();
        lemma_resolved_is_last_listing(rest, key);
        lemma_index_entry(reverse_index(rest), forward.last(), (forward.len() - 1) as nat, key);
        assert(forall|j: int| 0 <= j < rest.len() ==> rest[j] == forward[j]);
    }
}

spec fn pairs_model(pairs: Seq<(KnowledgeSynonym, KnowledgeId)>) -> Seq<(SynonymModel, nat)> {
    Seq::new(pairs.len(), |k: int| (pairs[k].0.deep_view(), pairs[k].1.0 as nat))
}

spec fn index_of_pairs(pairs: Seq<(SynonymModel, nat)>) -> Map<SynonymModel, nat>
    decreases pairs.len(),
{
    if pairs.len() == 0 {
        Map::empty()
    } else {
        index_of_pairs(pairs.drop_last()).insert(pairs.last().0, pairs.last().1)
    }
}

proof fn lemma_pairs_absent(pairs: Seq<(SynonymModel, nat)>, key: SynonymModel)
    requires
        forall|i: int| 0 <= i < pairs.len() ==> pairs[i].0 != key,
    ensures
        !index_of_pairs(pairs).dom().contains(key),
    decreases pairs.len(),
{
    if pairs.len() > 0 {
        lemma_pairs_absent(pairs.drop_last(), key);
    }
}

proof fn lemma_pairs_lookup(pairs: Seq<(SynonymModel, nat)>, key: SynonymModel, j: int)
    requires
        0 <= j < pairs.len(),
        pairs[j].0 == key,
        forall|i: int| j < i < pairs.len() ==> pairs[i].0 != key,
    ensures
        index_of_pairs(pairs).dom().contains(key),
        index_of_pairs(pairs)[key] == pairs[j].1,
    decreases pairs.len(),
{
    if j < pairs.len() - 1 {
        lemma_pairs_lookup(pairs.drop_last(), key, j);
    }
}

/// The knowledge base of a document: its entries in order, and the reverse
/// index that leads from each spelling to its entry.
#[derive(Debug, PartialEq, Eq)]
pub struct KnowledgeBase {
    /// From an identifier to the entry.
    forward: Vec<KnowledgeEntry>,
    /// From a spelling to the identifier of its entry; of two pairs with
    /// the same spelling the later one counts.
    canonize: Vec<(KnowledgeSynonym, KnowledgeId)>,
}

impl DeepView for KnowledgeBase {
    type V = Seq<Seq<SynonymModel>>;

    /// The entries in order, each as the list of its spellings.  The
    /// reverse index is `reverse_index` of them.
    closed spec fn deep_view(&self) -> Seq<Seq<SynonymModel>> {
        self.forward.deep_view()
    }
}

impl KnowledgeBase {
    /// Every entry has a spelling, and the reverse index is the one that
    /// the entries give: each spelling in it leads to an entry that is
    /// there and that lists it.
    #[verifier::type_invariant]
    spec fn indexed(&self) -> bool {
        &&& entries_valid(self.forward.deep_view())
        &&& index_of_pairs(pairs_model(self.canonize@)) == reverse_index(self.forward.deep_view())
    }

    /// The base that holds these entries, each under its position.
    pub fn from_entries(forward: Vec<KnowledgeEntry>) -> (r: KnowledgeBase)
        requires
            forall|i: int| 0 <= i < forward.len() ==> (#[trigger] forward[i]).wf(),
        ensures
            r.deep_view() == forward.deep_view(),
            entries_valid(r.deep_view()),
    {
        let mut canonize: Vec<(KnowledgeSynonym, KnowledgeId)> = Vec::new();
        let ghost entries = forward.deep_view();
        let mut i: usize = 0;
        proof {
            assert(entries.take(0) =~= Seq::empty());
        }
        while i < forward.len()
            invariant
                i <= forward.len(),
                entries == forward.deep_view(),
                index_of_pairs(pairs_model(canonize@)) == reverse_index(entries.take(i as int)),
            decreases forward.len() - i,
        {
            let entry = &forward[i];
            let ghost synonyms = entry.deep_view();
            let ghost before = reverse_index(entries.take(i as int));
            let mut j: usize = 0;
            proof {
                assert(synonyms.take(0) =~= Seq::empty());
            }
            while j < entry.synonyms.len()
                invariant
                    j <= entry.synonyms.len(),
                    synonyms == entry.synonyms.deep_view(),
                    index_of_pairs(pairs_model(canonize@)) == index_entry(
                        before,
                        synonyms.take(j as int),
                        i as nat,
                    ),
                decreases entry.synonyms.len() - j,
            {
                let ghost pairs = pairs_model(canonize@);
                canonize.push((entry.synonyms[j].duplicate(), KnowledgeId(i)));
                proof {
                    let next = synonyms.take(j + 1);
                    assert(next.drop_last() =~= synonyms.take(j as int));
                    assert(next.last() == entry.synonyms@[j as int].deep_view());
                    assert(pairs_model(canonize@).drop_last() =~= pairs);
                }
                j += 1;
            }
            proof {
                assert(synonyms.take(entry.synonyms.len() as int) =~= synonyms);
                let next = entries.take(i + 1);
                assert(next.drop_last() =~= entries.take(i as int));
                assert(next.last() == synonyms);
            }
            i += 1;
        }
        proof {
            assert(entries.take(forward.len() as int) =~= entries);
            assert forall|i: int| 0 <= i < entries.len() implies (#[trigger] entries[i]).len()
                > 0 by {
                assert(forward[i].wf());
            }
        }
        KnowledgeBase { forward, canonize }
    }

    /// The entries, in the order of their identifiers.  Each has a
    /// spelling.
    pub fn entries(&self) -> (r: &Vec<KnowledgeEntry>)
        ensures
            r.deep_view() == self.deep_view(),
            entries_valid(self.deep_view()),
            forall|i: int| 0 <= i < r.len() ==> (#[trigger] r[i]).wf(),
    {
        proof {
            use_type_invariant(self);
            assert forall|i: int| 0 <= i < self.forward.len() implies (
            #[trigger] self.forward[i]).wf() by {
                assert(self.forward.deep_view()[i].len() > 0);
            }
        }
        &self.forward
    }
}

/// Looks a spelling up in the base.
pub fn resolve_knowledge<'a>(kdb: &'a KnowledgeBase, l: &KnowledgeSynonym) -> (r: Option<
    (KnowledgeId, &'a KnowledgeEntry),
>)
    ensures
        match resolved(kdb.deep_view(), l.deep_view()) {
            Some(id) => {
                &&& r matches Some((kid, entry))
                &&& kid.0 == id
                &&& id < kdb.deep_view().len()
                &&& entry.deep_view() == kdb.deep_view()[id as int]
            },
            None => r is None,
        },
{
    let ghost pairs = pairs_model(kdb.canonize@);
    let mut k: usize = kdb.canonize.len();
    while k > 0
        invariant
            k <= kdb.canonize.len(),
            pairs == pairs_model(kdb.canonize@),
            forall|i: int| k <= i < pairs.len() ==> pairs[i].0 != l.deep_view(),
        decreases k,
    {
        k -= 1;
        if kdb.canonize[k].0.same(l) {
            let id = kdb.canonize[k].1;
            proof {
                use_type_invariant(kdb);
                lemma_resolved_is_last_listing(kdb.deep_view(), l.deep_view());
                lemma_pairs_lookup(pairs, l.deep_view(), k as int);
            }
            return Some((id, &kdb.forward[id.0]));
        }
    }
    proof {
        use_type_invariant(kdb);
        lemma_pairs_absent(pairs, l.deep_view());
    }
    None
}

/// The spelling under which a directive is looked up: its name where it has
/// one, else its visible text; scoped where it has a scope.
pub open spec fn command_key(c: CommandModel) -> SynonymModel {
    match (c.scope, c.name) {
        (Some(scope), Some(name)) => SynonymModel::Scoped(seq![InlineModel::Str(name)], scope),
        (Some(scope), None) => SynonymModel::Scoped(c.content, scope),
        (None, Some(name)) => SynonymModel::Global(seq![InlineModel::Str(name)]),
        (None, None) => SynonymModel::Global(c.content),
    }
}

impl KnowledgeCommand {
    /// The spelling under which this directive is looked up.
    pub fn synonym(&self) -> (r: KnowledgeSynonym)
        ensures
            r.deep_view() == command_key(self.deep_view()),
    {
        match (&self.scope, &self.name) {
            (Some(scope), Some(name)) => {
                let mut text: Vec<Inline> = Vec::new();
                text.push(Inline::Str(name.clone()));
                assert(text.deep_view() =~= seq![InlineModel::Str(name@)]);
                KnowledgeSynonym::Scoped(text, scope.clone())
            },
            (Some(scope), None) => KnowledgeSynonym::Scoped(
                copy_inlines(&self.content),
                scope.clone(),
            ),
            (None, Some(name)) => {
                let mut text: Vec<Inline> = Vec::new();
                text.push(Inline::Str(name.clone()));
                assert(text.deep_view() =~= seq![InlineModel::Str(name@)]);
                KnowledgeSynonym::Global(text)
            },
            (None, None) => KnowledgeSynonym::Global(copy_inlines(&self.content)),
        }
    }
}

/// A piece of raw LaTeX.
pub open spec fn raw_latex(text: Seq<char>) -> InlineModel {
    InlineModel::RawInline("latex"@, text)
}

/// Raw LaTeX `opening`, the content, and a closing brace.
pub open spec fn braced(opening: Seq<char>, content: Seq<InlineModel>) -> Seq<InlineModel> {
    seq![raw_latex(opening)] + content + seq![raw_latex("}"@)]
}

fn wrap_in_braces(opening: String, content: Vec<Inline>) -> (r: Vec<Inline>)
    ensures
        r.deep_view() == braced(opening@, content.deep_view()),
{
    let mut rest = content;
    let mut inlines: Vec<Inline> = Vec::new();
    inlines.push(Inline::RawInline(String::from_str("latex"), opening));
    inlines.append(&mut rest);
    inlines.push(Inline::RawInline(String::from_str("latex"), String::from_str("}")));
    assert(inlines.deep_view() =~= braced(opening@, content.deep_view()));
    inlines
}

/// The macro of the `knowledge` package for a kind of directive.
pub open spec fn latex_macro(kind: KnowledgeCommandKind) -> Seq<char> {
    match kind {
        KnowledgeCommandKind::Intro => "\\intro"@,
        KnowledgeCommandKind::Reintro => "\\reintro"@,
        KnowledgeCommandKind::Ref => "\\kl"@,
    }
}

/// The optional arguments of the macro: the scope in round brackets, then
/// the name in square brackets, each only where it is given.
pub open spec fn latex_suffix(scope: Option<Seq<char>>, name: Option<Seq<char>>) -> Seq<char> {
    match (scope, name) {
        (Some(scope), Some(name)) => "("@ + scope + ")["@ + name + "]"@,
        (Some(scope), None) => "("@ + scope + ")"@,
        (None, Some(name)) => "["@ + name + "]"@,
        (None, None) => Seq::empty(),
    }
}

/// A directive written for the `knowledge` package of LaTeX.
pub open spec fn latex_form(c: CommandModel) -> Seq<InlineModel> {
    braced(latex_macro(c.kind) + latex_suffix(c.scope, c.name) + "{"@, c.content)
}

/// Writes a directive as a call of the `knowledge` package's macro and
/// leaves the lookup to that package.
pub fn knowledge_to_latex(knowledge: KnowledgeCommand) -> (r: Vec<Inline>)
    ensures
        r.deep_view() == latex_form(knowledge.deep_view()),
{
    let mut opening = match knowledge.kind {
        KnowledgeCommandKind::Intro => String::from_str("\\intro"),
        KnowledgeCommandKind::Reintro => String::from_str("\\reintro"),
        KnowledgeCommandKind::Ref => String::from_str("\\kl"),
    };
    match (&knowledge.scope, &knowledge.name) {
        (Some(scope), Some(name)) => {
            opening.append("(");
            opening.append(scope.as_str());
            opening.append(")[");
            opening.append(name.as_str());
            opening.append("]");
        },
        (Some(scope), None) => {
            opening.append("(");
            opening.append(scope.as_str());
            opening.append(")");
        },
        (None, Some(name)) => {
            opening.append("[");
            opening.append(name.as_str());
            opening.append("]");
        },
        (None, None) => {},
    }
    opening.append("{");
    assert(opening@ =~= latex_macro(knowledge.kind) + latex_suffix(
        knowledge.scope.deep_view(),
        knowledge.name.deep_view(),
    ) + "{"@);
    wrap_in_braces(opening, knowledge.content)
}

/// What a traversal has recorded so far.
pub ghost struct ResolverModel {
    pub knowledge: Seq<Seq<SynonymModel>>,
    pub backrefs: Seq<(nat, CommandModel)>,
    pub introduced: Seq<(nat, CommandModel)>,
    pub unknown: Seq<CommandModel>,
}

/// The state of one traversal: the base, and in the order of the traversal
/// the knowledges introduced, the references made, and the directives that
/// led nowhere.
#[derive(Debug, PartialEq, Eq)]
pub struct KnowledgeResolver {
    knowledge: KnowledgeBase,
    backrefs: Vec<(KnowledgeId, KnowledgeCommand)>,
    introduced: Vec<(KnowledgeId, KnowledgeCommand)>,
    unknown: Vec<KnowledgeCommand>,
}

impl DeepView for KnowledgeResolver {
    type V = ResolverModel;

    /// The entries of the base, and what has been recorded.
    closed spec fn deep_view(&self) -> ResolverModel {
        ResolverModel {
            knowledge: self.knowledge.deep_view(),
            backrefs: self.backrefs.deep_view(),
            introduced: self.introduced.deep_view(),
            unknown: self.unknown.deep_view(),
        }
    }
}

impl KnowledgeResolver {
    /// The state at the beginning of a traversal: nothing is recorded.
    pub fn new(db: KnowledgeBase) -> (r: KnowledgeResolver)
        ensures
            r.deep_view() == (ResolverModel {
                knowledge: db.deep_view(),
                backrefs: Seq::empty(),
                introduced: Seq::empty(),
                unknown: Seq::empty(),
            }),
    {
        let r = KnowledgeResolver {
            knowledge: db,
            backrefs: Vec::new(),
            introduced: Vec::new(),
            unknown: Vec::new(),
        };
        assert(r.backrefs.deep_view() =~= Seq::empty());
        assert(r.introduced.deep_view() =~= Seq::empty());
        assert(r.unknown.deep_view() =~= Seq::empty());
        r
    }

    /// The base that directives are looked up in.
    pub fn knowledge(&self) -> (r: &KnowledgeBase)
        ensures
            r.deep_view() == self.deep_view().knowledge,
    {
        &self.knowledge
    }

    /// The references made so far, each with the entry it leads to.
    pub fn backrefs(&self) -> (r: &Vec<(KnowledgeId, KnowledgeCommand)>)
        ensures
            r.deep_view() == self.deep_view().backrefs,
    {
        &self.backrefs
    }

    /// The introductions made so far, each with its entry.
    pub fn introduced(&self) -> (r: &Vec<(KnowledgeId, KnowledgeCommand)>)
        ensures
            r.deep_view() == self.deep_view().introduced,
    {
        &self.introduced
    }

    /// The directives so far that led to no entry.
    pub fn unknown(&self) -> (r: &Vec<KnowledgeCommand>)
        ensures
            r.deep_view() == self.deep_view().unknown,
    {
        &self.unknown
    }

    fn note_unknown(&mut self, kl: KnowledgeCommand)
        ensures
            final(self).deep_view() == (ResolverModel {
                unknown: old(self).deep_view().unknown.push(kl.deep_view()),
                ..old(self).deep_view()
            }),
    {
        self.unknown.push(kl);
        assert(self.unknown.deep_view() =~= old(self).unknown.deep_view().push(kl.deep_view()));
    }

    fn note_introduced(&mut self, id: KnowledgeId, kl: KnowledgeCommand)
        ensures
            final(self).deep_view() == (ResolverModel {
                introduced: old(self).deep_view().introduced.push((id.0 as nat, kl.deep_view())),
                ..old(self).deep_view()
            }),
    {
        self.introduced.push((id, kl));
        assert(self.introduced.deep_view() =~= old(self).introduced.deep_view().push(
            (id.0 as nat, kl.deep_view()),
        ));
    }

    fn note_backref(&mut self, id: KnowledgeId, kl: KnowledgeCommand)
        ensures
            final(self).deep_view() == (ResolverModel {
                backrefs: old(self).deep_view().backrefs.push((id.0 as nat, kl.deep_view())),
                ..old(self).deep_view()
            }),
    {
        self.backrefs.push((id, kl));
        assert(self.backrefs.deep_view() =~= old(self).backrefs.deep_view().push(
            (id.0 as nat, kl.deep_view()),
        ));
    }
}

/// The anchor of an entry: `kl-` and its position.
pub open spec fn anchor(id: nat) -> Seq<char> {
    "kl-"@ + decimal(id)
}

fn anchor_string(id: usize) -> (r: String)
    ensures
        r@ == anchor(id as nat),
{
    let mut out = String::from_str("kl-");
    push_decimal(&mut out, id);
    out
}

/// The opening of the single-pass macro for a directive: the error macro of
/// its kind where the directive led nowhere, else the macro of its kind with
/// the anchor of the entry as first argument.
pub open spec fn fast_latex_opening(kind: KnowledgeCommandKind, target: Option<nat>) -> Seq<char> {
    match target {
        None => match kind {
            KnowledgeCommandKind::Intro => "\\akldeferror{"@,
            KnowledgeCommandKind::Reintro => "\\aklredeferror{"@,
            KnowledgeCommandKind::Ref => "\\aklreferror{"@,
        },
        Some(id) => match kind {
            KnowledgeCommandKind::Intro => "\\akldef{"@ + anchor(id) + "}{"@,
            KnowledgeCommandKind::Reintro => "\\aklredef{"@ + anchor(id) + "}{"@,
            KnowledgeCommandKind::Ref => "\\aklref{"@ + anchor(id) + "}{"@,
        },
    }
}

/// What the traversal records of a directive that led to `target`: an
/// unknown one where it led nowhere, an introduction or a reference where
/// it is one.  Introducing again records nothing.
pub open spec fn recorded(db: ResolverModel, c: CommandModel, target: Option<nat>) -> ResolverModel {
    match target {
        None => ResolverModel { unknown: db.unknown.push(c), ..db },
        Some(id) => match c.kind {
            KnowledgeCommandKind::Intro => ResolverModel {
                introduced: db.introduced.push((id, c)),
                ..db
            },
            KnowledgeCommandKind::Reintro => db,
            KnowledgeCommandKind::Ref => ResolverModel { backrefs: db.backrefs.push((id, c)), ..db },
        },
    }
}

/// One step of the single-pass LaTeX traversal: the state after the
/// directive, and what is written for it.
pub open spec fn fast_latex_step(db: ResolverModel, c: CommandModel) -> (
    ResolverModel,
    Seq<InlineModel>,
) {
    let target = resolved(db.knowledge, command_key(c));
    (recorded(db, c, target), braced(fast_latex_opening(c.kind, target), c.content))
}

/// Writes a directive as one of the single-pass macros, looking the
/// knowledge up here, and records what the directive did.
pub fn knowledge_to_fast_latex(db: &mut KnowledgeResolver, kl: KnowledgeCommand) -> (r: Vec<Inline>)
    ensures
        (final(db).deep_view(), r.deep_view()) == fast_latex_step(
            old(db).deep_view(),
            kl.deep_view(),
        ),
{
    let synonym = kl.synonym();
    let target = match resolve_knowledge(&db.knowledge, &synonym) {
        Some((kid, _)) => Some(kid),
        None => None,
    };
    let opening = match target {
        None => {
            db.note_unknown(kl.duplicate());
            match kl.kind {
                KnowledgeCommandKind::Intro => String::from_str("\\akldeferror{"),
                KnowledgeCommandKind::Reintro => String::from_str("\\aklredeferror{"),
                KnowledgeCommandKind::Ref => String::from_str("\\aklreferror{"),
            }
        },
        Some(kid) => {
            let anchor = anchor_string(kid.0);
            let mut opening = match kl.kind {
                KnowledgeCommandKind::Intro => {
                    db.note_introduced(kid, kl.duplicate());
                    String::from_str("\\akldef{")
                },
                KnowledgeCommandKind::Reintro => String::from_str("\\aklredef{"),
                KnowledgeCommandKind::Ref => {
                    db.note_backref(kid, kl.duplicate());
                    String::from_str("\\aklref{")
                },
            };
            opening.append(anchor.as_str());
            opening.append("}{");
            opening
        },
    };
    wrap_in_braces(opening, kl.content)
}

/// The class that marks the kind of a directive in the neutral form.
pub open spec fn kind_class(kind: KnowledgeCommandKind) -> Seq<char> {
    match kind {
        KnowledgeCommandKind::Intro => "kl-intro"@,
        KnowledgeCommandKind::Reintro => "kl-reintro"@,
        KnowledgeCommandKind::Ref => "kl-ref"@,
    }
}

/// The identifier of a reference: its own, or, where it has none, `kref-`
/// and the number of references made before it.
pub open spec fn reference_ident(c: CommandModel, count: nat) -> Seq<char> {
    if c.ident.len() == 0 {
        "kref-"@ + decimal(count)
    } else {
        c.ident
    }
}

/// A directive as the traversal records it: a reference that led somewhere
/// is recorded under the identifier it was given.
pub open spec fn identified(c: CommandModel, target: Option<nat>, count: nat) -> CommandModel {
    if target is Some && c.kind == KnowledgeCommandKind::Ref {
        CommandModel { ident: reference_ident(c, count), ..c }
    } else {
        c
    }
}

/// A directive in the form that any renderer can take.
///
/// One that led nowhere is a span marked `kl-undefined`.  An introduction
/// is a span under the anchor of its entry; an introduction again is the
/// same without an identifier; each has the entry's position under the key
/// `kl`.  A reference is a link to the anchor, titled with the first
/// spelling of the entry.  The content of a span is emphasized.
pub open spec fn pandoc_form(
    forward: Seq<Seq<SynonymModel>>,
    count: nat,
    c: CommandModel,
) -> InlineModel {
    match resolved(forward, command_key(c)) {
        None => InlineModel::Span(
            AttrModel {
                identifier: c.ident,
                classes: seq![kind_class(c.kind), "kl-undefined"@],
                attributes: Seq::empty(),
            },
            seq![InlineModel::Emph(c.content)],
        ),
        Some(id) => match c.kind {
            KnowledgeCommandKind::Intro => InlineModel::Span(
                AttrModel {
                    identifier: anchor(id),
                    classes: seq!["kl-intro"@, "kl-defined"@],
                    attributes: seq![("kl"@, decimal(id))],
                },
                seq![InlineModel::Emph(c.content)],
            ),
            KnowledgeCommandKind::Reintro => InlineModel::Span(
                AttrModel {
                    identifier: Seq::empty(),
                    classes: seq!["kl-reintro"@, "kl-defined"@],
                    attributes: seq![("kl"@, decimal(id))],
                },
                seq![InlineModel::Emph(c.content)],
            ),
            KnowledgeCommandKind::Ref => InlineModel::Link(
                AttrModel {
                    identifier: reference_ident(c, count),
                    classes: seq!["kl-ref"@, "kl-defined"@],
                    attributes: Seq::empty(),
                },
                c.content,
                TargetModel {
                    url: "#"@ + anchor(id),
                    title: "Reference to "@ + synonym_text(forward[id as int][0]),
                },
            ),
        },
    }
}

/// One step of the renderer-neutral traversal: the state after the
/// directive, and the node that takes its place.
pub open spec fn pandoc_step(db: ResolverModel, c: CommandModel) -> (ResolverModel, InlineModel) {
    let target = resolved(db.knowledge, command_key(c));
    (
        recorded(db, identified(c, target, db.backrefs.len()), target),
        pandoc_form(db.knowledge, db.backrefs.len(), c),
    )
}

fn two_classes(first: &str, second: &str) -> (r: Vec<String>)
    ensures
        r.deep_view() == seq![first@, second@],
{
    let mut classes: Vec<String> = Vec::new();
    classes.push(String::from_str(first));
    classes.push(String::from_str(second));
    assert(classes.deep_view() =~= seq![first@, second@]);
    classes
}

fn emphasized(content: Vec<Inline>) -> (r: Vec<Inline>)
    ensures
        r.deep_view() == seq![InlineModel::Emph(content.deep_view())],
{
    broadcast use group_document_views;

    let mut inside: Vec<Inline> = Vec::new();
    inside.push(Inline::Emph(content));
    assert(inside.deep_view() =~= seq![InlineModel::Emph(content.deep_view())]);
    inside
}

fn position_attribute(id: usize) -> (r: Vec<(String, String)>)
    ensures
        r.deep_view() == seq![("kl"@, decimal(id as nat))],
{
    let mut attributes: Vec<(String, String)> = Vec::new();
    let mut position = String::new();
    push_decimal(&mut position, id);
    assert(position@ =~= decimal(id as nat));
    attributes.push((String::from_str("kl"), position));
    assert(attributes.deep_view() =~= seq![("kl"@, decimal(id as nat))]);
    attributes
}

fn no_attributes() -> (r: Vec<(String, String)>)
    ensures
        r.deep_view() == Seq::<(Seq<char>, Seq<char>)>::empty(),
{
    let attributes: Vec<(String, String)> = Vec::new();
    assert(attributes.deep_view() =~= Seq::<(Seq<char>, Seq<char>)>::empty());
    attributes
}

/// Writes a directive in the renderer-neutral form, looking the knowledge
/// up here, and records what the directive did.
pub fn knowledge_to_pandoc(db: &mut KnowledgeResolver, kl: KnowledgeCommand) -> (r: Inline)
    ensures
        (final(db).deep_view(), r.deep_view()) == pandoc_step(old(db).deep_view(), kl.deep_view()),
{
    broadcast use group_document_views;

    let mut kl = kl;
    let synonym = kl.synonym();
    let found = match resolve_knowledge(&db.knowledge, &synonym) {
        Some((kid, entry)) => {
            proof {
                lemma_resolved_is_last_listing(db.knowledge.deep_view(), synonym.deep_view());
            }
            let mut title = String::from_str("Reference to ");
            let shown = entry.synonyms[0].to_string();
            title.append(shown.as_str());
            Some((kid, title))
        },
        None => None,
    };
    match found {
        None => {
            db.note_unknown(kl.duplicate());
            let classes = match kl.kind {
                KnowledgeCommandKind::Intro => two_classes("kl-intro", "kl-undefined"),
                KnowledgeCommandKind::Reintro => two_classes("kl-reintro", "kl-undefined"),
                KnowledgeCommandKind::Ref => two_classes("kl-ref", "kl-undefined"),
            };
            Inline::Span(
                Attr { identifier: kl.ident, classes, attributes: no_attributes() },
                emphasized(kl.content),
            )
        },
        Some((kid, title)) => {
            match kl.kind {
                KnowledgeCommandKind::Intro => {
                    db.note_introduced(kid, kl.duplicate());
                    Inline::Span(
                        Attr {
                            identifier: anchor_string(kid.0),
                            classes: two_classes("kl-intro", "kl-defined"),
                            attributes: position_attribute(kid.0),
                        },
                        emphasized(kl.content),
                    )
                },
                KnowledgeCommandKind::Reintro => {
                    Inline::Span(
                        Attr {
                            identifier: String::new(),
                            classes: two_classes("kl-reintro", "kl-defined"),
                            attributes: position_attribute(kid.0),
                        },
                        emphasized(kl.content),
                    )
                },
                KnowledgeCommandKind::Ref => {
                    if kl.ident.as_str().unicode_len() == 0 {
                        let mut ident = String::from_str("kref-");
                        push_decimal(&mut ident, db.backrefs.len());
                        kl.ident = ident;
                    }
                    let mut url = String::from_str("#");
                    url.append(anchor_string(kid.0).as_str());
                    db.note_backref(kid, kl.duplicate());
                    Inline::Link(
                        Attr {
                            identifier: kl.ident,
                            classes: two_classes("kl-ref", "kl-defined"),
                            attributes: no_attributes(),
                        },
                        kl.content,
                        Target { url, title },
                    )
                },
            }
        },
    }
}

/// The spelling that a metadata value declares: a string or inline content
/// is a global spelling, a map with a `name` and a `scope` a scoped one.
pub open spec fn synonym_of_meta(m: MetaModel) -> Option<SynonymModel> {
    match m {
        MetaModel::MetaString(s) => Some(SynonymModel::Global(seq![InlineModel::Str(s)])),
        MetaModel::MetaInlines(i) => Some(SynonymModel::Global(i)),
        MetaModel::MetaMap(fields) => match (
            entry_value(fields, "name"@),
            entry_value(fields, "scope"@),
        ) {
            (Some(name), Some(scope)) => match (meta_inlines(name), meta_string(scope)) {
                (Some(name), Some(scope)) => Some(SynonymModel::Scoped(name, scope)),
                _ => None,
            },
            _ => None,
        },
        _ => None,
    }
}

/// The entry that a metadata value declares: a map whose `synonyms` is a
/// list, of which the items that declare a spelling are kept.  An entry has
/// at least one spelling: a list that declares none declares no entry.
pub open spec fn entry_of_meta(m: MetaModel) -> Option<Seq<SynonymModel>> {
    match m {
        MetaModel::MetaMap(fields) => match entry_value(fields, "synonyms"@) {
            Some(MetaModel::MetaList(items)) => {
                let synonyms = kept(items, |item: MetaModel| synonym_of_meta(item));
                if synonyms.len() > 0 {
                    Some(synonyms)
                } else {
                    None
                }
            },
            _ => None,
        },
        _ => None,
    }
}

/// The entries that a metadata value declares: a list, of which the items
/// that declare an entry are kept.
pub open spec fn entries_of_meta(m: MetaModel) -> Option<Seq<Seq<SynonymModel>>> {
    match m {
        MetaModel::MetaList(items) => Some(kept(items, |item: MetaModel| entry_of_meta(item))),
        _ => None,
    }
}

/// The entries that the metadata of a document declares under
/// `knowledges`; none where it declares none, or not as a list.
pub open spec fn base_of_meta(meta: Seq<(Seq<char>, MetaModel)>) -> Seq<Seq<SynonymModel>> {
    match entry_value(meta, "knowledges"@) {
        Some(m) => match entries_of_meta(m) {
            Some(entries) => entries,
            None => Seq::empty(),
        },
        None => Seq::empty(),
    }
}

/// Reads a metadata value as a spelling.
pub fn parse_knowledge_synonym(meta: &MetaValue) -> (r: Option<KnowledgeSynonym>)
    ensures
        r.deep_view() == synonym_of_meta(meta.deep_view()),
{
    broadcast use group_document_views;

    match meta {
        MetaValue::MetaString(s) => {
            let mut text: Vec<Inline> = Vec::new();
            text.push(Inline::Str(s.clone()));
            assert(text.deep_view() =~= seq![InlineModel::Str(s@)]);
            Some(KnowledgeSynonym::Global(text))
        },
        MetaValue::MetaInlines(i) => Some(KnowledgeSynonym::Global(copy_inlines(i))),
        MetaValue::MetaMap(m) => {
            let name = match meta_get(m, "name") {
                Some(value) => meta_to_inline(value),
                None => None,
            };
            let scope = match meta_get(m, "scope") {
                Some(value) => meta_to_string(value),
                None => None,
            };
            match (name, scope) {
                (Some(name), Some(scope)) => Some(KnowledgeSynonym::Scoped(name, scope)),
                _ => None,
            }
        },
        _ => None,
    }
}

/// Reads a metadata value as an entry, leaving out the spellings that
/// cannot be read.  Where none can be read, there is no entry.
pub fn parse_knowledge_entry(meta: &MetaValue) -> (r: Option<KnowledgeEntry>)
    ensures
        r.deep_view() == entry_of_meta(meta.deep_view()),
        r matches Some(entry) ==> entry.wf(),
{
    broadcast use group_document_views;

    match meta {
        MetaValue::MetaMap(m) => match meta_get(m, "synonyms") {
            Some(MetaValue::MetaList(l)) => {
                let ghost read = |item: MetaModel| synonym_of_meta(item);
                let ghost items = l.deep_view();
                let mut synonyms: Vec<KnowledgeSynonym> = Vec::new();
                let mut k: usize = 0;
                proof {
                    assert(items.take(0) =~= Seq::empty());
                    assert(synonyms.deep_view() =~= Seq::empty());
                }
                while k < l.len()
                    invariant
                        k <= l.len(),
                        items == l.deep_view(),
                        read == |item: MetaModel| synonym_of_meta(item),
                        synonyms.deep_view() == kept(items.take(k as int), read),
                    decreases l.len() - k,
                {
                    let ghost done = synonyms.deep_view();
                    proof {
                        let next = items.take(k + 1);
                        assert(next.drop_last() =~= items.take(k as int));
                        assert(next.last() == l@[k as int].deep_view());
                    }
                    match parse_knowledge_synonym(&l[k]) {
                        Some(synonym) => {
                            synonyms.push(synonym);
                            assert(synonyms.deep_view() =~= done.push(synonym.deep_view()));
                        },
                        None => {},
                    }
                    k += 1;
                }
                proof {
                    assert(items.take(l.len() as int) =~= items);
                }
                if synonyms.len() > 0 {
                    Some(KnowledgeEntry { synonyms })
                } else {
                    None
                }
            },
            _ => None,
        },
        _ => None,
    }
}

/// Reads a metadata value as a list of entries, leaving out the entries
/// that cannot be read.
pub fn parse_knowledge_entries(meta: &MetaValue) -> (r: Option<Vec<KnowledgeEntry>>)
    ensures
        r.deep_view() == entries_of_meta(meta.deep_view()),
        r matches Some(entries) ==> forall|i: int|
            0 <= i < entries.len() ==> (#[trigger] entries[i]).wf(),
{
    broadcast use group_document_views;

    match meta {
        MetaValue::MetaList(l) => {
            let ghost read = |item: MetaModel| entry_of_meta(item);
            let ghost items = l.deep_view();
            let mut entries: Vec<KnowledgeEntry> = Vec::new();
            let mut k: usize = 0;
            proof {
                assert(items.take(0) =~= Seq::empty());
                assert(entries.deep_view() =~= Seq::empty());
            }
            while k < l.len()
                invariant
                    k <= l.len(),
                    items == l.deep_view(),
                    read == |item: MetaModel| entry_of_meta(item),
                    entries.deep_view() == kept(items.take(k as int), read),
                    forall|i: int| 0 <= i < entries.len() ==> (#[trigger] entries[i]).wf(),
                decreases l.len() - k,
            {
                let ghost done = entries.deep_view();
                proof {
                    let next = items.take(k + 1);
                    assert(next.drop_last() =~= items.take(k as int));
                    assert(next.last() == l@[k as int].deep_view());
                }
                match parse_knowledge_entry(&l[k]) {
                    Some(entry) => {
                        entries.push(entry);
                        assert(entries.deep_view() =~= done.push(entry.deep_view()));
                    },
                    None => {},
                }
                k += 1;
            }
            proof {
                assert(items.take(l.len() as int) =~= items);
            }
            Some(entries)
        },
        _ => None,
    }
}

/// Builds the knowledge base that the metadata of a document declares.
/// Whatever cannot be read is left out; nothing makes this fail.
pub fn parse_knowledge_base(meta: &Vec<(String, MetaValue)>) -> (r: KnowledgeBase)
    ensures
        r.deep_view() == base_of_meta(meta.deep_view()),
        entries_valid(r.deep_view()),
{
    let entries = match meta_get(meta, "knowledges") {
        Some(value) => parse_knowledge_entries(value),
        None => None,
    };
    match entries {
        Some(forward) => KnowledgeBase::from_entries(forward),
        None => {
            let forward: Vec<KnowledgeEntry> = Vec::new();
            assert(forward.deep_view() =~= Seq::empty());
            KnowledgeBase::from_entries(forward)
        },
    }
}

/// Every entry that metadata declares has at least one spelling: an item
/// without a readable spelling is left out, and takes no position.
pub proof fn lemma_declared_entries_have_synonyms(meta: Seq<(Seq<char>, MetaModel)>)
    ensures
        entries_valid(base_of_meta(meta)),
{
    let base = base_of_meta(meta);
    assert forall|j: int| 0 <= j < base.len() implies (#[trigger] base[j]).len() > 0 by {
        let items = entry_value(meta, "knowledges"@)->0->MetaList_0;
        let read = |item: MetaModel| entry_of_meta(item);
        lemma_kept_is_read(items, read, j);
    }
}

/// Where the metadata declares no knowledges, none at all or an empty list,
/// the base is empty and no directive leads anywhere: the traversal records
/// each one as unknown, and the renderer-neutral form of each is a span
/// marked `kl-undefined`.
pub proof fn lemma_without_knowledges_all_unknown(
    meta: Seq<(Seq<char>, MetaModel)>,
    db: ResolverModel,
    c: CommandModel,
)
    requires
        entry_value(meta, "knowledges"@) is None || entry_value(meta, "knowledges"@) == Some(
            MetaModel::MetaList(Seq::empty()),
        ),
        db.knowledge == base_of_meta(meta),
    ensures
        db.knowledge.len() == 0,
        resolved(db.knowledge, command_key(c)) is None,
        pandoc_step(db, c).0 == (ResolverModel { unknown: db.unknown.push(c), ..db }),
        pandoc_step(db, c).1 matches InlineModel::Span(attr, _) && attr.classes.contains(
            "kl-undefined"@,
        ),
        fast_latex_step(db, c).0 == (ResolverModel { unknown: db.unknown.push(c), ..db }),
{
    if entry_value(meta, "knowledges"@) is Some {
        let read = |item: MetaModel| entry_of_meta(item);
        assert(kept(Seq::<MetaModel>::empty(), read) =~= Seq::<Seq<SynonymModel>>::empty());
    }
    assert(db.knowledge =~= Seq::<Seq<SynonymModel>>::empty());
    let classes = seq![kind_class(c.kind), "kl-undefined"@];
    assert(classes[1] == "kl-undefined"@);
}

/// Two spellings with the same content and the same scope lead to the same
/// entry, or both to none.
pub proof fn lemma_same_spelling_same_entry(
    forward: Seq<Seq<SynonymModel>>,
    a: KnowledgeSynonym,
    b: KnowledgeSynonym,
)
    requires
        a.deep_view() == b.deep_view(),
    ensures
        resolved(forward, a.deep_view()) == resolved(forward, b.deep_view()),
{
}

/// The spellings of one entry are interchangeable: any two of them lead to
/// that entry, as long as no later entry lists one of them too.
pub proof fn lemma_synonyms_interchangeable(
    forward: Seq<Seq<SynonymModel>>,
    id: nat,
    a: SynonymModel,
    b: SynonymModel,
)
    requires
        id < forward.len(),
        forward[id as int].contains(a),
        forward[id as int].contains(b),
        forall|j: int| id < j < forward.len() ==> !forward[j].contains(a) && !forward[j].contains(b),
    ensures
        resolved(forward, a) == Some(id),
        resolved(forward, b) == Some(id),
{
    lemma_resolved_is_last_listing(forward, a);
    lemma_resolved_is_last_listing(forward, b);
}

/// Different entries have different anchors.
pub proof fn lemma_anchor_injective(a: nat, b: nat)
    requires
        anchor(a) == anchor(b),
    ensures
        a == b,
{
    let prefix = "kl-"@;
    assert(decimal(a) =~= anchor(a).skip(prefix.len() as int));
    assert(decimal(b) =~= anchor(b).skip(prefix.len() as int));
    lemma_decimal_injective(a, b);
}

/// In the renderer-neutral form, a reference that leads to an entry links
/// to the identifier under which an introduction of that entry stands: the
/// anchor of the entry.
pub proof fn lemma_reference_links_to_introduction(
    forward: Seq<Seq<SynonymModel>>,
    id: nat,
    introduction: CommandModel,
    reference: CommandModel,
    count_at_introduction: nat,
    count_at_reference: nat,
)
    requires
        introduction.kind == KnowledgeCommandKind::Intro,
        reference.kind == KnowledgeCommandKind::Ref,
        resolved(forward, command_key(introduction)) == Some(id),
        resolved(forward, command_key(reference)) == Some(id),
    ensures
        ({
            &&& pandoc_form(forward, count_at_introduction, introduction) matches InlineModel::Span(
                attr,
                _,
            )
            &&& attr.identifier == anchor(id)
            &&& pandoc_form(forward, count_at_reference, reference) matches InlineModel::Link(
                _,
                _,
                target,
            )
            &&& target.url == "#"@ + attr.identifier
        }),
{
}

/// A traversal in the renderer-neutral mode over directives alone: the
/// state after the last one, and the node written for each.
pub open spec fn pandoc_run(db: ResolverModel, commands: Seq<CommandModel>) -> (
    ResolverModel,
    Seq<InlineModel>,
)
    decreases commands.len(),
{
    if commands.len() == 0 {
        (db, Seq::empty())
    } else {
        let (before, written) = pandoc_run(db, commands.drop_last());
        let (after, node) = pandoc_step(before, commands.last());
        (after, written.push(node))
    }
}

/// A step of either traversal only adds to what is recorded: the base
/// stays, and each list of records begins with what it held before.
pub proof fn lemma_records_only_grow(db: ResolverModel, c: CommandModel)
    ensures
        fast_latex_step(db, c).0.knowledge == db.knowledge,
        db.backrefs.is_prefix_of(fast_latex_step(db, c).0.backrefs),
        db.introduced.is_prefix_of(fast_latex_step(db, c).0.introduced),
        db.unknown.is_prefix_of(fast_latex_step(db, c).0.unknown),
        pandoc_step(db, c).0.knowledge == db.knowledge,
        db.backrefs.is_prefix_of(pandoc_step(db, c).0.backrefs),
        db.introduced.is_prefix_of(pandoc_step(db, c).0.introduced),
        db.unknown.is_prefix_of(pandoc_step(db, c).0.unknown),
{
}

/// References without an identifier are numbered as they come: where each
/// directive of a run is such a reference and leads to an entry, the
/// reference at position `i` gets the identifier `kref-` and the number of
/// references made before the run plus `i`.  A run that begins with no
/// reference made gives `kref-0`, `kref-1`, and so on.
pub proof fn lemma_anonymous_references_numbered(db: ResolverModel, commands: Seq<CommandModel>)
    requires
        forall|i: int|
            0 <= i < commands.len() ==> {
                &&& (#[trigger] commands[i]).kind == KnowledgeCommandKind::Ref
                &&& commands[i].ident.len() == 0
                &&& resolved(db.knowledge, command_key(commands[i])) is Some
            },
    ensures
        pandoc_run(db, commands).0.knowledge == db.knowledge,
        pandoc_run(db, commands).0.backrefs.len() == db.backrefs.len() + commands.len(),
        pandoc_run(db, commands).1.len() == commands.len(),
        forall|i: int|
            0 <= i < commands.len() ==> {
                &&& (#[trigger] pandoc_run(db, commands).1[i]) matches InlineModel::Link(attr, _, _)
                &&& attr.identifier == "kref-"@ + decimal((db.backrefs.len() + i) as nat)
            },
    decreases commands.len(),
{
    if commands.len() > 0 {
        let rest = commands.drop_last();
        assert forall|i: int| 0 <= i < rest.len() implies {
            &&& (#[trigger] rest[i]).kind == KnowledgeCommandKind::Ref
            &&& rest[i].ident.len() == 0
            &&& resolved(db.knowledge, command_key(rest[i])) is Some
        } by {
            assert(rest[i] == commands[i]);
        }
        lemma_anonymous_references_numbered(db, rest);
        let (before, written) = pandoc_run(db, rest);
        let last = commands[commands.len() - 1];
        assert(last.kind == KnowledgeCommandKind::Ref);
        let (after, node) = pandoc_step(before, last);
        assert(pandoc_run(db, commands).1 == written.push(node));
        assert forall|i: int| 0 <= i < commands.len() implies {
            &&& (#[trigger] pandoc_run(db, commands).1[i]) matches InlineModel::Link(attr, _, _)
            &&& attr.identifier == "kref-"@ + decimal((db.backrefs.len() + i) as nat)
        } by {
            if i < rest.len() {
                assert(written.push(node)[i] == written[i]);
                assert(pandoc_run(db, rest).1[i] == written[i]);
            }
        }
    }
}

/// The state in which a run reaches the directive at position `i`.
pub open spec fn pandoc_state_at(db: ResolverModel, commands: Seq<CommandModel>, i: int) -> ResolverModel {
    pandoc_run(db, commands.take(i)).0
}

/// A run writes one node for each directive: the node of the step taken in
/// the state in which the run reaches the directive.  The base stays the
/// same all along.
pub proof fn lemma_pandoc_run_steps(db: ResolverModel, commands: Seq<CommandModel>, i: int)
    requires
        0 <= i < commands.len(),
    ensures
        pandoc_run(db, commands).1.len() == commands.len(),
        pandoc_run(db, commands).1[i] == pandoc_step(
            pandoc_state_at(db, commands, i),
            commands[i],
        ).1,
        pandoc_state_at(db, commands, i).knowledge == db.knowledge,
        pandoc_state_at(db, commands, i + 1) == pandoc_step(
            pandoc_state_at(db, commands, i),
            commands[i],
        ).0,
    decreases commands.len(),
{
    let rest = commands.drop_last();
    lemma_pandoc_run_length(db, commands);
    lemma_pandoc_run_length(db, rest);
    lemma_pandoc_run_base(db, commands.take(i));
    assert(commands.take(i + 1).drop_last() =~= commands.take(i));
    if i == commands.len() - 1 {
        assert(commands.take(i) =~= rest);
    } else {
        lemma_pandoc_run_steps(db, rest, i);
        assert(rest.take(i) =~= commands.take(i));
    }
}

/// A run writes as many nodes as it has directives.
pub proof fn lemma_pandoc_run_length(db: ResolverModel, commands: Seq<CommandModel>)
    ensures
        pandoc_run(db, commands).1.len() == commands.len(),
    decreases commands.len(),
{
    if commands.len() > 0 {
        lemma_pandoc_run_length(db, commands.drop_last());
    }
}

/// A run leaves the base as it is.
pub proof fn lemma_pandoc_run_base(db: ResolverModel, commands: Seq<CommandModel>)
    ensures
        pandoc_run(db, commands).0.knowledge == db.knowledge,
    decreases commands.len(),
{
    if commands.len() > 0 {
        lemma_pandoc_run_base(db, commands.drop_last());
    }
}

/// The number of references recorded never falls in the course of a run.
pub proof fn lemma_reference_count_never_falls(
    db: ResolverModel,
    commands: Seq<CommandModel>,
    i: int,
    j: int,
)
    requires
        0 <= i <= j <= commands.len(),
    ensures
        pandoc_state_at(db, commands, i).backrefs.len() <= pandoc_state_at(
            db,
            commands,
            j,
        ).backrefs.len(),
    decreases j - i,
{
    if i < j {
        lemma_reference_count_never_falls(db, commands, i, j - 1);
        lemma_pandoc_run_steps(db, commands, j - 1);
    }
}

/// Within one run, references without an identifier get numbers that grow:
/// of two such references that lead to an entry, the later one has the
/// larger number, so the two identifiers differ, whatever else the run
/// holds between them.
pub proof fn lemma_reference_numbers_increase(
    db: ResolverModel,
    commands: Seq<CommandModel>,
    i: int,
    j: int,
)
    requires
        0 <= i < j < commands.len(),
        commands[i].kind == KnowledgeCommandKind::Ref,
        commands[i].ident.len() == 0,
        resolved(db.knowledge, command_key(commands[i])) is Some,
        commands[j].kind == KnowledgeCommandKind::Ref,
        commands[j].ident.len() == 0,
        resolved(db.knowledge, command_key(commands[j])) is Some,
    ensures
        ({
            let first = pandoc_state_at(db, commands, i).backrefs.len();
            let second = pandoc_state_at(db, commands, j).backrefs.len();
            &&& first < second
            &&& pandoc_run(db, commands).1[i] matches InlineModel::Link(attr, _, _)
            &&& attr.identifier == "kref-"@ + decimal(first)
            &&& pandoc_run(db, commands).1[j] matches InlineModel::Link(other, _, _)
            &&& other.identifier == "kref-"@ + decimal(second)
            &&& attr.identifier != other.identifier
        }),
{
    lemma_pandoc_run_steps(db, commands, i);
    lemma_pandoc_run_steps(db, commands, j);
    lemma_reference_count_never_falls(db, commands, i + 1, j);
    let first = pandoc_state_at(db, commands, i).backrefs.len();
    let second = pandoc_state_at(db, commands, j).backrefs.len();
    lemma_reference_idents_distinct(first, second);
}

/// Two references numbered differently have different identifiers.
pub proof fn lemma_reference_idents_distinct(a: nat, b: nat)
    requires
        a != b,
    ensures
        "kref-"@ + decimal(a) != "kref-"@ + decimal(b),
{
    let prefix = "kref-"@;
    if prefix + decimal(a) == prefix + decimal(b) {
        assert(decimal(a) =~= (prefix + decimal(a)).skip(prefix.len() as int));
        assert(decimal(b) =~= (prefix + decimal(b)).skip(prefix.len() as int));
        lemma_decimal_injective(a, b);
    }
}

} // verus!
