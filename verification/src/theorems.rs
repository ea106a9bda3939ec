//! Theorem-like environments: a division of the document read as a
//! statement with its proofs, and written out for LaTeX.
use vstd::prelude::*;
use crate::document::{
    Attr, AttrModel, BlockNode, BlockModel, Inline, InlineModel, group_document_views,
    lemma_blocks_deep_view, lemma_inlines_deep_view,
};
use crate::knowledges::raw_latex;
use crate::polyreg::{
    content_between, header_positions, header_runs, leading_content, lemma_header_positions,
    lemma_header_then_rest, lemma_runs_by_position, lemma_split_all_content,
    lemma_split_of_mapped, map_runs, map_tagged, run_end, runs_view, split_vec,
};
use crate::tags::{extend_keyvals, extend_tags, inserted, keyval_map, pairs_map, tag_set, unique_keys};
use crate::text::{contains_string, starts_with, str_eq};

verus! {

/// The kind of a theorem-like environment: one of the usual ones, or any
/// other under its own name.
#[derive(Debug, Clone, PartialEq, Eq)]
pub enum TheoremKind {
    Theorem,
    Lemma,
    Corollary,
    Proposition,
    Conjecture,
    Claim,
    Custom(String),
}

/// A kind of theorem as contracts see it.
pub ghost enum TheoremKindModel {
    Theorem,
    Lemma,
    Corollary,
    Proposition,
    Conjecture,
    Claim,
    Custom(Seq<char>),
}

impl DeepView for TheoremKind {
    type V = TheoremKindModel;

    open spec fn deep_view(&self) -> TheoremKindModel {
        match self {
            TheoremKind::Theorem => TheoremKindModel::Theorem,
            TheoremKind::Lemma => TheoremKindModel::Lemma,
            TheoremKind::Corollary => TheoremKindModel::Corollary,
            TheoremKind::Proposition => TheoremKindModel::Proposition,
            TheoremKind::Conjecture => TheoremKindModel::Conjecture,
            TheoremKind::Claim => TheoremKindModel::Claim,
            TheoremKind::Custom(s) => TheoremKindModel::Custom(s@),
        }
    }
}

/// The kind that a class tag names: one of the six usual names, or
/// `custom:` followed by a name of the author's own.
pub open spec fn kind_of_name(s: Seq<char>) -> Option<TheoremKindModel> {
    if s == "theorem"@ {
        Some(TheoremKindModel::Theorem)
    } else if s == "lemma"@ {
        Some(TheoremKindModel::Lemma)
    } else if s == "corollary"@ {
        Some(TheoremKindModel::Corollary)
    } else if s == "proposition"@ {
        Some(TheoremKindModel::Proposition)
    } else if s == "conjecture"@ {
        Some(TheoremKindModel::Conjecture)
    } else if s == "claim"@ {
        Some(TheoremKindModel::Claim)
    } else if "custom:"@.is_prefix_of(s) {
        Some(TheoremKindModel::Custom(s.skip("custom:"@.len() as int)))
    } else {
        None
    }
}

/// The name of the LaTeX environment of a kind.
pub open spec fn kind_name(kind: TheoremKindModel) -> Seq<char> {
    match kind {
        TheoremKindModel::Theorem => "theorem"@,
        TheoremKindModel::Lemma => "lemma"@,
        TheoremKindModel::Corollary => "corollary"@,
        TheoremKindModel::Proposition => "proposition"@,
        TheoremKindModel::Conjecture => "conjecture"@,
        TheoremKindModel::Claim => "claim"@,
        TheoremKindModel::Custom(s) => s,
    }
}

impl TheoremKind {
    /// Reads a class tag as a kind.
    pub fn try_from(s: &str) -> (r: Result<TheoremKind, ()>)
        ensures
            match kind_of_name(s@) {
                Some(kind) => r matches Ok(k) && k.deep_view() == kind,
                None => r is Err,
            },
    {
        if str_eq(s, "theorem") {
            Ok(TheoremKind::Theorem)
        } else if str_eq(s, "lemma") {
            Ok(TheoremKind::Lemma)
        } else if str_eq(s, "corollary") {
            Ok(TheoremKind::Corollary)
        } else if str_eq(s, "proposition") {
            Ok(TheoremKind::Proposition)
        } else if str_eq(s, "conjecture") {
            Ok(TheoremKind::Conjecture)
        } else if str_eq(s, "claim") {
            Ok(TheoremKind::Claim)
        } else if starts_with(s, "custom:") {
            let from = "custom:".unicode_len();
            let to = s.unicode_len();
            let name = s.substring_char(from, to);
            assert(name@ =~= s@.skip("custom:"@.len() as int));
            Ok(TheoremKind::Custom(String::from_str(name)))
        } else {
            Err(())
        }
    }

    /// The name of the LaTeX environment of this kind.
    pub fn name(&self) -> (r: String)
        ensures
            r@ == kind_name(self.deep_view()),
    {
        match self {
            TheoremKind::Theorem => String::from_str("theorem"),
            TheoremKind::Lemma => String::from_str("lemma"),
            TheoremKind::Corollary => String::from_str("corollary"),
            TheoremKind::Proposition => String::from_str("proposition"),
            TheoremKind::Conjecture => String::from_str("conjecture"),
            TheoremKind::Claim => String::from_str("claim"),
            TheoremKind::Custom(s) => s.clone(),
        }
    }
}

/// The kind that the first class tag naming one gives.
pub open spec fn theorem_kind_of(classes: Seq<Seq<char>>) -> Option<TheoremKindModel>
    decreases classes.len(),
{
    if classes.len() == 0 {
        None
    } else {
        match kind_of_name(classes[0]) {
            Some(kind) => Some(kind),
            None => theorem_kind_of(classes.drop_first()),
        }
    }
}

/// Looks among class tags for the kind of a theorem-like environment.
pub fn to_theorem_type(classes: &[String]) -> (r: Option<TheoremKind>)
    ensures
        r.deep_view() == theorem_kind_of(classes.deep_view()),
{
    let ghost all = classes.deep_view();
    let mut k: usize = 0;
    proof {
        assert(all.skip(0) =~= all);
    }
    while k < classes.len()
        invariant
            k <= classes.len(),
            all == classes.deep_view(),
            theorem_kind_of(all) == theorem_kind_of(all.skip(k as int)),
        decreases classes.len() - k,
    {
        proof {
            assert(all.skip(k as int).drop_first() =~= all.skip(k + 1));
            assert(all.skip(k as int)[0] == classes@[k as int]@);
        }
        match TheoremKind::try_from(classes[k].as_str()) {
            Ok(kind) => {
                return Some(kind);
            },
            Err(_) => {},
        }
        k += 1;
    }
    None
}

/// The counters of one conversion.
#[derive(Debug, Clone, Copy, PartialEq, Eq)]
pub struct Context {
    pub theorem_counter: u32,
    pub label_counter: u32,
}

impl Context {
    /// The counters before anything is counted.
    pub fn new() -> (r: Context)
        ensures
            r.theorem_counter == 0,
            r.label_counter == 0,
    {
        Context { theorem_counter: 0, label_counter: 0 }
    }

    /// The number of the next theorem; each call gives the next number.
    pub fn next_theorem(&mut self) -> (r: u32)
        requires
            old(self).theorem_counter < u32::MAX,
        ensures
            r == old(self).theorem_counter,
            final(self).theorem_counter == old(self).theorem_counter + 1,
            final(self).label_counter == old(self).label_counter,
    {
        let current = self.theorem_counter;
        self.theorem_counter += 1;
        current
    }
}

/// Whether a proof is shown with its theorem or put aside.
#[derive(Debug, Clone, Copy, PartialEq, Eq, Structural)]
pub enum ProofStatus {
    Important,
    Hidden,
}

/// Whether a proof is complete or a sketch.
#[derive(Debug, Clone, Copy, PartialEq, Eq, Structural)]
pub enum ProofKind {
    Proof,
    Sketch,
}

/// A proof that follows a theorem.
#[derive(Debug, Clone, PartialEq, Eq)]
pub struct Proof {
    pub title: Option<Vec<Inline>>,
    pub status: ProofStatus,
    pub kind: ProofKind,
    pub label: Option<String>,
    pub body: Vec<BlockNode>,
    /// A set: no class occurs twice.
    pub classes: Vec<String>,
    /// A map: no key occurs twice.
    pub keyvals: Vec<(String, String)>,
}

/// A theorem with its statement and the proofs that follow it.
#[derive(Debug, Clone, PartialEq, Eq)]
pub struct Theorem {
    pub title: Option<Vec<Inline>>,
    pub kind: TheoremKind,
    pub label: Option<String>,
    pub restatable: Option<String>,
    pub proofs: Vec<Proof>,
    pub statement: Vec<BlockNode>,
    /// A set: no class occurs twice.
    pub classes: Vec<String>,
    /// A map: no key occurs twice.
    pub keyvals: Vec<(String, String)>,
}

/// A proof as contracts see it: its classes as a set, its attributes as a
/// map.
pub ghost struct ProofModel {
    pub title: Option<Seq<InlineModel>>,
    pub status: ProofStatus,
    pub kind: ProofKind,
    pub label: Option<Seq<char>>,
    pub body: Seq<BlockModel>,
    pub classes: Set<Seq<char>>,
    pub keyvals: Map<Seq<char>, Seq<char>>,
}

/// A theorem as contracts see it: its classes as a set, its attributes as
/// a map.
pub ghost struct TheoremModel {
    pub title: Option<Seq<InlineModel>>,
    pub kind: TheoremKindModel,
    pub label: Option<Seq<char>>,
    pub restatable: Option<Seq<char>>,
    pub proofs: Seq<ProofModel>,
    pub statement: Seq<BlockModel>,
    pub classes: Set<Seq<char>>,
    pub keyvals: Map<Seq<char>, Seq<char>>,
}

impl DeepView for Proof {
    type V = ProofModel;

    open spec fn deep_view(&self) -> ProofModel {
        ProofModel {
            title: self.title.deep_view(),
            status: self.status,
            kind: self.kind,
            label: self.label.deep_view(),
            body: self.body.deep_view(),
            classes: self.classes.deep_view().to_set(),
            keyvals: pairs_map(self.keyvals.deep_view()),
        }
    }
}

impl DeepView for Theorem {
    type V = TheoremModel;

    open spec fn deep_view(&self) -> TheoremModel {
        TheoremModel {
            title: self.title.deep_view(),
            kind: self.kind.deep_view(),
            label: self.label.deep_view(),
            restatable: self.restatable.deep_view(),
            proofs: self.proofs.deep_view(),
            statement: self.statement.deep_view(),
            classes: self.classes.deep_view().to_set(),
            keyvals: pairs_map(self.keyvals.deep_view()),
        }
    }
}

impl Proof {
    /// The classes are a set and the attributes a map.
    pub open spec fn wf(&self) -> bool {
        &&& self.classes.deep_view().no_duplicates()
        &&& unique_keys(self.keyvals.deep_view())
    }
}

impl Theorem {
    /// The classes are a set and the attributes a map, here and in every
    /// proof.
    pub open spec fn wf(&self) -> bool {
        &&& self.classes.deep_view().no_duplicates()
        &&& unique_keys(self.keyvals.deep_view())
        &&& forall|i: int| 0 <= i < self.proofs.len() ==> (#[trigger] self.proofs[i]).wf()
    }
}

/// A heading among the children of a division.
pub struct Heading {
    pub level: i64,
    pub attr: Attr,
    pub text: Vec<Inline>,
}

/// A heading as contracts see it.
pub ghost struct HeadingModel {
    pub level: i64,
    pub attr: AttrModel,
    pub text: Seq<InlineModel>,
}

impl DeepView for Heading {
    type V = HeadingModel;

    open spec fn deep_view(&self) -> HeadingModel {
        HeadingModel {
            level: self.level,
            attr: self.attr.deep_view(),
            text: self.text.deep_view(),
        }
    }
}

/// A block as the grouping sees it: a heading, or content.
pub open spec fn tagged_block(b: BlockModel) -> Result<HeadingModel, BlockModel> {
    match b {
        BlockModel::Header(level, attr, text) => Ok(HeadingModel { level, attr, text }),
        _ => Err(b),
    }
}

/// The children of a division as the grouping sees them.
pub open spec fn tagged(children: Seq<BlockModel>) -> Seq<Result<HeadingModel, BlockModel>> {
    children.map_values(|b: BlockModel| tagged_block(b))
}

/// A text, where it is not empty.
pub open spec fn nonempty<T>(s: Seq<T>) -> Option<Seq<T>> {
    if s.len() > 0 {
        Some(s)
    } else {
        None
    }
}

/// The proof that a heading and the blocks under it make: a sketch where
/// the heading has the class `sketch`, hidden where it has `appendix`.
pub open spec fn proof_of(run: (HeadingModel, Seq<BlockModel>)) -> ProofModel {
    ProofModel {
        title: nonempty(run.0.text),
        status: if run.0.attr.classes.contains("appendix"@) {
            ProofStatus::Hidden
        } else {
            ProofStatus::Important
        },
        kind: if run.0.attr.classes.contains("sketch"@) {
            ProofKind::Sketch
        } else {
            ProofKind::Proof
        },
        label: nonempty(run.0.attr.identifier),
        body: run.1,
        classes: run.0.attr.classes.to_set(),
        keyvals: pairs_map(run.0.attr.attributes),
    }
}

/// The theorem that a division of a given kind makes.
///
/// Where blocks stand before the first heading, they are the statement,
/// there is no title, and every heading begins a proof.  Where the first
/// child is a heading, it gives the title, the label, and its classes and
/// attributes besides those of the division; the blocks under it are the
/// statement, and every later heading begins a proof.  A division without
/// children is a theorem with an empty statement.
pub open spec fn theorem_of_division(
    attr: AttrModel,
    kind: TheoremKindModel,
    children: Seq<BlockModel>,
) -> TheoremModel {
    let before = leading_content(tagged(children));
    let runs = header_runs(tagged(children));
    if before.len() > 0 || runs.len() == 0 {
        TheoremModel {
            title: None,
            kind,
            label: None,
            restatable: None,
            proofs: runs.map_values(|run: (HeadingModel, Seq<BlockModel>)| proof_of(run)),
            statement: before,
            classes: attr.classes.to_set(),
            keyvals: pairs_map(attr.attributes),
        }
    } else {
        TheoremModel {
            title: Some(runs[0].0.text),
            kind,
            label: nonempty(runs[0].0.attr.identifier),
            restatable: None,
            proofs: runs.drop_first().map_values(
                |run: (HeadingModel, Seq<BlockModel>)| proof_of(run),
            ),
            statement: runs[0].1,
            classes: attr.classes.to_set().union(runs[0].0.attr.classes.to_set()),
            keyvals: inserted(pairs_map(attr.attributes), runs[0].0.attr.attributes),
        }
    }
}

/// The theorem that a block makes: a division one of whose classes names a
/// kind.
pub open spec fn theorem_of(b: BlockModel) -> Option<TheoremModel> {
    match b {
        BlockModel::Div(attr, children) => match theorem_kind_of(attr.classes) {
            Some(kind) => Some(theorem_of_division(attr, kind, children)),
            None => None,
        },
        _ => None,
    }
}

/// A division without any heading among its children is all statement: the
/// children are the statement as they are, there is neither title nor
/// label, and there is no proof.
pub proof fn lemma_division_without_headings(
    attr: AttrModel,
    kind: TheoremKindModel,
    children: Seq<BlockModel>,
)
    requires
        forall|i: int| 0 <= i < children.len() ==> !(children[i] is Header),
    ensures
        theorem_of_division(attr, kind, children).statement == children,
        theorem_of_division(attr, kind, children).title is None,
        theorem_of_division(attr, kind, children).label is None,
        theorem_of_division(attr, kind, children).proofs.len() == 0,
{
    let items = tagged(children);
    assert forall|i: int| 0 <= i < items.len() implies items[i] is Err by {
        assert(!(children[i] is Header));
    }
    lemma_split_all_content(items);
    assert(leading_content(items) =~= children);
}

/// A division that begins with a heading, and has one more heading after
/// the blocks under the first, is a theorem with a title and one proof: the
/// first heading gives the title, the blocks under it are the statement,
/// and the second heading with the blocks under it is the proof.
pub proof fn lemma_titled_division_with_one_proof(
    attr: AttrModel,
    kind: TheoremKindModel,
    title: HeadingModel,
    statement: Seq<BlockModel>,
    heading: HeadingModel,
    body: Seq<BlockModel>,
)
    requires
        forall|i: int| 0 <= i < statement.len() ==> !(statement[i] is Header),
        forall|i: int| 0 <= i < body.len() ==> !(body[i] is Header),
    ensures
        ({
            let children = seq![BlockModel::Header(title.level, title.attr, title.text)] + statement
                + seq![BlockModel::Header(heading.level, heading.attr, heading.text)] + body;
            let theorem = theorem_of_division(attr, kind, children);
            &&& theorem.title == Some(title.text)
            &&& theorem.statement == statement
            &&& theorem.proofs == seq![proof_of((heading, body))]
        }),
{
    let wrap = |b: BlockModel| Err::<HeadingModel, BlockModel>(b);
    let children = seq![BlockModel::Header(title.level, title.attr, title.text)] + statement + seq![
        BlockModel::Header(heading.level, heading.attr, heading.text),
    ] + body;
    let last = seq![Ok::<HeadingModel, BlockModel>(heading)] + body.map_values(wrap)
        + Seq::<Result<HeadingModel, BlockModel>>::empty();
    let items = seq![Ok::<HeadingModel, BlockModel>(title)] + statement.map_values(wrap) + last;
    assert(tagged(children) =~= items) by {
        assert forall|i: int| 0 <= i < children.len() implies tagged(children)[i] == items[i] by {
            if 1 <= i <= statement.len() {
                assert(children[i] == statement[i - 1]);
            } else if i > statement.len() + 1 {
                assert(children[i] == body[i - statement.len() - 2]);
            }
        }
    }
    lemma_header_then_rest(heading, body, Seq::<Result<HeadingModel, BlockModel>>::empty());
    lemma_header_then_rest(title, statement, last);
    let runs = header_runs(items);
    assert(header_runs(Seq::<Result<HeadingModel, BlockModel>>::empty()) =~= Seq::empty());
    assert(runs =~= seq![(title, statement), (heading, body)]);
    assert(runs.drop_first() =~= seq![(heading, body)]);
    assert(runs.drop_first().map_values(|run: (HeadingModel, Seq<BlockModel>)| proof_of(run))
        =~= seq![proof_of((heading, body))]);
}

/// The positions of the headings among the children of a division, in
/// order.
pub open spec fn heading_positions(children: Seq<BlockModel>) -> Seq<int> {
    header_positions(tagged(children))
}

/// The heading that stands at a position.
pub open spec fn heading_at(children: Seq<BlockModel>, i: int) -> HeadingModel {
    tagged_block(children[i])->Ok_0
}

/// Where the blocks under the heading numbered `j` end: at the next
/// heading, or with the last child.
pub open spec fn blocks_end(children: Seq<BlockModel>, j: int) -> int {
    run_end(tagged(children), j)
}

/// The proof that the heading numbered `j` begins: that heading, with the
/// blocks from there up to the next heading or the end.
pub open spec fn proof_under(children: Seq<BlockModel>, j: int) -> ProofModel {
    let at = heading_positions(children)[j];
    proof_of((heading_at(children, at), children.subrange(at + 1, blocks_end(children, j))))
}

/// The heading positions of a division are the positions of the children
/// that are headings, from first to last, and between two of them, as
/// before the first and after the last, no child is a heading.
pub proof fn lemma_heading_positions(children: Seq<BlockModel>)
    ensures
        forall|i: int|
            0 <= i < children.len() ==> ((#[trigger] children[i]) is Header
                <==> heading_positions(children).contains(i)),
        forall|j: int|
            0 <= j < heading_positions(children).len() ==> 0 <= (#[trigger] heading_positions(
                children,
            )[j]) < children.len(),
        forall|j: int, k: int|
            0 <= j < k < heading_positions(children).len() ==> heading_positions(children)[j]
                < heading_positions(children)[k],
        forall|j: int, i: int|
            #![trigger blocks_end(children, j), children[i]]
            0 <= j < heading_positions(children).len() && heading_positions(children)[j] < i
                < blocks_end(children, j) ==> !(children[i] is Header),
        forall|j: int|
            0 <= j < heading_positions(children).len() ==> heading_positions(children)[j]
                < #[trigger] blocks_end(children, j) <= children.len(),
        forall|i: int|
            0 <= i < children.len() && (heading_positions(children).len() == 0 || i
                < heading_positions(children)[0]) ==> !((#[trigger] children[i]) is Header),
{
    let items = tagged(children);
    let at = heading_positions(children);
    lemma_header_positions(items);
    assert forall|i: int| 0 <= i < children.len() implies ((#[trigger] children[i]) is Header
        <==> at.contains(i)) by {
        assert(items[i] is Ok <==> children[i] is Header);
    }
    assert forall|j: int, i: int|
        #![trigger blocks_end(children, j), children[i]]
        0 <= j < at.len() && at[j] < i < blocks_end(children, j) implies !(children[i] is Header) by {
        if children[i] is Header {
            assert(items[i] is Ok);
            let k = choose|k: int| 0 <= k < at.len() && at[k] == i;
            if k <= j {
                if k < j {
                    assert(at[k] < at[j]);
                }
            } else if j + 1 < at.len() {
                if j + 1 < k {
                    assert(at[j + 1] < at[k]);
                }
            }
        }
    }
    assert forall|i: int| 0 <= i < children.len() && (at.len() == 0 || i < at[0]) implies !((
    #[trigger] children[i]) is Header) by {
        if children[i] is Header {
            assert(items[i] is Ok);
            let k = choose|k: int| 0 <= k < at.len() && at[k] == i;
            if 0 < k {
                assert(at[0] < at[k]);
            }
        }
    }
}

/// The theorem of a division, told by the positions of its headings.
///
/// Where the first child is a heading, it gives the title and the label,
/// the blocks under it are the statement, and each later heading begins a
/// proof: one proof less than there are headings.  In every other division
/// there is neither title nor label, the blocks before the first heading
/// are the statement, and each heading begins a proof.  The body of a proof
/// is the blocks under its heading, in order and as they are.
pub proof fn lemma_theorem_by_headings(
    attr: AttrModel,
    kind: TheoremKindModel,
    children: Seq<BlockModel>,
)
    ensures
        ({
            let at = heading_positions(children);
            let theorem = theorem_of_division(attr, kind, children);
            if at.len() > 0 && at[0] == 0 {
                &&& theorem.title == Some(heading_at(children, 0).text)
                &&& theorem.label == nonempty(heading_at(children, 0).attr.identifier)
                &&& theorem.statement == children.subrange(1, blocks_end(children, 0))
                &&& theorem.proofs == Seq::new(
                    (at.len() - 1) as nat,
                    |j: int| proof_under(children, j + 1),
                )
            } else {
                &&& theorem.title is None
                &&& theorem.label is None
                &&& theorem.statement == children.subrange(
                    0,
                    if at.len() > 0 {
                        at[0]
                    } else {
                        children.len() as int
                    },
                )
                &&& theorem.proofs == Seq::new(at.len(), |j: int| proof_under(children, j))
            }
        }),
{
    let items = tagged(children);
    let at = heading_positions(children);
    let runs = header_runs(items);
    let to_proof = |run: (HeadingModel, Seq<BlockModel>)| proof_of(run);
    lemma_runs_by_position(items);
    lemma_heading_positions(children);
    assert forall|j: int| 0 <= j < at.len() implies (#[trigger] runs[j]) == (
        heading_at(children, at[j]),
        children.subrange(at[j] + 1, blocks_end(children, j)),
    ) by {
        assert(children[at[j]] is Header);
        assert(content_between(items, at[j] + 1, blocks_end(children, j)) =~= children.subrange(
            at[j] + 1,
            blocks_end(children, j),
        )) by {
            assert forall|i: int| at[j] < i < blocks_end(children, j) implies (
            #[trigger] items[i])->Err_0 == children[i] by {
                assert(!(children[i] is Header));
            }
        }
    }
    let first = if at.len() > 0 {
        at[0]
    } else {
        children.len() as int
    };
    assert(leading_content(items) =~= children.subrange(0, first)) by {
        assert forall|k: int| 0 <= k < first implies (#[trigger] items[k])->Err_0 == children[k] by {
            assert(!(children[k] is Header));
        }
    }
    if at.len() > 0 && at[0] == 0 {
        assert(runs.drop_first().map_values(to_proof) =~= Seq::new(
            (at.len() - 1) as nat,
            |j: int| proof_under(children, j + 1),
        )) by {
            assert forall|j: int| 0 <= j < at.len() - 1 implies runs.drop_first().map_values(
                to_proof,
            )[j] == proof_under(children, j + 1) by {
                assert(runs.drop_first()[j] == runs[j + 1]);
            }
        }
    } else {
        assert(runs.map_values(to_proof) =~= Seq::new(at.len(), |j: int| proof_under(children, j)));
    }
}

/// A proof takes after its heading, each trait on its own: it is a sketch
/// exactly where the heading has the class `sketch`, hidden exactly where
/// it has the class `appendix`; its title and its label are the text and
/// the identifier of the heading where they are not empty; its body is the
/// blocks under the heading.
pub proof fn lemma_proof_follows_heading(heading: HeadingModel, body: Seq<BlockModel>)
    ensures
        proof_of((heading, body)).kind == ProofKind::Sketch <==> heading.attr.classes.contains(
            "sketch"@,
        ),
        proof_of((heading, body)).kind == ProofKind::Proof <==> !heading.attr.classes.contains(
            "sketch"@,
        ),
        proof_of((heading, body)).status == ProofStatus::Hidden <==> heading.attr.classes.contains(
            "appendix"@,
        ),
        proof_of((heading, body)).status == ProofStatus::Important
            <==> !heading.attr.classes.contains("appendix"@),
        proof_of((heading, body)).title == nonempty(heading.text),
        proof_of((heading, body)).label == nonempty(heading.attr.identifier),
        proof_of((heading, body)).body == body,
{
}

fn tag_blocks(blocks: Vec<BlockNode>) -> (r: Vec<Result<Heading, BlockNode>>)
    ensures
        map_tagged(r@, |h: Heading| h.deep_view(), |b: BlockNode| b.deep_view()) == tagged(
            blocks.deep_view(),
        ),
{
    let ghost on_header = |h: Heading| h.deep_view();
    let ghost on_content = |b: BlockNode| b.deep_view();
    let ghost all = blocks@;
    let mut out: Vec<Result<Heading, BlockNode>> = Vec::new();
    for block in it: blocks
        invariant
            it.seq() == all,
            out.len() == it.index(),
            on_header == |h: Heading| h.deep_view(),
            on_content == |b: BlockNode| b.deep_view(),
            forall|j: int|
                0 <= j < out.len() ==> map_tagged(out@, on_header, on_content)[j] == tagged_block(
                    all[j].deep_view(),
                ),
    {
        let ghost done = out@;
        let ghost model = block.deep_view();
        let item = match block {
            BlockNode::Header(level, attr, text) => {
                proof {
                    lemma_inlines_deep_view(text);
                }
                Ok(Heading { level, attr, text })
            },
            other => Err(other),
        };
        out.push(item);
        proof {
            assert(match item {
                Ok(h) => Ok(h.deep_view()),
                Err(b) => Err(b.deep_view()),
            } == tagged_block(model));
            assert forall|j: int| 0 <= j < out.len() implies map_tagged(
                out@,
                on_header,
                on_content,
            )[j] == tagged_block(all[j].deep_view()) by {
                if j < done.len() {
                    assert(out@[j] == done[j]);
                    assert(map_tagged(done, on_header, on_content)[j] == tagged_block(
                        all[j].deep_view(),
                    ));
                }
            }
        }
    }
    proof {
        assert(map_tagged(out@, on_header, on_content) =~= tagged(blocks.deep_view()));
    }
    out
}

fn optional_label(identifier: String) -> (r: Option<String>)
    ensures
        r.deep_view() == nonempty(identifier@),
{
    if identifier.as_str().unicode_len() > 0 {
        Some(identifier)
    } else {
        None
    }
}

fn proof_of_run(heading: Heading, body: Vec<BlockNode>) -> (r: Proof)
    ensures
        r.deep_view() == proof_of((heading.deep_view(), body.deep_view())),
        r.wf(),
{
    let kind = if contains_string(heading.attr.classes.as_slice(), "sketch") {
        ProofKind::Sketch
    } else {
        ProofKind::Proof
    };
    let status = if contains_string(heading.attr.classes.as_slice(), "appendix") {
        ProofStatus::Hidden
    } else {
        ProofStatus::Important
    };
    let classes = tag_set(&heading.attr.classes);
    let keyvals = keyval_map(&heading.attr.attributes);
    let title = if heading.text.len() > 0 {
        Some(heading.text)
    } else {
        None
    };
    let label = optional_label(heading.attr.identifier);
    Proof { title, status, kind, label, body, classes, keyvals }
}

/// The model of the runs that a split gave.
spec fn runs_model(runs: Seq<(Heading, Vec<BlockNode>)>) -> Seq<(HeadingModel, Seq<BlockModel>)> {
    Seq::new(runs.len(), |i: int| (runs[i].0.deep_view(), runs[i].1.deep_view()))
}

fn proofs_of_runs(runs: Vec<(Heading, Vec<BlockNode>)>) -> (r: Vec<Proof>)
    ensures
        r.deep_view() == runs_model(runs@).map_values(
            |run: (HeadingModel, Seq<BlockModel>)| proof_of(run),
        ),
        forall|i: int| 0 <= i < r.len() ==> (#[trigger] r[i]).wf(),
{
    let ghost all = runs@;
    let mut proofs: Vec<Proof> = Vec::new();
    for run in it: runs
        invariant
            it.seq() == all,
            proofs.len() == it.index(),
            forall|j: int|
                0 <= j < proofs.len() ==> (#[trigger] proofs[j]).deep_view() == proof_of(
                    runs_model(all)[j],
                ),
            forall|j: int| 0 <= j < proofs.len() ==> (#[trigger] proofs[j]).wf(),
    {
        let (heading, body) = run;
        proofs.push(proof_of_run(heading, body));
    }
    proof {
        assert(proofs.deep_view() =~= runs_model(runs@).map_values(
            |run: (HeadingModel, Seq<BlockModel>)| proof_of(run),
        ));
    }
    proofs
}

/// Reads a block as a theorem: a division one of whose classes names a kind
/// of theorem.  Any other block is none, and leaves the counters alone.  A
/// theorem takes the next number, so for a theorem there must be one left.
pub fn block_to_theorem(ctx: &mut Context, block: BlockNode) -> (r: Option<Theorem>)
    requires
        theorem_of(block.deep_view()) is Some ==> old(ctx).theorem_counter < u32::MAX,
    ensures
        r.deep_view() == theorem_of(block.deep_view()),
        r matches Some(theorem) ==> theorem.wf(),
        final(ctx).label_counter == old(ctx).label_counter,
        final(ctx).theorem_counter == if r is Some {
            old(ctx).theorem_counter + 1
        } else {
            old(ctx).theorem_counter as int
        },
{
    let theorem = theorem_from_block(block);
    if theorem.is_some() {
        let _ = ctx.next_theorem();
    }
    theorem
}

/// Reads a block as a theorem, without numbering it: what `block_to_theorem`
/// reads, for every block and whatever has been counted.
pub fn theorem_from_block(block: BlockNode) -> (r: Option<Theorem>)
    ensures
        r.deep_view() == theorem_of(block.deep_view()),
        r matches Some(theorem) ==> theorem.wf(),
{
    broadcast use group_document_views;

    match block {
        BlockNode::Div(attr, blocks) => {
            let kind = match to_theorem_type(attr.classes.as_slice()) {
                Some(kind) => kind,
                None => {
                    return None;
                },
            };
            let mut classes = tag_set(&attr.classes);
            let mut keyvals = keyval_map(&attr.attributes);
            let ghost children = blocks.deep_view();
            let decorated = tag_blocks(blocks);
            let (before, after) = split_vec(decorated);
            let mut after = after;
            proof {
                let on_header = |h: Heading| h.deep_view();
                let on_content = |b: BlockNode| b.deep_view();
                lemma_split_of_mapped(decorated@, on_header, on_content);
                assert(before.deep_view() =~= leading_content(tagged(children)));
                assert(runs_model(after@) =~= header_runs(tagged(children))) by {
                    assert(runs_model(after@) =~= map_runs(
                        runs_view(after@),
                        on_header,
                        on_content,
                    )) by {
                        assert forall|i: int| 0 <= i < after@.len() implies runs_model(
                            after@,
                        )[i] == map_runs(runs_view(after@), on_header, on_content)[i] by {
                            lemma_blocks_deep_view(after@[i].1);
                            assert(after@[i].1.deep_view() =~= after@[i].1@.map_values(on_content));
                        }
                    }
                }
            }
            let mut title: Option<Vec<Inline>> = None;
            let mut label: Option<String> = None;
            let statement: Vec<BlockNode>;
            if before.len() > 0 || after.len() == 0 {
                statement = before;
            } else {
                let ghost runs = runs_model(after@);
                let (heading, run) = after.remove(0);
                proof {
                    assert(runs_model(after@) =~= runs.drop_first());
                }
                statement = run;
                extend_tags(&mut classes, &heading.attr.classes);
                extend_keyvals(&mut keyvals, &heading.attr.attributes);
                title = Some(heading.text);
                label = optional_label(heading.attr.identifier);
            }
            let proofs = proofs_of_runs(after);
            Some(
                Theorem {
                    title,
                    kind,
                    label,
                    restatable: None,
                    proofs,
                    statement,
                    classes,
                    keyvals,
                },
            )
        },
        _ => None,
    }
}

/// Pieces of text with a separator between each two of them.
pub open spec fn joined(pieces: Seq<Seq<char>>, separator: Seq<char>) -> Seq<char>
    decreases pieces.len(),
{
    if pieces.len() == 0 {
        Seq::empty()
    } else if pieces.len() == 1 {
        pieces[0]
    } else {
        joined(pieces.drop_last(), separator) + separator + pieces.last()
    }
}

/// The options of the environment, in their fixed order: the label, the
/// name under which the theorem can be restated, and, for a theorem with a
/// title, the opening of the title, which is closed after it.
pub open spec fn options(
    label: Option<Seq<char>>,
    restatable: Option<Seq<char>>,
    titled: bool,
) -> Seq<Seq<char>> {
    let first = match label {
        Some(l) => seq!["label="@ + l],
        None => Seq::empty(),
    };
    let second = match restatable {
        Some(r) => seq!["restatable="@ + r],
        None => Seq::empty(),
    };
    let third = if titled {
        seq!["title={"@]
    } else {
        Seq::empty()
    };
    first + second + third
}

/// A block that holds one piece of raw LaTeX.
pub open spec fn plain_raw(text: Seq<char>) -> BlockModel {
    BlockModel::Plain(seq![raw_latex(text)])
}

/// The line that opens the environment of a theorem.
pub open spec fn opening_line(t: TheoremModel) -> BlockModel {
    let name = kind_name(t.kind);
    match t.title {
        Some(title) => BlockModel::Plain(
            seq![
                raw_latex("\\begin{"@ + name + "}["@),
                raw_latex(joined(options(t.label, t.restatable, true), ", "@)),
            ] + title + seq![raw_latex("}]"@)],
        ),
        None => {
            let given = options(t.label, t.restatable, false);
            if given.len() > 0 {
                BlockModel::Plain(
                    seq![
                        raw_latex("\\begin{"@ + name + "}"@),
                        raw_latex("["@ + joined(given, ", "@) + "]"@),
                    ],
                )
            } else {
                plain_raw("\\begin{"@ + name + "}"@)
            }
        },
    }
}

/// A proof written out: its body inside a `proof` environment.
pub open spec fn proof_latex(p: ProofModel) -> Seq<BlockModel> {
    seq![plain_raw("\\begin{proof}"@)] + p.body + seq![plain_raw("\\end{proof}"@)]
}

/// Proofs written out one after the other.
pub open spec fn proofs_latex(proofs: Seq<ProofModel>) -> Seq<BlockModel>
    decreases proofs.len(),
{
    if proofs.len() == 0 {
        Seq::empty()
    } else {
        proofs_latex(proofs.drop_last()) + proof_latex(proofs.last())
    }
}

/// A theorem written out: the opening line, the statement as it is, the
/// closing line, and then each proof.
pub open spec fn theorem_latex(t: TheoremModel) -> Seq<BlockModel> {
    seq![opening_line(t)] + t.statement + seq![plain_raw("\\end{"@ + kind_name(t.kind) + "}"@)]
        + proofs_latex(t.proofs)
}

fn raw_inline(text: String) -> (r: Inline)
    ensures
        r.deep_view() == raw_latex(text@),
{
    Inline::RawInline(String::from_str("latex"), text)
}

fn raw_block(text: String) -> (r: BlockNode)
    ensures
        r.deep_view() == plain_raw(text@),
{
    let mut inlines: Vec<Inline> = Vec::new();
    inlines.push(raw_inline(text));
    proof {
        lemma_inlines_deep_view(inlines);
        assert(inlines.deep_view() =~= seq![raw_latex(text@)]);
    }
    BlockNode::Plain(inlines)
}

fn push_option(out: &mut String, any: &mut bool, Ghost(pieces): Ghost<Seq<Seq<char>>>, key: &str, value: &str)
    requires
        old(out)@ == joined(pieces, ", "@),
        *old(any) == (pieces.len() > 0),
    ensures
        final(out)@ == joined(pieces.push(key@ + value@), ", "@),
        *final(any),
{
    if *any {
        out.append(", ");
    }
    out.append(key);
    out.append(value);
    *any = true;
    proof {
        let next = pieces.push(key@ + value@);
        assert(next.drop_last() =~= pieces);
        assert(out@ =~= joined(next, ", "@));
    }
}

fn options_text(label: &Option<String>, restatable: &Option<String>, titled: bool) -> (r: (
    String,
    bool,
))
    ensures
        r.0@ == joined(options(label.deep_view(), restatable.deep_view(), titled), ", "@),
        r.1 == (options(label.deep_view(), restatable.deep_view(), titled).len() > 0),
{
    let mut out = String::new();
    let mut any = false;
    let ghost mut pieces: Seq<Seq<char>> = Seq::empty();
    match label {
        Some(l) => {
            push_option(&mut out, &mut any, Ghost(pieces), "label=", l.as_str());
            proof {
                pieces = pieces.push("label="@ + l@);
            }
        },
        None => {},
    }
    match restatable {
        Some(r) => {
            push_option(&mut out, &mut any, Ghost(pieces), "restatable=", r.as_str());
            proof {
                pieces = pieces.push("restatable="@ + r@);
            }
        },
        None => {},
    }
    if titled {
        push_option(&mut out, &mut any, Ghost(pieces), "title={", "");
        proof {
            assert("title={"@ + ""@ =~= "title={"@) by {
                reveal_strlit("");
            }
            pieces = pieces.push("title={"@);
        }
    }
    proof {
        assert(pieces =~= options(label.deep_view(), restatable.deep_view(), titled));
    }
    (out, any)
}

/// Writes a theorem and its proofs as LaTeX environments.
pub fn theorem_to_latex(thm: Theorem) -> (r: Vec<BlockNode>)
    ensures
        r.deep_view() == theorem_latex(thm.deep_view()),
{
    broadcast use group_document_views;

    let thmtype = thm.kind.name();
    let mut blocks: Vec<BlockNode> = Vec::new();
    let mut end_block = String::from_str("\\end{");
    end_block.append(thmtype.as_str());
    end_block.append("}");
    let mut begin = String::from_str("\\begin{");
    begin.append(thmtype.as_str());
    let mut line: Vec<Inline> = Vec::new();
    match thm.title {
        Some(title) => {
            let mut title = title;
            let ghost text = title.deep_view();
            begin.append("}[");
            let (given, _) = options_text(&thm.label, &thm.restatable, true);
            line.push(raw_inline(begin));
            line.push(raw_inline(given));
            line.append(&mut title);
            line.push(raw_inline(String::from_str("}]")));
            proof {
                assert(line.deep_view() =~= seq![raw_latex(begin@), raw_latex(given@)] + text
                    + seq![raw_latex("}]"@)]);
            }
        },
        None => {
            begin.append("}");
            let (given, any) = options_text(&thm.label, &thm.restatable, false);
            line.push(raw_inline(begin));
            if any {
                let mut bracketed = String::from_str("[");
                bracketed.append(given.as_str());
                bracketed.append("]");
                line.push(raw_inline(bracketed));
                proof {
                    assert(line.deep_view() =~= seq![raw_latex(begin@), raw_latex(bracketed@)]);
                }
            } else {
                proof {
                    assert(line.deep_view() =~= seq![raw_latex(begin@)]);
                }
            }
        },
    }
    let ghost model = thm.deep_view();
    let ghost first = BlockNode::Plain(line).deep_view();
    proof {
        assert(first == opening_line(model));
    }
    blocks.push(BlockNode::Plain(line));
    let mut statement = thm.statement;
    blocks.append(&mut statement);
    blocks.push(raw_block(end_block));
    let ghost head = seq![opening_line(model)] + model.statement + seq![
        plain_raw("\\end{"@ + kind_name(model.kind) + "}"@),
    ];
    proof {
        assert(blocks.deep_view() =~= head);
        assert(model.proofs.take(0) =~= Seq::empty());
        assert(blocks.deep_view() =~= head + proofs_latex(model.proofs.take(0)));
    }
    let ghost all = thm.proofs@;
    for proof_item in it: thm.proofs
        invariant
            it.seq() == all,
            model.proofs == Seq::new(all.len(), |i: int| all[i].deep_view()),
            blocks.deep_view() == head + proofs_latex(model.proofs.take(it.index() as int)),
    {
        let ghost done = blocks.deep_view();
        let ghost seen = model.proofs.take(it.index() as int);
        let ghost this = proof_item.deep_view();
        let mut body = proof_item.body;
        blocks.push(raw_block(String::from_str("\\begin{proof}")));
        blocks.append(&mut body);
        blocks.push(raw_block(String::from_str("\\end{proof}")));
        proof {
            let next = model.proofs.take(it.index() + 1);
            assert(next.drop_last() =~= seen);
            assert(next.last() == this);
            assert(blocks.deep_view() =~= done + proof_latex(this));
            assert(blocks.deep_view() =~= head + proofs_latex(next));
        }
    }
    proof {
        assert(model.proofs.take(all.len() as int) =~= model.proofs);
    }
    blocks
}

} // verus!
