//! The filter as a whole: which form of output a document asks for, and
//! what the traversal does at each node.
use vstd::prelude::*;
use crate::document::{Inline, InlineModel, MetaModel, MetaValue};
use crate::knowledges::{
    KnowledgeResolver, ResolverModel, command_of, fast_latex_step, knowledge_to_fast_latex,
    knowledge_to_latex, knowledge_to_pandoc, latex_form, pandoc_step, span_to_knowledge,
};
use crate::text::str_eq;
use crate::utils::{meta_deep_get, meta_lookup, meta_string, meta_to_string};

verus! {

/// The form in which knowledge directives are written out.
#[derive(Debug, Clone, Copy, PartialEq, Eq, Structural)]
pub enum OutputMode {
    /// Macros of the `knowledge` package of LaTeX.
    Latex,
    /// Macros that LaTeX resolves in a single pass.
    FastLatex,
    /// Anchors and links that any renderer understands.
    Pandoc,
}

/// What the metadata of a document says under `lipics`.
#[derive(Debug, Clone, Copy, PartialEq, Eq)]
pub struct PandocLipics {
    pub mode: Option<OutputMode>,
    pub debug: bool,
}

/// The mode that a name stands for.
pub open spec fn mode_of_name(name: Seq<char>) -> Option<OutputMode> {
    if name == "latex"@ {
        Some(OutputMode::Latex)
    } else if name == "fast-latex"@ {
        Some(OutputMode::FastLatex)
    } else if name == "pandoc"@ {
        Some(OutputMode::Pandoc)
    } else {
        None
    }
}

/// The mode that the metadata declares under `lipics.mode`.
pub open spec fn mode_of_meta(meta: Seq<(Seq<char>, MetaModel)>) -> Option<OutputMode> {
    match meta_lookup(meta, "lipics.mode"@) {
        Some(value) => match meta_string(value) {
            Some(name) => mode_of_name(name),
            None => None,
        },
        None => None,
    }
}

/// Reads the settings of the filter from the metadata of a document: the
/// mode under `lipics.mode`, and the debug switch, which is on where
/// `lipics.debug` holds anything at all.
pub fn parse_pandoc_lipics(meta: &Vec<(String, MetaValue)>) -> (r: PandocLipics)
    ensures
        r.mode == mode_of_meta(meta.deep_view()),
        r.debug == (meta_lookup(meta.deep_view(), "lipics.debug"@) is Some),
{
    let declared = match meta_deep_get(meta, "lipics.mode") {
        Some(value) => meta_to_string(&value),
        None => None,
    };
    let mode = match declared {
        Some(s) => {
            if str_eq(s.as_str(), "latex") {
                Some(OutputMode::Latex)
            } else if str_eq(s.as_str(), "fast-latex") {
                Some(OutputMode::FastLatex)
            } else if str_eq(s.as_str(), "pandoc") {
                Some(OutputMode::Pandoc)
            } else {
                None
            }
        },
        None => None,
    };
    let debug = meta_deep_get(meta, "lipics.debug").is_some();
    PandocLipics { mode, debug }
}

/// The mode of a run.  The declared mode counts only where the target is
/// LaTeX; for any other target, and where none is declared, the output is
/// renderer-neutral.
pub open spec fn chosen_mode(target: Option<Seq<char>>, declared: Option<OutputMode>) -> OutputMode {
    match (target, declared) {
        (Some(name), Some(mode)) => if name == "latex"@ {
            mode
        } else {
            OutputMode::Pandoc
        },
        _ => OutputMode::Pandoc,
    }
}

/// Chooses the mode of a run from the target named on the command line and
/// the mode that the document declares.
pub fn select_mode(target: Option<&str>, declared: Option<OutputMode>) -> (r: OutputMode)
    ensures
        r == chosen_mode(target.deep_view(), declared),
{
    match target {
        Some(name) => {
            if str_eq(name, "latex") {
                match declared {
                    Some(mode) => mode,
                    None => OutputMode::Pandoc,
                }
            } else {
                OutputMode::Pandoc
            }
        },
        None => OutputMode::Pandoc,
    }
}

/// What the traversal makes of one node of a run of inline nodes: in the
/// two LaTeX modes a directive becomes its macro; everything else stays.
pub open spec fn rewritten_item(db: ResolverModel, mode: OutputMode, node: InlineModel) -> (
    ResolverModel,
    Seq<InlineModel>,
) {
    match (mode, command_of(node)) {
        (OutputMode::Latex, Some(c)) => (db, latex_form(c)),
        (OutputMode::FastLatex, Some(c)) => fast_latex_step(db, c),
        _ => (db, seq![node]),
    }
}

/// What the traversal makes of a run of inline nodes, from left to right.
pub open spec fn rewritten_run(db: ResolverModel, mode: OutputMode, nodes: Seq<InlineModel>) -> (
    ResolverModel,
    Seq<InlineModel>,
)
    decreases nodes.len(),
{
    if nodes.len() == 0 {
        (db, Seq::empty())
    } else {
        let (before, written) = rewritten_run(db, mode, nodes.drop_last());
        let (after, more) = rewritten_item(before, mode, nodes.last());
        (after, written + more)
    }
}

/// What the traversal makes of one inline node on its own: in the
/// renderer-neutral mode a directive becomes its anchor or link;
/// everything else stays.
pub open spec fn rewritten_node(db: ResolverModel, mode: OutputMode, node: InlineModel) -> (
    ResolverModel,
    InlineModel,
) {
    match (mode, command_of(node)) {
        (OutputMode::Pandoc, Some(c)) => pandoc_step(db, c),
        _ => (db, node),
    }
}

/// A traversal in progress: what it has recorded, and the mode in which it
/// writes.  The mode is set when the traversal begins and stays.
#[derive(Debug, PartialEq, Eq)]
pub struct Traversal {
    kdb: KnowledgeResolver,
    mode: OutputMode,
}

impl Traversal {
    /// What the traversal has recorded.
    pub closed spec fn records(&self) -> ResolverModel {
        self.kdb.deep_view()
    }

    /// The mode in which the traversal writes.
    pub closed spec fn written_as(&self) -> OutputMode {
        self.mode
    }

    /// Begins a traversal.
    pub fn new(kdb: KnowledgeResolver, mode: OutputMode) -> (r: Traversal)
        ensures
            r.records() == kdb.deep_view(),
            r.written_as() == mode,
    {
        Traversal { kdb, mode }
    }

    /// The mode in which the traversal writes.
    pub fn mode(&self) -> (r: OutputMode)
        ensures
            r == self.written_as(),
    {
        self.mode
    }

    /// The base, and what has been recorded so far.
    pub fn resolver(&self) -> (r: &KnowledgeResolver)
        ensures
            r.deep_view() == self.records(),
    {
        &self.kdb
    }

    /// Rewrites the directives of a run of inline nodes for LaTeX.  In the
    /// renderer-neutral mode the run stays as it is: there each node is
    /// rewritten on its own.
    pub fn visit_vec_inline(&mut self, inlines: Vec<Inline>) -> (r: Vec<Inline>)
        ensures
            final(self).written_as() == old(self).written_as(),
            (final(self).records(), r.deep_view()) == rewritten_run(
                old(self).records(),
                old(self).written_as(),
                inlines.deep_view(),
            ),
    {
        let ghost all = inlines@;
        let ghost nodes = inlines.deep_view();
        let ghost start = self.kdb.deep_view();
        let mode = self.mode;
        let mut out: Vec<Inline> = Vec::new();
        proof {
            assert(nodes.take(0) =~= Seq::empty());
            assert(out.deep_view() =~= Seq::empty());
        }
        for inline in it: inlines
            invariant
                it.seq() == all,
                nodes == Seq::new(all.len(), |i: int| all[i].deep_view()),
                self.mode == mode,
                (self.kdb.deep_view(), out.deep_view()) == rewritten_run(
                    start,
                    mode,
                    nodes.take(it.index() as int),
                ),
        {
            let ghost written = out.deep_view();
            proof {
                let next = nodes.take(it.index() + 1);
                assert(next.drop_last() =~= nodes.take(it.index() as int));
                assert(next.last() == inline.deep_view());
            }
            let command = match mode {
                OutputMode::Pandoc => None,
                _ => span_to_knowledge(&inline),
            };
            match command {
                Some(knowledge) => {
                    let mut more = match mode {
                        OutputMode::FastLatex => knowledge_to_fast_latex(&mut self.kdb, knowledge),
                        _ => knowledge_to_latex(knowledge),
                    };
                    let ghost added = more.deep_view();
                    out.append(&mut more);
                    assert(out.deep_view() =~= written + added);
                },
                None => {
                    out.push(inline);
                    assert(out.deep_view() =~= written + seq![inline.deep_view()]);
                },
            }
        }
        proof {
            assert(nodes.take(all.len() as int) =~= nodes);
        }
        out
    }

    /// Rewrites one inline node in the renderer-neutral mode.  In the LaTeX
    /// modes the node stays as it is: there whole runs are rewritten.
    pub fn visit_inline(&mut self, inline: Inline) -> (r: Inline)
        ensures
            final(self).written_as() == old(self).written_as(),
            (final(self).records(), r.deep_view()) == rewritten_node(
                old(self).records(),
                old(self).written_as(),
                inline.deep_view(),
            ),
    {
        match self.mode {
            OutputMode::Pandoc => match span_to_knowledge(&inline) {
                Some(knowledge) => knowledge_to_pandoc(&mut self.kdb, knowledge),
                None => inline,
            },
            _ => inline,
        }
    }
}

} // verus!
