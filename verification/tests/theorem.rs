use lipics_filter::document::{Attr, BlockNode, Inline};
use lipics_filter::theorems::{
    block_to_theorem, theorem_from_block, theorem_to_latex, to_theorem_type, Context, Proof,
    ProofKind, ProofStatus, Theorem, TheoremKind,
};

fn words(s: &str) -> Vec<Inline> {
    vec![Inline::Str(s.to_string())]
}

fn attr(ident: &str, classes: &[&str], keyvals: &[(&str, &str)]) -> Attr {
    Attr {
        identifier: ident.to_string(),
        classes: classes.iter().map(|s| s.to_string()).collect(),
        attributes: keyvals.iter().map(|(k, v)| (k.to_string(), v.to_string())).collect(),
    }
}

fn para(s: &str) -> BlockNode {
    BlockNode::Para(words(s))
}

fn heading(ident: &str, classes: &[&str], title: &str) -> BlockNode {
    let text = if title.is_empty() { vec![] } else { words(title) };
    BlockNode::Header(3, attr(ident, classes, &[]), text)
}

fn raw_line(s: &str) -> BlockNode {
    BlockNode::Plain(vec![Inline::RawInline("latex".to_string(), s.to_string())])
}

fn sorted(mut items: Vec<String>) -> Vec<String> {
    items.sort();
    items
}

fn bare_theorem(kind: TheoremKind) -> Theorem {
    Theorem {
        title: None,
        kind,
        label: None,
        restatable: None,
        proofs: vec![],
        statement: vec![],
        classes: vec![],
        keyvals: vec![],
    }
}

fn bare_proof(body: Vec<BlockNode>) -> Proof {
    Proof {
        title: None,
        status: ProofStatus::Important,
        kind: ProofKind::Proof,
        label: None,
        body,
        classes: vec![],
        keyvals: vec![],
    }
}

#[test]
fn kinds_are_read_from_their_names() {
    assert_eq!(TheoremKind::try_from("theorem"), Ok(TheoremKind::Theorem));
    assert_eq!(TheoremKind::try_from("lemma"), Ok(TheoremKind::Lemma));
    assert_eq!(TheoremKind::try_from("corollary"), Ok(TheoremKind::Corollary));
    assert_eq!(TheoremKind::try_from("proposition"), Ok(TheoremKind::Proposition));
    assert_eq!(TheoremKind::try_from("conjecture"), Ok(TheoremKind::Conjecture));
    assert_eq!(TheoremKind::try_from("claim"), Ok(TheoremKind::Claim));
    assert_eq!(
        TheoremKind::try_from("custom:remark"),
        Ok(TheoremKind::Custom("remark".to_string()))
    );
    assert_eq!(TheoremKind::try_from("custom:"), Ok(TheoremKind::Custom(String::new())));
    assert_eq!(
        TheoremKind::try_from("custom:définition"),
        Ok(TheoremKind::Custom("définition".to_string()))
    );
}

#[test]
fn other_names_are_no_kind() {
    assert_eq!(TheoremKind::try_from("Theorem"), Err(()));
    assert_eq!(TheoremKind::try_from("theorems"), Err(()));
    assert_eq!(TheoremKind::try_from("custom"), Err(()));
    assert_eq!(TheoremKind::try_from(""), Err(()));
    assert_eq!(TheoremKind::try_from("my custom:remark"), Err(()));
}

#[test]
fn kinds_name_their_environment() {
    assert_eq!(TheoremKind::Theorem.name(), "theorem");
    assert_eq!(TheoremKind::Lemma.name(), "lemma");
    assert_eq!(TheoremKind::Corollary.name(), "corollary");
    assert_eq!(TheoremKind::Proposition.name(), "proposition");
    assert_eq!(TheoremKind::Conjecture.name(), "conjecture");
    assert_eq!(TheoremKind::Claim.name(), "claim");
    assert_eq!(TheoremKind::Custom("remark".to_string()).name(), "remark");
}

#[test]
fn the_first_class_that_names_a_kind_counts() {
    let classes: Vec<String> =
        ["wide", "lemma", "theorem"].iter().map(|s| s.to_string()).collect();
    assert_eq!(to_theorem_type(&classes), Some(TheoremKind::Lemma));
    let none: Vec<String> = ["wide", "proof"].iter().map(|s| s.to_string()).collect();
    assert_eq!(to_theorem_type(&none), None);
    assert_eq!(to_theorem_type(&[]), None);
}

#[test]
fn context_counts_theorems() {
    let mut ctx = Context::new();
    assert_eq!(ctx.theorem_counter, 0);
    assert_eq!(ctx.label_counter, 0);
    assert_eq!(ctx.next_theorem(), 0);
    assert_eq!(ctx.next_theorem(), 1);
    assert_eq!(ctx.theorem_counter, 2);
    assert_eq!(ctx.label_counter, 0);
}

#[test]
fn division_without_headings_is_all_statement() {
    let mut ctx = Context::new();
    let children = vec![
        para("Every graph"),
        BlockNode::Other(pandoc_ast::Block::HorizontalRule),
        para("is finite."),
    ];
    let block = BlockNode::Div(attr("thm:main", &["theorem"], &[("restate", "yes")]), children.clone());
    let theorem = block_to_theorem(&mut ctx, block).expect("a theorem");
    assert_eq!(theorem.statement, children);
    assert_eq!(theorem.title, None);
    assert_eq!(theorem.label, None);
    assert_eq!(theorem.restatable, None);
    assert!(theorem.proofs.is_empty());
    assert_eq!(theorem.kind, TheoremKind::Theorem);
    assert_eq!(theorem.classes, vec!["theorem".to_string()]);
    assert_eq!(theorem.keyvals, vec![("restate".to_string(), "yes".to_string())]);
    assert_eq!(ctx.theorem_counter, 1);
}

#[test]
fn first_heading_is_the_title_and_later_headings_begin_proofs() {
    let mut ctx = Context::new();
    let block = BlockNode::Div(
        attr("", &["lemma"], &[]),
        vec![
            heading("lem:pumping", &["important"], "Pumping"),
            para("statement"),
            heading("", &["sketch", "appendix"], "Idea"),
            para("first"),
            para("second"),
        ],
    );
    let theorem = block_to_theorem(&mut ctx, block).expect("a theorem");
    assert_eq!(theorem.kind, TheoremKind::Lemma);
    assert_eq!(theorem.title, Some(words("Pumping")));
    assert_eq!(theorem.label, Some("lem:pumping".to_string()));
    assert_eq!(theorem.statement, vec![para("statement")]);
    assert_eq!(sorted(theorem.classes.clone()), vec!["important".to_string(), "lemma".to_string()]);
    assert_eq!(theorem.proofs.len(), 1);
    let proof = &theorem.proofs[0];
    assert_eq!(proof.kind, ProofKind::Sketch);
    assert_eq!(proof.status, ProofStatus::Hidden);
    assert_eq!(proof.body, vec![para("first"), para("second")]);
    assert_eq!(proof.title, Some(words("Idea")));
    assert_eq!(proof.label, None);
    assert_eq!(sorted(proof.classes.clone()), vec!["appendix".to_string(), "sketch".to_string()]);
}

#[test]
fn with_leading_content_every_heading_begins_a_proof() {
    let mut ctx = Context::new();
    let block = BlockNode::Div(
        attr("", &["claim"], &[]),
        vec![
            para("statement"),
            heading("prf:a", &[], ""),
            para("proof a"),
            heading("", &["appendix"], "Second proof"),
        ],
    );
    let theorem = block_to_theorem(&mut ctx, block).expect("a theorem");
    assert_eq!(theorem.title, None);
    assert_eq!(theorem.label, None);
    assert_eq!(theorem.statement, vec![para("statement")]);
    assert_eq!(theorem.proofs.len(), 2);
    assert_eq!(theorem.proofs[0].kind, ProofKind::Proof);
    assert_eq!(theorem.proofs[0].status, ProofStatus::Important);
    assert_eq!(theorem.proofs[0].title, None);
    assert_eq!(theorem.proofs[0].label, Some("prf:a".to_string()));
    assert_eq!(theorem.proofs[0].body, vec![para("proof a")]);
    assert_eq!(theorem.proofs[1].kind, ProofKind::Proof);
    assert_eq!(theorem.proofs[1].status, ProofStatus::Hidden);
    assert_eq!(theorem.proofs[1].title, Some(words("Second proof")));
    assert!(theorem.proofs[1].body.is_empty());
}

#[test]
fn heading_without_identifier_gives_no_label() {
    let mut ctx = Context::new();
    let block = BlockNode::Div(attr("div-id", &["theorem"], &[]), vec![heading("", &[], "Title")]);
    let theorem = block_to_theorem(&mut ctx, block).expect("a theorem");
    assert_eq!(theorem.title, Some(words("Title")));
    assert_eq!(theorem.label, None);
    assert!(theorem.statement.is_empty());
    assert!(theorem.proofs.is_empty());
}

#[test]
fn classes_and_attributes_of_the_title_join_those_of_the_division() {
    let mut ctx = Context::new();
    let block = BlockNode::Div(
        attr("", &["theorem", "wide", "theorem"], &[("a", "1"), ("b", "2"), ("a", "3")]),
        vec![
            BlockNode::Header(2, attr("t", &["wide", "starred"], &[("b", "4"), ("c", "5")]), words("T")),
            para("s"),
        ],
    );
    let theorem = block_to_theorem(&mut ctx, block).expect("a theorem");
    assert_eq!(
        sorted(theorem.classes.clone()),
        vec!["starred".to_string(), "theorem".to_string(), "wide".to_string()]
    );
    let mut keyvals = theorem.keyvals.clone();
    keyvals.sort();
    assert_eq!(
        keyvals,
        vec![
            ("a".to_string(), "3".to_string()),
            ("b".to_string(), "4".to_string()),
            ("c".to_string(), "5".to_string()),
        ]
    );
}

#[test]
fn empty_division_is_a_theorem_with_an_empty_statement() {
    let mut ctx = Context::new();
    let block = BlockNode::Div(attr("", &["custom:remark"], &[]), vec![]);
    let theorem = block_to_theorem(&mut ctx, block).expect("a theorem");
    assert_eq!(theorem.kind, TheoremKind::Custom("remark".to_string()));
    assert!(theorem.statement.is_empty());
    assert_eq!(theorem.title, None);
    assert!(theorem.proofs.is_empty());
}

#[test]
fn other_blocks_are_no_theorem() {
    let mut ctx = Context::new();
    assert_eq!(block_to_theorem(&mut ctx, para("theorem")), None);
    assert_eq!(block_to_theorem(&mut ctx, heading("", &["theorem"], "T")), None);
    assert_eq!(
        block_to_theorem(&mut ctx, BlockNode::Div(attr("theorem", &["note"], &[]), vec![para("x")])),
        None
    );
    assert_eq!(ctx.theorem_counter, 0);
    let counted = block_to_theorem(&mut ctx, BlockNode::Div(attr("", &["theorem"], &[]), vec![]));
    assert!(counted.is_some());
    assert_eq!(ctx.theorem_counter, 1);
}

#[test]
fn a_block_that_is_no_theorem_takes_no_number_at_any_count() {
    let mut ctx = Context { theorem_counter: u32::MAX, label_counter: 7 };
    assert_eq!(block_to_theorem(&mut ctx, para("text")), None);
    assert_eq!(
        block_to_theorem(&mut ctx, BlockNode::Div(attr("", &["note"], &[]), vec![para("x")])),
        None
    );
    assert_eq!(ctx, Context { theorem_counter: u32::MAX, label_counter: 7 });
}

#[test]
fn reading_a_theorem_without_numbering_it() {
    let division = || {
        BlockNode::Div(
            attr("", &["lemma"], &[]),
            vec![
                heading("l", &[], "Title"),
                para("statement"),
                heading("", &["sketch"], ""),
                para("idea"),
                heading("", &["appendix"], "Details"),
                heading("", &["appendix", "sketch"], "More"),
                para("one"),
                para("two"),
            ],
        )
    };
    let mut ctx = Context::new();
    let numbered = block_to_theorem(&mut ctx, division());
    let read = theorem_from_block(division());
    assert_eq!(numbered, read);
    let theorem = read.expect("a theorem");
    assert_eq!(theorem.statement, vec![para("statement")]);
    let traits: Vec<(ProofKind, ProofStatus, usize)> =
        theorem.proofs.iter().map(|p| (p.kind, p.status, p.body.len())).collect();
    assert_eq!(
        traits,
        vec![
            (ProofKind::Sketch, ProofStatus::Important, 1),
            (ProofKind::Proof, ProofStatus::Hidden, 0),
            (ProofKind::Sketch, ProofStatus::Hidden, 2),
        ]
    );
    assert_eq!(theorem.proofs[2].body, vec![para("one"), para("two")]);
    assert_eq!(theorem_from_block(para("lemma")), None);
}

#[test]
fn latex_of_a_bare_theorem() {
    let mut theorem = bare_theorem(TheoremKind::Theorem);
    theorem.statement = vec![para("statement")];
    assert_eq!(
        theorem_to_latex(theorem),
        vec![raw_line("\\begin{theorem}"), para("statement"), raw_line("\\end{theorem}")]
    );
}

#[test]
fn latex_options_without_title() {
    let mut theorem = bare_theorem(TheoremKind::Lemma);
    theorem.label = Some("lem:a".to_string());
    theorem.restatable = Some("lemmaA".to_string());
    let line = |opts: &str| {
        BlockNode::Plain(vec![
            Inline::RawInline("latex".to_string(), "\\begin{lemma}".to_string()),
            Inline::RawInline("latex".to_string(), opts.to_string()),
        ])
    };
    assert_eq!(
        theorem_to_latex(theorem.clone()),
        vec![line("[label=lem:a, restatable=lemmaA]"), raw_line("\\end{lemma}")]
    );
    theorem.label = None;
    assert_eq!(
        theorem_to_latex(theorem.clone()),
        vec![line("[restatable=lemmaA]"), raw_line("\\end{lemma}")]
    );
    theorem.label = Some(String::new());
    theorem.restatable = None;
    assert_eq!(theorem_to_latex(theorem), vec![line("[label=]"), raw_line("\\end{lemma}")]);
}

#[test]
fn latex_options_with_title() {
    let mut theorem = bare_theorem(TheoremKind::Custom("remark".to_string()));
    theorem.title = Some(vec![Inline::Str("On".to_string()), Inline::Space, Inline::Emph(words("graphs"))]);
    let line = |opts: &str| {
        BlockNode::Plain(vec![
            Inline::RawInline("latex".to_string(), "\\begin{remark}[".to_string()),
            Inline::RawInline("latex".to_string(), opts.to_string()),
            Inline::Str("On".to_string()),
            Inline::Space,
            Inline::Emph(words("graphs")),
            Inline::RawInline("latex".to_string(), "}]".to_string()),
        ])
    };
    assert_eq!(theorem_to_latex(theorem.clone()), vec![line("title={"), raw_line("\\end{remark}")]);
    theorem.label = Some("rem:g".to_string());
    assert_eq!(
        theorem_to_latex(theorem.clone()),
        vec![line("label=rem:g, title={"), raw_line("\\end{remark}")]
    );
    theorem.restatable = Some("remG".to_string());
    assert_eq!(
        theorem_to_latex(theorem),
        vec![line("label=rem:g, restatable=remG, title={"), raw_line("\\end{remark}")]
    );
}

#[test]
fn latex_of_proofs_follows_the_theorem() {
    let mut theorem = bare_theorem(TheoremKind::Proposition);
    theorem.statement = vec![para("claim"), para("conditions")];
    let mut sketch = bare_proof(vec![para("first step"), para("second step")]);
    sketch.kind = ProofKind::Sketch;
    sketch.status = ProofStatus::Hidden;
    sketch.title = Some(words("Idea"));
    sketch.label = Some("prf".to_string());
    theorem.proofs = vec![sketch, bare_proof(vec![]), bare_proof(vec![para("q")])];
    assert_eq!(
        theorem_to_latex(theorem),
        vec![
            raw_line("\\begin{proposition}"),
            para("claim"),
            para("conditions"),
            raw_line("\\end{proposition}"),
            raw_line("\\begin{proof}"),
            para("first step"),
            para("second step"),
            raw_line("\\end{proof}"),
            raw_line("\\begin{proof}"),
            raw_line("\\end{proof}"),
            raw_line("\\begin{proof}"),
            para("q"),
            raw_line("\\end{proof}"),
        ]
    );
}

#[test]
fn division_to_latex() {
    let mut ctx = Context::new();
    let block = BlockNode::Div(
        attr("", &["theorem"], &[]),
        vec![
            heading("thm:main", &[], "Main"),
            para("statement"),
            heading("", &[], "Proof"),
            para("argument"),
        ],
    );
    let theorem = block_to_theorem(&mut ctx, block).expect("a theorem");
    assert_eq!(
        theorem_to_latex(theorem),
        vec![
            BlockNode::Plain(vec![
                Inline::RawInline("latex".to_string(), "\\begin{theorem}[".to_string()),
                Inline::RawInline("latex".to_string(), "label=thm:main, title={".to_string()),
                Inline::Str("Main".to_string()),
                Inline::RawInline("latex".to_string(), "}]".to_string()),
            ]),
            para("statement"),
            raw_line("\\end{theorem}"),
            raw_line("\\begin{proof}"),
            para("argument"),
            raw_line("\\end{proof}"),
        ]
    );
}
