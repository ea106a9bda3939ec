use lipics_filter::document::{Attr, BlockNode, Inline, MetaValue, Target};
use lipics_filter::filter::{
    parse_pandoc_lipics, select_mode, OutputMode, PandocLipics, Traversal,
};
use lipics_filter::knowledges::{
    KnowledgeBase, KnowledgeCommandKind, KnowledgeEntry, KnowledgeId, KnowledgeResolver,
    KnowledgeSynonym,
};
use lipics_filter::structural::{
    copy_block, copy_inline, copy_meta, same_block, same_inline, same_inlines,
};
use lipics_filter::utils::{
    meta_deep_get, meta_deep_get_internal, meta_get, meta_to_inline, meta_to_string,
    string_to_selector, stringify_inlines, MetaSelect,
};

fn plain(node: &Inline) -> String {
    lipics_filter::utils::stringify(node)
}

fn words(s: &str) -> Vec<Inline> {
    vec![Inline::Str(s.to_string())]
}

fn string(s: &str) -> MetaValue {
    MetaValue::MetaString(s.to_string())
}

fn map(entries: Vec<(&str, MetaValue)>) -> MetaValue {
    MetaValue::MetaMap(entries.into_iter().map(|(k, v)| (k.to_string(), v)).collect())
}

fn document(entries: Vec<(&str, MetaValue)>) -> Vec<(String, MetaValue)> {
    entries.into_iter().map(|(k, v)| (k.to_string(), v)).collect()
}

fn no_attr() -> Attr {
    Attr { identifier: String::new(), classes: vec![], attributes: vec![] }
}

fn directive(class: &str, content: &str) -> Inline {
    Inline::Span(
        Attr { identifier: String::new(), classes: vec![class.to_string()], attributes: vec![] },
        words(content),
    )
}

fn raw(s: &str) -> Inline {
    Inline::RawInline("latex".to_string(), s.to_string())
}

fn resolver() -> KnowledgeResolver {
    KnowledgeResolver::new(KnowledgeBase::from_entries(vec![KnowledgeEntry {
        synonyms: vec![KnowledgeSynonym::Global(words("NP"))],
    }]))
}

#[test]
fn meta_to_string_reads_strings_and_single_words() {
    assert_eq!(meta_to_string(&string("latex")), Some("latex".to_string()));
    assert_eq!(meta_to_string(&MetaValue::MetaInlines(words("latex"))), Some("latex".to_string()));
    assert_eq!(meta_to_string(&MetaValue::MetaInlines(vec![])), None);
    assert_eq!(meta_to_string(&MetaValue::MetaInlines(vec![Inline::Space])), None);
    assert_eq!(
        meta_to_string(&MetaValue::MetaInlines(vec![
            Inline::Str("a".to_string()),
            Inline::Str("b".to_string())
        ])),
        None
    );
    assert_eq!(meta_to_string(&MetaValue::MetaBool(true)), None);
    assert_eq!(meta_to_string(&MetaValue::MetaList(vec![string("latex")])), None);
}

#[test]
fn meta_to_inline_reads_strings_and_inlines() {
    assert_eq!(meta_to_inline(&string("NP")), Some(words("NP")));
    let rich = vec![Inline::Emph(words("N")), Inline::Space];
    assert_eq!(meta_to_inline(&MetaValue::MetaInlines(rich.clone())), Some(rich));
    assert_eq!(meta_to_inline(&MetaValue::MetaBool(false)), None);
    assert_eq!(meta_to_inline(&MetaValue::MetaBlocks(vec![BlockNode::Para(words("NP"))])), None);
}

#[test]
fn stringify_gives_the_plain_text() {
    let attr = no_attr();
    let target = Target { url: "u".to_string(), title: "t".to_string() };
    assert_eq!(plain(&Inline::Str("word".to_string())), "word");
    assert_eq!(plain(&Inline::Space), " ");
    assert_eq!(plain(&Inline::SoftBreak), "\n");
    assert_eq!(plain(&Inline::LineBreak), "\n");
    assert_eq!(plain(&Inline::Code(attr.clone(), "x = 1".to_string())), "x = 1");
    assert_eq!(
        plain(&Inline::Math(lipics_filter::document::MathType::InlineMath, "n^2".to_string())),
        "n^2"
    );
    assert_eq!(plain(&Inline::RawInline("latex".to_string(), "\\o".to_string())), "\\o");
    assert_eq!(plain(&Inline::Note(vec![BlockNode::Para(words("hidden"))])), "");
    assert_eq!(plain(&Inline::Image(attr.clone(), words("alt"), target.clone())), "");
    assert_eq!(plain(&Inline::Link(attr.clone(), words("shown"), target)), "shown");
    assert_eq!(plain(&Inline::Span(attr, words("inside"))), "inside");
    assert_eq!(
        plain(&Inline::Quoted(lipics_filter::document::QuoteType::DoubleQuote, words("q"))),
        "q"
    );
    assert_eq!(plain(&Inline::Cite(vec![], words("c"))), "c");
}

#[test]
fn stringify_goes_into_every_container() {
    let nested = Inline::Emph(vec![
        Inline::Strong(words("a")),
        Inline::Underline(words("b")),
        Inline::Strikeout(words("c")),
        Inline::Superscript(words("d")),
        Inline::Subscript(words("e")),
        Inline::SmallCaps(vec![Inline::Str("f".to_string()), Inline::Space, Inline::Emph(words("g"))]),
    ]);
    assert_eq!(plain(&nested), "abcdef g");
    assert_eq!(
        stringify_inlines(&[Inline::Str("x".to_string()), Inline::Space, nested]),
        "x abcdef g"
    );
    assert_eq!(stringify_inlines(&[]), "");
}

#[test]
fn selector_of_a_path() {
    assert_eq!(
        string_to_selector("lipics.mode"),
        vec![MetaSelect::Field("lipics".to_string()), MetaSelect::Field("mode".to_string())]
    );
    assert_eq!(
        string_to_selector("authors.0.name"),
        vec![
            MetaSelect::Field("authors".to_string()),
            MetaSelect::Index(0),
            MetaSelect::Field("name".to_string())
        ]
    );
    assert_eq!(string_to_selector(""), vec![MetaSelect::Field(String::new())]);
    assert_eq!(
        string_to_selector("a..12"),
        vec![MetaSelect::Field("a".to_string()), MetaSelect::Field(String::new()), MetaSelect::Index(12)]
    );
    assert_eq!(string_to_selector("-1"), vec![MetaSelect::Field("-1".to_string())]);
}

#[test]
fn meta_get_takes_the_first_entry_with_the_key() {
    let entries = document(vec![("a", string("1")), ("b", string("2")), ("a", string("3"))]);
    assert_eq!(meta_get(&entries, "a"), Some(&string("1")));
    assert_eq!(meta_get(&entries, "b"), Some(&string("2")));
    assert_eq!(meta_get(&entries, "c"), None);
}

#[test]
fn deep_get_follows_fields_and_positions() {
    let meta = document(vec![
        ("lipics", map(vec![("mode", string("latex")), ("debug", MetaValue::MetaBool(false))])),
        (
            "authors",
            MetaValue::MetaList(vec![
                map(vec![("name", string("Ada"))]),
                map(vec![("name", string("Alan"))]),
            ]),
        ),
    ]);
    assert_eq!(meta_deep_get(&meta, "lipics.mode"), Some(string("latex")));
    assert_eq!(meta_deep_get(&meta, "lipics.debug"), Some(MetaValue::MetaBool(false)));
    assert_eq!(meta_deep_get(&meta, "authors.1.name"), Some(string("Alan")));
    assert_eq!(meta_deep_get(&meta, "authors.1"), Some(map(vec![("name", string("Alan"))])));
    assert_eq!(meta_deep_get(&meta, "lipics"), meta_get(&meta, "lipics").cloned());
}

#[test]
fn deep_get_gives_none_where_the_path_leads_nowhere() {
    let meta = document(vec![
        ("lipics", map(vec![("mode", string("latex"))])),
        ("authors", MetaValue::MetaList(vec![string("Ada")])),
        ("0", string("zero")),
    ]);
    assert_eq!(meta_deep_get(&meta, "lipics.style"), None);
    assert_eq!(meta_deep_get(&meta, "lipics.mode.more"), None);
    assert_eq!(meta_deep_get(&meta, "lipics.0"), None);
    assert_eq!(meta_deep_get(&meta, "authors.1"), None);
    assert_eq!(meta_deep_get(&meta, "authors.name"), None);
    assert_eq!(meta_deep_get(&meta, "title"), None);
    assert_eq!(meta_deep_get(&meta, ""), None);
    // a number cannot be the first step, even where a field has that name
    assert_eq!(meta_deep_get(&meta, "0"), None);
}

#[test]
fn deep_get_internal_with_an_empty_path_copies_the_value() {
    let value = map(vec![("a", MetaValue::MetaList(vec![string("x"), MetaValue::MetaBool(true)]))]);
    assert_eq!(meta_deep_get_internal(&value, &[]), Some(copy_meta(&value)));
    assert_eq!(
        meta_deep_get_internal(&value, &[MetaSelect::Field("a".to_string()), MetaSelect::Index(1)]),
        Some(MetaValue::MetaBool(true))
    );
    assert_eq!(meta_deep_get_internal(&value, &[MetaSelect::Index(0)]), None);
}

#[test]
fn settings_of_the_filter() {
    for (name, mode) in [
        ("latex", Some(OutputMode::Latex)),
        ("fast-latex", Some(OutputMode::FastLatex)),
        ("pandoc", Some(OutputMode::Pandoc)),
        ("html", None),
        ("LaTeX", None),
    ] {
        let meta = document(vec![("lipics", map(vec![("mode", string(name))]))]);
        assert_eq!(parse_pandoc_lipics(&meta), PandocLipics { mode, debug: false });
    }
    let inlines = document(vec![(
        "lipics",
        map(vec![("mode", MetaValue::MetaInlines(words("fast-latex"))), ("debug", string("no"))]),
    )]);
    assert_eq!(
        parse_pandoc_lipics(&inlines),
        PandocLipics { mode: Some(OutputMode::FastLatex), debug: true }
    );
    assert_eq!(parse_pandoc_lipics(&document(vec![])), PandocLipics { mode: None, debug: false });
    let not_a_name = document(vec![("lipics", map(vec![("mode", MetaValue::MetaBool(true))]))]);
    assert_eq!(parse_pandoc_lipics(&not_a_name), PandocLipics { mode: None, debug: false });
}

#[test]
fn declared_mode_counts_only_for_latex() {
    assert_eq!(select_mode(Some("latex"), Some(OutputMode::Latex)), OutputMode::Latex);
    assert_eq!(select_mode(Some("latex"), Some(OutputMode::FastLatex)), OutputMode::FastLatex);
    assert_eq!(select_mode(Some("latex"), Some(OutputMode::Pandoc)), OutputMode::Pandoc);
    assert_eq!(select_mode(Some("latex"), None), OutputMode::Pandoc);
    assert_eq!(select_mode(Some("html"), Some(OutputMode::Latex)), OutputMode::Pandoc);
    assert_eq!(select_mode(Some(""), Some(OutputMode::FastLatex)), OutputMode::Pandoc);
    assert_eq!(select_mode(None, Some(OutputMode::Latex)), OutputMode::Pandoc);
    assert_eq!(select_mode(None, None), OutputMode::Pandoc);
}

#[test]
fn a_traversal_keeps_its_mode() {
    for mode in [OutputMode::Latex, OutputMode::FastLatex, OutputMode::Pandoc] {
        let mut traversal = Traversal::new(resolver(), mode);
        assert_eq!(traversal.mode(), mode);
        let _ = traversal.visit_inline(directive("intro", "NP"));
        let _ = traversal.visit_vec_inline(vec![directive("ref", "NP"), directive("ref", "P")]);
        assert_eq!(traversal.mode(), mode);
    }
    let fresh = Traversal::new(resolver(), OutputMode::Pandoc);
    assert_eq!(fresh.resolver(), &resolver());
}

#[test]
fn runs_are_rewritten_in_the_latex_modes() {
    let run = vec![
        Inline::Str("Is".to_string()),
        Inline::Space,
        directive("intro", "NP"),
        Inline::Space,
        directive("ref", "P"),
        Inline::Emph(vec![directive("ref", "NP")]),
    ];
    let mut latex = Traversal::new(resolver(), OutputMode::Latex);
    assert_eq!(
        latex.visit_vec_inline(run.clone()),
        vec![
            Inline::Str("Is".to_string()),
            Inline::Space,
            raw("\\intro{"),
            Inline::Str("NP".to_string()),
            raw("}"),
            Inline::Space,
            raw("\\kl{"),
            Inline::Str("P".to_string()),
            raw("}"),
            Inline::Emph(vec![directive("ref", "NP")]),
        ]
    );
    assert_eq!(latex.resolver(), &resolver());
    let mut fast = Traversal::new(resolver(), OutputMode::FastLatex);
    assert_eq!(
        fast.visit_vec_inline(run.clone()),
        vec![
            Inline::Str("Is".to_string()),
            Inline::Space,
            raw("\\akldef{kl-0}{"),
            Inline::Str("NP".to_string()),
            raw("}"),
            Inline::Space,
            raw("\\aklreferror{"),
            Inline::Str("P".to_string()),
            raw("}"),
            Inline::Emph(vec![directive("ref", "NP")]),
        ]
    );
    let db = fast.resolver();
    assert_eq!(db.introduced().len(), 1);
    assert_eq!(db.introduced()[0].0, KnowledgeId(0));
    assert_eq!(db.introduced()[0].1.kind, KnowledgeCommandKind::Intro);
    assert_eq!(db.unknown().len(), 1);
    assert!(db.backrefs().is_empty());
    let mut neutral = Traversal::new(resolver(), OutputMode::Pandoc);
    assert_eq!(neutral.visit_vec_inline(run.clone()), run);
    assert_eq!(neutral.resolver(), &resolver());
}

#[test]
fn single_nodes_are_rewritten_in_the_neutral_mode() {
    let node = directive("intro", "NP");
    for mode in [OutputMode::Latex, OutputMode::FastLatex] {
        let mut traversal = Traversal::new(resolver(), mode);
        assert_eq!(traversal.visit_inline(node.clone()), node);
        assert_eq!(traversal.resolver(), &resolver());
    }
    let mut neutral = Traversal::new(resolver(), OutputMode::Pandoc);
    assert_eq!(
        neutral.visit_inline(node),
        Inline::Span(
            Attr {
                identifier: "kl-0".to_string(),
                classes: vec!["kl-intro".to_string(), "kl-defined".to_string()],
                attributes: vec![("kl".to_string(), "0".to_string())],
            },
            vec![Inline::Emph(words("NP"))],
        )
    );
    assert_eq!(neutral.resolver().introduced().len(), 1);
    let plain = Inline::Strong(words("NP"));
    assert_eq!(neutral.visit_inline(plain.clone()), plain);
    assert_eq!(neutral.resolver().introduced().len(), 1);
}

#[test]
fn copies_are_the_same_as_their_source() {
    let node = Inline::Link(
        Attr {
            identifier: "i".to_string(),
            classes: vec!["c".to_string()],
            attributes: vec![("k".to_string(), "v".to_string())],
        },
        vec![Inline::Note(vec![BlockNode::Div(no_attr(), vec![BlockNode::Other(pandoc_ast::Block::Null)])])],
        Target { url: "u".to_string(), title: "t".to_string() },
    );
    let copy = copy_inline(&node);
    assert_eq!(copy, node);
    assert!(same_inline(&copy, &node));
    assert_eq!(node.clone(), node);
    let block = BlockNode::Header(2, no_attr(), vec![node]);
    assert_eq!(copy_block(&block), block);
    assert!(same_block(&copy_block(&block), &block));
}

#[test]
fn blocks_that_are_not_looked_into_compare_by_what_they_hold() {
    let rule = BlockNode::Other(pandoc_ast::Block::HorizontalRule);
    let list = |word: &str| {
        BlockNode::Other(pandoc_ast::Block::BulletList(vec![vec![pandoc_ast::Block::Para(vec![
            pandoc_ast::Inline::Str(word.to_string()),
        ])]]))
    };
    assert!(same_block(&rule, &BlockNode::Other(pandoc_ast::Block::HorizontalRule)));
    assert!(!same_block(&rule, &BlockNode::Other(pandoc_ast::Block::Null)));
    assert!(same_block(&list("a"), &list("a")));
    assert!(!same_block(&list("a"), &list("b")));
    assert!(!same_block(&list("a"), &rule));
    assert_eq!(list("a"), list("a"));
    assert_ne!(list("a"), list("b"));
    let copy = copy_block(&list("a"));
    assert!(same_block(&copy, &list("a")));
    match copy {
        BlockNode::Other(block) => assert_eq!(
            block,
            pandoc_ast::Block::BulletList(vec![vec![pandoc_ast::Block::Para(vec![
                pandoc_ast::Inline::Str("a".to_string())
            ])]])
        ),
        other => panic!("not the block that went in: {:?}", other),
    }
    // inside a note, too
    let note = |word: &str| Inline::Note(vec![list(word)]);
    assert!(same_inline(&note("a"), &note("a")));
    assert!(!same_inline(&note("a"), &note("b")));
}

#[test]
fn same_tells_nodes_apart() {
    let a = Inline::Emph(words("x"));
    assert!(!same_inline(&a, &Inline::Strong(words("x"))));
    assert!(!same_inline(&a, &Inline::Emph(words("y"))));
    assert!(!same_inline(&a, &Inline::Emph(vec![])));
    assert!(same_inline(&a, &Inline::Emph(words("x"))));
    assert!(!same_inlines(&words("x"), &vec![Inline::Str("x".to_string()), Inline::Space]));
    assert!(same_inlines(&vec![], &vec![]));
    assert!(!same_block(&BlockNode::Para(words("x")), &BlockNode::Plain(words("x"))));
    assert!(!same_block(
        &BlockNode::Header(1, no_attr(), words("x")),
        &BlockNode::Header(2, no_attr(), words("x"))
    ));
    let mut tagged = no_attr();
    tagged.classes.push("c".to_string());
    assert!(!same_inline(&Inline::Span(no_attr(), vec![]), &Inline::Span(tagged, vec![])));
}
