use lipics_filter::{parse_knowledge_base, Knowledge, KnowledgeBase, LaTeX, Macro, MacroArg, Synonym};
use std::collections::HashMap;

#[test]
fn every_knowledge_file_is_refused_where_it_begins() {
    for input in ["", "\\knowledge{notion}\n  | synonym\n", "% comment"] {
        let refused = parse_knowledge_base(input).unwrap_err();
        assert_eq!(
            refused,
            nom::Err::Error(nom::error::Error::new(input, nom::error::ErrorKind::Not))
        );
    }
}

#[test]
fn knowledge_file_data_can_be_written_down() {
    let base = KnowledgeBase {
        knowledges: vec![Knowledge {
            name: "notion".to_string(),
            synonyms: vec![
                Synonym::Global("synonym".to_string()),
                Synonym::Scoped("synonym".to_string(), "scope".to_string()),
            ],
            keyval: HashMap::new(),
        }],
        source_file: "notions.kl".to_string(),
    };
    assert_eq!(base.knowledges.len(), 1);
    assert_eq!(base.knowledges[0].synonyms.len(), 2);
    assert!(matches!(&base.knowledges[0].synonyms[1], Synonym::Scoped(_, scope) if scope == "scope"));
}

#[test]
fn macro_file_data_can_be_written_down() {
    let defined = Macro {
        name: "dx".to_string(),
        args: vec![MacroArg::Required, MacroArg::Optional, MacroArg::OptionalDefault("x".to_string())],
        definition: "\\mathrm{d}#1".to_string(),
    };
    assert_eq!(defined.args.len(), 3);
    let tex = LaTeX::Sequence(
        Box::new(LaTeX::Comm("int".to_string(), vec![LaTeX::Raw("0".to_string()), LaTeX::Empty])),
        Box::new(LaTeX::Env(
            "cases".to_string(),
            vec![],
            Box::new(LaTeX::Braces(Box::new(LaTeX::CommS("dx".to_string())))),
        )),
    );
    assert!(matches!(tex, LaTeX::Sequence(_, _)));
    assert!(matches!(LaTeX::Comment("note".to_string()), LaTeX::Comment(_)));
}
