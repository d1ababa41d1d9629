//! A tree-rewriting core for a wiki-style markup language: source positions,
//! the element tree, a bottom-up traversal and the normalization pipeline.

pub mod position;
pub mod ast;
pub mod error;
pub mod passes;
pub mod folds;
pub mod traversion;
pub mod pipeline;
pub mod laws;
pub mod render;

pub use position::{Position, Span, SourceLine, get_source_lines};
pub use ast::{Element, ListItemKind, Node};
pub use error::{GrammarError, ParseError, TransformationError, MWError};
pub use traversion::{Pass, traverse};
pub use pipeline::{
    GeneralSettings, parse, apply_transformations, fold_headings_transformation,
    fold_lists_transformation, whitespace_paragraphs_to_empty, collapse_paragraphs,
    collapse_consecutive_text, enumerate_anon_args,
};
