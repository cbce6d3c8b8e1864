//! Compiles annotated Rust source files into Markdown documents.
//!
//! A source file mixes three kinds of lines, told apart by a literal
//! prefix: `///` doc-comment lines, `//t` tutorial-comment lines, and
//! everything else, which counts as code.  The compiler groups maximal
//! runs of same-tagged lines into sections, reformats code sections
//! (blank-line normalization and fencing), and serializes the result.

pub mod chapters;
pub mod compile;
pub mod text;
