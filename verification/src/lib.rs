//! A small error-recovering compiler for the `sil` slide-description format.
//!
//! The pipeline turns a plain-text document into an ordered sequence of typed,
//! renderable layers: the lexer produces a flat token sequence and never
//! fails; the parser consumes the tokens once, left to right, separating
//! well-formed blocks from diagnostic (garbage) entries while preserving
//! source order; the layer resolver maps each parsed entry, by its kind tag,
//! into a typed layer with defaulted or overridden visual attributes.

pub mod lex;
pub mod parse;
pub mod slide;
pub mod typecheck;
pub mod sil_file;
pub mod display;
pub mod root_path;
pub mod slides;
