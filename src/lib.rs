//! Structure-aware SQL pretty-printer.
//!
//! The library takes a syntax tree whose nodes carry kind labels (as produced
//! by a SQL grammar) together with the source text the tree was parsed from,
//! and re-emits canonical, vertically aligned SQL: one line per clause, each
//! clause padded so that the clause bodies line up, and each statement
//! terminated by `;` and a line break.
//!
//! - [`tree`]: the syntax tree model and the classification of kind labels.
//! - [`output`]: the append-only byte buffer the renderer writes into.
//! - [`render`]: the node printer, the clause aligner and the statement renderer.
//! - [`laws`]: properties of the rendering, stated and proved.

pub mod laws;
pub mod output;
pub mod render;
pub mod tree;
