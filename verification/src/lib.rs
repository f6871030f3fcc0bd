//! A miniature declarative UI layout engine.
//!
//! Two small domain-specific languages describe a document: a structural
//! markup language (tags with named traits) and a constraint-based styling
//! language (named rules mapping attributes to relational expressions).
//! The library parses both, binds style rules to markup nodes into a style
//! tree, allocates one solver variable per (node, attribute) pair, generates
//! the linear constraint system that encodes the box model, and finally
//! projects solved values into a read-only render tree.
//!
//! The numeric constraint solving itself is an external capability working
//! over real-valued variables; this crate produces the constraint system as
//! plain data and consumes the solved values, so that every transformation
//! from source text to render tree is verified.

pub mod asml_parser;
pub mod ass_parser;
pub mod color;
pub mod document;
pub mod layout;
pub mod pipeline;
pub mod printer;
pub mod render_tree;
pub mod style_tree;
