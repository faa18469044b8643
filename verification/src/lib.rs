//! Conversion of NFSe query-response documents (a verbose, namespaced XML
//! schema carrying one or more tax-invoice records) into a flattened target
//! document understood by downstream tooling.
//!
//! The crate is built around a schema-agnostic XML tree model ([`node`]),
//! a parser from XML text into that model ([`parse`]), a serializer back to
//! XML text ([`render`]), and the field-by-field mapping pipeline that turns
//! a parsed source tree into the fixed target shape ([`mapping`]).  The
//! [`convert`] module ties the stages together into a single pure function
//! from source text to output text, and [`round_trip`] proves that the
//! serializer and the parser invert one another on canonical trees.

pub mod convert;
pub mod mapping;
pub mod node;
pub mod parse;
pub mod render;
pub mod round_trip;
pub mod text;
