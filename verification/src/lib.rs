//! Positioned diagnostics for an editor service.
//!
//! On every full-text update of a document the host parses the text with a
//! recovering parser and hands the text and the parser's error records to this
//! library. The library indexes the text, maps every error span from flat
//! character offsets to zero-based line and column positions, renders the
//! error message, and returns the report that replaces the document's
//! previous diagnostics.

pub mod diagnostics;
pub mod lines;
pub mod message;
pub mod record;
pub mod rope;
pub mod text_index;
