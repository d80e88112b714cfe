//! Extraction of link targets and in-document anchors from documentation
//! written in an extended Markdown dialect (GitHub-flavored extensions, math,
//! and JSX-like components).
//!
//! Two facts are derived from a document: the set of hyperlink and image
//! targets it references, and the set of addressable anchors it defines —
//! slugified heading identifiers and explicit element identifiers. Anchors
//! come from either of two independent pipelines: the structural one walks a
//! parsed syntax tree, the textual one scans raw text line by line. A
//! notebook document can be flattened to markdown first, so the same
//! pipelines apply to it.

pub mod anchors;
pub mod ast;
pub mod document;
pub mod links;
pub mod mdast_types;
pub mod mdx;
pub mod notebook;
pub mod occurrence;
pub mod slug;
pub mod text;
pub mod textual;
