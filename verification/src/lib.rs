//! Interactive inspection of an XML document held in one contiguous byte
//! buffer.
//!
//! The document is never materialized as a tree.  A streaming tokenizer walks
//! the raw bytes and emits start-tag / end-tag / text events; an explorer
//! resolves parent-to-child relationships by re-scanning bounded byte ranges
//! and caches them by byte offset; a navigation state machine lets a caller
//! walk the document one level at a time with a selection cursor.  All text is
//! addressed as byte ranges (`Span`) into the source buffer, so nothing is
//! copied during tokenization or child resolution.

pub mod scan;
pub mod tokenizer;
pub mod attrs;
pub mod explorer;
pub mod nav;
pub mod stats;
pub mod wellformed;

pub use scan::Span;
pub use tokenizer::{Token, Tokenizer, stream_xml};
pub use attrs::extract_attributes;
pub use explorer::{Node, XmlExplorer};
pub use nav::{Level, TuiState, InfoData};
pub use stats::{Stats, compute_stats};
