//! Verified core of a small operator tool around a full-text search index.
//!
//! The heavy lifting (index storage, query parsing, searching, document
//! retrieval) is done by an external search engine; this crate holds the
//! parts worth proving: the hierarchical scoped-timer used to measure
//! nested phases of query execution, the benchmark passes that drive
//! repeated queries and emit tab-separated result rows, and the small
//! pure helpers (decimal formatting and parsing, query-file line
//! splitting, search-field selection) those passes rely on.

pub mod bench;
mod clock;
pub mod fields;
pub mod lines;
pub mod numfmt;
pub mod timer;
