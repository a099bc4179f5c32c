//! Fuzzy search over the names in a directory tree: scoring of names against a
//! query, the store of scored candidates, the ranking that picks the best of
//! them for display, and the decision of when a display is redrawn.

pub mod after_search;
pub mod matcher;
pub mod searcher;
pub mod str_ext;
pub mod top_matches;
