//! Frequency-ranked text completion for a markdown editor.
//!
//! An [`Indexer`] counts the words, tags and short phrases of the documents it
//! is given and answers prefix queries with the matching entries, most
//! frequent first, together with the markdown snippets of a fixed catalogue.

pub mod indexer;
pub mod laws;
pub mod listing;
pub mod ranking;
pub mod tally;
pub mod templates;
pub mod text;

pub use indexer::Indexer;
