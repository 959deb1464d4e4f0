//! Extraction of command entries from shell-history logs.
//!
//! A history log is a stream of bytes in one of a few line-oriented formats.
//! [`History`] turns such a stream into the sequence of commands it records,
//! one block of text per command, under the grammar of a [`HistoryProvider`].

pub mod grammar;
pub mod history;
pub mod laws;
pub mod lines;
pub mod log;
pub mod provider;
pub mod state;
pub mod text;

pub use history::History;
pub use provider::{Grammar, HistoryProvider, HistoryStream};
pub use state::HistoryState;
