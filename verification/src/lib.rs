//! A verified core for a key/value text grammar used by strategy-game
//! save and definition files.
//!
//! The crate materializes an ordered token stream into a value tree,
//! answers slash-separated path queries against the stream, renders the
//! stream as JSON text under a configurable duplicate-key policy, and
//! re-emits the grammar through an incremental writer.

pub mod date;
pub mod errors;
pub mod json;
pub mod materialize;
pub mod query;
pub mod scalar;
pub mod session;
pub mod token;
pub mod value;
pub mod writer;
