//! Line-oriented field, character and byte extraction.
//!
//! The crate parses human-written range lists such as `1-3,8,15-20` into
//! half-open zero-based ranges, flattens them into an index set, and applies
//! that set to lines of text byte-wise, character-wise, or field-wise over a
//! delimited record format.

pub mod config;
pub mod errors;
pub mod extract;
pub mod index_set;
pub mod positions;
