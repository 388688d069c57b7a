#![verifier::loop_isolation(false)]
//! Chunked-transfer storage over a message-oriented record store: files are
//! split into fixed-size extents, extents are packed into batches, batches
//! are persisted as a singly linked chain of metadata records, and the chain
//! is walked to rebuild the file.

use vstd::prelude::*;

pub mod batch;
pub mod chain;
pub mod codec;
pub mod config;
pub mod errors;
pub mod extent;
pub mod listing;
pub mod numbers;
pub mod parser;
pub mod progress;
pub mod text;
pub mod version;

pub use config::ConfigError;
pub use config::ConfigValue;
pub use errors::TransferError;
pub use numbers::IntParseError;
pub use parser::FileEntry;
pub use parser::ParseError;

verus! {

/// Fixed size of one extent, in bytes.
pub const PART_SIZE: usize = 20_000_000;

/// Most extents one record of the store can carry.
pub const BATCH_LIMIT: usize = 10;

} // verus!
