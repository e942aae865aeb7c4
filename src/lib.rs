//! A hash-linked ledger: records bound to their predecessors by SHA-256
//! fingerprints, appended after a proof-of-work search, and checked as a
//! whole sequence.

pub mod text;
pub mod block;
pub mod chain;

pub use block::{Block, BlockError};
pub use chain::{Blockchain, ChainError};
