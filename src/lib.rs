//! Storage of large immutable blobs in a single, deterministically addressed
//! ledger account ("bucket"), written chunk by chunk.
pub mod encoding;
pub mod error;
pub mod instruction;
pub mod address;
pub mod state;
pub mod processor;
pub mod uploader;
