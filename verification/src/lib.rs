//! File confidentiality engine: a file is split into fixed-size chunks, each
//! chunk is sealed with AES-256-GCM under a per-file key and a fresh nonce,
//! and a manifest records how to verify, open and reassemble the chunks.

pub mod error;
pub mod chunker;
pub mod hex;
pub mod hasher;
pub mod cipher;
pub mod random;
pub mod ident;
pub mod store;
pub mod manifest;
pub mod engine;
pub mod laws;

pub use crate::engine::{fragment, reassemble, EncryptionService};
pub use crate::error::{EngineError, ErrorKind, StoreError};
pub use crate::manifest::{ChunkInfo, Metadata};
pub use crate::random::{CountingSource, RandomSource, SystemRandom};
pub use crate::store::ChunkStore;
