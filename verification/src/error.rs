//! Error kinds of the engine and of the chunk store.

use vstd::prelude::*;
use vstd::string::StringExecFns;

verus! {

/// What went wrong, as one of the distinguishable kinds.
#[derive(Clone, Copy, Debug, PartialEq, Eq, Structural)]
pub enum ErrorKind {
    /// The chunk size is zero.
    InvalidConfiguration,
    /// The source file could not be read in full.
    SourceReadError,
    /// A chunk could not be written to the store.
    StoreWriteError,
    /// A chunk could not be read from the store (it is missing).
    StoreReadError,
    /// The key, the nonce or the message is not one the cipher accepts.
    CipherError,
    /// The authentication tag of a sealed chunk did not verify.
    AuthenticationFailed,
    /// The digest of the stored bytes differs from the recorded one.
    IntegrityMismatch,
    /// A length disagrees with what the manifest records.
    SizeMismatch,
    /// The manifest could not be encoded or decoded.
    SerializationError,
}

/// An error of the engine: its kind and, where one chunk is at fault, the
/// position of that chunk in the file.
#[derive(Clone, Copy, Debug, PartialEq, Eq)]
pub struct EngineError {
    pub kind: ErrorKind,
    pub chunk: Option<usize>,
}

/// Why the chunk store refused an operation.
#[derive(Clone, Copy, Debug, PartialEq, Eq, Structural)]
pub enum StoreError {
    /// Nothing is stored at the location.
    NotFound,
    /// The location already holds a chunk.
    AlreadyExists,
}

/// The error of kind `kind` that concerns no single chunk.
pub open spec fn plain_error(kind: ErrorKind) -> EngineError {
    EngineError { kind, chunk: None }
}

/// The error of kind `kind` raised for the chunk at position `chunk`.
pub open spec fn chunk_error(kind: ErrorKind, chunk: int) -> EngineError {
    EngineError { kind, chunk: Some(chunk as usize) }
}

/// The text shown for an error kind.
pub open spec fn kind_text(kind: ErrorKind) -> Seq<char> {
    match kind {
        ErrorKind::InvalidConfiguration => "invalid configuration: chunk size must be positive"@,
        ErrorKind::SourceReadError => "the source file could not be read"@,
        ErrorKind::StoreWriteError => "a chunk could not be written to the store"@,
        ErrorKind::StoreReadError => "a chunk could not be read from the store"@,
        ErrorKind::CipherError => "the cipher rejected the key, nonce or message"@,
        ErrorKind::AuthenticationFailed => "authentication of a sealed chunk failed"@,
        ErrorKind::IntegrityMismatch => "the digest of a stored chunk does not match"@,
        ErrorKind::SizeMismatch => "a length does not match the manifest"@,
        ErrorKind::SerializationError => "the manifest could not be serialized"@,
    }
}

/// Whether an outcome in bytes is the outcome that a contract names.
pub open spec fn same_outcome(
    got: Result<Vec<u8>, EngineError>,
    expected: Result<Seq<u8>, EngineError>,
) -> bool {
    match (got, expected) {
        (Ok(bytes), Ok(wanted)) => bytes@ == wanted,
        (Err(e), Err(wanted)) => e == wanted,
        _ => false,
    }
}

impl EngineError {
    /// An error that concerns no single chunk.
    pub fn new(kind: ErrorKind) -> (e: EngineError)
        ensures
            e == plain_error(kind),
    {
        EngineError { kind, chunk: None }
    }

    /// An error raised while handling the chunk at position `chunk`.
    pub fn at_chunk(kind: ErrorKind, chunk: usize) -> (e: EngineError)
        ensures
            e == chunk_error(kind, chunk as int),
    {
        EngineError { kind, chunk: Some(chunk) }
    }

    /// A human-readable description of the error's kind.
    pub fn message(&self) -> (text: String)
        ensures
            text@ == kind_text(self.kind),
    {
        match self.kind {
            ErrorKind::InvalidConfiguration => String::from_str(
                "invalid configuration: chunk size must be positive",
            ),
            ErrorKind::SourceReadError => String::from_str("the source file could not be read"),
            ErrorKind::StoreWriteError => String::from_str(
                "a chunk could not be written to the store",
            ),
            ErrorKind::StoreReadError => String::from_str(
                "a chunk could not be read from the store",
            ),
            ErrorKind::CipherError => String::from_str(
                "the cipher rejected the key, nonce or message",
            ),
            ErrorKind::AuthenticationFailed => String::from_str(
                "authentication of a sealed chunk failed",
            ),
            ErrorKind::IntegrityMismatch => String::from_str(
                "the digest of a stored chunk does not match",
            ),
            ErrorKind::SizeMismatch => String::from_str("a length does not match the manifest"),
            ErrorKind::SerializationError => String::from_str(
                "the manifest could not be serialized",
            ),
        }
    }
}

} // verus!
