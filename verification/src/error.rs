//! The closed failure taxonomy surfaced by every component of the crate.

use vstd::prelude::*;

verus! {

/// Every failure the engine can report. No kind is recovered internally:
/// errors bubble to the call boundary unmodified.
#[derive(Debug, Clone)]
pub enum PackError {
    /// An operating-system I/O failure, with its message.
    Io(String),
    /// The body could not be serialized.
    Serialization(String),
    /// The body bytes could not be deserialized.
    Deserialization(String),
    /// The compression engine failed.
    Compression(String),
    /// The payload could not be decompressed.
    Decompression(String),
    /// The payload could not be encrypted, or a key was malformed.
    Encryption(String),
    /// The payload could not be decrypted.
    Decryption(String),
    /// The container is not a snapshot container.
    InvalidFormat(String),
    /// The container was written by a different format version.
    VersionMismatch { expected: String, actual: String },
    /// The payload does not match the checksum recorded in the header.
    ChecksumMismatch,
    /// No snapshot with the given id exists in the store.
    SnapshotNotFound(String),
    /// A replay or checkpoint operation was given an invalid position.
    InvalidCheckpoint(String),
    /// Any other failure.
    Unknown(String),
}

} // verus!
