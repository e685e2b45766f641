//! Error types of the library.
use vstd::prelude::*;

verus! {

/// Features whose absence may cause a runtime error.
#[derive(Debug, Clone, Copy, PartialEq, Eq, Hash)]
#[non_exhaustive]
pub enum Feature {
    Snappy,
    Brotli,
    Gzip,
    Lz4,
    Zstd,
}

/// Errors reported by this library.
#[derive(Debug, Clone)]
#[non_exhaustive]
pub enum Error {
    /// General error with a message.
    General(String),
    /// A code path that needs a feature that is not available.
    FeatureNotActive(Feature, String),
    /// The input is known to violate the format.
    OutOfSpec(String),
    /// A raw key whose length is none of 16, 24 or 32 bytes.
    KeySize(usize),
    /// An authenticated decryption found a tag that does not match.
    AuthenticationFailed,
    /// Key metadata or key material that cannot be parsed, or lacks a field.
    KeyMetadataMalformed,
    /// No key could be obtained for the given key metadata.
    KeyRetrievalFailed,
    /// The verifier rejected the AAD prefix.
    AadPrefixMismatch,
    /// A frame, magic or footer that is inconsistent with the bytes available.
    FormatViolation,
    /// A module whose ciphertext length does not fit the frame's 32-bit length field.
    ModuleTooLarge,
    /// A column configured with both a raw key and key metadata.
    ColumnKeyConflict,
}

/// A result whose error is [`Error`].
pub type Result<T> = core::result::Result<T, Error>;

} // verus!
