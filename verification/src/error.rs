//! The error taxonomy of the library.
use vstd::prelude::*;

verus! {

/// Every failure the library reports.
///
/// Transport and filesystem failures are produced by the unverified shell
/// around the library and carried here as text; every other kind is produced
/// by the library itself.
#[derive(Debug, Clone, PartialEq, Eq)]
pub enum Error {
    /// An HTTP request failed; the payload describes the transport failure.
    HTTPRequestError(String),
    /// A filesystem operation failed; the payload describes the failure.
    IOError(String),
    /// A binary or text structure was violated: a failed shape assertion, a
    /// truncated block, a bad magic number, a non-hex key string.
    ParseError,
    /// A content key had no entry in the encoding table, or its encoded key
    /// was in no archive.
    MissingCKey,
    /// A zlib-compressed BLTE frame did not inflate.
    ZlibError,
    /// No root entry holds the requested file id.
    MissingFileId(u32),
    /// No root entry matches the hash of the requested path.
    MissingFileName(String),
    /// A BLTE frame was encrypted, which the library does not decode.
    UnsupportedEncryptedData,
}

} // verus!
