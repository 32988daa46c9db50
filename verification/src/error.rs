//! Error kinds surfaced by the crate.

use vstd::prelude::*;

verus! {

/// What went wrong.  The kinds mirror the stages of the pipeline: digest and
/// coordinate parsing, artifact integrity, and metadata lookup.  I/O and JSON
/// failures are reported by the unverified shell through the same kinds.
#[derive(Debug, Clone, Copy, PartialEq, Eq, Structural)]
pub enum Error {
    /// Filesystem or process error.
    Io,
    /// Malformed metadata payload.
    Json,
    /// A digest string held a character outside `[0-9a-f]` or had odd length.
    FromHex,
    /// Non-UTF-8 text where UTF-8 was expected.
    FromUtf8,
    /// A library coordinate had fewer than three `:`-separated parts.
    LibraryInvalidName,
    /// No artifact is selectable for the host platform.
    LibraryNotSupported,
    /// An artifact expected on disk is absent.
    LibraryMissing,
    /// An artifact on disk does not match its expected digest.
    LibraryInvalidHash,
    /// A referenced UID, version or manifest field is absent.
    MetaNotFound,
}

} // verus!
