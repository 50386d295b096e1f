//! The failure taxonomy of the session: every fallible operation surfaces
//! exactly one of these conditions to the host.

use vstd::prelude::*;

verus! {

/// A typed failure of one host-invoked operation.
///
/// Every failure aborts only the current operation; no operation retries
/// internally, and no failed operation leaves partial state behind that a
/// later call would mistake for valid.
#[derive(Clone, Copy, Debug, PartialEq, Eq, Structural)]
pub enum TrackError {
    /// Archive header parsing could not proceed (truncated or corrupt block).
    MalformedArchive,
    /// An entry's byte range exceeds the buffer's size.
    EntryOutOfRange,
    /// A requested entry name is absent from the index.
    UnknownEntry,
    /// A manifest line does not hold four whitespace-separated fields with
    /// decimal timestamps.
    MalformedAssociationLine,
    /// The depth image bytes could not be decoded as a 16-bit sample grid.
    DepthDecodeError,
    /// The color image bytes could not be decoded as an 8-bit grayscale grid.
    ColorDecodeError,
    /// The camera identifier names no known calibration record.
    UnknownCamera,
    /// The session has no built index yet.
    NotIndexed,
    /// The archive holds no association manifest entry.
    MissingManifest,
    /// The requested frame id addresses no association.
    FrameOutOfRange,
    /// The session has not completed initialization.
    SessionNotReady,
}

} // verus!
