//! Container kinds and the error taxonomy of the pipeline.

use vstd::prelude::*;

verus! {

/// The three supported container kinds, decided by file extension alone.
#[derive(Clone, Copy, Debug, PartialEq, Eq, Structural)]
pub enum ComicKind {
    /// A zip-compatible archive of page images.
    ArchiveA,
    /// A rar-compatible archive of page images; mislabeled files are retried
    /// as zip-compatible archives.
    ArchiveB,
    /// A page-description document whose images are embedded stream objects.
    PageDescription,
}

/// Errors of the pipeline.  Per-image decode and encode failures are not
/// here: they are contained at the image boundary and only counted as skips.
#[derive(Clone, Copy, Debug, PartialEq, Eq, Structural)]
pub enum ComicError {
    /// The path's extension names no supported container kind.
    UnsupportedFormat,
    /// The container could not be unpacked (for the fallback kind: neither as
    /// rar-compatible nor as zip-compatible), or a page-description document
    /// held no image object at all.
    ExtractionError,
    /// The output archive could not be written.
    RepackageError,
    /// The quality setting is outside the accepted range.
    ConfigurationError,
}

/// Why one image was counted as skipped rather than processed.
#[derive(Clone, Copy, Debug, PartialEq, Eq, Structural)]
pub enum SkipReason {
    /// The image bytes could not be decoded to a raster.
    DecodeFailed,
    /// The resampled raster could not be encoded to the target codec.
    EncodeFailed,
    /// The encoding succeeded but was not strictly smaller than the source.
    NotSmaller,
}

} // verus!
