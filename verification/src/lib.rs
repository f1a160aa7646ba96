//! Verified core of a comic-book recompression pipeline.
//!
//! A comic container (a zip-compatible archive, a rar-compatible archive with
//! zip fallback, or a page-description document with embedded image streams)
//! is unpacked into an in-memory file set, every page image is transcoded to
//! a lossy codec when that makes it smaller, and the result is repackaged as
//! a fresh deflate-compressed archive.  All container parsing, stream
//! decoding, transcoding policy and repackaging logic is verified; the
//! outside codecs are reached through a small set of trusted wrappers.

pub mod kinds;
pub mod archive;
pub mod fileset;
pub mod names;
pub mod pdf;
pub mod pipeline;
pub mod raster;
pub mod transcode;
