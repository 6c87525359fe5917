//! A byte-deterministic tar archiver core.
//!
//! The library turns an already-listed directory tree into a ustar-compatible
//! archive byte stream (with the GNU long-name extension) and an optional
//! per-file digest listing. Identical tree content and identical options
//! always yield identical bytes: every output is pinned by a specification
//! function of the inputs alone.

use vstd::prelude::*;

pub mod bytes;
pub mod codec;
pub mod config;
pub mod digest;
pub mod laws;
pub mod pattern;
pub mod walker;

verus! {

/// The fatal conditions of the archiver. None is recovered from: a run that
/// hits one of these aborts, because a partially written archive of a
/// determinism-guaranteeing tool is meaningless.
#[derive(Clone, Copy, Debug, PartialEq, Eq, Structural)]
pub enum TarError {
    /// A path could not be classified or listed, or a filesystem object of an
    /// unsupported type (socket, device, ...) was met.
    Traversal,
    /// A symlink was met while the walk was asked to abort on symlinks.
    SymlinkEncountered,
    /// The bytes read from a file differ in count from its previously stated
    /// size: the file changed while it was being archived.
    SizeMismatch,
    /// Writing to the archive or digest sink failed.
    Io,
    /// Contradictory or invalid external inputs.
    Configuration,
}

} // verus!
