//! Error taxonomy of the pipeline.

use vstd::prelude::*;

verus! {

/// Every failure the pipeline can report.
///
/// `Configuration` and `PatternMatch` end a whole batch resolution,
/// `UnsafeArchiveEntry`, `Repack` and `Filesystem` end the job that raised
/// them, while `Conversion` is recoverable at entry granularity: the job
/// carries on with the next entry.
#[derive(Debug)]
pub enum PipelineError {
    /// A templated source or target string does not contain the placeholder
    /// token.
    Configuration { message: Vec<u8> },
    /// A file matched by the derived glob did not fit the derived capture
    /// pattern: an internal inconsistency that aborts the whole resolution.
    PatternMatch { message: Vec<u8> },
    /// An archive entry whose name would resolve outside the extraction
    /// root.
    UnsafeArchiveEntry { name: Vec<u8> },
    /// The external raster tool exited with a non-zero status; carries the
    /// tool's diagnostic output.
    Conversion { diagnostic: Vec<u8> },
    /// The external archive tool exited with a non-zero status; carries the
    /// tool's diagnostic output.
    Repack { diagnostic: Vec<u8> },
    /// A filesystem-level failure (missing or unreadable path).
    Filesystem { message: Vec<u8> },
}

impl PipelineError {
    /// True exactly for the errors that are contained at entry granularity:
    /// a failed image conversion never aborts its job.
    pub fn is_entry_level(&self) -> (r: bool)
        ensures
            r == (self is Conversion),
    {
        match self {
            PipelineError::Conversion { .. } => true,
            _ => false,
        }
    }
}

} // verus!
