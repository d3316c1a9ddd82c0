//! Errors reported by the library.
use vstd::prelude::*;

verus! {

/// What went wrong, with the values needed to describe it.
#[derive(Debug, Clone, Copy, PartialEq, Eq, Structural)]
pub enum XsraError {
    /// A segment id has no output buffer (split output holds one buffer per segment id).
    SegmentOutOfRange { sid: usize, capacity: usize },
    /// A segment reaches past the end of its spot's sequence or quality column.
    SegmentOutOfBounds { rid: u64, sid: usize },
    /// The columns of a spot disagree on the number of segments or on its length.
    ColumnMismatch { rid: u64 },
    /// A spot lacks a segment that the selection asks for.
    MissingSegment { rid: u64, sid: usize },
    /// A segment's sampled lengths vary, so it cannot be stored with a fixed length.
    VariableLength { sid: usize },
    /// A selected segment id was never seen in the sample.
    UnknownSegment { sid: usize },
    /// Recoding selects no segment.
    NoSegmentSelected,
    /// Recoding selects more than two segments.
    TooManySegments,
}

} // verus!
