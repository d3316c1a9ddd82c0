//! The per-segment filter: selected segment ids, technical skip and minimum length.
use vstd::prelude::*;
use crate::segment::{Segment, SegmentType};

verus! {

/// Which segments of which spots are processed.
#[derive(Debug, Clone)]
pub struct FilterOptions {
    /// Minimum segment length that is kept (0 keeps zero-length segments)
    pub min_read_len: usize,
    /// Drop technical segments
    pub skip_technical: bool,
    /// Process at most this many spots
    pub limit: Option<u64>,
    /// Segment ids to process; empty means all of them
    pub selected: Vec<usize>,
}

/// What the filter decides for one segment.
#[derive(Debug, Clone, Copy, PartialEq, Eq, Structural)]
pub enum FilterOutcome {
    /// Not among the selected ids: dropped and not counted
    Excluded,
    /// Technical while technical segments are skipped
    Technical,
    /// Shorter than the minimum length
    TooShort,
    /// Written out
    Accepted,
}

/// Segment id `sid` passes the selection (an empty selection passes every id).
pub open spec fn selects(selected: Seq<usize>, sid: usize) -> bool {
    selected.len() == 0 || selected.contains(sid)
}

/// The filter's decision for a segment with id `sid`, type `ty` and length `len`.
pub open spec fn outcome(opts: FilterOptions, sid: usize, ty: SegmentType, len: nat) -> FilterOutcome {
    if !selects(opts.selected@, sid) {
        FilterOutcome::Excluded
    } else if opts.skip_technical && ty == SegmentType::Technical {
        FilterOutcome::Technical
    } else if len < opts.min_read_len {
        FilterOutcome::TooShort
    } else {
        FilterOutcome::Accepted
    }
}

/// The filter's decision for segment `s`.
pub open spec fn segment_outcome(opts: FilterOptions, s: Segment) -> FilterOutcome {
    outcome(opts, s.sid, s.ty, s.seq@.len())
}

/// Whether `set` holds `x`.
pub fn contains_sid(set: &Vec<usize>, x: usize) -> (r: bool)
    ensures
        r == set@.contains(x),
{
    let mut i: usize = 0;
    while i < set.len()
        invariant
            i <= set@.len(),
            forall|j: int| 0 <= j < i ==> set@[j] != x,
        decreases set@.len() - i,
    {
        if set[i] == x {
            return true;
        }
        i = i + 1;
    }
    false
}

impl FilterOptions {
    /// Whether segment id `sid` passes the selection.
    pub fn selects(&self, sid: usize) -> (r: bool)
        ensures
            r == selects(self.selected@, sid),
    {
        self.selected.len() == 0 || contains_sid(&self.selected, sid)
    }

    /// Applies the filter to one segment.
    pub fn classify(&self, segment: &Segment) -> (r: FilterOutcome)
        ensures
            r == segment_outcome(*self, *segment),
    {
        if !self.selects(segment.sid) {
            FilterOutcome::Excluded
        } else if self.skip_technical && segment.is_technical() {
            FilterOutcome::Technical
        } else if segment.len() < self.min_read_len {
            FilterOutcome::TooShort
        } else {
            FilterOutcome::Accepted
        }
    }
}

} // verus!
