//! Spots and their segments, as read from an archive's columns.
use vstd::prelude::*;

verus! {

/// Whether a segment holds biological sequence or a technical region.
#[derive(Debug, Clone, Copy, PartialEq, Eq, Structural)]
pub enum SegmentType {
    Technical,
    Biological,
}

/// The type that a `READ_TYPE` value denotes: its low bit set means biological.
pub open spec fn type_of_read_type(t: u8) -> SegmentType {
    if t % 2 == 1 {
        SegmentType::Biological
    } else {
        SegmentType::Technical
    }
}

/// One sub-read of a spot, with its bytes copied out of the column buffers.
#[derive(Debug, Clone)]
pub struct Segment {
    /// Row id of the owning spot (1-indexed)
    pub rid: u64,
    /// Index of the segment within its spot (0-indexed)
    pub sid: usize,
    pub ty: SegmentType,
    /// Nucleotide bytes
    pub seq: Vec<u8>,
    /// PHRED+33 quality bytes
    pub qual: Vec<u8>,
}

impl SegmentType {
    /// Decodes a `READ_TYPE` value.
    pub fn from_read_type(t: u8) -> (r: SegmentType)
        ensures
            r == type_of_read_type(t),
    {
        if t % 2 == 1 {
            SegmentType::Biological
        } else {
            SegmentType::Technical
        }
    }
}

impl Segment {
    pub fn is_technical(&self) -> (r: bool)
        ensures
            r == (self.ty == SegmentType::Technical),
    {
        match self.ty {
            SegmentType::Technical => true,
            SegmentType::Biological => false,
        }
    }

    /// Number of bases in the segment.
    pub fn len(&self) -> (r: usize)
        ensures
            r == self.seq@.len(),
    {
        self.seq.len()
    }
}

/// Copies `src[start..start + len]` into a new vector.
fn copy_range(src: &[u8], start: usize, len: usize) -> (r: Vec<u8>)
    requires
        start + len <= src@.len(),
    ensures
        r@ == src@.subrange(start as int, start + len),
{
    let mut r: Vec<u8> = Vec::with_capacity(len);
    let n: usize = src.len();
    let mut k: usize = 0;
    while k < len
        invariant
            n == src@.len(),
            start + len <= src@.len(),
            k <= len,
            r@ == src@.subrange(start as int, start + k),
        decreases len - k,
    {
        r.push(src[start + k]);
        k = k + 1;
        assert(r@ =~= src@.subrange(start as int, start + k));
    }
    r
}

/// The columns of one spot describe well-formed segments.
pub open spec fn columns_valid(
    seq: Seq<u8>,
    qual: Seq<u8>,
    starts: Seq<u32>,
    lens: Seq<u32>,
    types: Seq<u8>,
) -> bool {
    &&& seq.len() == qual.len()
    &&& starts.len() == lens.len()
    &&& types.len() == starts.len()
    &&& forall|i: int| 0 <= i < starts.len() ==> starts[i] + lens[i] <= seq.len()
}

/// Segment `i` of a spot, as the columns describe it.
pub open spec fn column_segment(
    rid: u64,
    seq: Seq<u8>,
    qual: Seq<u8>,
    starts: Seq<u32>,
    lens: Seq<u32>,
    types: Seq<u8>,
    i: int,
) -> (Seq<u8>, Seq<u8>, SegmentType) {
    (
        seq.subrange(starts[i] as int, starts[i] + lens[i]),
        qual.subrange(starts[i] as int, starts[i] + lens[i]),
        type_of_read_type(types[i]),
    )
}

/// Splits one spot's `READ`, `QUALITY`, `READ_START`, `READ_LEN` and `READ_TYPE`
/// cells into its segments.
pub fn spot_from_columns(
    rid: u64,
    seq: &[u8],
    qual: &[u8],
    starts: &[u32],
    lens: &[u32],
    types: &[u8],
) -> (r: Result<Vec<Segment>, crate::error::XsraError>)
    ensures
        r is Ok <==> columns_valid(seq@, qual@, starts@, lens@, types@),
        !(seq@.len() == qual@.len() && starts@.len() == lens@.len() && types@.len() == starts@.len())
            ==> r == Err::<Vec<Segment>, crate::error::XsraError>(
            crate::error::XsraError::ColumnMismatch { rid },
        ),
        r matches Err(crate::error::XsraError::SegmentOutOfBounds { rid: x, sid: k }) ==> x == rid && k
            < starts@.len() && starts@[k as int] + lens@[k as int] > seq@.len(),
        r is Err ==> (r matches Err(crate::error::XsraError::SegmentOutOfBounds { .. })) || r
            == Err::<Vec<Segment>, crate::error::XsraError>(crate::error::XsraError::ColumnMismatch { rid }),
        r is Ok ==> r->Ok_0@.len() == starts@.len() && forall|i: int|
            0 <= i < starts@.len() ==> {
                let s = #[trigger] r->Ok_0@[i];
                &&& s.rid == rid
                &&& s.sid == i
                &&& (s.seq@, s.qual@, s.ty) == column_segment(rid, seq@, qual@, starts@, lens@, types@, i)
            },
{
    if seq.len() != qual.len() || starts.len() != lens.len() || types.len() != starts.len() {
        return Err(crate::error::XsraError::ColumnMismatch { rid });
    }
    let mut out: Vec<Segment> = Vec::new();
    let mut i: usize = 0;
    while i < starts.len()
        invariant
            seq@.len() == qual@.len(),
            starts@.len() == lens@.len(),
            types@.len() == starts@.len(),
            i <= starts@.len(),
            out@.len() == i,
            forall|j: int| 0 <= j < i ==> starts@[j] + lens@[j] <= seq@.len(),
            forall|j: int|
                0 <= j < i ==> {
                    let s = #[trigger] out@[j];
                    &&& s.rid == rid
                    &&& s.sid == j
                    &&& (s.seq@, s.qual@, s.ty) == column_segment(rid, seq@, qual@, starts@, lens@, types@, j)
                },
        decreases starts@.len() - i,
    {
        let start: usize = starts[i] as usize;
        let len: usize = lens[i] as usize;
        if len > seq.len() || start > seq.len() - len {
            return Err(crate::error::XsraError::SegmentOutOfBounds { rid, sid: i });
        }
        let s = Segment {
            rid,
            sid: i,
            ty: SegmentType::from_read_type(types[i]),
            seq: copy_range(seq, start, len),
            qual: copy_range(qual, start, len),
        };
        out.push(s);
        i = i + 1;
    }
    Ok(out)
}

} // verus!
