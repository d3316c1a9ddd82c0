//! Text encodings of one segment: FASTQ and FASTA records.
use vstd::prelude::*;
use crate::error::XsraError;
use crate::segment::Segment;
use crate::text::{decimal, push_decimal};

verus! {

pub const NEWLINE: u8 = 10;
pub const FASTQ_MARK: u8 = 64;
pub const FASTA_MARK: u8 = 62;
pub const DOT: u8 = 46;
pub const PLUS: u8 = 43;

/// Text format of the output records.
#[derive(Debug, Clone, Copy, PartialEq, Eq, Structural)]
pub enum OutputFormat {
    Fastq,
    Fasta,
}

impl OutputFormat {
    /// File extension of the format.
    pub fn ext(&self) -> (r: &'static str)
        ensures
            r@ == (match self {
                OutputFormat::Fasta => "fa"@,
                OutputFormat::Fastq => "fq"@,
            }),
    {
        match self {
            OutputFormat::Fasta => "fa",
            OutputFormat::Fastq => "fq",
        }
    }
}

/// The header `<mark><rid>.<sid>\n` of a record.
pub open spec fn header(mark: u8, s: Segment) -> Seq<u8> {
    seq![mark] + decimal(s.rid as nat) + seq![DOT] + decimal(s.sid as nat) + seq![NEWLINE]
}

/// The four-line FASTQ record of a segment.
pub open spec fn fastq_record(s: Segment) -> Seq<u8> {
    header(FASTQ_MARK, s) + s.seq@ + seq![NEWLINE, PLUS, NEWLINE] + s.qual@ + seq![NEWLINE]
}

/// The two-line FASTA record of a segment.
pub open spec fn fasta_record(s: Segment) -> Seq<u8> {
    header(FASTA_MARK, s) + s.seq@ + seq![NEWLINE]
}

/// The record of a segment in the given format.
pub open spec fn record(format: OutputFormat, s: Segment) -> Seq<u8> {
    match format {
        OutputFormat::Fastq => fastq_record(s),
        OutputFormat::Fasta => fasta_record(s),
    }
}

/// Index of the buffer that receives segment `sid` when there are `n` buffers:
/// the only one when output is interleaved, else the one of its segment id.
pub open spec fn target(n: nat, sid: usize) -> int {
    if n == 1 {
        0
    } else {
        sid as int
    }
}

/// Appends all of `bytes` to `out`.
pub fn push_bytes(out: &mut Vec<u8>, bytes: &[u8])
    ensures
        final(out)@ == old(out)@ + bytes@,
{
    out.extend_from_slice(bytes);
    assert(final(out)@ =~= old(out)@ + bytes@);
}

fn push_header(wtr: &mut Vec<u8>, mark: u8, segment: &Segment)
    ensures
        final(wtr)@ == old(wtr)@ + header(mark, *segment),
{
    wtr.push(mark);
    push_decimal(wtr, segment.rid);
    wtr.push(DOT);
    push_decimal(wtr, segment.sid as u64);
    wtr.push(NEWLINE);
    assert(final(wtr)@ =~= old(wtr)@ + header(mark, *segment));
}

/// Appends the FASTQ record of `segment` to `wtr`.
pub fn write_fastq(wtr: &mut Vec<u8>, segment: &Segment)
    ensures
        final(wtr)@ == old(wtr)@ + fastq_record(*segment),
{
    push_header(wtr, FASTQ_MARK, segment);
    push_bytes(wtr, segment.seq.as_slice());
    wtr.push(NEWLINE);
    wtr.push(PLUS);
    wtr.push(NEWLINE);
    push_bytes(wtr, segment.qual.as_slice());
    wtr.push(NEWLINE);
    assert(final(wtr)@ =~= old(wtr)@ + fastq_record(*segment));
}

/// Appends the FASTA record of `segment` to `wtr`.
pub fn write_fasta(wtr: &mut Vec<u8>, segment: &Segment)
    ensures
        final(wtr)@ == old(wtr)@ + fasta_record(*segment),
{
    push_header(wtr, FASTA_MARK, segment);
    push_bytes(wtr, segment.seq.as_slice());
    wtr.push(NEWLINE);
    assert(final(wtr)@ =~= old(wtr)@ + fasta_record(*segment));
}

/// Appends the record of `segment` to the buffer that receives it: the only
/// buffer when there is one, else the buffer of its segment id.
pub fn write_segment_to_buffer_set(
    buffers: &mut Vec<Vec<u8>>,
    segment: &Segment,
    format: OutputFormat,
) -> (r: Result<(), XsraError>)
    ensures
        r is Ok <==> target(old(buffers)@.len(), segment.sid) < old(buffers)@.len(),
        r is Err ==> r == Err::<(), XsraError>(
            XsraError::SegmentOutOfRange { sid: segment.sid, capacity: old(buffers)@.len() as usize },
        ) && final(buffers)@ == old(buffers)@,
        r is Ok ==> final(buffers)@.len() == old(buffers)@.len() && forall|j: int|
            0 <= j < old(buffers)@.len() ==> #[trigger] final(buffers)@[j]@ == if j == target(
                old(buffers)@.len(),
                segment.sid,
            ) {
                old(buffers)@[j]@ + record(format, *segment)
            } else {
                old(buffers)@[j]@
            },
{
    let n = buffers.len();
    let idx: usize = if n == 1 {
        0
    } else {
        segment.sid
    };
    if idx >= n {
        return Err(XsraError::SegmentOutOfRange { sid: segment.sid, capacity: n });
    }
    let buffer = &mut buffers[idx];
    match format {
        OutputFormat::Fasta => write_fasta(buffer, segment),
        OutputFormat::Fastq => write_fastq(buffer, segment),
    }
    Ok(())
}

} // verus!
