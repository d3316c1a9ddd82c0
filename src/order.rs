//! Order and framing of a worker's output: records come out whole, and in
//! the order of the segments that produced them.
use vstd::prelude::*;
use crate::encode::{fasta_record, fastq_record, header, record, target, OutputFormat, NEWLINE};
use crate::filter::FilterOptions;
use crate::segment::Segment;
use crate::text::decimal;
use crate::worker::{output_of, routed, routed_count};

verus! {

/// Number of newline bytes in `s`.
pub open spec fn newlines(s: Seq<u8>) -> int
    decreases s.len(),
{
    if s.len() == 0 {
        0
    } else {
        newlines(s.drop_last()) + if s.last() == NEWLINE {
            1int
        } else {
            0int
        }
    }
}

/// Lines of one record of the format.
pub open spec fn lines_per_record(format: OutputFormat) -> int {
    match format {
        OutputFormat::Fastq => 4,
        OutputFormat::Fasta => 2,
    }
}

/// The bases and qualities of `s` hold no newline.
pub open spec fn single_line(s: Segment) -> bool {
    newlines(s.seq@) == 0 && newlines(s.qual@) == 0
}

pub proof fn lemma_newlines_concat(a: Seq<u8>, b: Seq<u8>)
    ensures
        newlines(a + b) == newlines(a) + newlines(b),
    decreases b.len(),
{
    if b.len() == 0 {
        assert(a + b =~= a);
    } else {
        lemma_newlines_concat(a, b.drop_last());
        assert((a + b).drop_last() =~= a + b.drop_last());
    }
}

proof fn lemma_decimal_no_newline(n: nat)
    ensures
        newlines(decimal(n)) == 0,
    decreases n,
{
    if n < 10 {
        lemma_small_newlines((n + 48) as u8);
    } else {
        lemma_decimal_no_newline(n / 10);
        assert(decimal(n).drop_last() =~= decimal(n / 10));
        assert(decimal(n).last() == (n % 10 + 48) as u8);
    }
}

proof fn lemma_small_newlines(a: u8)
    ensures
        newlines(seq![a]) == if a == NEWLINE { 1int } else { 0int },
{
    assert(seq![a].drop_last() =~= Seq::<u8>::empty());
    assert(newlines(Seq::<u8>::empty()) == 0);
    assert(seq![a].last() == a);
}

/// A record of a single-line segment holds exactly its number of lines, the
/// last byte being a newline.
pub proof fn lemma_record_lines(format: OutputFormat, s: Segment)
    requires
        single_line(s),
    ensures
        newlines(record(format, s)) == lines_per_record(format),
        record(format, s).len() > 0 && record(format, s).last() == NEWLINE,
{
    let mark: u8 = if format == OutputFormat::Fastq { 64 } else { 62 };
    lemma_decimal_no_newline(s.rid as nat);
    lemma_decimal_no_newline(s.sid as nat);
    lemma_small_newlines(mark);
    lemma_small_newlines(46);
    lemma_small_newlines(NEWLINE);
    lemma_small_newlines(43);
    let h = header(mark, s);
    lemma_newlines_concat(seq![mark], decimal(s.rid as nat));
    lemma_newlines_concat(seq![mark] + decimal(s.rid as nat), seq![46u8]);
    lemma_newlines_concat(seq![mark] + decimal(s.rid as nat) + seq![46u8], decimal(s.sid as nat));
    lemma_newlines_concat(seq![mark] + decimal(s.rid as nat) + seq![46u8] + decimal(s.sid as nat), seq![NEWLINE]);
    assert(newlines(h) == 1);
    lemma_newlines_concat(h, s.seq@);
    if format == OutputFormat::Fastq {
        let mid = seq![NEWLINE, 43u8, NEWLINE];
        assert(mid =~= seq![NEWLINE] + seq![43u8] + seq![NEWLINE]);
        lemma_newlines_concat(seq![NEWLINE], seq![43u8]);
        lemma_newlines_concat(seq![NEWLINE] + seq![43u8], seq![NEWLINE]);
        lemma_newlines_concat(h + s.seq@, mid);
        lemma_newlines_concat(h + s.seq@ + mid, s.qual@);
        lemma_newlines_concat(h + s.seq@ + mid + s.qual@, seq![NEWLINE]);
        assert(record(format, s) == fastq_record(s));
    } else {
        lemma_newlines_concat(h + s.seq@, seq![NEWLINE]);
        assert(record(format, s) == fasta_record(s));
    }
}

/// Every segment of `segs` is single-line.
pub open spec fn all_single_line(segs: Seq<Segment>) -> bool {
    forall|k: int| 0 <= k < segs.len() ==> single_line(#[trigger] segs[k])
}

/// A buffer's output is made of whole records: its lines are the record count
/// times the lines of one record, and it is empty or ends with a newline. A
/// hand-off passes on whole buffers, so no record is ever cut.
pub proof fn lemma_output_whole_records(
    segs: Seq<Segment>,
    opts: FilterOptions,
    format: OutputFormat,
    n: nat,
    j: int,
)
    requires
        all_single_line(segs),
    ensures
        newlines(output_of(segs, opts, format, n, j)) == lines_per_record(format) * routed_count(
            segs,
            opts,
            n,
            j,
        ),
        output_of(segs, opts, format, n, j).len() == 0 || output_of(segs, opts, format, n, j).last()
            == NEWLINE,
    decreases segs.len(),
{
    if segs.len() > 0 {
        let rest = segs.drop_last();
        assert(all_single_line(rest)) by {
            assert forall|k: int| 0 <= k < rest.len() implies single_line(#[trigger] rest[k]) by {
                assert(rest[k] == segs[k]);
            }
        }
        assert(single_line(segs[segs.len() - 1]));
        lemma_output_whole_records(rest, opts, format, n, j);
        let last = segs.last();
        if routed(opts, n, last, j) {
            lemma_record_lines(format, last);
            lemma_newlines_concat(output_of(rest, opts, format, n, j), record(format, last));
            assert(lines_per_record(format) * routed_count(rest, opts, n, j) + lines_per_record(format)
                == lines_per_record(format) * (routed_count(rest, opts, n, j) + 1)) by (nonlinear_arith);
        } else {
            assert(output_of(segs, opts, format, n, j) =~= output_of(rest, opts, format, n, j));
        }
    }
}

/// Segment `a` comes before segment `b` in `(rid, sid)` order.
pub open spec fn key_before(a: Segment, b: Segment) -> bool {
    a.rid < b.rid || (a.rid == b.rid && a.sid < b.sid)
}

/// The segments are in strictly increasing `(rid, sid)` order.
pub open spec fn strictly_ordered(segs: Seq<Segment>) -> bool {
    forall|a: int, b: int| 0 <= a < b < segs.len() ==> key_before(#[trigger] segs[a], #[trigger] segs[b])
}

/// The accepted segments of `segs` that go to buffer `j` of `n`, in order.
pub open spec fn routed_segments(segs: Seq<Segment>, opts: FilterOptions, n: nat, j: int) -> Seq<Segment>
    decreases segs.len(),
{
    if segs.len() == 0 {
        Seq::empty()
    } else {
        routed_segments(segs.drop_last(), opts, n, j) + if routed(opts, n, segs.last(), j) {
            seq![segs.last()]
        } else {
            Seq::empty()
        }
    }
}

/// The records of `rs`, one after another.
pub open spec fn records_of(rs: Seq<Segment>, format: OutputFormat) -> Seq<u8>
    decreases rs.len(),
{
    if rs.len() == 0 {
        Seq::empty()
    } else {
        records_of(rs.drop_last(), format) + record(format, rs.last())
    }
}

proof fn lemma_routed_members(segs: Seq<Segment>, opts: FilterOptions, n: nat, j: int)
    ensures
        forall|k: int|
            0 <= k < routed_segments(segs, opts, n, j).len() ==> exists|m: int|
                0 <= m < segs.len() && #[trigger] routed_segments(segs, opts, n, j)[k] == segs[m],
    decreases segs.len(),
{
    if segs.len() > 0 {
        let rest = segs.drop_last();
        lemma_routed_members(rest, opts, n, j);
        let rs = routed_segments(segs, opts, n, j);
        let rr = routed_segments(rest, opts, n, j);
        assert forall|k: int| 0 <= k < rs.len() implies exists|m: int|
            0 <= m < segs.len() && #[trigger] rs[k] == segs[m] by {
            if k < rr.len() {
                assert(rs[k] == rr[k]);
                let m = choose|m: int| 0 <= m < rest.len() && rr[k] == rest[m];
                assert(rest[m] == segs[m]);
            } else {
                assert(rs[k] == segs.last());
                assert(segs[segs.len() - 1] == segs.last());
            }
        }
    }
}

/// The interleaved output (one buffer) of segments in strictly increasing
/// `(rid, sid)` order holds the records of the accepted segments, and those
/// are again in strictly increasing order: with one thread the output is
/// ordered.
pub proof fn lemma_interleaved_order(segs: Seq<Segment>, opts: FilterOptions, format: OutputFormat)
    requires
        strictly_ordered(segs),
    ensures
        output_of(segs, opts, format, 1, 0) == records_of(routed_segments(segs, opts, 1, 0), format),
        strictly_ordered(routed_segments(segs, opts, 1, 0)),
    decreases segs.len(),
{
    if segs.len() > 0 {
        let rest = segs.drop_last();
        let last = segs.last();
        assert(strictly_ordered(rest)) by {
            assert forall|a: int, b: int| 0 <= a < b < rest.len() implies key_before(
                #[trigger] rest[a],
                #[trigger] rest[b],
            ) by {
                assert(rest[a] == segs[a] && rest[b] == segs[b]);
            }
        }
        lemma_interleaved_order(rest, opts, format);
        lemma_routed_members(rest, opts, 1, 0);
        let rr = routed_segments(rest, opts, 1, 0);
        let rs = routed_segments(segs, opts, 1, 0);
        if routed(opts, 1, last, 0) {
            assert(rs == rr.push(last));
            assert(rs.drop_last() =~= rr);
            assert(records_of(rs, format) == records_of(rr, format) + record(format, last));
            assert forall|a: int, b: int| 0 <= a < b < rs.len() implies key_before(
                #[trigger] rs[a],
                #[trigger] rs[b],
            ) by {
                if b < rr.len() {
                    assert(rs[a] == rr[a] && rs[b] == rr[b]);
                } else {
                    assert(rs[b] == last);
                    assert(rs[a] == rr[a]);
                    let m = choose|m: int| 0 <= m < rest.len() && rr[a] == rest[m];
                    assert(rest[m] == segs[m]);
                    assert(segs[segs.len() - 1] == last);
                    assert(key_before(segs[m], segs[segs.len() - 1]));
                }
            }
        } else {
            assert(rs =~= rr);
            assert(output_of(segs, opts, format, 1, 0) =~= output_of(rest, opts, format, 1, 0));
        }
    }
}

} // verus!
