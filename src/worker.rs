//! One worker's processing of its spots: filter, encode into per-sink
//! buffers, and count.
use vstd::prelude::*;
use crate::encode::{header, record, target, write_segment_to_buffer_set, OutputFormat, FASTA_MARK, FASTQ_MARK};
use crate::error::XsraError;
use crate::filter::{segment_outcome, FilterOptions, FilterOutcome};
use crate::segment::Segment;
use crate::stats::{bump, count_at, ProcessStatistics, StatsView};

verus! {

/// Number of segments of `segs` with id `sid` on which the filter decides `kind`.
pub open spec fn tally(segs: Seq<Segment>, opts: FilterOptions, sid: int, kind: FilterOutcome) -> int
    decreases segs.len(),
{
    if segs.len() == 0 {
        0
    } else {
        tally(segs.drop_last(), opts, sid, kind) + if segs.last().sid == sid && segment_outcome(
            opts,
            segs.last(),
        ) == kind {
            1int
        } else {
            0int
        }
    }
}

/// Number of segments of `segs` with id `sid`.
pub open spec fn occurrences(segs: Seq<Segment>, sid: int) -> int
    decreases segs.len(),
{
    if segs.len() == 0 {
        0
    } else {
        occurrences(segs.drop_last(), sid) + if segs.last().sid == sid {
            1int
        } else {
            0int
        }
    }
}

/// Number of segments of `segs` that the filter accepts.
pub open spec fn accepted_total(segs: Seq<Segment>, opts: FilterOptions) -> int
    decreases segs.len(),
{
    if segs.len() == 0 {
        0
    } else {
        accepted_total(segs.drop_last(), opts) + if segment_outcome(opts, segs.last())
            == FilterOutcome::Accepted {
            1int
        } else {
            0int
        }
    }
}

/// Segment `s` is accepted and goes to buffer `j` of `n`.
pub open spec fn routed(opts: FilterOptions, n: nat, s: Segment, j: int) -> bool {
    segment_outcome(opts, s) == FilterOutcome::Accepted && target(n, s.sid) == j
}

/// The records, in order, of the accepted segments of `segs` that go to buffer `j` of `n`.
pub open spec fn output_of(
    segs: Seq<Segment>,
    opts: FilterOptions,
    format: OutputFormat,
    n: nat,
    j: int,
) -> Seq<u8>
    decreases segs.len(),
{
    if segs.len() == 0 {
        Seq::empty()
    } else {
        output_of(segs.drop_last(), opts, format, n, j) + if routed(opts, n, segs.last(), j) {
            record(format, segs.last())
        } else {
            Seq::empty()
        }
    }
}

/// Number of accepted segments of `segs` that go to buffer `j` of `n`.
pub open spec fn routed_count(segs: Seq<Segment>, opts: FilterOptions, n: nat, j: int) -> int
    decreases segs.len(),
{
    if segs.len() == 0 {
        0
    } else {
        routed_count(segs.drop_last(), opts, n, j) + if routed(opts, n, segs.last(), j) {
            1int
        } else {
            0int
        }
    }
}

/// Every accepted segment of `segs` has a buffer among `n`.
pub open spec fn all_routable(segs: Seq<Segment>, opts: FilterOptions, n: nat) -> bool {
    forall|k: int|
        0 <= k < segs.len() && segment_outcome(opts, #[trigger] segs[k]) == FilterOutcome::Accepted
            ==> target(n, segs[k].sid) < n
}

/// A worker's buffers, their record counts and its statistics.
pub struct WorkerState {
    pub stats: ProcessStatistics,
    /// One chunk buffer per output sink
    pub buffers: Vec<Vec<u8>>,
    /// Number of records in each chunk buffer
    pub counts: Vec<usize>,
}

/// Room for `p` more spots and `m` more increments of every other counter of `v`.
pub open spec fn stats_room(v: StatsView, p: int, m: int) -> bool {
    &&& v.spots + p <= u64::MAX
    &&& v.reads + m <= u64::MAX
    &&& forall|i: int| #[trigger] count_at(v.written, i) + m <= u64::MAX
    &&& forall|i: int| #[trigger] count_at(v.filter_size, i) + m <= u64::MAX
    &&& forall|i: int| #[trigger] count_at(v.filter_type, i) + m <= u64::MAX
}

/// Room for `m` more records in every buffer count.
pub open spec fn counts_room(counts: Seq<usize>, m: int) -> bool {
    forall|j: int| 0 <= j < counts.len() ==> #[trigger] counts[j] + m <= usize::MAX
}

/// The state after processing `segs`, which make up `spots` spots, from state `old`.
pub open spec fn processed(
    old: WorkerState,
    new: WorkerState,
    segs: Seq<Segment>,
    opts: FilterOptions,
    format: OutputFormat,
    spots: int,
) -> bool {
    let n = old.buffers@.len();
    &&& new.buffers@.len() == n
    &&& new.counts@.len() == n
    &&& new.stats@.spots == old.stats@.spots + spots
    &&& new.stats@.reads == old.stats@.reads + accepted_total(segs, opts)
    &&& forall|i: int|
        #[trigger] count_at(new.stats@.written, i) == count_at(old.stats@.written, i) + tally(
            segs,
            opts,
            i,
            FilterOutcome::Accepted,
        )
    &&& forall|i: int|
        #[trigger] count_at(new.stats@.filter_size, i) == count_at(old.stats@.filter_size, i)
            + tally(segs, opts, i, FilterOutcome::TooShort)
    &&& forall|i: int|
        #[trigger] count_at(new.stats@.filter_type, i) == count_at(old.stats@.filter_type, i)
            + tally(segs, opts, i, FilterOutcome::Technical)
    &&& forall|j: int|
        0 <= j < n ==> #[trigger] new.buffers@[j]@ == old.buffers@[j]@ + output_of(
            segs,
            opts,
            format,
            n,
            j,
        )
    &&& forall|j: int|
        0 <= j < n ==> #[trigger] new.counts@[j] == old.counts@[j] + routed_count(segs, opts, n, j)
}

proof fn lemma_count_at_bump(s: Seq<int>, i: int, j: int)
    requires
        i >= 0,
    ensures
        count_at(bump(s, i), j) == count_at(s, j) + if j == i { 1int } else { 0int },
{
}

/// Each tally over `segs` is at most its length.
proof fn lemma_tallies_bounded(segs: Seq<Segment>, opts: FilterOptions, n: nat)
    ensures
        0 <= accepted_total(segs, opts) <= segs.len(),
        forall|i: int, kind: FilterOutcome| 0 <= #[trigger] tally(segs, opts, i, kind) <= segs.len(),
        forall|j: int| 0 <= #[trigger] routed_count(segs, opts, n, j) <= segs.len(),
    decreases segs.len(),
{
    if segs.len() > 0 {
        lemma_tallies_bounded(segs.drop_last(), opts, n);
        assert forall|i: int, kind: FilterOutcome| 0 <= #[trigger] tally(segs, opts, i, kind) <= segs.len() by {
            assert(0 <= tally(segs.drop_last(), opts, i, kind) <= segs.len() - 1);
        }
        assert forall|j: int| 0 <= #[trigger] routed_count(segs, opts, n, j) <= segs.len() by {
            assert(0 <= routed_count(segs.drop_last(), opts, n, j) <= segs.len() - 1);
        }
    }
}

/// Every tally of `segs.push(s)` is that of `segs` plus the contribution of `s`.
proof fn lemma_push(segs: Seq<Segment>, s: Segment, opts: FilterOptions, format: OutputFormat, n: nat)
    ensures
        accepted_total(segs.push(s), opts) == accepted_total(segs, opts) + accepted_total(seq![s], opts),
        forall|i: int, kind: FilterOutcome|
            #[trigger] tally(segs.push(s), opts, i, kind) == tally(segs, opts, i, kind) + tally(
                seq![s],
                opts,
                i,
                kind,
            ),
        forall|j: int|
            #[trigger] routed_count(segs.push(s), opts, n, j) == routed_count(segs, opts, n, j)
                + routed_count(seq![s], opts, n, j),
        forall|j: int|
            #[trigger] output_of(segs.push(s), opts, format, n, j) == output_of(segs, opts, format, n, j)
                + output_of(seq![s], opts, format, n, j),
        forall|i: int|
            #[trigger] occurrences(segs.push(s), i) == occurrences(segs, i) + occurrences(seq![s], i),
{
    let one = seq![s];
    assert(segs.push(s).drop_last() =~= segs);
    lemma_single(s, opts, format, n);
}

/// What a single segment contributes to each tally.
proof fn lemma_single(s: Segment, opts: FilterOptions, format: OutputFormat, n: nat)
    ensures
        accepted_total(seq![s], opts) == if segment_outcome(opts, s) == FilterOutcome::Accepted {
            1int
        } else {
            0int
        },
        forall|i: int, kind: FilterOutcome|
            #[trigger] tally(seq![s], opts, i, kind) == if s.sid == i && segment_outcome(opts, s)
                == kind {
                1int
            } else {
                0int
            },
        forall|j: int|
            #[trigger] routed_count(seq![s], opts, n, j) == if routed(opts, n, s, j) {
                1int
            } else {
                0int
            },
        forall|j: int|
            #[trigger] output_of(seq![s], opts, format, n, j) == if routed(opts, n, s, j) {
                record(format, s)
            } else {
                Seq::<u8>::empty()
            },
        forall|i: int|
            #[trigger] occurrences(seq![s], i) == if s.sid == i {
                1int
            } else {
                0int
            },
{
    let one = seq![s];
    assert(one.drop_last() =~= Seq::<Segment>::empty());
    assert(one.last() == s);
    assert forall|j: int|
        #[trigger] output_of(one, opts, format, n, j) == if routed(opts, n, s, j) {
            record(format, s)
        } else {
            Seq::<u8>::empty()
        } by {
        assert(output_of(one.drop_last(), opts, format, n, j) == Seq::<u8>::empty());
        assert(Seq::<u8>::empty() + record(format, s) =~= record(format, s));
        assert(Seq::<u8>::empty() + Seq::<u8>::empty() =~= Seq::<u8>::empty());
    }
    assert forall|j: int|
        #[trigger] routed_count(one, opts, n, j) == if routed(opts, n, s, j) {
            1int
        } else {
            0int
        } by {
        assert(routed_count(one.drop_last(), opts, n, j) == 0);
    }
    assert forall|i: int, kind: FilterOutcome|
        #[trigger] tally(one, opts, i, kind) == if s.sid == i && segment_outcome(opts, s) == kind {
            1int
        } else {
            0int
        } by {
        assert(tally(one.drop_last(), opts, i, kind) == 0);
    }
    assert forall|i: int| #[trigger] occurrences(one, i) == if s.sid == i { 1int } else { 0int } by {
        assert(occurrences(one.drop_last(), i) == 0);
    }
    assert(accepted_total(one.drop_last(), opts) == 0);
}

/// Processing `segs` then `s` is processing `segs.push(s)`.
proof fn lemma_processed_compose(
    a: WorkerState,
    b: WorkerState,
    c: WorkerState,
    segs: Seq<Segment>,
    s: Segment,
    opts: FilterOptions,
    format: OutputFormat,
)
    requires
        processed(a, b, segs, opts, format, 0),
        processed(b, c, seq![s], opts, format, 0),
    ensures
        processed(a, c, segs.push(s), opts, format, 0),
{
    let n = a.buffers@.len();
    lemma_push(segs, s, opts, format, n);
    assert forall|j: int| 0 <= j < n implies #[trigger] c.buffers@[j]@ == a.buffers@[j]@ + output_of(
        segs.push(s),
        opts,
        format,
        n,
        j,
    ) by {
        assert(c.buffers@[j]@ == b.buffers@[j]@ + output_of(seq![s], opts, format, n, j));
        assert(b.buffers@[j]@ == a.buffers@[j]@ + output_of(segs, opts, format, n, j));
        assert(c.buffers@[j]@ =~= a.buffers@[j]@ + output_of(segs.push(s), opts, format, n, j));
    }
    assert forall|j: int| 0 <= j < n implies #[trigger] c.counts@[j] == a.counts@[j] + routed_count(
        segs.push(s),
        opts,
        n,
        j,
    ) by {
        assert(c.counts@[j] == b.counts@[j] + routed_count(seq![s], opts, n, j));
    }
    assert forall|i: int|
        #[trigger] count_at(c.stats@.written, i) == count_at(a.stats@.written, i) + tally(
            segs.push(s),
            opts,
            i,
            FilterOutcome::Accepted,
        ) by {
        assert(count_at(c.stats@.written, i) == count_at(b.stats@.written, i) + tally(
            seq![s],
            opts,
            i,
            FilterOutcome::Accepted,
        ));
    }
    assert forall|i: int|
        #[trigger] count_at(c.stats@.filter_size, i) == count_at(a.stats@.filter_size, i) + tally(
            segs.push(s),
            opts,
            i,
            FilterOutcome::TooShort,
        ) by {
        assert(count_at(c.stats@.filter_size, i) == count_at(b.stats@.filter_size, i) + tally(
            seq![s],
            opts,
            i,
            FilterOutcome::TooShort,
        ));
    }
    assert forall|i: int|
        #[trigger] count_at(c.stats@.filter_type, i) == count_at(a.stats@.filter_type, i) + tally(
            segs.push(s),
            opts,
            i,
            FilterOutcome::Technical,
        ) by {
        assert(count_at(c.stats@.filter_type, i) == count_at(b.stats@.filter_type, i) + tally(
            seq![s],
            opts,
            i,
            FilterOutcome::Technical,
        ));
    }
}


/// Every tally of `a + b` is the tally of `a` plus that of `b`.
proof fn lemma_concat(a: Seq<Segment>, b: Seq<Segment>, opts: FilterOptions, format: OutputFormat, n: nat)
    ensures
        accepted_total(a + b, opts) == accepted_total(a, opts) + accepted_total(b, opts),
        forall|i: int, kind: FilterOutcome|
            #[trigger] tally(a + b, opts, i, kind) == tally(a, opts, i, kind) + tally(b, opts, i, kind),
        forall|j: int|
            #[trigger] routed_count(a + b, opts, n, j) == routed_count(a, opts, n, j) + routed_count(
                b,
                opts,
                n,
                j,
            ),
        forall|j: int|
            #[trigger] output_of(a + b, opts, format, n, j) == output_of(a, opts, format, n, j)
                + output_of(b, opts, format, n, j),
        forall|i: int| #[trigger] occurrences(a + b, i) == occurrences(a, i) + occurrences(b, i),
    decreases b.len(),
{
    if b.len() == 0 {
        assert(a + b =~= a);
        assert forall|j: int|
            #[trigger] output_of(a + b, opts, format, n, j) == output_of(a, opts, format, n, j)
                + output_of(b, opts, format, n, j) by {
            assert(output_of(a, opts, format, n, j) + Seq::<u8>::empty() =~= output_of(a, opts, format, n, j));
        }
    } else {
        let b0 = b.drop_last();
        let x = b.last();
        lemma_concat(a, b0, opts, format, n);
        assert(a + b =~= (a + b0).push(x));
        assert(b =~= b0.push(x));
        lemma_push(a + b0, x, opts, format, n);
        lemma_push(b0, x, opts, format, n);
        assert forall|j: int|
            #[trigger] output_of(a + b, opts, format, n, j) == output_of(a, opts, format, n, j)
                + output_of(b, opts, format, n, j) by {
            assert(output_of(a + b, opts, format, n, j) =~= output_of(a, opts, format, n, j) + output_of(
                b,
                opts,
                format,
                n,
                j,
            ));
        }
    }
}

/// Processing `a` then `b` is processing `a + b`.
pub proof fn lemma_processed_chain(
    x: WorkerState,
    y: WorkerState,
    z: WorkerState,
    a: Seq<Segment>,
    b: Seq<Segment>,
    p: int,
    q: int,
    opts: FilterOptions,
    format: OutputFormat,
)
    requires
        processed(x, y, a, opts, format, p),
        processed(y, z, b, opts, format, q),
    ensures
        processed(x, z, a + b, opts, format, p + q),
{
    let n = x.buffers@.len();
    lemma_concat(a, b, opts, format, n);
    assert forall|j: int| 0 <= j < n implies #[trigger] z.buffers@[j]@ == x.buffers@[j]@ + output_of(
        a + b,
        opts,
        format,
        n,
        j,
    ) by {
        assert(z.buffers@[j]@ == y.buffers@[j]@ + output_of(b, opts, format, n, j));
        assert(y.buffers@[j]@ == x.buffers@[j]@ + output_of(a, opts, format, n, j));
        assert(z.buffers@[j]@ =~= x.buffers@[j]@ + output_of(a + b, opts, format, n, j));
    }
    assert forall|j: int| 0 <= j < n implies #[trigger] z.counts@[j] == x.counts@[j] + routed_count(
        a + b,
        opts,
        n,
        j,
    ) by {
        assert(z.counts@[j] == y.counts@[j] + routed_count(b, opts, n, j));
    }
    assert forall|i: int|
        #[trigger] count_at(z.stats@.written, i) == count_at(x.stats@.written, i) + tally(
            a + b,
            opts,
            i,
            FilterOutcome::Accepted,
        ) by {
        assert(count_at(z.stats@.written, i) == count_at(y.stats@.written, i) + tally(
            b,
            opts,
            i,
            FilterOutcome::Accepted,
        ));
    }
    assert forall|i: int|
        #[trigger] count_at(z.stats@.filter_size, i) == count_at(x.stats@.filter_size, i) + tally(
            a + b,
            opts,
            i,
            FilterOutcome::TooShort,
        ) by {
        assert(count_at(z.stats@.filter_size, i) == count_at(y.stats@.filter_size, i) + tally(
            b,
            opts,
            i,
            FilterOutcome::TooShort,
        ));
    }
    assert forall|i: int|
        #[trigger] count_at(z.stats@.filter_type, i) == count_at(x.stats@.filter_type, i) + tally(
            a + b,
            opts,
            i,
            FilterOutcome::Technical,
        ) by {
        assert(count_at(z.stats@.filter_type, i) == count_at(y.stats@.filter_type, i) + tally(
            b,
            opts,
            i,
            FilterOutcome::Technical,
        ));
    }
}

/// The segments of `spots`, spot after spot.
pub open spec fn all_segments(spots: Seq<Vec<Segment>>) -> Seq<Segment>
    decreases spots.len(),
{
    if spots.len() == 0 {
        Seq::empty()
    } else {
        all_segments(spots.drop_last()) + spots.last()@
    }
}

/// For every segment id, the segments that were written, dropped for length,
/// dropped as technical and left out by the selection add up to the segments
/// that carry that id.
pub proof fn lemma_count_law(segs: Seq<Segment>, opts: FilterOptions, sid: int)
    ensures
        tally(segs, opts, sid, FilterOutcome::Accepted) == occurrences(segs, sid) - tally(
            segs,
            opts,
            sid,
            FilterOutcome::TooShort,
        ) - tally(segs, opts, sid, FilterOutcome::Technical) - tally(
            segs,
            opts,
            sid,
            FilterOutcome::Excluded,
        ),
    decreases segs.len(),
{
    if segs.len() > 0 {
        lemma_count_law(segs.drop_last(), opts, sid);
    }
}

/// A worker that starts from zero counters and processes `segs` ends with
/// `written[sid] = seen[sid] − filter_size[sid] − filter_type[sid] − unselected[sid]`.
pub proof fn lemma_worker_count_law(
    before: WorkerState,
    after: WorkerState,
    segs: Seq<Segment>,
    spots: int,
    opts: FilterOptions,
    format: OutputFormat,
    sid: int,
)
    requires
        processed(before, after, segs, opts, format, spots),
        count_at(before.stats@.written, sid) == 0,
        count_at(before.stats@.filter_size, sid) == 0,
        count_at(before.stats@.filter_type, sid) == 0,
    ensures
        count_at(after.stats@.written, sid) == occurrences(segs, sid) - count_at(
            after.stats@.filter_size,
            sid,
        ) - count_at(after.stats@.filter_type, sid) - tally(segs, opts, sid, FilterOutcome::Excluded),
{
    lemma_count_law(segs, opts, sid);
}

/// The record of an accepted segment stands whole in the output of its buffer,
/// between the records of the segments before it and those after it.
pub proof fn lemma_record_in_output(
    segs: Seq<Segment>,
    k: int,
    opts: FilterOptions,
    format: OutputFormat,
    n: nat,
)
    requires
        0 <= k < segs.len(),
        segment_outcome(opts, segs[k]) == FilterOutcome::Accepted,
    ensures
        output_of(segs, opts, format, n, target(n, segs[k].sid)) == output_of(
            segs.subrange(0, k),
            opts,
            format,
            n,
            target(n, segs[k].sid),
        ) + record(format, segs[k]) + output_of(
            segs.subrange(k + 1, segs.len() as int),
            opts,
            format,
            n,
            target(n, segs[k].sid),
        ),
{
    let j = target(n, segs[k].sid);
    let a = segs.subrange(0, k);
    let b = segs.subrange(k + 1, segs.len() as int);
    assert(segs =~= (a + seq![segs[k]]) + b);
    lemma_concat(a + seq![segs[k]], b, opts, format, n);
    lemma_concat(a, seq![segs[k]], opts, format, n);
    lemma_single(segs[k], opts, format, n);
}

/// A record carries its segment's bases verbatim, and a FASTQ record also its
/// qualities, right after the header line.
pub proof fn lemma_record_carries_segment(format: OutputFormat, s: Segment)
    ensures
        ({
            let h = header(if format == OutputFormat::Fastq { FASTQ_MARK } else { FASTA_MARK }, s).len() as int;
            let e = h + s.seq@.len();
            &&& record(format, s).subrange(h, e) == s.seq@
            &&& format == OutputFormat::Fastq ==> record(format, s).subrange(e + 3, e + 3 + s.qual@.len()) == s.qual@
        }),
{
    let mark = if format == OutputFormat::Fastq { FASTQ_MARK } else { FASTA_MARK };
    let h = header(mark, s).len() as int;
    let e = h + s.seq@.len();
    let r = record(format, s);
    assert(r.subrange(h, e) =~= s.seq@);
    if format == OutputFormat::Fastq {
        assert(r.subrange(e + 3, e + 3 + s.qual@.len()) =~= s.qual@);
    }
}


/// The segments of `a + b` are those of `a` followed by those of `b`.
pub proof fn lemma_all_segments_concat(a: Seq<Vec<Segment>>, b: Seq<Vec<Segment>>)
    ensures
        all_segments(a + b) == all_segments(a) + all_segments(b),
    decreases b.len(),
{
    if b.len() == 0 {
        assert(a + b =~= a);
        assert(all_segments(a) + Seq::<Segment>::empty() =~= all_segments(a));
    } else {
        lemma_all_segments_concat(a, b.drop_last());
        assert((a + b).drop_last() =~= a + b.drop_last());
        assert((a + b).last() == b.last());
        assert(all_segments(a + b) =~= all_segments(a) + all_segments(b));
    }
}


/// The chunks that a hand-off passes on, in sink order: each buffer with a
/// non-zero record count, with the index of its sink.
pub open spec fn ready_chunks(bufs: Seq<Vec<u8>>, counts: Seq<usize>) -> Seq<(int, Seq<u8>)>
    decreases bufs.len(),
{
    if bufs.len() == 0 {
        Seq::empty()
    } else {
        let k = bufs.len() - 1;
        ready_chunks(bufs.drop_last(), counts) + if counts[k] > 0 {
            seq![(k, bufs[k]@)]
        } else {
            Seq::empty()
        }
    }
}

/// The chunks handed out, as indices and byte sequences.
pub open spec fn chunk_views(v: Seq<(usize, Vec<u8>)>) -> Seq<(int, Seq<u8>)> {
    Seq::new(v.len(), |i: int| (v[i].0 as int, v[i].1@))
}

/// Whether a worker hands its buffers off after the spot at position `idx` of its range.
pub fn handoff_due(idx: usize) -> (r: bool)
    ensures
        r == (idx > 0 && idx % crate::RECORD_CAPACITY == 0),
{
    idx > 0 && idx % crate::RECORD_CAPACITY == 0
}

impl WorkerState {
    /// A fresh state with `n` empty buffers.
    pub fn new(n: usize) -> (r: Self)
        ensures
            r.buffers@.len() == n,
            r.counts@.len() == n,
            forall|j: int| 0 <= j < n ==> (#[trigger] r.buffers@[j])@.len() == 0 && r.counts@[j] == 0,
            r.stats.num_spots == 0,
            r.stats.num_reads == 0,
            r.stats.reads_per_segment@ == seq![0u64, 0, 0, 0],
            r.stats.filter_size@ == seq![0u64, 0, 0, 0],
            r.stats.filter_type@ == seq![0u64, 0, 0, 0],
    {
        let mut buffers: Vec<Vec<u8>> = Vec::new();
        let mut counts: Vec<usize> = Vec::new();
        let mut k: usize = 0;
        while k < n
            invariant
                k <= n,
                buffers@.len() == k,
                counts@.len() == k,
                forall|j: int| 0 <= j < k ==> (#[trigger] buffers@[j])@.len() == 0 && counts@[j] == 0,
            decreases n - k,
        {
            buffers.push(Vec::new());
            counts.push(0);
            k = k + 1;
        }
        WorkerState { stats: ProcessStatistics::new(), buffers, counts }
    }

    /// Filters one segment; writes and counts it when accepted, counts the drop otherwise.
    pub fn process_segment(
        &mut self,
        opts: &FilterOptions,
        format: OutputFormat,
        segment: &Segment,
    ) -> (r: Result<(), XsraError>)
        requires
            old(self).counts@.len() == old(self).buffers@.len(),
            stats_room(old(self).stats@, 0, 1),
            counts_room(old(self).counts@, 1),
            segment.sid < usize::MAX,
        ensures
            r is Ok <==> all_routable(seq![*segment], *opts, old(self).buffers@.len()),
            r is Err ==> r == Err::<(), XsraError>(
                XsraError::SegmentOutOfRange {
                    sid: segment.sid,
                    capacity: old(self).buffers@.len() as usize,
                },
            ),
            final(self).buffers@.len() == old(self).buffers@.len(),
            r is Err ==> final(self).stats == old(self).stats && final(self).buffers@ == old(
                self,
            ).buffers@ && final(self).counts == old(self).counts,
            r is Ok ==> processed(*old(self), *final(self), seq![*segment], *opts, format, 0),
    {
        let ghost segs = seq![*segment];
        assert(segs.drop_last() =~= Seq::<Segment>::empty());
        proof {
            lemma_single(*segment, *opts, format, self.buffers@.len());
        }
        let ghost n = self.buffers@.len();
        let sid = segment.sid;
        match opts.classify(segment) {
            FilterOutcome::Excluded => {
                assert(all_routable(segs, *opts, n));
                assert(self.stats@ == old(self).stats@);
                assert forall|j: int| 0 <= j < n implies #[trigger] self.buffers@[j]@ == old(
                    self,
                ).buffers@[j]@ + output_of(segs, *opts, format, n, j) by {
                    assert(old(self).buffers@[j]@ + Seq::<u8>::empty() =~= old(self).buffers@[j]@);
                }
                Ok(())
            },
            FilterOutcome::Technical => {
                self.stats.inc_filter_type(sid);
                proof {
                    assert forall|i: int|
                        #[trigger] count_at(self.stats@.filter_type, i) == count_at(
                            old(self).stats@.filter_type,
                            i,
                        ) + tally(segs, *opts, i, FilterOutcome::Technical) by {
                        lemma_count_at_bump(old(self).stats@.filter_type, sid as int, i);
                    }
                    assert forall|j: int| 0 <= j < n implies #[trigger] self.buffers@[j]@ == old(
                        self,
                    ).buffers@[j]@ + output_of(segs, *opts, format, n, j) by {
                        assert(old(self).buffers@[j]@ + Seq::<u8>::empty() =~= old(self).buffers@[j]@);
                    }
                }
                Ok(())
            },
            FilterOutcome::TooShort => {
                self.stats.inc_filter_size(sid);
                proof {
                    assert forall|i: int|
                        #[trigger] count_at(self.stats@.filter_size, i) == count_at(
                            old(self).stats@.filter_size,
                            i,
                        ) + tally(segs, *opts, i, FilterOutcome::TooShort) by {
                        lemma_count_at_bump(old(self).stats@.filter_size, sid as int, i);
                    }
                    assert forall|j: int| 0 <= j < n implies #[trigger] self.buffers@[j]@ == old(
                        self,
                    ).buffers@[j]@ + output_of(segs, *opts, format, n, j) by {
                        assert(old(self).buffers@[j]@ + Seq::<u8>::empty() =~= old(self).buffers@[j]@);
                    }
                }
                Ok(())
            },
            FilterOutcome::Accepted => {
                let res = write_segment_to_buffer_set(&mut self.buffers, segment, format);
                if res.is_err() {
                    assert(!all_routable(segs, *opts, n)) by {
                        assert(segs[0] == *segment);
                    }
                    return Err(XsraError::SegmentOutOfRange { sid, capacity: self.buffers.len() });
                }
                assert(all_routable(segs, *opts, n));
                let idx: usize = if self.counts.len() == 1 {
                    0
                } else {
                    sid
                };
                let c = self.counts[idx];
                self.counts.set(idx, c + 1);
                self.stats.inc_reads(sid);
                proof {
                    assert forall|i: int|
                        #[trigger] count_at(self.stats@.written, i) == count_at(
                            old(self).stats@.written,
                            i,
                        ) + tally(segs, *opts, i, FilterOutcome::Accepted) by {
                        lemma_count_at_bump(old(self).stats@.written, sid as int, i);
                    }
                    assert forall|j: int| 0 <= j < n implies #[trigger] self.buffers@[j]@ == old(
                        self,
                    ).buffers@[j]@ + output_of(segs, *opts, format, n, j) by {
                        assert(old(self).buffers@[j]@ + Seq::<u8>::empty() =~= old(self).buffers@[j]@);
                        assert(Seq::<u8>::empty() + record(format, *segment) =~= record(format, *segment));
                    }
                }
                Ok(())
            },
        }
    }

    /// Processes one spot: every segment in order, then counts the spot.
    pub fn process_spot(
        &mut self,
        opts: &FilterOptions,
        format: OutputFormat,
        spot: &Vec<Segment>,
    ) -> (r: Result<(), XsraError>)
        requires
            old(self).counts@.len() == old(self).buffers@.len(),
            stats_room(old(self).stats@, 1, spot@.len() as int),
            counts_room(old(self).counts@, spot@.len() as int),
            forall|k: int| 0 <= k < spot@.len() ==> (#[trigger] spot@[k]).sid < usize::MAX,
        ensures
            r is Ok <==> all_routable(spot@, *opts, old(self).buffers@.len()),
            r is Err ==> (r matches Err(XsraError::SegmentOutOfRange { capacity: c, .. }) && c
                == old(self).buffers@.len()),
            r is Ok ==> processed(*old(self), *final(self), spot@, *opts, format, 1),
    {
        let ghost start = *self;
        let ghost n = self.buffers@.len();
        proof {
            assert forall|j: int| 0 <= j < n implies #[trigger] self.buffers@[j]@ == self.buffers@[j]@
                + output_of(Seq::<Segment>::empty(), *opts, format, n, j) by {
                assert(self.buffers@[j]@ + Seq::<u8>::empty() =~= self.buffers@[j]@);
            }
            assert(spot@.subrange(0, 0) =~= Seq::<Segment>::empty());
        }
        let mut k: usize = 0;
        while k < spot.len()
            invariant
                k <= spot@.len(),
                start == *old(self),
                n == start.buffers@.len(),
                start.counts@.len() == n,
                stats_room(start.stats@, 1, spot@.len() as int),
                counts_room(start.counts@, spot@.len() as int),
                forall|i: int| 0 <= i < spot@.len() ==> (#[trigger] spot@[i]).sid < usize::MAX,
                processed(start, *self, spot@.subrange(0, k as int), *opts, format, 0),
                all_routable(spot@.subrange(0, k as int), *opts, n),
            decreases spot@.len() - k,
        {
            let ghost prefix = spot@.subrange(0, k as int);
            let ghost mid = *self;
            proof {
                lemma_tallies_bounded(prefix, *opts, n);
                assert forall|i: int| #[trigger] count_at(mid.stats@.written, i) + 1 <= u64::MAX by {
                    assert(tally(prefix, *opts, i, FilterOutcome::Accepted) <= k);
                    assert(count_at(start.stats@.written, i) + spot@.len() <= u64::MAX);
                }
                assert forall|i: int| #[trigger] count_at(mid.stats@.filter_size, i) + 1 <= u64::MAX by {
                    assert(tally(prefix, *opts, i, FilterOutcome::TooShort) <= k);
                    assert(count_at(start.stats@.filter_size, i) + spot@.len() <= u64::MAX);
                }
                assert forall|i: int| #[trigger] count_at(mid.stats@.filter_type, i) + 1 <= u64::MAX by {
                    assert(tally(prefix, *opts, i, FilterOutcome::Technical) <= k);
                    assert(count_at(start.stats@.filter_type, i) + spot@.len() <= u64::MAX);
                }
                assert forall|j: int| 0 <= j < mid.counts@.len() implies #[trigger] mid.counts@[j] + 1
                    <= usize::MAX by {
                    assert(routed_count(prefix, *opts, n, j) <= k);
                    assert(start.counts@[j] + spot@.len() <= usize::MAX);
                }
            }
            let res = self.process_segment(opts, format, &spot[k]);
            proof {
                lemma_single(spot@[k as int], *opts, format, n);
                assert(spot@.subrange(0, k + 1) =~= prefix.push(spot@[k as int]));
            }
            if res.is_err() {
                proof {
                    assert(!all_routable(spot@, *opts, n)) by {
                        assert(!all_routable(seq![spot@[k as int]], *opts, n));
                        let w = choose|w: int|
                            0 <= w < 1 && segment_outcome(*opts, #[trigger] seq![spot@[k as int]][w])
                                == FilterOutcome::Accepted && !(target(n, seq![spot@[k as int]][w].sid) < n);
                        assert(seq![spot@[k as int]][w] == spot@[k as int]);
                        assert(segment_outcome(*opts, spot@[k as int]) == FilterOutcome::Accepted);
                        assert(!(target(n, spot@[k as int].sid) < n));
                    }
                }
                return Err(XsraError::SegmentOutOfRange { sid: spot[k].sid, capacity: self.buffers.len() });
            }
            proof {
                lemma_processed_compose(start, mid, *self, prefix, spot@[k as int], *opts, format);
                assert forall|w: int|
                    0 <= w < k + 1 && segment_outcome(*opts, #[trigger] spot@.subrange(0, k + 1)[w])
                        == FilterOutcome::Accepted implies target(n, spot@.subrange(0, k + 1)[w].sid) < n by {
                    if w < k {
                        assert(spot@.subrange(0, k + 1)[w] == prefix[w]);
                    } else {
                        assert(spot@.subrange(0, k + 1)[w] == seq![spot@[k as int]][0]);
                    }
                }
            }
            k = k + 1;
        }
        proof {
            assert(spot@.subrange(0, spot@.len() as int) =~= spot@);
        }
        self.stats.inc_spots();
        Ok(())
    }

    /// Processes a batch of spots in order.
    pub fn process_spots(
        &mut self,
        opts: &FilterOptions,
        format: OutputFormat,
        spots: &Vec<Vec<Segment>>,
    ) -> (r: Result<(), XsraError>)
        requires
            old(self).counts@.len() == old(self).buffers@.len(),
            stats_room(old(self).stats@, spots@.len() as int, all_segments(spots@).len() as int),
            counts_room(old(self).counts@, all_segments(spots@).len() as int),
            forall|k: int|
                0 <= k < all_segments(spots@).len() ==> (#[trigger] all_segments(spots@)[k]).sid
                    < usize::MAX,
        ensures
            r is Ok <==> all_routable(all_segments(spots@), *opts, old(self).buffers@.len()),
            r is Err ==> (r matches Err(XsraError::SegmentOutOfRange { capacity: c, .. }) && c
                == old(self).buffers@.len()),
            r is Ok ==> processed(
                *old(self),
                *final(self),
                all_segments(spots@),
                *opts,
                format,
                spots@.len() as int,
            ),
    {
        let ghost start = *self;
        let ghost n = self.buffers@.len();
        let ghost all = all_segments(spots@);
        proof {
            assert forall|j: int| 0 <= j < n implies #[trigger] self.buffers@[j]@ == self.buffers@[j]@
                + output_of(Seq::<Segment>::empty(), *opts, format, n, j) by {
                assert(self.buffers@[j]@ + Seq::<u8>::empty() =~= self.buffers@[j]@);
            }
            assert(spots@.subrange(0, 0) =~= Seq::<Vec<Segment>>::empty());
        }
        let mut k: usize = 0;
        while k < spots.len()
            invariant
                k <= spots@.len(),
                start == *old(self),
                n == start.buffers@.len(),
                start.counts@.len() == n,
                all == all_segments(spots@),
                stats_room(start.stats@, spots@.len() as int, all.len() as int),
                counts_room(start.counts@, all.len() as int),
                forall|i: int| 0 <= i < all.len() ==> (#[trigger] all[i]).sid < usize::MAX,
                processed(start, *self, all_segments(spots@.subrange(0, k as int)), *opts, format, k as int),
                all_routable(all_segments(spots@.subrange(0, k as int)), *opts, n),
            decreases spots@.len() - k,
        {
            let ghost done = all_segments(spots@.subrange(0, k as int));
            let ghost cur = spots@[k as int]@;
            let ghost rest = all_segments(spots@.subrange(k + 1, spots@.len() as int));
            let ghost mid = *self;
            proof {
                assert(spots@.subrange(0, k + 1).drop_last() =~= spots@.subrange(0, k as int));
                assert(spots@ =~= spots@.subrange(0, k + 1) + spots@.subrange(k + 1, spots@.len() as int));
                lemma_all_segments_concat(spots@.subrange(0, k + 1), spots@.subrange(k + 1, spots@.len() as int));
                assert(all == done + cur + rest);
                lemma_tallies_bounded(done, *opts, n);
                assert forall|w: int| 0 <= w < cur.len() implies (#[trigger] cur[w]).sid < usize::MAX by {
                    assert(all[done.len() + w] == cur[w]);
                }
                assert forall|i: int| #[trigger] count_at(mid.stats@.written, i) + cur.len() <= u64::MAX by {
                    assert(tally(done, *opts, i, FilterOutcome::Accepted) <= done.len());
                    assert(count_at(start.stats@.written, i) + all.len() <= u64::MAX);
                }
                assert forall|i: int| #[trigger] count_at(mid.stats@.filter_size, i) + cur.len() <= u64::MAX by {
                    assert(tally(done, *opts, i, FilterOutcome::TooShort) <= done.len());
                    assert(count_at(start.stats@.filter_size, i) + all.len() <= u64::MAX);
                }
                assert forall|i: int| #[trigger] count_at(mid.stats@.filter_type, i) + cur.len() <= u64::MAX by {
                    assert(tally(done, *opts, i, FilterOutcome::Technical) <= done.len());
                    assert(count_at(start.stats@.filter_type, i) + all.len() <= u64::MAX);
                }
                assert forall|j: int| 0 <= j < mid.counts@.len() implies #[trigger] mid.counts@[j] + cur.len()
                    <= usize::MAX by {
                    assert(routed_count(done, *opts, n, j) <= done.len());
                    assert(start.counts@[j] + all.len() <= usize::MAX);
                }
            }
            let res = self.process_spot(opts, format, &spots[k]);
            if res.is_err() {
                proof {
                    assert(!all_routable(all, *opts, n)) by {
                        let w = choose|w: int|
                            0 <= w < cur.len() && segment_outcome(*opts, #[trigger] cur[w])
                                == FilterOutcome::Accepted && !(target(n, cur[w].sid) < n);
                        assert(all[done.len() + w] == cur[w]);
                    }
                }
                return res;
            }
            proof {
                lemma_processed_chain(start, mid, *self, done, cur, k as int, 1, *opts, format);
                assert forall|w: int|
                    0 <= w < done.len() + cur.len() && segment_outcome(*opts, #[trigger] (done + cur)[w])
                        == FilterOutcome::Accepted implies target(n, (done + cur)[w].sid) < n by {
                    if w < done.len() {
                        assert((done + cur)[w] == done[w]);
                    } else {
                        assert((done + cur)[w] == cur[w - done.len()]);
                    }
                }
            }
            k = k + 1;
        }
        proof {
            assert(spots@.subrange(0, spots@.len() as int) =~= spots@);
        }
        Ok(())
    }

    /// Takes the chunks that are ready for a hand-off: every buffer with a
    /// non-zero record count, with its sink index, in sink order. Those buffers
    /// are left empty and their counts zero; the others are kept.
    pub fn take_ready(&mut self) -> (r: Vec<(usize, Vec<u8>)>)
        requires
            old(self).counts@.len() == old(self).buffers@.len(),
        ensures
            chunk_views(r@) == ready_chunks(old(self).buffers@, old(self).counts@),
            final(self).stats == old(self).stats,
            final(self).buffers@.len() == old(self).buffers@.len(),
            final(self).counts@.len() == old(self).counts@.len(),
            forall|j: int|
                0 <= j < old(self).buffers@.len() && old(self).counts@[j] > 0 ==> (
                #[trigger] final(self).buffers@[j])@.len() == 0 && final(self).counts@[j] == 0,
            forall|j: int|
                0 <= j < old(self).buffers@.len() && old(self).counts@[j] == 0 ==> #[trigger] final(self).buffers@[j]
                    == old(self).buffers@[j] && final(self).counts@[j] == old(self).counts@[j],
    {
        let ghost start = *self;
        let mut out: Vec<(usize, Vec<u8>)> = Vec::new();
        let mut j: usize = 0;
        proof {
            assert(start.buffers@.subrange(0, 0) =~= Seq::<Vec<u8>>::empty());
            assert(chunk_views(out@) =~= Seq::<(int, Seq<u8>)>::empty());
        }
        while j < self.buffers.len()
            invariant
                start == *old(self),
                start.counts@.len() == start.buffers@.len(),
                self.stats == start.stats,
                self.buffers@.len() == start.buffers@.len(),
                self.counts@.len() == start.counts@.len(),
                j <= self.buffers@.len(),
                chunk_views(out@) == ready_chunks(start.buffers@.subrange(0, j as int), start.counts@),
                forall|i: int|
                    0 <= i < j && start.counts@[i] > 0 ==> (#[trigger] self.buffers@[i])@.len() == 0
                        && self.counts@[i] == 0,
                forall|i: int|
                    0 <= i < j && start.counts@[i] == 0 ==> #[trigger] self.buffers@[i] == start.buffers@[i]
                        && self.counts@[i] == start.counts@[i],
                forall|i: int|
                    j <= i < self.buffers@.len() ==> #[trigger] self.buffers@[i] == start.buffers@[i]
                        && self.counts@[i] == start.counts@[i],
            decreases self.buffers@.len() - j,
        {
            let ghost before = out@;
            let ghost entry = *self;
            proof {
                assert(self.buffers@[j as int] == start.buffers@[j as int] && self.counts@[j as int]
                    == start.counts@[j as int]);
                let next = start.buffers@.subrange(0, j + 1);
                assert(next.drop_last() =~= start.buffers@.subrange(0, j as int));
                assert(next[j as int] == start.buffers@[j as int]);
                assert(ready_chunks(next, start.counts@) == ready_chunks(
                    start.buffers@.subrange(0, j as int),
                    start.counts@,
                ) + if start.counts@[j as int] > 0 {
                    seq![(j as int, start.buffers@[j as int]@)]
                } else {
                    Seq::empty()
                });
            }
            if self.counts[j] > 0 {
                let mut chunk: Vec<u8> = Vec::new();
                core::mem::swap(&mut chunk, &mut self.buffers[j]);
                assert(chunk == start.buffers@[j as int]);
                assert(self.buffers@[j as int]@.len() == 0);
                self.counts.set(j, 0);
                out.push((j, chunk));
                proof {
                    assert(chunk_views(out@) =~= chunk_views(before) + seq![(j as int, start.buffers@[j as int]@)]);
                }
            } else {
                proof {
                    assert(chunk_views(before) + Seq::<(int, Seq<u8>)>::empty() =~= chunk_views(before));
                }
            }
            proof {
                assert(chunk_views(out@) == ready_chunks(start.buffers@.subrange(0, j + 1), start.counts@));
                assert forall|i: int| 0 <= i < j + 1 && start.counts@[i] > 0 implies (
                #[trigger] self.buffers@[i])@.len() == 0 && self.counts@[i] == 0 by {
                    if i < j {
                        assert(entry.buffers@[i] == self.buffers@[i]);
                        assert(entry.counts@[i] == self.counts@[i]);
                    }
                }
                assert forall|i: int| 0 <= i < j + 1 && start.counts@[i] == 0 implies #[trigger] self.buffers@[i]
                    == start.buffers@[i] && self.counts@[i] == start.counts@[i] by {
                    if i < j {
                        assert(entry.buffers@[i] == self.buffers@[i]);
                        assert(entry.counts@[i] == self.counts@[i]);
                    }
                }
                assert forall|i: int| j + 1 <= i < self.buffers@.len() implies #[trigger] self.buffers@[i]
                    == start.buffers@[i] && self.counts@[i] == start.counts@[i] by {
                    assert(entry.buffers@[i] == self.buffers@[i]);
                    assert(entry.counts@[i] == self.counts@[i]);
                }
            }
            j = j + 1;
        }
        proof {
            assert(start.buffers@.subrange(0, start.buffers@.len() as int) =~= start.buffers@);
        }
        out
    }
}

} // verus!
