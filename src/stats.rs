//! Per-segment processing statistics and their merge.
use vstd::prelude::*;
use crate::text::{decimal, push_decimal};
use vstd::string::StringSliceAdditionalSpecFns;

verus! {

/// The count stored at index `i`, where indices past the end hold zero.
pub open spec fn count_at(s: Seq<int>, i: int) -> int {
    if 0 <= i < s.len() {
        s[i]
    } else {
        0
    }
}

/// Elementwise sum of two count vectors, the shorter one padded with zeros.
pub open spec fn merge_counts(a: Seq<int>, b: Seq<int>) -> Seq<int> {
    Seq::new(
        if a.len() >= b.len() { a.len() } else { b.len() },
        |i: int| count_at(a, i) + count_at(b, i),
    )
}

/// The count vector `s` with one added at index `i`, grown with zeros to reach it.
pub open spec fn bump(s: Seq<int>, i: int) -> Seq<int> {
    Seq::new(
        if s.len() > i { s.len() } else { (i + 1) as nat },
        |j: int| count_at(s, j) + if j == i { 1int } else { 0int },
    )
}

/// The integer values of a vector of counters.
pub open spec fn ints(v: Seq<u64>) -> Seq<int> {
    Seq::new(v.len(), |i: int| v[i] as int)
}

/// What a set of statistics says, as mathematical integers.
pub struct StatsView {
    pub spots: int,
    pub reads: int,
    pub written: Seq<int>,
    pub filter_size: Seq<int>,
    pub filter_type: Seq<int>,
}

/// The neutral element of `merge_view`: nothing counted.
pub open spec fn zero_view() -> StatsView {
    StatsView {
        spots: 0,
        reads: 0,
        written: Seq::empty(),
        filter_size: Seq::empty(),
        filter_type: Seq::empty(),
    }
}

/// Merge of two statistics: totals added, per-segment vectors added elementwise.
pub open spec fn merge_view(a: StatsView, b: StatsView) -> StatsView {
    StatsView {
        spots: a.spots + b.spots,
        reads: a.reads + b.reads,
        written: merge_counts(a.written, b.written),
        filter_size: merge_counts(a.filter_size, b.filter_size),
        filter_type: merge_counts(a.filter_type, b.filter_type),
    }
}

/// Every sum of two count vectors fits in a `u64`.
pub open spec fn counts_fit(a: Seq<int>, b: Seq<int>) -> bool {
    forall|i: int| 0 <= i < a.len() || 0 <= i < b.len() ==> #[trigger] count_at(a, i) + count_at(b, i)
        <= u64::MAX
}

/// Merging `a` and `b` overflows no counter.
pub open spec fn merge_fits(a: StatsView, b: StatsView) -> bool {
    &&& a.spots + b.spots <= u64::MAX
    &&& a.reads + b.reads <= u64::MAX
    &&& counts_fit(a.written, b.written)
    &&& counts_fit(a.filter_size, b.filter_size)
    &&& counts_fit(a.filter_type, b.filter_type)
}

/// Counters gathered while processing spots.
#[derive(Debug, Clone)]
pub struct ProcessStatistics {
    pub num_spots: u64,
    pub num_reads: u64,
    /// Number of written reads per segment
    pub reads_per_segment: Vec<u64>,
    /// Number of reads filtered by size by segment
    pub filter_size: Vec<u64>,
    /// Number of reads filtered by biological/technical type by segment
    pub filter_type: Vec<u64>,
}

impl View for ProcessStatistics {
    type V = StatsView;

    open spec fn view(&self) -> StatsView {
        StatsView {
            spots: self.num_spots as int,
            reads: self.num_reads as int,
            written: ints(self.reads_per_segment@),
            filter_size: ints(self.filter_size@),
            filter_type: ints(self.filter_type@),
        }
    }
}

/// A vector of `n` zero counters.
fn zeros(n: usize) -> (r: Vec<u64>)
    ensures
        r@.len() == n,
        forall|i: int| 0 <= i < n ==> r@[i] == 0,
{
    let mut r: Vec<u64> = Vec::new();
    let mut k: usize = 0;
    while k < n
        invariant
            k <= n,
            r@.len() == k,
            forall|i: int| 0 <= i < k ==> r@[i] == 0,
        decreases n - k,
    {
        r.push(0);
        k = k + 1;
    }
    r
}

/// Elementwise sum of two counter vectors, the shorter padded with zeros.
fn add_counts(a: &Vec<u64>, b: &Vec<u64>) -> (r: Vec<u64>)
    requires
        counts_fit(ints(a@), ints(b@)),
    ensures
        ints(r@) == merge_counts(ints(a@), ints(b@)),
{
    let n: usize = if a.len() >= b.len() { a.len() } else { b.len() };
    let mut r: Vec<u64> = Vec::new();
    let mut i: usize = 0;
    while i < n
        invariant
            n == (if a@.len() >= b@.len() { a@.len() } else { b@.len() }),
            i <= n,
            r@.len() == i,
            counts_fit(ints(a@), ints(b@)),
            forall|j: int| 0 <= j < i ==> r@[j] as int == count_at(ints(a@), j) + count_at(ints(b@), j),
        decreases n - i,
    {
        let x: u64 = if i < a.len() { a[i] } else { 0 };
        let y: u64 = if i < b.len() { b[i] } else { 0 };
        assert(count_at(ints(a@), i as int) + count_at(ints(b@), i as int) <= u64::MAX);
        r.push(x + y);
        i = i + 1;
    }
    assert(ints(r@) =~= merge_counts(ints(a@), ints(b@)));
    r
}

/// Adds one to counter `i` of `v`, growing `v` with zeros when it is too short.
fn bump_counter(v: &mut Vec<u64>, i: usize)
    requires
        i < usize::MAX,
        count_at(ints(old(v)@), i as int) < u64::MAX,
    ensures
        ints(final(v)@) == bump(ints(old(v)@), i as int),
{
    if i >= v.len() {
        let extra = zeros(i + 1 - v.len());
        let mut k: usize = 0;
        while k < extra.len()
            invariant
                i >= old(v)@.len(),
                extra@.len() == i + 1 - old(v)@.len(),
                forall|j: int| 0 <= j < extra@.len() ==> extra@[j] == 0,
                k <= extra@.len(),
                v@.len() == old(v)@.len() + k,
                forall|j: int| 0 <= j < old(v)@.len() ==> v@[j] == old(v)@[j],
                forall|j: int| old(v)@.len() <= j < v@.len() ==> v@[j] == 0,
            decreases extra@.len() - k,
        {
            v.push(extra[k]);
            k = k + 1;
        }
    }
    let c: u64 = v[i];
    v.set(i, c + 1);
    assert(ints(v@) =~= bump(ints(old(v)@), i as int));
}

/// Sum of a slice of counters.
fn sum_slice(vec: &[u64]) -> (r: u128)
    ensures
        r == sum_counts(vec@),
{
    let mut total: u128 = 0;
    let mut i: usize = 0;
    while i < vec.len()
        invariant
            i <= vec@.len(),
            total == sum_counts(vec@.subrange(0, i as int)),
            total <= i * (u64::MAX as int),
        decreases vec@.len() - i,
    {
        proof {
            assert(vec@.subrange(0, i + 1).drop_last() =~= vec@.subrange(0, i as int));
            assert(i * (u64::MAX as int) + u64::MAX == (i + 1) * (u64::MAX as int)) by (nonlinear_arith);
            assert((i + 1) * (u64::MAX as int) <= usize::MAX as int * u64::MAX as int) by (nonlinear_arith)
                requires i + 1 <= usize::MAX;
            assert(usize::MAX as int * u64::MAX as int <= u128::MAX) by (nonlinear_arith);
        }
        total = total + vec[i] as u128;
        i = i + 1;
    }
    assert(vec@.subrange(0, vec@.len() as int) =~= vec@);
    total
}

/// Sum of a sequence of counters.
pub open spec fn sum_counts(s: Seq<u64>) -> int
    decreases s.len(),
{
    if s.len() == 0 {
        0
    } else {
        sum_counts(s.drop_last()) + s.last() as int
    }
}

/// `text` as ASCII bytes.
pub open spec fn ascii(text: Seq<char>) -> Seq<u8> {
    Seq::new(text.len(), |i: int| text[i] as u8)
}

/// Appends the ASCII bytes of a string literal to `out`.
fn push_str(out: &mut Vec<u8>, s: &str)
    requires
        s.is_ascii(),
    ensures
        final(out)@ == old(out)@ + ascii(s@),
{
    let bytes = s.as_bytes();
    proof {
        vstd::string::is_ascii_spec_bytes(s);
    }
    let mut i: usize = 0;
    while i < bytes.len()
        invariant
            bytes@ == s.spec_bytes(),
            s.spec_bytes() == ascii(s@),
            i <= bytes@.len(),
            out@ == old(out)@ + bytes@.subrange(0, i as int),
        decreases bytes@.len() - i,
    {
        out.push(bytes[i]);
        i = i + 1;
        assert(out@ =~= old(out)@ + bytes@.subrange(0, i as int));
    }
    assert(bytes@.subrange(0, bytes@.len() as int) =~= bytes@);
}

/// One report line per counter: `  Segment <i>: <count>`.
pub open spec fn segment_lines(counts: Seq<u64>) -> Seq<u8>
    decreases counts.len(),
{
    if counts.len() == 0 {
        Seq::empty()
    } else {
        segment_lines(counts.drop_last()) + ascii("  Segment "@) + decimal((counts.len() - 1) as nat)
            + ascii(": "@) + decimal(counts.last() as nat) + seq![10u8]
    }
}

/// A titled block of per-segment lines, present only when some counter is non-zero.
pub open spec fn report_block(title: Seq<char>, counts: Seq<u64>) -> Seq<u8> {
    if sum_counts(counts) > 0 {
        ascii(title) + seq![10u8] + segment_lines(counts)
    } else {
        Seq::empty()
    }
}

/// The full human-readable report of a set of statistics.
pub open spec fn report(s: ProcessStatistics) -> Seq<u8> {
    ascii("Number of spots processed: "@) + decimal(s.num_spots as nat) + seq![10u8]
        + ascii("Number of reads written: "@) + decimal(s.num_reads as nat) + seq![10u8]
        + report_block("Reads written per segment:"@, s.reads_per_segment@)
        + report_block("Filtered reads by size:"@, s.filter_size@)
        + report_block("Filtered reads by type:"@, s.filter_type@)
}

fn push_segment_lines(out: &mut Vec<u8>, counts: &Vec<u64>)
    ensures
        final(out)@ == old(out)@ + segment_lines(counts@),
{
    let mut i: usize = 0;
    while i < counts.len()
        invariant
            i <= counts@.len(),
            out@ == old(out)@ + segment_lines(counts@.subrange(0, i as int)),
        decreases counts@.len() - i,
    {
        let ghost before = out@;
        proof {
            reveal_strlit("  Segment ");
            reveal_strlit(": ");
        }
        push_str(out, "  Segment ");
        push_decimal(out, i as u64);
        push_str(out, ": ");
        push_decimal(out, counts[i]);
        out.push(10);
        proof {
            let next = counts@.subrange(0, i + 1);
            assert(next.drop_last() =~= counts@.subrange(0, i as int));
            assert(out@ =~= old(out)@ + segment_lines(next));
        }
        i = i + 1;
    }
    assert(counts@.subrange(0, counts@.len() as int) =~= counts@);
}

fn push_block(out: &mut Vec<u8>, title: &str, counts: &Vec<u64>)
    requires
        title.is_ascii(),
    ensures
        final(out)@ == old(out)@ + report_block(title@, counts@),
{
    if sum_slice(counts.as_slice()) > 0 {
        push_str(out, title);
        out.push(10);
        push_segment_lines(out, counts);
        assert(final(out)@ =~= old(out)@ + report_block(title@, counts@));
    } else {
        assert(old(out)@ + report_block(title@, counts@) =~= old(out)@);
    }
}

impl ProcessStatistics {
    /// Statistics with nothing counted and four zero counters per segment vector.
    pub fn new() -> (r: Self)
        ensures
            r.num_spots == 0,
            r.num_reads == 0,
            r.reads_per_segment@ == seq![0u64, 0, 0, 0],
            r.filter_size@ == seq![0u64, 0, 0, 0],
            r.filter_type@ == seq![0u64, 0, 0, 0],
    {
        let r = ProcessStatistics {
            num_spots: 0,
            num_reads: 0,
            reads_per_segment: zeros(4),
            filter_size: zeros(4),
            filter_type: zeros(4),
        };
        assert(r.reads_per_segment@ =~= seq![0u64, 0, 0, 0]);
        assert(r.filter_size@ =~= seq![0u64, 0, 0, 0]);
        assert(r.filter_type@ =~= seq![0u64, 0, 0, 0]);
        r
    }

    /// Elementwise sum of two sets of statistics.
    pub fn merge(self, other: Self) -> (r: Self)
        requires
            merge_fits(self@, other@),
        ensures
            r@ == merge_view(self@, other@),
    {
        ProcessStatistics {
            num_spots: self.num_spots + other.num_spots,
            num_reads: self.num_reads + other.num_reads,
            reads_per_segment: add_counts(&self.reads_per_segment, &other.reads_per_segment),
            filter_size: add_counts(&self.filter_size, &other.filter_size),
            filter_type: add_counts(&self.filter_type, &other.filter_type),
        }
    }

    pub fn inc_spots(&mut self)
        requires
            old(self).num_spots < u64::MAX,
        ensures
            final(self)@ == (StatsView { spots: old(self)@.spots + 1, ..old(self)@ }),
    {
        self.num_spots = self.num_spots + 1;
    }

    pub fn inc_reads(&mut self, seg_id: usize)
        requires
            seg_id < usize::MAX,
            old(self).num_reads < u64::MAX,
            count_at(old(self)@.written, seg_id as int) < u64::MAX,
        ensures
            final(self)@ == (StatsView {
                reads: old(self)@.reads + 1,
                written: bump(old(self)@.written, seg_id as int),
                ..old(self)@
            }),
    {
        self.num_reads = self.num_reads + 1;
        bump_counter(&mut self.reads_per_segment, seg_id);
    }

    pub fn inc_filter_size(&mut self, seg_id: usize)
        requires
            seg_id < usize::MAX,
            count_at(old(self)@.filter_size, seg_id as int) < u64::MAX,
        ensures
            final(self)@ == (StatsView {
                filter_size: bump(old(self)@.filter_size, seg_id as int),
                ..old(self)@
            }),
    {
        bump_counter(&mut self.filter_size, seg_id);
    }

    pub fn inc_filter_type(&mut self, seg_id: usize)
        requires
            seg_id < usize::MAX,
            count_at(old(self)@.filter_type, seg_id as int) < u64::MAX,
        ensures
            final(self)@ == (StatsView {
                filter_type: bump(old(self)@.filter_type, seg_id as int),
                ..old(self)@
            }),
    {
        bump_counter(&mut self.filter_type, seg_id);
    }

    /// Appends the human-readable report of these statistics to `wtr`.
    pub fn pprint(&self, wtr: &mut Vec<u8>)
        ensures
            final(wtr)@ == old(wtr)@ + report(*self),
    {
        proof {
            reveal_strlit("Number of spots processed: ");
            reveal_strlit("Number of reads written: ");
            reveal_strlit("Reads written per segment:");
            reveal_strlit("Filtered reads by size:");
            reveal_strlit("Filtered reads by type:");
        }
        push_str(wtr, "Number of spots processed: ");
        push_decimal(wtr, self.num_spots);
        wtr.push(10);
        push_str(wtr, "Number of reads written: ");
        push_decimal(wtr, self.num_reads);
        wtr.push(10);
        push_block(wtr, "Reads written per segment:", &self.reads_per_segment);
        push_block(wtr, "Filtered reads by size:", &self.filter_size);
        push_block(wtr, "Filtered reads by type:", &self.filter_type);
        assert(final(wtr)@ =~= old(wtr)@ + report(*self));
    }
}

impl Default for ProcessStatistics {
    fn default() -> (r: Self)
        ensures
            r.num_spots == 0,
            r.num_reads == 0,
            r.reads_per_segment@ == seq![0u64, 0, 0, 0],
            r.filter_size@ == seq![0u64, 0, 0, 0],
            r.filter_type@ == seq![0u64, 0, 0, 0],
    {
        ProcessStatistics::new()
    }
}

/// Merging statistics is associative.
pub proof fn lemma_merge_associative(a: StatsView, b: StatsView, c: StatsView)
    ensures
        merge_view(merge_view(a, b), c) == merge_view(a, merge_view(b, c)),
{
    assert(merge_counts(merge_counts(a.written, b.written), c.written) =~= merge_counts(
        a.written,
        merge_counts(b.written, c.written),
    ));
    assert(merge_counts(merge_counts(a.filter_size, b.filter_size), c.filter_size) =~= merge_counts(
        a.filter_size,
        merge_counts(b.filter_size, c.filter_size),
    ));
    assert(merge_counts(merge_counts(a.filter_type, b.filter_type), c.filter_type) =~= merge_counts(
        a.filter_type,
        merge_counts(b.filter_type, c.filter_type),
    ));
}

/// Statistics that count nothing are neutral on both sides of a merge.
pub proof fn lemma_merge_identity(a: StatsView)
    ensures
        merge_view(a, zero_view()) == a,
        merge_view(zero_view(), a) == a,
{
    assert(merge_counts(a.written, Seq::empty()) =~= a.written);
    assert(merge_counts(Seq::empty(), a.written) =~= a.written);
    assert(merge_counts(a.filter_size, Seq::empty()) =~= a.filter_size);
    assert(merge_counts(Seq::empty(), a.filter_size) =~= a.filter_size);
    assert(merge_counts(a.filter_type, Seq::empty()) =~= a.filter_type);
    assert(merge_counts(Seq::empty(), a.filter_type) =~= a.filter_type);
}

} // verus!
