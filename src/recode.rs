//! Recoding to BINSEQ / VBINSEQ: header derivation from a sample of spots and
//! the choice of segments in each spot.
use vstd::prelude::*;
use crate::error::XsraError;
use crate::partition::RowRange;
use crate::segment::Segment;
use crate::worker::{all_segments, lemma_all_segments_concat, occurrences};

verus! {

/// Spots a worker encodes between two ingests into the shared writer.
pub const THREAD_UPDATE_INTERVAL: usize = 1024;

/// Spots sampled to learn the segment lengths.
pub const SAMPLE_SPOTS: u64 = 100;

/// Whether a worker ingests its encoder into the shared writer after the spot
/// at position `idx` of its range.
pub fn ingest_due(idx: usize) -> (r: bool)
    ensures
        r == (idx % THREAD_UPDATE_INTERVAL == 0),
{
    idx % THREAD_UPDATE_INTERVAL == 0
}

/// The rows sampled for the length survey of an archive of `total` spots.
pub fn sample_range(total: u64) -> (r: RowRange)
    ensures
        r.start == 1,
        r.stop == if total < 1 + SAMPLE_SPOTS { total as int } else { 1 + SAMPLE_SPOTS },
{
    let stop = if total < 1 + SAMPLE_SPOTS {
        total
    } else {
        1 + SAMPLE_SPOTS
    };
    RowRange { start: 1, stop }
}

/// Total length of the segments of `segs` with id `sid`.
pub open spec fn length_sum(segs: Seq<Segment>, sid: int) -> int
    decreases segs.len(),
{
    if segs.len() == 0 {
        0
    } else {
        length_sum(segs.drop_last(), sid) + if segs.last().sid == sid {
            segs.last().seq@.len() as int
        } else {
            0int
        }
    }
}

/// Every segment of `segs` is at most `u32::MAX` long.
pub open spec fn lengths_fit(segs: Seq<Segment>) -> bool {
    forall|k: int| 0 <= k < segs.len() ==> (#[trigger] segs[k]).seq@.len() <= u32::MAX
}

proof fn lemma_sums_concat(a: Seq<Segment>, b: Seq<Segment>, sid: int)
    ensures
        length_sum(a + b, sid) == length_sum(a, sid) + length_sum(b, sid),
        occurrences(a + b, sid) == occurrences(a, sid) + occurrences(b, sid),
    decreases b.len(),
{
    if b.len() == 0 {
        assert(a + b =~= a);
    } else {
        lemma_sums_concat(a, b.drop_last(), sid);
        assert((a + b).drop_last() =~= a + b.drop_last());
    }
}

proof fn lemma_sum_bounded(segs: Seq<Segment>, sid: int)
    requires
        lengths_fit(segs),
    ensures
        0 <= length_sum(segs, sid) <= occurrences(segs, sid) * (u32::MAX as int),
        0 <= occurrences(segs, sid) <= segs.len(),
    decreases segs.len(),
{
    if segs.len() > 0 {
        assert(lengths_fit(segs.drop_last())) by {
            assert forall|k: int| 0 <= k < segs.drop_last().len() implies (
            #[trigger] segs.drop_last()[k]).seq@.len() <= u32::MAX by {
                assert(segs.drop_last()[k] == segs[k]);
            }
        }
        assert(segs.last() == segs[segs.len() - 1]);
        lemma_sum_bounded(segs.drop_last(), sid);
        let o = occurrences(segs.drop_last(), sid);
        assert(o * (u32::MAX as int) + u32::MAX == (o + 1) * (u32::MAX as int)) by (nonlinear_arith);
    }
}

/// The length of segment `sid` in a sample whose segment lengths are
/// `sum / count` on average: that mean when it is a whole number.
pub open spec fn fixed_length_of(sum: int, count: int, sid: usize) -> Result<u32, XsraError> {
    if count == 0 {
        Err(XsraError::UnknownSegment { sid })
    } else if sum % count != 0 {
        Err(XsraError::VariableLength { sid })
    } else {
        Ok((sum / count) as u32)
    }
}

/// The fixed length of segment `sid` over the sampled spots: the mean of its
/// lengths, which must be a whole number.
pub fn fixed_length(spots: &Vec<Vec<Segment>>, sid: usize) -> (r: Result<u32, XsraError>)
    requires
        lengths_fit(all_segments(spots@)),
        all_segments(spots@).len() <= u32::MAX,
    ensures
        r == fixed_length_of(
            length_sum(all_segments(spots@), sid as int),
            occurrences(all_segments(spots@), sid as int),
            sid,
        ),
{
    let ghost all = all_segments(spots@);
    let mut sum: u64 = 0;
    let mut count: u64 = 0;
    let mut k: usize = 0;
    proof {
        assert(spots@.subrange(0, 0) =~= Seq::<Vec<Segment>>::empty());
        lemma_sum_bounded(all, sid as int);
    }
    while k < spots.len()
        invariant
            k <= spots@.len(),
            all == all_segments(spots@),
            lengths_fit(all),
            all.len() <= u32::MAX,
            sum == length_sum(all_segments(spots@.subrange(0, k as int)), sid as int),
            count == occurrences(all_segments(spots@.subrange(0, k as int)), sid as int),
            0 <= length_sum(all, sid as int) <= occurrences(all, sid as int) * (u32::MAX as int),
            occurrences(all, sid as int) <= all.len(),
        decreases spots@.len() - k,
    {
        let ghost done = all_segments(spots@.subrange(0, k as int));
        let ghost rest = all_segments(spots@.subrange(k + 1, spots@.len() as int));
        let spot = &spots[k];
        proof {
            assert(spots@.subrange(0, k + 1).drop_last() =~= spots@.subrange(0, k as int));
            assert(spots@ =~= spots@.subrange(0, k + 1) + spots@.subrange(k + 1, spots@.len() as int));
            lemma_all_segments_concat(spots@.subrange(0, k + 1), spots@.subrange(k + 1, spots@.len() as int));
            assert(all == done + spot@ + rest);
            lemma_sums_concat(done + spot@, rest, sid as int);
            lemma_sums_concat(done, spot@, sid as int);
            assert(lengths_fit(rest)) by {
                assert forall|w: int| 0 <= w < rest.len() implies (#[trigger] rest[w]).seq@.len() <= u32::MAX by {
                    assert(all[done.len() + spot@.len() + w] == rest[w]);
                }
            }
            lemma_sum_bounded(rest, sid as int);
            assert(occurrences(all, sid as int) * (u32::MAX as int) <= (u32::MAX as int) * (u32::MAX as int))
                by (nonlinear_arith)
                requires occurrences(all, sid as int) <= u32::MAX;
        }
        let mut j: usize = 0;
        proof {
            assert(spot@.subrange(0, 0) =~= Seq::<Segment>::empty());
        }
        while j < spot.len()
            invariant
                j <= spot@.len(),
                all == done + spot@ + rest,
                lengths_fit(all),
                sum == length_sum(done, sid as int) + length_sum(spot@.subrange(0, j as int), sid as int),
                count == occurrences(done, sid as int) + occurrences(spot@.subrange(0, j as int), sid as int),
                length_sum(all, sid as int) == length_sum(done + spot@, sid as int) + length_sum(rest, sid as int),
                length_sum(done + spot@, sid as int) == length_sum(done, sid as int) + length_sum(spot@, sid as int),
                occurrences(all, sid as int) == occurrences(done + spot@, sid as int) + occurrences(rest, sid as int),
                occurrences(done + spot@, sid as int) == occurrences(done, sid as int) + occurrences(spot@, sid as int),
                length_sum(rest, sid as int) >= 0,
                occurrences(rest, sid as int) >= 0,
                0 <= length_sum(all, sid as int) <= (u32::MAX as int) * (u32::MAX as int),
                occurrences(all, sid as int) <= u32::MAX,
            decreases spot@.len() - j,
        {
            let ghost pre = spot@.subrange(0, j as int);
            proof {
                assert(spot@.subrange(0, j + 1).drop_last() =~= pre);
                assert(spot@ =~= spot@.subrange(0, j + 1) + spot@.subrange(j + 1, spot@.len() as int));
                lemma_sums_concat(spot@.subrange(0, j + 1), spot@.subrange(j + 1, spot@.len() as int), sid as int);
                assert(lengths_fit(spot@.subrange(j + 1, spot@.len() as int))) by {
                    assert forall|w: int| 0 <= w < spot@.len() - (j + 1) implies (#[trigger] spot@.subrange(
                        j + 1,
                        spot@.len() as int,
                    )[w]).seq@.len() <= u32::MAX by {
                        assert(all[done.len() + j + 1 + w] == spot@[j + 1 + w]);
                    }
                }
                lemma_sum_bounded(spot@.subrange(j + 1, spot@.len() as int), sid as int);
                assert(all[done.len() + j] == spot@[j as int]);
            }
            if spot[j].sid == sid {
                sum = sum + spot[j].seq.len() as u64;
                count = count + 1;
            }
            j = j + 1;
        }
        proof {
            assert(spot@.subrange(0, spot@.len() as int) =~= spot@);
            lemma_sums_concat(done, spot@, sid as int);
            assert(done + spot@ == all_segments(spots@.subrange(0, k + 1)));
        }
        k = k + 1;
    }
    proof {
        assert(spots@.subrange(0, spots@.len() as int) =~= spots@);
    }
    if count == 0 {
        Err(XsraError::UnknownSegment { sid })
    } else if sum % count != 0 {
        Err(XsraError::VariableLength { sid })
    } else {
        proof {
            assert(sum / count <= u32::MAX) by (nonlinear_arith)
                requires sum <= count * (u32::MAX as int), count > 0;
        }
        Ok((sum / count) as u32)
    }
}

/// The fixed lengths of the primary segment and, when pairs are written, of
/// the extended one (zero without a pair).
pub fn binseq_lengths(
    spots: &Vec<Vec<Segment>>,
    primary: usize,
    extended: Option<usize>,
) -> (r: Result<(u32, u32), XsraError>)
    requires
        lengths_fit(all_segments(spots@)),
        all_segments(spots@).len() <= u32::MAX,
    ensures
        ({
            let all = all_segments(spots@);
            let p = fixed_length_of(length_sum(all, primary as int), occurrences(all, primary as int), primary);
            match p {
                Err(e) => r == Err::<(u32, u32), XsraError>(e),
                Ok(slen) => match extended {
                    None => r == Ok::<(u32, u32), XsraError>((slen, 0u32)),
                    Some(x) => match fixed_length_of(length_sum(all, x as int), occurrences(all, x as int), x) {
                        Err(e) => r == Err::<(u32, u32), XsraError>(e),
                        Ok(xlen) => r == Ok::<(u32, u32), XsraError>((slen, xlen)),
                    },
                },
            }
        }),
{
    let slen = match fixed_length(spots, primary) {
        Ok(l) => l,
        Err(e) => return Err(e),
    };
    match extended {
        None => Ok((slen, 0)),
        Some(x) => match fixed_length(spots, x) {
            Ok(xlen) => Ok((slen, xlen)),
            Err(e) => Err(e),
        },
    }
}

/// Position in `spot` of its first segment with id `sid`.
pub fn find_segment(spot: &Vec<Segment>, sid: usize) -> (r: Option<usize>)
    ensures
        r is Some ==> r->Some_0 < spot@.len() && spot@[r->Some_0 as int].sid == sid && forall|k: int|
            0 <= k < r->Some_0 ==> (#[trigger] spot@[k]).sid != sid,
        r is None ==> forall|k: int| 0 <= k < spot@.len() ==> (#[trigger] spot@[k]).sid != sid,
{
    let mut k: usize = 0;
    while k < spot.len()
        invariant
            k <= spot@.len(),
            forall|i: int| 0 <= i < k ==> (#[trigger] spot@[i]).sid != sid,
        decreases spot@.len() - k,
    {
        if spot[k].sid == sid {
            return Some(k);
        }
        k = k + 1;
    }
    None
}

/// The positions in `spot` of the primary segment and, when pairs are
/// written, of the extended one; a spot that lacks one is an error.
pub fn select_segments(
    spot: &Vec<Segment>,
    rid: u64,
    primary: usize,
    extended: Option<usize>,
) -> (r: Result<(usize, Option<usize>), XsraError>)
    ensures
        r is Ok ==> r->Ok_0.0 < spot@.len() && spot@[r->Ok_0.0 as int].sid == primary,
        r is Ok ==> match extended {
            None => r->Ok_0.1 is None,
            Some(x) => r->Ok_0.1 is Some && r->Ok_0.1->Some_0 < spot@.len() && spot@[r->Ok_0.1->Some_0 as int].sid
                == x,
        },
        r is Err <==> (forall|k: int| 0 <= k < spot@.len() ==> (#[trigger] spot@[k]).sid != primary) || (
        extended is Some && forall|k: int|
            0 <= k < spot@.len() ==> (#[trigger] spot@[k]).sid != extended->Some_0),
        r is Err ==> r == Err::<(usize, Option<usize>), XsraError>(XsraError::MissingSegment { rid, sid: primary })
            || (extended is Some && r == Err::<(usize, Option<usize>), XsraError>(
            XsraError::MissingSegment { rid, sid: extended->Some_0 },
        )),
{
    let p = match find_segment(spot, primary) {
        Some(p) => p,
        None => return Err(XsraError::MissingSegment { rid, sid: primary }),
    };
    match extended {
        None => Ok((p, None)),
        Some(x) => match find_segment(spot, x) {
            Some(q) => Ok((p, Some(q))),
            None => {
                assert(spot@[p as int].sid == primary);
                Err(XsraError::MissingSegment { rid, sid: x })
            },
        },
    }
}

} // verus!
