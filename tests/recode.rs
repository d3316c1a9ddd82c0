use xsra::error::XsraError;
use xsra::recode::{binseq_lengths, fixed_length, ingest_due, sample_range, select_segments};
use xsra::segment::{Segment, SegmentType};

fn spot(rid: u64, lens: &[usize]) -> Vec<Segment> {
    lens.iter()
        .enumerate()
        .map(|(sid, &n)| Segment {
            rid,
            sid,
            ty: SegmentType::Biological,
            seq: vec![b'A'; n],
            qual: vec![b'I'; n],
        })
        .collect()
}

#[test]
fn fixed_length_segment_gives_header_lengths() {
    let spots: Vec<Vec<Segment>> = (1..=3).map(|r| spot(r, &[50, 20])).collect();
    assert_eq!(fixed_length(&spots, 0), Ok(50));
    assert_eq!(binseq_lengths(&spots, 0, None), Ok((50, 0)));
    assert_eq!(binseq_lengths(&spots, 0, Some(1)), Ok((50, 20)));
}

#[test]
fn varying_length_is_refused() {
    // mean length 49.6
    let spots: Vec<Vec<Segment>> = vec![
        spot(1, &[50]),
        spot(2, &[50]),
        spot(3, &[50]),
        spot(4, &[50]),
        spot(5, &[48]),
    ];
    assert_eq!(fixed_length(&spots, 0), Err(XsraError::VariableLength { sid: 0 }));
    assert_eq!(
        binseq_lengths(&spots, 0, None),
        Err(XsraError::VariableLength { sid: 0 })
    );
    assert_eq!(fixed_length(&spots, 3), Err(XsraError::UnknownSegment { sid: 3 }));
}

#[test]
fn segments_selected_per_spot() {
    let s = spot(9, &[5, 6]);
    assert_eq!(select_segments(&s, 9, 1, None), Ok((1, None)));
    assert_eq!(select_segments(&s, 9, 0, Some(1)), Ok((0, Some(1))));
    assert_eq!(
        select_segments(&s, 9, 0, Some(2)),
        Err(XsraError::MissingSegment { rid: 9, sid: 2 })
    );
}

#[test]
fn sampling_and_ingest_cadence() {
    let r = sample_range(1000);
    assert_eq!((r.start, r.stop), (1, 101));
    let r = sample_range(7);
    assert_eq!((r.start, r.stop), (1, 7));
    assert!(ingest_due(0));
    assert!(ingest_due(2048));
    assert!(!ingest_due(5));
}
