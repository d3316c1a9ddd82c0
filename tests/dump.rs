use xsra::encode::{write_fasta, write_fastq, write_segment_to_buffer_set, OutputFormat};
use xsra::error::XsraError;
use xsra::filter::{FilterOptions, FilterOutcome};
use xsra::output::{
    build_path_name, choose_strategy, cleanup_plan, compression_threads, sink_plan, Cleanup,
    Compression, OutputFileType, WriterStrategy,
};
use xsra::partition::{partition_rows, resolve_threads, spots_to_process, RowRange};
use xsra::segment::{spot_from_columns, Segment, SegmentType};
use xsra::worker::{handoff_due, WorkerState};

fn seg(rid: u64, sid: usize, ty: SegmentType, seq: &[u8]) -> Segment {
    Segment {
        rid,
        sid,
        ty,
        seq: seq.to_vec(),
        qual: vec![b'I'; seq.len()],
    }
}

fn no_filter() -> FilterOptions {
    FilterOptions {
        min_read_len: 1,
        skip_technical: false,
        limit: None,
        selected: vec![],
    }
}

/// Three spots of two biological segments each.
fn archive() -> Vec<Vec<Segment>> {
    (1..=3u64)
        .map(|rid| {
            vec![
                seg(rid, 0, SegmentType::Biological, b"ACGT"),
                seg(rid, 1, SegmentType::Biological, b"GGCCA"),
            ]
        })
        .collect()
}

fn lines(bytes: &[u8]) -> usize {
    bytes.iter().filter(|&&b| b == b'\n').count()
}

#[test]
fn fastq_and_fasta_records() {
    let s = Segment {
        rid: 12,
        sid: 3,
        ty: SegmentType::Biological,
        seq: b"ACGN".to_vec(),
        qual: b"II#!".to_vec(),
    };
    let mut out = b"x".to_vec();
    write_fastq(&mut out, &s);
    assert_eq!(out, b"x@12.3\nACGN\n+\nII#!\n".to_vec());
    let mut out = Vec::new();
    write_fasta(&mut out, &s);
    assert_eq!(out, b">12.3\nACGN\n".to_vec());
}

#[test]
fn buffer_set_routes_by_segment() {
    let s = seg(1, 2, SegmentType::Biological, b"AC");
    let mut one = vec![Vec::new()];
    write_segment_to_buffer_set(&mut one, &s, OutputFormat::Fasta).unwrap();
    assert_eq!(one[0], b">1.2\nAC\n".to_vec());
    let mut four = vec![Vec::new(), Vec::new(), Vec::new(), Vec::new()];
    write_segment_to_buffer_set(&mut four, &s, OutputFormat::Fasta).unwrap();
    assert!(four[0].is_empty() && four[1].is_empty() && four[3].is_empty());
    assert_eq!(four[2], b">1.2\nAC\n".to_vec());
    let mut two = vec![Vec::new(), Vec::new()];
    assert_eq!(
        write_segment_to_buffer_set(&mut two, &s, OutputFormat::Fastq),
        Err(XsraError::SegmentOutOfRange { sid: 2, capacity: 2 })
    );
    assert!(two[0].is_empty() && two[1].is_empty());
}

#[test]
fn interleaved_fastq_of_three_spots() {
    let mut w = WorkerState::new(1);
    w.process_spots(&no_filter(), OutputFormat::Fastq, &archive()).unwrap();
    let out = &w.buffers[0];
    assert_eq!(lines(out), 24);
    assert!(out.starts_with(b"@1.0\n"));
    assert_eq!(*out.last().unwrap(), b'\n');
    assert_eq!(w.counts, vec![6]);
    assert_eq!(w.stats.num_spots, 3);
    assert_eq!(w.stats.num_reads, 6);
    let text = String::from_utf8(out.clone()).unwrap();
    let headers: Vec<&str> = text.lines().step_by(4).collect();
    assert_eq!(headers, vec!["@1.0", "@1.1", "@2.0", "@2.1", "@3.0", "@3.1"]);
}

#[test]
fn split_output_and_empty_files() {
    let mut w = WorkerState::new(4);
    w.process_spots(&no_filter(), OutputFormat::Fastq, &archive()).unwrap();
    assert_eq!(lines(&w.buffers[0]), 12);
    assert_eq!(lines(&w.buffers[1]), 12);
    assert!(w.buffers[2].is_empty() && w.buffers[3].is_empty());
    assert_eq!(w.stats.reads_per_segment, vec![3, 3, 0, 0]);
    let plan = cleanup_plan(&w.stats.reads_per_segment, &no_filter(), false, false);
    assert_eq!(plan, vec![None, None, Some(Cleanup::Remove), Some(Cleanup::Remove)]);
    let kept = cleanup_plan(&w.stats.reads_per_segment, &no_filter(), false, true);
    assert_eq!(kept[2], Some(Cleanup::WarnEmpty));
    let pipes = cleanup_plan(&w.stats.reads_per_segment, &no_filter(), true, true);
    assert_eq!(pipes, vec![Some(Cleanup::Remove); 4]);
    let p0 = build_path_name(
        OutputFileType::RegularFile("out"),
        "seg_",
        Compression::Uncompressed,
        OutputFormat::Fastq,
        0,
    );
    assert_eq!(p0, "out/seg_0.fq");
}

#[test]
fn selected_biological_segment_only() {
    let opts = FilterOptions {
        min_read_len: 1,
        skip_technical: true,
        limit: None,
        selected: vec![0],
    };
    let mut spots = archive();
    for spot in spots.iter_mut() {
        spot[1].ty = SegmentType::Technical;
    }
    let mut w = WorkerState::new(4);
    w.process_spots(&opts, OutputFormat::Fastq, &spots).unwrap();
    assert_eq!(w.counts, vec![3, 0, 0, 0]);
    assert_eq!(lines(&w.buffers[0]), 12);
    assert_eq!(w.stats.filter_type[0], 0);
    // unselected ids are dropped before the technical check, uncounted
    assert_eq!(w.stats.filter_type[1], 0);
    assert_eq!(sink_plan(true, &opts), vec![true, false, false, false]);
}

#[test]
fn minimum_length_counts_drops() {
    let opts = FilterOptions {
        min_read_len: 50,
        skip_technical: false,
        limit: None,
        selected: vec![],
    };
    let spot = vec![
        seg(1, 0, SegmentType::Biological, &[b'A'; 30]),
        seg(1, 1, SegmentType::Biological, &[b'C'; 100]),
    ];
    let mut w = WorkerState::new(4);
    w.process_spot(&opts, OutputFormat::Fastq, &spot).unwrap();
    assert_eq!(w.stats.filter_size[0], 1);
    assert_eq!(w.stats.filter_size[1], 0);
    assert_eq!(w.stats.reads_per_segment[0], 0);
    assert_eq!(w.stats.reads_per_segment[1], 1);
    assert_eq!(opts.classify(&spot[0]), FilterOutcome::TooShort);
}

#[test]
fn zero_minimum_keeps_empty_segment() {
    let opts = FilterOptions {
        min_read_len: 0,
        skip_technical: false,
        limit: None,
        selected: vec![],
    };
    let empty = seg(4, 0, SegmentType::Biological, b"");
    assert_eq!(opts.classify(&empty), FilterOutcome::Accepted);
    let mut w = WorkerState::new(1);
    w.process_spot(&opts, OutputFormat::Fastq, &vec![empty]).unwrap();
    assert_eq!(w.buffers[0], b"@4.0\n\n+\n\n".to_vec());
}

#[test]
fn unselected_segment_ids_give_nothing() {
    let opts = FilterOptions {
        min_read_len: 1,
        skip_technical: true,
        limit: None,
        selected: vec![2],
    };
    let mut w = WorkerState::new(4);
    w.process_spots(&opts, OutputFormat::Fastq, &archive()).unwrap();
    assert!(w.buffers.iter().all(|b| b.is_empty()));
    assert_eq!(w.stats.num_reads, 0);
    assert!(w.stats.reads_per_segment.iter().all(|&c| c == 0));
    assert!(w.stats.filter_size.iter().all(|&c| c == 0));
    assert!(w.stats.filter_type.iter().all(|&c| c == 0));
    assert_eq!(w.stats.num_spots, 3);
}

#[test]
fn spot_limit_above_total() {
    assert_eq!(spots_to_process(10, Some(20)), (10, true));
    assert_eq!(spots_to_process(10, Some(4)), (4, false));
    assert_eq!(spots_to_process(10, Some(10)), (10, false));
    assert_eq!(spots_to_process(10, None), (10, false));
}

#[test]
fn named_pipes_use_buffered_writer() {
    assert_eq!(choose_strategy(true, true), WriterStrategy::Buffered);
    assert_eq!(choose_strategy(true, false), WriterStrategy::Direct);
    assert_eq!(choose_strategy(false, false), WriterStrategy::Direct);
}

#[test]
fn rows_split_among_threads() {
    let r = partition_rows(10, 3);
    assert_eq!(
        r,
        vec![
            RowRange { start: 1, stop: 3 },
            RowRange { start: 4, stop: 6 },
            RowRange { start: 7, stop: 10 }
        ]
    );
    let r = partition_rows(2, 4);
    assert_eq!(r[0], RowRange { start: 1, stop: 0 });
    assert_eq!(r[3], RowRange { start: 1, stop: 2 });
    assert_eq!(resolve_threads(0, 8), 8);
    assert_eq!(resolve_threads(16, 8), 8);
    assert_eq!(resolve_threads(3, 8), 3);
}

#[test]
fn path_names_and_compression() {
    assert_eq!(
        build_path_name(
            OutputFileType::NamedPipe("out"),
            "p",
            Compression::Zstd,
            OutputFormat::Fasta,
            12,
        ),
        "out.p12.fa.zst"
    );
    assert_eq!(
        build_path_name(
            OutputFileType::RegularFile("d"),
            "s_",
            Compression::Bgzip,
            OutputFormat::Fastq,
            1,
        ),
        "d/s_1.fq.bgz"
    );
    assert_eq!(Compression::Gzip.ext(), Some("gz"));
    assert_eq!(Compression::Uncompressed.ext(), None);
    assert_eq!(compression_threads(2, true), 1);
    assert_eq!(compression_threads(16, true), 4);
    assert_eq!(compression_threads(16, false), 16);
    assert_eq!(sink_plan(false, &no_filter()), vec![true]);
}

#[test]
fn hand_off_takes_filled_buffers() {
    let mut w = WorkerState::new(4);
    w.process_spots(&no_filter(), OutputFormat::Fasta, &archive()).unwrap();
    let chunks = w.take_ready();
    assert_eq!(chunks.len(), 2);
    assert_eq!(chunks[0].0, 0);
    assert_eq!(chunks[1].0, 1);
    assert!(chunks[0].1.starts_with(b">1.0\nACGT\n"));
    assert!(w.buffers.iter().all(|b| b.is_empty()));
    assert_eq!(w.counts, vec![0, 0, 0, 0]);
    assert!(w.take_ready().is_empty());
    assert!(!handoff_due(0));
    assert!(handoff_due(1024));
    assert!(!handoff_due(1025));
}

#[test]
fn columns_split_into_segments() {
    let spot = spot_from_columns(7, b"ACGTTT", b"ABCDEF", &[0, 4], &[4, 2], &[1, 0]).unwrap();
    assert_eq!(spot.len(), 2);
    assert_eq!(spot[0].seq, b"ACGT".to_vec());
    assert_eq!(spot[1].qual, b"EF".to_vec());
    assert_eq!(spot[0].ty, SegmentType::Biological);
    assert_eq!(spot[1].ty, SegmentType::Technical);
    assert_eq!(spot[1].rid, 7);
    assert_eq!(spot[1].sid, 1);
    assert_eq!(
        spot_from_columns(7, b"ACG", b"ABC", &[2], &[2], &[1]).unwrap_err(),
        XsraError::SegmentOutOfBounds { rid: 7, sid: 0 }
    );
    assert_eq!(
        spot_from_columns(7, b"ACG", b"AB", &[0], &[1], &[1]).unwrap_err(),
        XsraError::ColumnMismatch { rid: 7 }
    );
}
