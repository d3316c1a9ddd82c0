use xsra::stats::ProcessStatistics;

#[test]
fn test_add_with_resize() {
    let stats1 = ProcessStatistics {
        num_spots: 10,
        num_reads: 20,
        reads_per_segment: vec![1, 2],
        filter_size: vec![3, 4],
        filter_type: vec![5, 6],
    };
    let stats2 = ProcessStatistics {
        num_spots: 5,
        num_reads: 10,
        reads_per_segment: vec![1, 1, 1, 1],
        filter_size: vec![2, 2, 2],
        filter_type: vec![3, 3, 3, 3, 3],
    };

    let result = stats1.clone().merge(stats2.clone());

    assert_eq!(result.num_spots, 15);
    assert_eq!(result.num_reads, 30);
    assert_eq!(result.reads_per_segment, vec![2, 3, 1, 1]);
    assert_eq!(result.filter_size, vec![5, 6, 2]);
    assert_eq!(result.filter_type, vec![8, 9, 3, 3, 3]);
}

#[test]
fn test_inc_spots() {
    let mut stats = ProcessStatistics::default();
    stats.inc_spots();
    assert_eq!(stats.num_spots, 1);
}

#[test]
fn test_inc_reads_with_resize() {
    let mut stats = ProcessStatistics::default();
    // seg_id above the initial length of 4 grows the vector
    stats.inc_reads(5);
    assert_eq!(stats.num_reads, 1);
    assert_eq!(stats.reads_per_segment.len(), 6);
    assert_eq!(stats.reads_per_segment[5], 1);
}

#[test]
fn test_inc_filter_size_with_resize() {
    let mut stats = ProcessStatistics::default();
    stats.inc_filter_size(5);
    assert_eq!(stats.filter_size.len(), 6);
    assert_eq!(stats.filter_size[5], 1);
}

#[test]
fn test_inc_filter_type_with_resize() {
    let mut stats = ProcessStatistics::default();
    stats.inc_filter_type(5);
    assert_eq!(stats.filter_type.len(), 6);
    assert_eq!(stats.filter_type[5], 1);
}

#[test]
fn test_pprint_with_all_data() {
    let stats = ProcessStatistics {
        num_spots: 100,
        num_reads: 90,
        reads_per_segment: vec![40, 50],
        filter_size: vec![5, 0],
        filter_type: vec![0, 5],
    };

    let mut buffer = Vec::new();
    stats.pprint(&mut buffer);
    let output = String::from_utf8(buffer).unwrap();

    assert!(output.contains("Number of spots processed: 100"));
    assert!(output.contains("Number of reads written: 90"));
    assert!(output.contains("Reads written per segment:"));
    assert!(output.contains("  Segment 0: 40"));
    assert!(output.contains("  Segment 1: 50"));
    assert!(output.contains("Filtered reads by size:"));
    assert!(output.contains("  Segment 0: 5"));
    assert!(output.contains("Filtered reads by type:"));
    assert!(output.contains("  Segment 1: 5"));
}

#[test]
fn pprint_exact_text_and_empty_blocks() {
    let stats = ProcessStatistics {
        num_spots: 3,
        num_reads: 0,
        reads_per_segment: vec![0, 0],
        filter_size: vec![2, 1],
        filter_type: vec![0],
    };
    let mut buffer = b"x".to_vec();
    stats.pprint(&mut buffer);
    assert_eq!(
        String::from_utf8(buffer).unwrap(),
        "xNumber of spots processed: 3\nNumber of reads written: 0\nFiltered reads by size:\n  Segment 0: 2\n  Segment 1: 1\n"
    );
}

#[test]
fn merge_is_associative_on_values() {
    let a = ProcessStatistics {
        num_spots: 1,
        num_reads: 2,
        reads_per_segment: vec![1],
        filter_size: vec![],
        filter_type: vec![7, 0, 1],
    };
    let b = ProcessStatistics {
        num_spots: 4,
        num_reads: 5,
        reads_per_segment: vec![0, 2, 3],
        filter_size: vec![1],
        filter_type: vec![],
    };
    let c = ProcessStatistics {
        num_spots: 6,
        num_reads: 0,
        reads_per_segment: vec![9, 9],
        filter_size: vec![0, 0, 0, 4],
        filter_type: vec![2],
    };
    let left = a.clone().merge(b.clone()).merge(c.clone());
    let right = a.clone().merge(b.merge(c));
    assert_eq!(left.num_spots, right.num_spots);
    assert_eq!(left.num_reads, right.num_reads);
    assert_eq!(left.reads_per_segment, right.reads_per_segment);
    assert_eq!(left.filter_size, right.filter_size);
    assert_eq!(left.filter_type, right.filter_type);
    assert_eq!(left.reads_per_segment, vec![10, 11, 3]);

    let zero = ProcessStatistics {
        num_spots: 0,
        num_reads: 0,
        reads_per_segment: vec![],
        filter_size: vec![],
        filter_type: vec![],
    };
    let same = a.clone().merge(zero);
    assert_eq!(same.reads_per_segment, a.reads_per_segment);
    assert_eq!(same.filter_type, a.filter_type);
    assert_eq!(same.num_spots, 1);
}

#[test]
fn merge_with_default_pads_to_four() {
    let a = ProcessStatistics {
        num_spots: 2,
        num_reads: 1,
        reads_per_segment: vec![1],
        filter_size: vec![0],
        filter_type: vec![0],
    };
    let m = a.merge(ProcessStatistics::new());
    assert_eq!(m.reads_per_segment, vec![1, 0, 0, 0]);
    assert_eq!(m.num_spots, 2);
}
