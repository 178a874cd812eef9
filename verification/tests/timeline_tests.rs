use video_partitioner::models::TimeInterval;
use video_partitioner::timeline::{
    compute_included_intervals, map_partition_to_original_segments,
};

#[test]
fn test_included_intervals_no_exclusions() {
    let included = compute_included_intervals(&[], 100_000);
    assert_eq!(included.len(), 1);
    assert_eq!(included[0].start_ms, 0);
    assert_eq!(included[0].end_ms, 100_000);
}

#[test]
fn test_included_intervals_single_exclusion() {
    let exclusions = vec![TimeInterval { start_ms: 20_000, end_ms: 40_000 }];
    let included = compute_included_intervals(&exclusions, 100_000);
    assert_eq!(included.len(), 2);
    assert_eq!((included[0].start_ms, included[0].end_ms), (0, 20_000));
    assert_eq!((included[1].start_ms, included[1].end_ms), (40_000, 100_000));
}

#[test]
fn test_included_intervals_overlapping_unsorted() {
    // Overlapping and unsorted exclusions, one nested in another.
    let exclusions = vec![
        TimeInterval { start_ms: 50_000, end_ms: 70_000 },
        TimeInterval { start_ms: 10_000, end_ms: 30_000 },
        TimeInterval { start_ms: 15_000, end_ms: 25_000 },
    ];
    let included = compute_included_intervals(&exclusions, 100_000);
    assert_eq!(included.len(), 3);
    assert_eq!((included[0].start_ms, included[0].end_ms), (0, 10_000));
    assert_eq!((included[1].start_ms, included[1].end_ms), (30_000, 50_000));
    assert_eq!((included[2].start_ms, included[2].end_ms), (70_000, 100_000));
}

#[test]
fn test_mapping_scenario() {
    // duration 100s, exclusion [20s, 40s): effective duration 80s,
    // two even partitions of 40s each.
    let exclusions = vec![TimeInterval { start_ms: 20_000, end_ms: 40_000 }];
    let included = compute_included_intervals(&exclusions, 100_000);

    let first = map_partition_to_original_segments(0, 40_000, &included);
    assert_eq!(first.len(), 2);
    assert_eq!((first[0].start_ms, first[0].end_ms), (0, 20_000));
    assert_eq!((first[1].start_ms, first[1].end_ms), (40_000, 60_000));

    let second = map_partition_to_original_segments(40_000, 80_000, &included);
    assert_eq!(second.len(), 1);
    assert_eq!((second[0].start_ms, second[0].end_ms), (60_000, 100_000));
}

#[test]
fn test_mapped_segments_sum_to_partition_length() {
    let exclusions = vec![
        TimeInterval { start_ms: 5_000, end_ms: 12_000 },
        TimeInterval { start_ms: 30_000, end_ms: 31_000 },
        TimeInterval { start_ms: 60_000, end_ms: 90_000 },
    ];
    let included = compute_included_intervals(&exclusions, 120_000);
    let segments = map_partition_to_original_segments(7_000, 50_000, &included);

    let total: u64 = segments.iter().map(|s| s.end_ms - s.start_ms).sum();
    assert_eq!(total, 43_000);
}

#[test]
fn test_mapped_segments_strictly_increasing() {
    let exclusions = vec![
        TimeInterval { start_ms: 10_000, end_ms: 20_000 },
        TimeInterval { start_ms: 40_000, end_ms: 45_000 },
    ];
    let included = compute_included_intervals(&exclusions, 60_000);
    let segments = map_partition_to_original_segments(0, 45_000, &included);

    assert!(!segments.is_empty());
    for s in &segments {
        assert!(s.start_ms < s.end_ms);
    }
    for w in segments.windows(2) {
        assert!(w[0].end_ms <= w[1].start_ms);
    }
}

#[test]
fn test_included_intervals_exclusion_past_duration() {
    // An exclusion reaching past the end swallows the tail; no interval is
    // emitted beyond the cursor.
    let exclusions = vec![TimeInterval { start_ms: 80_000, end_ms: 200_000 }];
    let included = compute_included_intervals(&exclusions, 100_000);
    assert_eq!(included.len(), 1);
    assert_eq!((included[0].start_ms, included[0].end_ms), (0, 80_000));
}

#[test]
fn test_included_intervals_adjacent_exclusions() {
    let exclusions = vec![
        TimeInterval { start_ms: 10_000, end_ms: 20_000 },
        TimeInterval { start_ms: 20_000, end_ms: 30_000 },
    ];
    let included = compute_included_intervals(&exclusions, 50_000);
    assert_eq!(included.len(), 2);
    assert_eq!((included[0].start_ms, included[0].end_ms), (0, 10_000));
    assert_eq!((included[1].start_ms, included[1].end_ms), (30_000, 50_000));
}

#[test]
fn test_mapping_range_beyond_effective_timeline() {
    // Only 10s of effective time exists; a range reaching past it maps to
    // what is there.
    let exclusions = vec![TimeInterval { start_ms: 0, end_ms: 90_000 }];
    let included = compute_included_intervals(&exclusions, 100_000);
    let segments = map_partition_to_original_segments(0, 20_000, &included);
    assert_eq!(segments.len(), 1);
    assert_eq!((segments[0].start_ms, segments[0].end_ms), (90_000, 100_000));
}
