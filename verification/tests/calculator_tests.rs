use video_partitioner::calculator::{calculate_partition_points, total_excluded_duration};
use video_partitioner::models::{TimeInterval, VideoMetadata};

fn make_metadata(file_size: u64, duration_ms: u64) -> VideoMetadata {
    VideoMetadata {
        file_path: String::new(),
        file_name: String::new(),
        file_size,
        duration_ms,
        width: 1920,
        height: 1080,
        video_codec: "h264".to_string(),
        audio_codec: None,
        bitrate: 0,
        format: "mp4".to_string(),
    }
}

#[test]
fn test_no_exclusions_even_split() {
    let metadata = make_metadata(10_737_418_240, 100_000); // 10 GB, 100s
    let target = 4_294_967_296; // 4 GB
    let points = calculate_partition_points(&metadata, target, &[]);

    assert_eq!(points.len(), 3);
    assert_eq!(points[0].index, 0);
    assert_eq!(points[2].index, 2);
}

#[test]
fn test_with_exclusions() {
    let metadata = make_metadata(10_737_418_240, 100_000); // 10 GB, 100s
    let target = 4_294_967_296; // 4 GB
    let exclusions = vec![TimeInterval { start_ms: 20_000, end_ms: 40_000 }]; // 20s excluded => 80s effective => ~8GB
    let points = calculate_partition_points(&metadata, target, &exclusions);

    assert_eq!(points.len(), 2);
}

#[test]
fn test_total_excluded_duration() {
    let exclusions = vec![
        TimeInterval { start_ms: 0, end_ms: 10_000 },
        TimeInterval { start_ms: 50_000, end_ms: 60_000 },
    ];
    let total = total_excluded_duration(&exclusions);
    assert_eq!(total, 20_000);
}

#[test]
fn test_partitions_tile_effective_timeline() {
    let metadata = make_metadata(10_737_418_240, 100_000);
    let target = 4_294_967_296;
    let points = calculate_partition_points(&metadata, target, &[]);

    assert_eq!(points[0].start_ms, 0);
    for w in points.windows(2) {
        assert_eq!(w[0].end_ms, w[1].start_ms);
    }
    assert_eq!(points.last().unwrap().end_ms, 100_000);
}

#[test]
fn test_estimated_sizes_are_proportional() {
    let metadata = make_metadata(9_000_000, 90_000);
    let target = 3_000_000;
    let points = calculate_partition_points(&metadata, target, &[]);

    assert_eq!(points.len(), 3);
    for p in &points {
        assert_eq!(p.estimated_size_bytes, 3_000_000);
    }
}

#[test]
fn test_degenerate_zero_file_size() {
    let metadata = make_metadata(0, 100_000);
    let points = calculate_partition_points(&metadata, 1000, &[]);
    assert!(points.is_empty());
}

#[test]
fn test_degenerate_zero_target() {
    let metadata = make_metadata(1000, 100_000);
    let points = calculate_partition_points(&metadata, 0, &[]);
    assert!(points.is_empty());
}

#[test]
fn test_degenerate_exclusions_cover_everything() {
    let metadata = make_metadata(1000, 100_000);
    let exclusions = vec![TimeInterval { start_ms: 0, end_ms: 100_000 }];
    let points = calculate_partition_points(&metadata, 100, &exclusions);
    assert!(points.is_empty());
}

#[test]
fn test_degenerate_zero_duration() {
    let metadata = make_metadata(1000, 0);
    let points = calculate_partition_points(&metadata, 100, &[]);
    assert!(points.is_empty());
}
