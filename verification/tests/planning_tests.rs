use video_partitioner::models::TimeInterval;
use video_partitioner::naming::{
    frame_file_name, output_file_name, temp_segment_name, thumbnail_file_name,
};
use video_partitioner::splitter::{concat_list_content, extraction_succeeded, plan_split};
use video_partitioner::thumbnails::thumbnail_timestamps;

#[test]
fn test_output_and_temp_names() {
    assert_eq!(output_file_name("clip", "mp4", 1), "clip_part1.mp4");
    assert_eq!(output_file_name("clip", "mkv", 12), "clip_part12.mkv");
    assert_eq!(temp_segment_name("clip", "mp4", 2, 0), "_temp_clip_p2_s0.mp4");
    assert_eq!(thumbnail_file_name(7), "thumb_0007.jpg");
    assert_eq!(frame_file_name("clip", 3_723_000), "clip_frame_01_02_03.000.jpg");
}

#[test]
fn test_concat_list_content_escapes_backslashes() {
    let paths = vec!["a.mp4".to_string(), "C:\\out\\b.mp4".to_string()];
    let content = concat_list_content(&paths);
    assert_eq!(content, "file 'a.mp4'\nfile 'C:/out/b.mp4'\n");
}

#[test]
fn test_extraction_succeeded_cases() {
    assert!(extraction_succeeded(Some(0), false));
    assert!(!extraction_succeeded(Some(1), true));
    assert!(extraction_succeeded(None, true));
    assert!(!extraction_succeeded(None, false));
}

#[test]
fn test_plan_split_scenario() {
    // 100s file, 10 GB, 4 GB target, 20s excluded: two partitions; the first
    // needs two extractions and a concatenation, the second extracts directly.
    let exclusions = vec![TimeInterval { start_ms: 20_000, end_ms: 40_000 }];
    let plan = plan_split(
        100_000,
        10_737_418_240,
        4_294_967_296,
        &exclusions,
        "clip",
        "mp4",
    )
    .expect("plan expected");

    assert_eq!(plan.jobs.len(), 2);

    let first = &plan.jobs[0];
    assert_eq!(first.index, 0);
    assert_eq!(first.output_name, "clip_part1.mp4");
    assert!(first.needs_concat);
    assert_eq!(first.extracts.len(), 2);
    assert_eq!(first.extracts[0].dest_name, "_temp_clip_p1_s0.mp4");
    assert_eq!(first.extracts[1].dest_name, "_temp_clip_p1_s1.mp4");
    assert_eq!(
        (first.extracts[0].segment.start_ms, first.extracts[0].segment.end_ms),
        (0, 20_000)
    );
    assert_eq!(
        (first.extracts[1].segment.start_ms, first.extracts[1].segment.end_ms),
        (40_000, 60_000)
    );

    let second = &plan.jobs[1];
    assert_eq!(second.index, 1);
    assert_eq!(second.output_name, "clip_part2.mp4");
    assert!(!second.needs_concat);
    assert_eq!(second.extracts.len(), 1);
    assert_eq!(second.extracts[0].dest_name, "clip_part2.mp4");
    assert_eq!(
        (second.extracts[0].segment.start_ms, second.extracts[0].segment.end_ms),
        (60_000, 100_000)
    );
}

#[test]
fn test_plan_split_rejects_degenerate_request() {
    assert!(plan_split(100_000, 0, 4_294_967_296, &[], "clip", "mp4").is_none());
    assert!(plan_split(100_000, 1000, 0, &[], "clip", "mp4").is_none());
    let all = vec![TimeInterval { start_ms: 0, end_ms: 100_000 }];
    assert!(plan_split(100_000, 1000, 100, &all, "clip", "mp4").is_none());
}

#[test]
fn test_single_partition_still_numbered() {
    let plan = plan_split(10_000, 1000, 2000, &[], "clip", "mp4").expect("plan expected");
    assert_eq!(plan.jobs.len(), 1);
    assert_eq!(plan.jobs[0].output_name, "clip_part1.mp4");
}

#[test]
fn test_thumbnail_timestamps_midpoints() {
    let ts = thumbnail_timestamps(100_000, 4);
    assert_eq!(ts, vec![12_500, 37_500, 62_500, 87_500]);
}
