use video_partitioner::files::classify_extension;
use video_partitioner::metadata::{
    build_video_metadata, parse_audio_codec, parse_bitrate, parse_duration, parse_resolution,
    parse_time_to_ms, parse_video_codec,
};

const PROBE_OUTPUT: &str = "Input #0, mov,mp4,m4a,3gp,3g2,mj2, from 'clip.mp4':\n  Duration: 00:01:30.50, start: 0.000000, bitrate: 5000 kb/s\n  Stream #0:0(und): Video: h264 (High), yuv420p, 1920x1080, 4800 kb/s\n  Stream #0:1(und): Audio: aac (LC), 48000 Hz, stereo\n";

#[test]
fn test_parse_time_to_ms_values() {
    assert_eq!(parse_time_to_ms("00:00:00"), 0);
    assert_eq!(parse_time_to_ms("00:01:01.5"), 61_500);
    assert_eq!(parse_time_to_ms("01:02:03.000"), 3_723_000);
    assert_eq!(parse_time_to_ms("00:01:30.50"), 90_500);
}

#[test]
fn test_parse_time_to_ms_malformed() {
    assert_eq!(parse_time_to_ms(""), 0);
    assert_eq!(parse_time_to_ms("12:34"), 0);
    assert_eq!(parse_time_to_ms("a:b:c"), 0);
    assert_eq!(parse_time_to_ms("1:2:3:4"), 0);
}

#[test]
fn test_parse_duration_from_probe() {
    assert_eq!(parse_duration(PROBE_OUTPUT), 90_500);
}

#[test]
fn test_parse_duration_absent() {
    assert_eq!(parse_duration("no timing information here\n"), 0);
}

#[test]
fn test_parse_resolution_from_probe() {
    assert_eq!(parse_resolution(PROBE_OUTPUT), (1920, 1080));
}

#[test]
fn test_parse_resolution_rejects_implausible() {
    let out = "Stream: Video: h264, 4x4, 99999x2\n";
    assert_eq!(parse_resolution(out), (0, 0));
}

#[test]
fn test_parse_video_codec_from_probe() {
    assert_eq!(parse_video_codec(PROBE_OUTPUT), "h264");
}

#[test]
fn test_parse_video_codec_absent() {
    assert_eq!(parse_video_codec("nothing\n"), "unknown");
}

#[test]
fn test_parse_audio_codec_from_probe() {
    assert_eq!(parse_audio_codec(PROBE_OUTPUT), Some("aac".to_string()));
}

#[test]
fn test_parse_audio_codec_absent() {
    assert_eq!(parse_audio_codec("Stream #0:0: Video: h264\n"), None);
}

#[test]
fn test_parse_bitrate_from_probe() {
    assert_eq!(parse_bitrate(PROBE_OUTPUT), 5_000_000);
}

#[test]
fn test_parse_bitrate_skips_unparsable_lines() {
    let out = "  Duration: N/A, bitrate: N/A\n  Stream bitrate: 128 kb/s\n";
    assert_eq!(parse_bitrate(out), 128_000);
}

#[test]
fn test_build_video_metadata_from_probe() {
    let meta = build_video_metadata(
        "/media/clip.mp4".to_string(),
        "clip.mp4".to_string(),
        123_456,
        "mp4".to_string(),
        PROBE_OUTPUT,
    );
    assert_eq!(meta.file_path, "/media/clip.mp4");
    assert_eq!(meta.file_name, "clip.mp4");
    assert_eq!(meta.file_size, 123_456);
    assert_eq!(meta.duration_ms, 90_500);
    assert_eq!(meta.width, 1920);
    assert_eq!(meta.height, 1080);
    assert_eq!(meta.video_codec, "h264");
    assert_eq!(meta.audio_codec, Some("aac".to_string()));
    assert_eq!(meta.bitrate, 5_000_000);
    assert_eq!(meta.format, "mp4");
}

#[test]
fn test_time_encoding_round_trip() {
    for ms in [0u64, 1, 999, 1_000, 61_500, 3_723_000, 359_999_999, 360_000_000] {
        let text = video_partitioner::timefmt::format_ffmpeg_time(ms);
        assert_eq!(parse_time_to_ms(&text), ms);
    }
}

#[test]
fn test_classify_extension_cases() {
    assert_eq!(classify_extension("mp4"), Some("video"));
    assert_eq!(classify_extension("MKV"), Some("video"));
    assert_eq!(classify_extension("jpg"), Some("image"));
    assert_eq!(classify_extension("JPeG"), Some("image"));
    assert_eq!(classify_extension("txt"), None);
    assert_eq!(classify_extension(""), None);
}
