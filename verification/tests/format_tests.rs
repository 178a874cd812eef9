use video_partitioner::timefmt::{format_ffmpeg_time, u64_to_string};

#[test]
fn test_format_zero() {
    assert_eq!(format_ffmpeg_time(0), "00:00:00.000");
}

#[test]
fn test_format_minutes_seconds() {
    assert_eq!(format_ffmpeg_time(61_500), "00:01:01.500");
}

#[test]
fn test_format_hours() {
    assert_eq!(format_ffmpeg_time(3_723_000), "01:02:03.000");
}

#[test]
fn test_format_millisecond_padding() {
    assert_eq!(format_ffmpeg_time(1), "00:00:00.001");
    assert_eq!(format_ffmpeg_time(42), "00:00:00.042");
    assert_eq!(format_ffmpeg_time(999), "00:00:00.999");
}

#[test]
fn test_format_large_hours() {
    // Hours keep growing past two digits.
    assert_eq!(format_ffmpeg_time(360_000_000), "100:00:00.000");
}

#[test]
fn test_decimal_rendering() {
    assert_eq!(u64_to_string(0), "0");
    assert_eq!(u64_to_string(7), "7");
    assert_eq!(u64_to_string(105), "105");
    assert_eq!(u64_to_string(18_446_744_073_709_551_615), "18446744073709551615");
}
