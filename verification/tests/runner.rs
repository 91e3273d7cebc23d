use transcode_core::ffmpeg::ConversionJob;
use transcode_core::ffmpeg::JobStatus;
use transcode_core::ffmpeg::VideoPreset;
use transcode_core::runner::StreamMonitor;
use transcode_core::runner::build_conversion_args;
use transcode_core::runner::build_thumbnail_args;
use transcode_core::runner::failure_message;
use transcode_core::runner::handle_stdout_line;
use transcode_core::runner::normalize_output_path;
use transcode_core::runner::thumbnail_data_url;
use transcode_core::runner::thumbnail_file_name;
use transcode_core::runner::thumbnail_time_offset;
use transcode_core::text::u64_to_string;

fn preset(name: &str, bitrate: Option<&str>, crf: Option<u8>, scale: Option<&str>) -> VideoPreset {
    VideoPreset {
        name: name.to_string(),
        description: "test".to_string(),
        video_codec: "libx264".to_string(),
        audio_codec: "aac".to_string(),
        bitrate: bitrate.map(|s| s.to_string()),
        crf,
        scale: scale.map(|s| s.to_string()),
    }
}

#[test]
fn test_preset_args_high() {
    let p = preset("High", None, Some(18), None);
    assert_eq!(
        p.to_ffmpeg_args(),
        vec!["-c:v", "libx264", "-c:a", "aac", "-crf", "18", "-preset", "medium"]
    );
}

#[test]
fn test_preset_args_web_has_faststart() {
    let p = preset("Web", Some("2M"), Some(28), None);
    assert_eq!(
        p.to_ffmpeg_args(),
        vec![
            "-c:v", "libx264", "-c:a", "aac", "-crf", "28", "-b:v", "2M", "-movflags",
            "+faststart", "-preset", "medium"
        ]
    );
}

#[test]
fn test_preset_args_mobile_has_scale() {
    let p = preset("Mobile", Some("1M"), Some(30), Some("720:-1"));
    assert_eq!(
        p.to_ffmpeg_args(),
        vec![
            "-c:v", "libx264", "-c:a", "aac", "-crf", "30", "-b:v", "1M", "-vf", "scale=720:-1",
            "-preset", "medium"
        ]
    );
}

#[test]
fn test_get_presets_catalog() {
    let presets = VideoPreset::get_presets();
    assert_eq!(presets.len(), 4);
    let names: Vec<&str> = presets.iter().map(|p| p.name.as_str()).collect();
    assert_eq!(names, vec!["High", "Balanced", "Web", "Mobile"]);
    assert_eq!(presets[0].crf, Some(18));
    assert_eq!(presets[1].crf, Some(23));
    assert_eq!(presets[2].bitrate.as_deref(), Some("2M"));
    assert_eq!(presets[3].scale.as_deref(), Some("720:-1"));
}

#[test]
fn test_normalize_output_path_substitutes_nbsp() {
    assert_eq!(normalize_output_path("/out/My\u{a0}Movie.mp4"), "/out/My Movie.mp4");
    assert_eq!(normalize_output_path("/out/plain.mp4"), "/out/plain.mp4");
    assert_eq!(normalize_output_path(""), "");
}

#[test]
fn test_build_conversion_args_shape() {
    let job = ConversionJob {
        id: "a".to_string(),
        input_path: "/in/a\u{a0}b.mov".to_string(),
        output_path: "/out/a\u{a0}b.mp4".to_string(),
        preset: preset("High", None, Some(18), None),
        status: JobStatus::Ready,
        progress: 0,
        duration_ms: None,
        error: None,
        status_message: None,
        thumbnail_path: None,
    };
    let args = build_conversion_args(&job);
    assert_eq!(
        args,
        vec![
            "-i",
            "/in/a\u{a0}b.mov", // input path used verbatim
            "-progress",
            "pipe:2",
            "-stats",
            "-y",
            "-c:v",
            "libx264",
            "-c:a",
            "aac",
            "-crf",
            "18",
            "-preset",
            "medium",
            "/out/a b.mp4", // output path normalized
        ]
    );
}

#[test]
fn test_build_thumbnail_args_shape() {
    let args = build_thumbnail_args("/in/a.mov", "/cache/a.jpg", "32.345");
    assert_eq!(
        args,
        vec![
            "-ss", "32.345", "-i", "/in/a.mov", "-vframes", "1", "-vf", "scale=320:-1", "-y",
            "/cache/a.jpg"
        ]
    );
}

#[test]
fn test_thumbnail_helpers() {
    assert_eq!(thumbnail_file_name("job-1"), "job-1.jpg");
    // a tenth of the duration, rendered in seconds
    assert_eq!(thumbnail_time_offset(323_450), "32.345");
    assert_eq!(thumbnail_time_offset(10_000), "1.000");
    assert_eq!(thumbnail_time_offset(500), "0.050");
    assert_eq!(thumbnail_time_offset(0), "0.000");
}

#[test]
fn test_u64_rendering() {
    assert_eq!(u64_to_string(0), "0");
    assert_eq!(u64_to_string(42), "42");
    assert_eq!(u64_to_string(18_446_744_073_709_551_615), "18446744073709551615");
}

#[test]
fn test_stream_monitor_retains_diagnostics() {
    let mut mon = StreamMonitor::new();
    assert_eq!(mon.last_error_line, None);
    mon.handle_stderr_line("frame=  1 fps= 0", None);
    assert_eq!(mon.last_error_line, None);
    mon.handle_stderr_line("Error while decoding stream #0:0", None);
    assert_eq!(mon.last_error_line.as_deref(), Some("Error while decoding stream #0:0"));
    // case-insensitive, and the latest candidate wins
    mon.handle_stderr_line("something INVALID happened", None);
    assert_eq!(mon.last_error_line.as_deref(), Some("something INVALID happened"));
    mon.handle_stderr_line("ordinary banner text", None);
    assert_eq!(mon.last_error_line.as_deref(), Some("something INVALID happened"));
}

#[test]
fn test_stream_progress_both_grammars() {
    let mut mon = StreamMonitor::new();
    // the machine grammar is read on the error stream
    assert_eq!(mon.handle_stderr_line("out_time=00:00:05.000000", Some(10_000)), Some(50));
    // the stats grammar too
    assert_eq!(
        mon.handle_stderr_line("frame= 1 time=00:00:07.50 speed=1x", Some(10_000)),
        Some(75)
    );
    // the stats grammar finds its `time=` key even inside `out_time=`
    assert_eq!(handle_stdout_line("time=00:00:05.00", Some(10_000)), Some(50));
    assert_eq!(handle_stdout_line("out_time=00:00:05.000000", Some(10_000)), Some(50));
    // standard output knows no other grammar
    assert_eq!(handle_stdout_line("frame=123", Some(10_000)), None);
    // unknown duration reads as no progress
    assert_eq!(handle_stdout_line("time=00:00:05.00", None), Some(0));
    // progress clamps at 100
    assert_eq!(mon.handle_stderr_line("out_time=00:00:30.000000", Some(10_000)), Some(100));
}

#[test]
fn test_failure_message() {
    assert_eq!(
        failure_message(&Some("Error while decoding".to_string())),
        "FFmpeg conversion failed: Error while decoding"
    );
    assert_eq!(failure_message(&None), "FFmpeg conversion failed with unknown error");
}

#[test]
fn test_thumbnail_data_url_encodes_bytes() {
    let bytes: Vec<u8> = vec![1, 2, 3];
    assert_eq!(thumbnail_data_url(&bytes), "data:image/jpeg;base64,AQID");
    let empty: Vec<u8> = Vec::new();
    assert_eq!(thumbnail_data_url(&empty), "data:image/jpeg;base64,");
    let pad: Vec<u8> = vec![255];
    assert_eq!(thumbnail_data_url(&pad), "data:image/jpeg;base64,/w==");
}
