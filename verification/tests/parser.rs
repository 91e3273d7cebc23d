use transcode_core::ffmpeg_parser::compute_percent;
use transcode_core::ffmpeg_parser::duration_from_banner;
use transcode_core::ffmpeg_parser::extract_value;
use transcode_core::ffmpeg_parser::parse_duration_from_info;
use transcode_core::ffmpeg_parser::parse_progress_line;
use transcode_core::ffmpeg_parser::parse_progress_time;
use transcode_core::ffmpeg_parser::parse_time_to_seconds;

#[test]
fn test_parse_time_to_seconds() {
    assert_eq!(parse_time_to_seconds("00:00:00.00").unwrap(), 0);
    assert_eq!(parse_time_to_seconds("00:00:01.00").unwrap(), 1000);
    assert_eq!(parse_time_to_seconds("00:01:00.00").unwrap(), 60 * 1000);
    assert_eq!(parse_time_to_seconds("01:00:00.00").unwrap(), 3600 * 1000);
    assert_eq!(parse_time_to_seconds("01:23:45.67").unwrap(), 5025670);
    assert_eq!(parse_time_to_seconds("00:05:23.45").unwrap(), 323450);
}

#[test]
fn test_parse_time_formula() {
    // the round-trip formula: H * 3600 + M * 60 + S, in milliseconds
    assert_eq!(
        parse_time_to_seconds("01:23:45.67").unwrap(),
        (1 * 3600 + 23 * 60 + 45) * 1000 + 670
    );
    assert_eq!(
        parse_time_to_seconds("12:34:56").unwrap(),
        (12 * 3600 + 34 * 60 + 56) * 1000
    );
    // hours may exceed two digits
    assert_eq!(
        parse_time_to_seconds("100:00:00.5").unwrap(),
        100 * 3600 * 1000 + 500
    );
}

#[test]
fn test_parse_time_rejects_malformed() {
    assert_eq!(parse_time_to_seconds(""), None);
    assert_eq!(parse_time_to_seconds("00:00"), None);
    assert_eq!(parse_time_to_seconds("00:00:00:00"), None);
    assert_eq!(parse_time_to_seconds("aa:00:00"), None);
    assert_eq!(parse_time_to_seconds("00:b0:00"), None);
    assert_eq!(parse_time_to_seconds("00:00:cc"), None);
    assert_eq!(parse_time_to_seconds("00:00:00.x"), None);
    assert_eq!(parse_time_to_seconds(":00:00"), None);
    assert_eq!(parse_time_to_seconds("00::00"), None);
    assert_eq!(parse_time_to_seconds("00:00:"), None);
}

#[test]
fn test_parse_duration_from_info() {
    let line = "  Duration: 00:05:23.45, start: 0.000000, bitrate: 1234 kb/s";
    assert_eq!(parse_duration_from_info(line), Some(323450));

    let line2 = "  Duration: 01:23:45.67, start: 0.000000, bitrate: 1234 kb/s";
    assert_eq!(parse_duration_from_info(line2), Some(5025670));

    let line3 = "Some other line without duration";
    assert_eq!(parse_duration_from_info(line3), None);
}

#[test]
fn test_duration_from_banner_first_line_wins() {
    let banner = vec![
        "Input #0, mov,mp4,m4a,3gp,3g2,mj2, from 'in.mp4':".to_string(),
        "  Duration: 00:05:23.45, start: 0.000000, bitrate: 1234 kb/s".to_string(),
        "  Duration: 01:23:45.67, start: 0.000000, bitrate: 1234 kb/s".to_string(),
    ];
    assert_eq!(duration_from_banner(&banner), Some(323450));
    let no_duration = vec!["Stream mapping:".to_string(), "Press [q] to stop".to_string()];
    assert_eq!(duration_from_banner(&no_duration), None);
    assert_eq!(duration_from_banner(&Vec::new()), None);
}

#[test]
fn test_parse_progress_line() {
    // Test complete progress line
    let line = "frame=  123 fps= 25 q=28.0 size=    1024kB time=00:00:05.12 bitrate= 100.0kbits/s speed=1.25x";
    let progress = parse_progress_line(line).unwrap();
    assert_eq!(progress.time_ms, 5120);
    assert_eq!(progress.frame, Some(123));
    assert_eq!(progress.fps_milli, Some(25000));
    assert_eq!(progress.size, Some("1024kB".to_string()));
    assert_eq!(progress.bitrate, Some("100.0kbits/s".to_string()));
    assert_eq!(progress.speed_milli, Some(1250));

    // Test minimal progress line
    let line2 = "time=00:00:10.00";
    let progress2 = parse_progress_line(line2).unwrap();
    assert_eq!(progress2.time_ms, 10000);
    assert_eq!(progress2.frame, None);

    // Test line without time
    let line3 = "frame=  123 fps= 25";
    assert_eq!(parse_progress_line(line3), None);

    // Test real encoder output variations
    let line4 = "frame=  456 fps=0.0 q=28.0 size=       0kB time=00:00:00.00 bitrate=N/A speed=   0x";
    let progress4 = parse_progress_line(line4).unwrap();
    assert_eq!(progress4.time_ms, 0);
    assert_eq!(progress4.frame, Some(456));
    assert_eq!(progress4.fps_milli, Some(0));

    // Test with extra spaces (common in encoder output)
    let line5 = "frame=   10 fps= 0 q=0.0 size=       0kB time=00:00:00.41 bitrate=   0.0kbits/s speed=0.835x";
    let progress5 = parse_progress_line(line5).unwrap();
    assert_eq!(progress5.time_ms, 410);
    assert_eq!(progress5.frame, Some(10));
    assert_eq!(progress5.speed_milli, Some(835));
}

#[test]
fn test_parse_progress_line_unreadable_time_is_no_progress() {
    assert_eq!(parse_progress_line("time=abc frame=1"), None);
    assert_eq!(parse_progress_line("time= 00:00:05.12"), None);
}

#[test]
fn test_extract_value() {
    assert_eq!(extract_value("time=00:00:05.12 bitrate=", "time=", " "), Some("00:00:05.12"));
    assert_eq!(extract_value("speed=1.25x", "speed=", "x"), Some("1.25"));
    assert_eq!(extract_value("fps= 25 ", "fps=", " "), Some(""));
    assert_eq!(extract_value("fps= 25 q=28.0", "fps=", " "), Some(""));
    assert_eq!(extract_value("frame=  123 fps=", "frame=", " "), Some(""));
}

#[test]
fn test_extract_value_missing_and_trimmed() {
    assert_eq!(extract_value("frame=  123", "time=", " "), None);
    assert_eq!(extract_value("time=00:00:05.12", "time=", ","), None);
    assert_eq!(extract_value("time=  00:00:05.12  ", "time=", ""), Some("00:00:05.12"));
}

#[test]
fn test_parse_progress_time() {
    assert_eq!(parse_progress_time("out_time=00:00:05.120000"), Some(5120));
    assert_eq!(parse_progress_time("out_time=00:01:30.500000"), Some(90500));
    assert_eq!(parse_progress_time("out_time=01:23:45.670000"), Some(5025670));
    assert_eq!(parse_progress_time("frame=123"), None);
    assert_eq!(parse_progress_time("speed=1.25x"), None);
}

#[test]
fn test_compute_percent_clamps_at_100() {
    // 150 seconds into a 100-second file reads as exactly 100 percent
    assert_eq!(compute_percent(150_000, 100_000), 100);
    assert_eq!(compute_percent(100_000, 100_000), 100);
    assert_eq!(compute_percent(50_000, 100_000), 50);
    assert_eq!(compute_percent(5_120, 10_000), 51);
    // unknown or zero duration reads as no progress
    assert_eq!(compute_percent(5_000, 0), 0);
    assert_eq!(compute_percent(0, 100_000), 0);
}
