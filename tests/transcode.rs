use superview::reencode::{engine_args, exit_outcome, progress_hundredths, Config, Error};

#[test]
fn progress_line_full_marker() {
    // 1500000 / (150.0 * 10000) = 1.0, that is 100 hundredths
    assert_eq!(progress_hundredths(b"out_time_ms=1500000", 150_000_000), Some(100));
    assert_eq!(progress_hundredths(b"out_time_ms=75000000", 150_000_000), Some(5000));
    assert_eq!(progress_hundredths(b"out_time_ms=1", 3_000_000), Some(0));
}

#[test]
fn progress_ignores_other_lines() {
    assert_eq!(progress_hundredths(b"frame=10", 150_000_000), None);
    assert_eq!(progress_hundredths(b"out_time=00:00:01.500000", 150_000_000), None);
    assert_eq!(progress_hundredths(b"", 150_000_000), None);
    assert_eq!(progress_hundredths(b" out_time_ms=5", 150_000_000), None);
}

#[test]
fn progress_malformed_value_is_zero() {
    assert_eq!(progress_hundredths(b"out_time_ms=N/A", 150_000_000), Some(0));
    assert_eq!(progress_hundredths(b"out_time_ms=", 150_000_000), Some(0));
    assert_eq!(progress_hundredths(b"out_time_ms=-", 150_000_000), Some(0));
    assert_eq!(progress_hundredths(b"out_time_ms=-3000000", 150_000_000), Some(-200));
    assert_eq!(progress_hundredths(b"out_time_ms=5", 0), Some(0));
}

#[test]
fn exit_status_one_is_failure() {
    assert!(matches!(exit_outcome(Some(1)), Err(Error::FfmpegError { status: Some(1) })));
    assert!(matches!(exit_outcome(None), Err(Error::FfmpegError { status: None })));
    assert!(exit_outcome(Some(0)).is_ok());
}

#[test]
fn engine_arguments() {
    let c = Config {
        input: "in.mp4".to_string(),
        output: "out.mp4".to_string(),
        x_filt: "/tmp/x.pgm".to_string(),
        y_filt: "/tmp/y.pgm".to_string(),
        codec_name: "hevc".to_string(),
        bitrate: 4_000_000,
        duration_us: 1,
    };
    let args = engine_args(&c);
    let expected = [
        "-hide_banner", "-progress", "pipe:1", "-loglevel", "panic", "-y", "-re",
        "-i", "in.mp4", "-f", "pgm_pipe", "-i", "/tmp/x.pgm", "-f", "pgm_pipe", "-i", "/tmp/y.pgm",
        "-filter_complex", "remap,format=yuv444p,format=yuv420p", "-c:v", "hevc", "-b:v", "4000000",
        "-c:a", "copy", "-x265-params", "log-level=error", "out.mp4",
    ];
    assert_eq!(args, expected.iter().map(|s| s.to_string()).collect::<Vec<String>>());
}
