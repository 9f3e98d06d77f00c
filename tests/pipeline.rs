use superview::probe::{Specs, Stream};
use superview::reencode;
use superview::{codec_support, Error, Event, Session, Step};

fn stream(width: u32, height: u32, bitrate: u32) -> Stream {
    Stream { codec_name: "h264".to_string(), width, height, duration_us: 150_000_000, bitrate }
}

fn to_reencode(bitrate: Option<u32>) -> Session {
    let s = Session::new("in.mp4".to_string(), "out.mp4".to_string(), bitrate);
    let s = s.advance(Event::InputOpened);
    let s = s.advance(Event::CodecsListed);
    let s = s.advance(Event::Probed(Specs { streams: vec![stream(1920, 1080, 4_000_000)] }));
    s.advance(Event::FiltersWritten { x_path: "x.pgm".to_string(), y_path: "y.pgm".to_string() })
}

#[test]
fn missing_input_fails_before_probe() {
    let s = Session::new("missing.mp4".to_string(), "output.mp4".to_string(), None);
    assert!(matches!(s.step, Step::OpenInput));
    let s = s.advance(Event::InputOpenFailed { message: "No such file or directory".to_string() });
    assert!(s.is_done());
    match &s.step {
        Step::Failed(Error::OpenInput { input, message }) => {
            assert_eq!(input, "missing.mp4");
            assert_eq!(message, "No such file or directory");
        }
        _ => panic!("expected an open failure"),
    }
    let s = s.advance(Event::Probed(Specs { streams: vec![stream(1920, 1080, 1)] }));
    assert!(matches!(s.step, Step::Failed(Error::OpenInput { .. })));
}

#[test]
fn engine_exit_one_is_transcode_failure() {
    let s = to_reencode(None);
    assert!(matches!(s.step, Step::Reencode(_)));
    let outcome = reencode::exit_outcome(Some(1));
    let s = match outcome {
        Ok(()) => s.advance(Event::Reencoded),
        Err(e) => s.advance(Event::ReencodeFailed(e)),
    };
    assert!(matches!(
        s.step,
        Step::Failed(Error::Reencode { source: reencode::Error::FfmpegError { status: Some(1) } })
    ));
    let s = s.advance(Event::FiltersWritten { x_path: "x".to_string(), y_path: "y".to_string() });
    assert!(matches!(s.step, Step::Failed(Error::Reencode { .. })));
}

#[test]
fn full_run_plans_superview_geometry() {
    let s = Session::new("in.mp4".to_string(), "out.mp4".to_string(), None);
    let s = s.advance(Event::InputOpened);
    assert!(matches!(s.step, Step::ListCodecs));
    let s = s.advance(Event::CodecsListed);
    assert!(matches!(s.step, Step::Probe));
    let s = s.advance(Event::Probed(Specs { streams: vec![stream(1920, 1080, 4_000_000), stream(640, 480, 1)] }));
    match &s.step {
        Step::GenerateFilters { filter, codec_name, bitrate, duration_us } => {
            assert_eq!((filter.width, filter.height, filter.target_width), (1920, 1080, 2560));
            assert_eq!(codec_name, "h264");
            assert_eq!(*bitrate, 4_000_000);
            assert_eq!(*duration_us, 150_000_000);
        }
        _ => panic!("expected filter generation"),
    }
    let s = s.advance(Event::FiltersWritten { x_path: "x.pgm".to_string(), y_path: "y.pgm".to_string() });
    match &s.step {
        Step::Reencode(c) => {
            assert_eq!(c.input, "in.mp4");
            assert_eq!(c.output, "out.mp4");
            assert_eq!(c.x_filt, "x.pgm");
            assert_eq!(c.y_filt, "y.pgm");
            assert_eq!(c.bitrate, 4_000_000);
        }
        _ => panic!("expected transcoding"),
    }
    let s = s.advance(Event::Reencoded);
    assert!(matches!(s.step, Step::Finished));
    assert!(s.is_done());
}

#[test]
fn bitrate_override_wins() {
    let s = to_reencode(Some(1_000));
    match &s.step {
        Step::Reencode(c) => assert_eq!(c.bitrate, 1_000),
        _ => panic!("expected transcoding"),
    }
}

#[test]
fn no_video_stream_fails() {
    let s = Session::new("a.mp3".to_string(), "out.mp4".to_string(), None)
        .advance(Event::InputOpened)
        .advance(Event::CodecsListed)
        .advance(Event::Probed(Specs { streams: vec![] }));
    assert!(matches!(s.step, Step::Failed(Error::NoVideoStream { .. })));
}

#[test]
fn codec_listing_failures() {
    let s = Session::new("a".to_string(), "b".to_string(), None).advance(Event::InputOpened);
    let s = s.advance(Event::CodecsNotUtf8);
    match &s.step {
        Step::Failed(Error::InvalidUtf8 { what }) => assert_eq!(what, "codec list"),
        _ => panic!("expected a UTF-8 failure"),
    }
    let s = Session::new("a".to_string(), "b".to_string(), None)
        .advance(Event::InputOpened)
        .advance(Event::CodecsFailed { message: "not found".to_string() });
    assert!(matches!(s.step, Step::Failed(Error::GetCodecs { .. })));
}

#[test]
fn unexpected_event_keeps_step() {
    let s = Session::new("a".to_string(), "b".to_string(), None).advance(Event::Reencoded);
    assert!(matches!(s.step, Step::OpenInput));
    assert!(!s.is_done());
}

#[test]
fn codec_support_finds_names() {
    assert_eq!(codec_support(b" DEV.LS h264  H.264 / AVC\n DEV.L. hevc H.265 / HEVC"), (true, true));
    assert_eq!(codec_support(b"H.264"), (true, false));
    assert_eq!(codec_support(b"H.26"), (false, false));
    assert_eq!(codec_support(b""), (false, false));
}
