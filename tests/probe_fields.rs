use superview::probe::{parse_bitrate, parse_duration_us, Error, Stream};

#[test]
fn duration_decimal_seconds() {
    assert_eq!(parse_duration_us(b"150.000000"), Some(150_000_000));
    assert_eq!(parse_duration_us(b"12.3456789"), Some(12_345_678));
    assert_eq!(parse_duration_us(b"7"), Some(7_000_000));
    assert_eq!(parse_duration_us(b".5"), Some(500_000));
    assert_eq!(parse_duration_us(b"3."), Some(3_000_000));
    assert_eq!(parse_duration_us(b"0.000001"), Some(1));
}

#[test]
fn duration_rejects_non_numbers() {
    assert_eq!(parse_duration_us(b""), None);
    assert_eq!(parse_duration_us(b"."), None);
    assert_eq!(parse_duration_us(b"N/A"), None);
    assert_eq!(parse_duration_us(b"1.2.3"), None);
    assert_eq!(parse_duration_us(b"-1"), None);
    assert_eq!(parse_duration_us(b"1,5"), None);
    assert_eq!(parse_duration_us(b"99999999999999999999"), None);
}

#[test]
fn bitrate_decimal_digits() {
    assert_eq!(parse_bitrate(b"4000000"), Some(4_000_000));
    assert_eq!(parse_bitrate(b"4294967295"), Some(u32::MAX));
    assert_eq!(parse_bitrate(b"4294967296"), None);
    assert_eq!(parse_bitrate(b"N/A"), None);
    assert_eq!(parse_bitrate(b""), None);
    assert_eq!(parse_bitrate(b"12a"), None);
}

#[test]
fn stream_from_fields() {
    let st = Stream::from_fields("h264".to_string(), 1920, 1080, b"150.000000", b"4000000").ok().unwrap();
    assert_eq!(st.codec_name, "h264");
    assert_eq!((st.width, st.height, st.duration_us, st.bitrate), (1920, 1080, 150_000_000, 4_000_000));
    assert!(matches!(
        Stream::from_fields("h264".to_string(), 1, 1, b"abc", b"1"),
        Err(Error::InvalidDuration)
    ));
    assert!(matches!(
        Stream::from_fields("h264".to_string(), 1, 1, b"1.0", b"fast"),
        Err(Error::InvalidBitrate)
    ));
}
