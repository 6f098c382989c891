use lvmosaic::probe::{parse_u64, probe_fields, ProbeError, ProbeOutput, ProbeStream};

fn stream(kind: &str, codec: Option<&str>) -> ProbeStream {
    ProbeStream {
        codec_type: Some(kind.to_string()),
        codec_name: codec.map(|s| s.to_string()),
        width: None,
        height: None,
        r_frame_rate: None,
        nb_frames: None,
        duration: None,
    }
}

#[test]
fn decimal_numbers_read_as_std_does() {
    assert_eq!(parse_u64("0"), Some(0));
    assert_eq!(parse_u64("+5"), Some(5));
    assert_eq!(parse_u64("1200"), Some(1200));
    assert_eq!(parse_u64("18446744073709551615"), Some(u64::MAX));
    assert_eq!(parse_u64("18446744073709551616"), None);
    for bad in ["", "+", "-1", "1a", " 1", "1.0"] {
        assert_eq!(parse_u64(bad), None, "{:?}", bad);
        assert_eq!(bad.parse::<u64>().ok(), None);
    }
}

#[test]
fn report_errors_in_order() {
    let none = ProbeOutput { streams: None, format_duration: None, format_bit_rate: None };
    assert_eq!(probe_fields(&none).unwrap_err(), ProbeError::NoStreams);

    let audio_only = ProbeOutput {
        streams: Some(vec![stream("audio", Some("aac"))]),
        format_duration: None,
        format_bit_rate: None,
    };
    assert_eq!(probe_fields(&audio_only).unwrap_err(), ProbeError::NoVideoStream);

    let mut v = stream("video", None);
    v.height = Some(720);
    let no_width = ProbeOutput { streams: Some(vec![v]), format_duration: None, format_bit_rate: None };
    assert_eq!(probe_fields(&no_width).unwrap_err(), ProbeError::NoWidth);

    let mut v = stream("video", None);
    v.width = Some(1280);
    let no_height = ProbeOutput { streams: Some(vec![v]), format_duration: None, format_bit_rate: None };
    assert_eq!(probe_fields(&no_height).unwrap_err(), ProbeError::NoHeight);
    assert_eq!(ProbeError::NoHeight.message(), "height が取得できません");
}

#[test]
fn report_defaults_and_fallbacks() {
    let mut v = stream("video", None);
    v.width = Some(1920);
    v.height = Some(1080);
    v.nb_frames = Some("N/A".to_string());
    let out = ProbeOutput {
        streams: Some(vec![stream("data", None), v, stream("audio", Some("aac")), stream("audio", Some("mp3"))]),
        format_duration: Some("12.5".to_string()),
        format_bit_rate: Some("800000".to_string()),
    };
    let f = probe_fields(&out).unwrap();
    assert_eq!((f.width, f.height), (1920, 1080));
    assert_eq!(f.r_frame_rate, "30/1");
    assert_eq!(f.video_codec, "unknown");
    assert_eq!(f.nb_frames, 0);
    assert_eq!(f.duration.as_deref(), Some("12.5"));
    assert!(f.has_audio);
    assert_eq!(f.audio_codec.as_deref(), Some("aac"));
    assert_eq!(f.bit_rate, Some(800000));
}

#[test]
fn report_video_and_audio_streams() {
    let mut v = stream("video", Some("h264"));
    v.width = Some(640);
    v.height = Some(360);
    v.r_frame_rate = Some("30000/1001".to_string());
    v.nb_frames = Some("300".to_string());
    v.duration = Some("10.01".to_string());
    let out = ProbeOutput {
        streams: Some(vec![v, stream("audio", Some("opus"))]),
        format_duration: Some("10.05".to_string()),
        format_bit_rate: Some("not a number".to_string()),
    };
    let f = probe_fields(&out).unwrap();
    assert_eq!((f.width, f.height), (640, 360));
    assert_eq!(f.r_frame_rate, "30000/1001");
    assert_eq!(f.video_codec, "h264");
    assert_eq!(f.nb_frames, 300);
    assert_eq!(f.duration.as_deref(), Some("10.01"));
    assert!(f.has_audio);
    assert_eq!(f.audio_codec.as_deref(), Some("opus"));
    assert_eq!(f.bit_rate, None);
}

#[test]
fn report_without_audio() {
    let mut v = stream("video", Some("vp9"));
    v.width = Some(2);
    v.height = Some(4);
    let out = ProbeOutput { streams: Some(vec![v]), format_duration: None, format_bit_rate: None };
    let f = probe_fields(&out).unwrap();
    assert!(!f.has_audio);
    assert_eq!(f.audio_codec, None);
    assert_eq!(f.duration, None);
    assert_eq!(f.bit_rate, None);
}
