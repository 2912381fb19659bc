use stream_to_agora::ffmpeg::probe::{MediaInfo, Stream};
use stream_to_agora::cli::{
    check_only_flags, renewed_token, select_streams, StreamChoice, classify_input, parse_rtc_user_id, substitute_token_cmd, validate_http_header, InputKind,
};

#[test]
fn classify_input_picks_right_kind() {
    assert!(matches!(classify_input("/tmp/x.mp4"), InputKind::LocalFile));
    assert!(matches!(classify_input("./x.mp4"), InputKind::LocalFile));
    assert!(matches!(classify_input("https://example.com/x.mp4"), InputKind::Https));
    assert!(matches!(classify_input("HTTPS://example.com/x"), InputKind::Https));
    assert!(matches!(classify_input("rtmp://example.com/live"), InputKind::Rtmp));
    assert!(matches!(classify_input("rtsp://cam/stream"), InputKind::Rtsp));
    assert!(matches!(classify_input("ftp://example.com/x"), InputKind::Unknown));
}

#[test]
fn classify_input_edges() {
    assert_eq!(classify_input("http://x"), InputKind::Https);
    assert_eq!(classify_input("RtSp://x"), InputKind::Rtsp);
    assert_eq!(classify_input("http:/x"), InputKind::LocalFile);
    assert_eq!(classify_input("x://"), InputKind::Unknown);
    assert_eq!(classify_input(""), InputKind::LocalFile);
}

#[test]
fn parse_rtc_user_id_modes() {
    let p = parse_rtc_user_id("42");
    assert_eq!(p.value, "42");
    assert!(!p.string_mode);
    let p = parse_rtc_user_id("s/1232");
    assert_eq!(p.value, "1232");
    assert!(p.string_mode);
    let p = parse_rtc_user_id("alice");
    assert_eq!(p.value, "alice");
    assert!(p.string_mode);
    let p = parse_rtc_user_id("s/alice");
    assert_eq!(p.value, "alice");
    assert!(p.string_mode);
}

#[test]
fn parse_rtc_user_id_edges() {
    let p = parse_rtc_user_id("");
    assert_eq!(p.value, "");
    assert!(p.string_mode);
    let p = parse_rtc_user_id("s/");
    assert_eq!(p.value, "");
    assert!(p.string_mode);
    let p = parse_rtc_user_id("4x2");
    assert!(p.string_mode);
}

#[test]
fn validate_http_header_ok() {
    assert!(validate_http_header("Authorization: Bearer eyJabc").is_ok());
    assert!(validate_http_header("X-Custom:value").is_ok());
}

#[test]
fn validate_http_header_rejects_no_colon() {
    let e = validate_http_header("just-a-key").unwrap_err();
    assert!(e.contains("colon"));
}

#[test]
fn validate_http_header_rejects_linebreaks() {
    let e = validate_http_header("X-Bad: foo\r\nInjection: bar").unwrap_err();
    assert!(e.contains("line break"));
    let e = validate_http_header("X-Bad: foo\nInjection: bar").unwrap_err();
    assert!(e.contains("line break"));
}

#[test]
fn validate_http_header_messages_exact() {
    assert_eq!(
        validate_http_header("k").unwrap_err(),
        "--http-header `k` missing colon (expected `Key: Value`)"
    );
    assert_eq!(
        validate_http_header("k:\rv").unwrap_err(),
        "--http-header `k:\rv` contains a line break (CRLF injection)"
    );
}

#[test]
fn substitute_token_cmd_replaces_placeholders() {
    let s = substitute_token_cmd(
        "atem token rtc create --channel {channel} --rtc-user-id {rtc_user_id}",
        "demo",
        "42",
    );
    assert_eq!(s, "atem token rtc create --channel demo --rtc-user-id 42");
}

#[test]
fn substitute_token_cmd_no_placeholders() {
    let s = substitute_token_cmd("plain command", "x", "y");
    assert_eq!(s, "plain command");
}

#[test]
fn substitute_token_cmd_repeated_placeholder() {
    let s = substitute_token_cmd("{channel}-{channel}", "demo", "42");
    assert_eq!(s, "demo-demo");
}

#[test]
fn substitute_token_cmd_channel_value_may_hold_the_other_placeholder() {
    // `{channel}` is replaced first, so a channel named `{rtc_user_id}` is
    // replaced again by the user id, as `str::replace` twice does.
    let s = substitute_token_cmd("{channel}", "{rtc_user_id}", "7");
    assert_eq!(s, "7");
    let s = substitute_token_cmd("{chan{channel}nel}", "", "7");
    assert_eq!(s, "{channel}");
}

#[test]
fn classify_ignores_ascii_case() {
    for (a, b) in [("RTMP://h/x", "rtmp://h/x"), ("Rtsp://c", "rTSP://c"), ("FTP://x", "ftp://x"), ("A/B", "a/b")] {
        assert_eq!(classify_input(a), classify_input(b), "{a} vs {b}");
    }
}

fn info(audio: bool, video: bool) -> MediaInfo {
    let s = |c: &str| Stream {
        codec_name: c.into(),
        profile: None,
        width: None,
        height: None,
        avg_frame_rate: None,
        sample_rate: None,
        channels: None,
    };
    MediaInfo { audio: if audio { Some(s("aac")) } else { None }, video: if video { Some(s("h264")) } else { None } }
}

#[test]
fn only_flags_are_exclusive() {
    assert!(check_only_flags(true, false).is_ok());
    assert_eq!(check_only_flags(true, true).unwrap_err(), "--audio-only and --video-only are mutually exclusive");
}

#[test]
fn stream_selection() {
    let both = StreamChoice { audio: true, video: true, warn_no_audio: false };
    assert_eq!(select_streams(&info(true, true), false, false).unwrap(), both);
    assert_eq!(
        select_streams(&info(true, true), true, false).unwrap(),
        StreamChoice { audio: true, video: false, warn_no_audio: false }
    );
    assert_eq!(
        select_streams(&info(true, true), false, true).unwrap(),
        StreamChoice { audio: false, video: true, warn_no_audio: false }
    );
    assert_eq!(
        select_streams(&info(false, true), false, false).unwrap(),
        StreamChoice { audio: false, video: true, warn_no_audio: true }
    );
    assert_eq!(
        select_streams(&info(false, true), true, false).unwrap_err(),
        "--audio-only requested but input has no audio stream"
    );
    assert_eq!(
        select_streams(&info(true, false), false, true).unwrap_err(),
        "--video-only requested but input has no video stream"
    );
    assert_eq!(
        select_streams(&info(true, false), false, false).unwrap_err(),
        "Input has no video stream; pass --audio-only to publish audio only"
    );
    assert_eq!(
        select_streams(&info(true, true), true, true).unwrap_err(),
        "--audio-only and --video-only are mutually exclusive"
    );
}

#[test]
fn renewed_token_is_the_trimmed_output() {
    assert_eq!(renewed_token("  tok-123 \n"), Some("tok-123".to_string()));
    assert_eq!(renewed_token("a b\r\n"), Some("a b".to_string()));
    assert_eq!(renewed_token("\u{3000}x\u{a0}"), Some("x".to_string()));
    assert_eq!(renewed_token("\n\t "), None);
    assert_eq!(renewed_token(""), None);
}
