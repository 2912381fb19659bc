use stream_to_agora::agora::publisher::CodecMode;
use stream_to_agora::ffmpeg::pipeline::{audio_args, input_args, video_args, InputKindLite, PipelineOpts};
use stream_to_agora::ffmpeg::probe::{
    media_info_from_streams, parse_fraction, parse_u32, ProbeStream, SampleRateField,
};

fn opts(headers: &[&str], ua: Option<&str>, rtsp: Option<&str>, attempts: u32) -> PipelineOpts {
    PipelineOpts {
        http_headers: headers.iter().map(|s| s.to_string()).collect(),
        user_agent: ua.map(String::from),
        rtsp_transport: rtsp.map(String::from),
        reconnect_attempts: attempts,
        loop_forever: false,
    }
}

#[test]
fn input_args_local_file_no_extras() {
    let a = input_args(InputKindLite::LocalFile, &opts(&[], None, None, 0));
    assert!(!a.iter().any(|s| s == "-reconnect"));
    assert!(!a.iter().any(|s| s == "-headers"));
    assert!(!a.iter().any(|s| s == "-rtsp_transport"));
}

#[test]
fn input_args_http_gets_reconnect_triple() {
    let a = input_args(InputKindLite::Http, &opts(&[], None, None, 0));
    assert!(a.windows(2).any(|w| w == ["-reconnect", "1"]));
    assert!(a.windows(2).any(|w| w == ["-reconnect_streamed", "1"]));
    assert!(a.windows(2).any(|w| w == ["-reconnect_delay_max", "5"]));
}

#[test]
fn input_args_http_with_headers_and_ua() {
    let a = input_args(
        InputKindLite::Http,
        &opts(&["Authorization: Bearer x", "X-Custom: y"], Some("MyAgent/1.0"), None, 0),
    );
    let hdr_idx = a.iter().position(|s| s == "-headers").unwrap();
    assert_eq!(a[hdr_idx + 1], "Authorization: Bearer x\r\nX-Custom: y\r\n");
    let ua_idx = a.iter().position(|s| s == "-user_agent").unwrap();
    assert_eq!(a[ua_idx + 1], "MyAgent/1.0");
}

#[test]
fn input_args_rtsp_transport() {
    let a = input_args(InputKindLite::Rtsp, &opts(&[], None, Some("tcp"), 0));
    assert!(a.windows(2).any(|w| w == ["-rtsp_transport", "tcp"]));
}

#[test]
fn input_args_rtmp_has_no_http_extras() {
    let a = input_args(InputKindLite::Rtmp, &opts(&["X: y"], Some("UA"), None, 0));
    assert!(!a.iter().any(|s| s == "-headers"));
    assert!(!a.iter().any(|s| s == "-user_agent"));
    assert!(!a.iter().any(|s| s == "-reconnect"));
}

#[test]
fn input_args_loop_forever_emits_stream_loop() {
    let a = input_args(InputKindLite::LocalFile, &opts(&[], None, None, 0).with_loop(true));
    assert!(a.windows(2).any(|w| w == ["-stream_loop", "-1"]));
}

#[test]
fn input_args_full_http_order() {
    let a = input_args(InputKindLite::Http, &opts(&["A: b"], Some("UA"), Some("tcp"), 3).with_loop(true));
    assert_eq!(
        a,
        vec![
            "-stream_loop", "-1", "-reconnect", "1", "-reconnect_streamed", "1",
            "-reconnect_delay_max", "5", "-headers", "A: b\r\n", "-user_agent", "UA",
        ]
    );
}

#[test]
fn with_loop_keeps_other_options() {
    let o = opts(&["A: b"], Some("UA"), None, 4).with_loop(true);
    assert!(o.loop_forever);
    assert_eq!(o.reconnect_attempts, 4);
    assert_eq!(o.http_headers, vec!["A: b".to_string()]);
    assert!(!PipelineOpts::default().loop_forever);
}

#[test]
fn is_remote_only_for_network_sources() {
    assert!(!InputKindLite::LocalFile.is_remote());
    assert!(InputKindLite::Http.is_remote());
    assert!(InputKindLite::Rtmp.is_remote());
    assert!(InputKindLite::Rtsp.is_remote());
}

#[test]
fn output_args_per_mode() {
    assert_eq!(
        video_args(CodecMode::Encoded),
        vec!["-map", "0:v:0", "-c:v", "copy", "-an", "-f", "h264", "pipe:1"]
    );
    assert_eq!(
        video_args(CodecMode::Raw),
        vec!["-map", "0:v:0", "-an", "-pix_fmt", "yuv420p", "-f", "rawvideo", "pipe:1"]
    );
    assert_eq!(
        audio_args(CodecMode::Encoded, 2),
        vec!["-map", "0:a:0", "-c:a", "copy", "-vn", "-f", "adts", "pipe:1"]
    );
    assert_eq!(
        audio_args(CodecMode::Raw, 6),
        vec![
            "-map", "0:a:0", "-vn", "-acodec", "pcm_s16le", "-ar", "48000", "-ac", "6", "-f", "s16le",
            "pipe:1",
        ]
    );
    assert_eq!(audio_args(CodecMode::Raw, 12)[8], "12");
}

// ---------------------------------------------------------------------------
// Probe
// ---------------------------------------------------------------------------

fn entry(kind: &str, codec: Option<&str>) -> ProbeStream {
    ProbeStream {
        codec_type: kind.into(),
        codec_name: codec.map(String::from),
        profile: None,
        width: None,
        height: None,
        avg_frame_rate: None,
        sample_rate: None,
        channels: None,
    }
}

/// The streams of an H.264 320x180 15 fps + AAC-LC stereo probe.
fn h264_aac_streams() -> Vec<ProbeStream> {
    let mut v = entry("video", Some("h264"));
    v.profile = Some("High".into());
    v.width = Some(320);
    v.height = Some(180);
    v.avg_frame_rate = Some("15/1".into());
    let mut a = entry("audio", Some("aac"));
    a.profile = Some("LC".into());
    a.avg_frame_rate = Some("0/0".into());
    a.sample_rate = Some(SampleRateField::Text("44100".into()));
    a.channels = Some(2);
    vec![v, a]
}

#[test]
fn h264_aac_basic_fields() {
    let info = media_info_from_streams(&h264_aac_streams()).unwrap();
    let v = info.video.unwrap();
    assert_eq!(v.codec_name, "h264");
    assert_eq!(v.width, Some(320));
    assert_eq!(v.height, Some(180));
    assert_eq!(v.avg_frame_rate, Some((15, 1)));
    let a = info.audio.unwrap();
    assert_eq!(a.codec_name, "aac");
    assert_eq!(a.profile.as_deref(), Some("LC"));
    assert!(a.sample_rate.unwrap() > 0);
    assert!(a.channels.unwrap() >= 1);
}

#[test]
fn vp9_opus_basic_fields() {
    let streams = vec![entry("video", Some("vp9")), entry("audio", Some("opus"))];
    let info = media_info_from_streams(&streams).unwrap();
    assert_eq!(info.video.unwrap().codec_name, "vp9");
    assert_eq!(info.audio.unwrap().codec_name, "opus");
}

#[test]
fn mpeg2_mp3_basic_fields() {
    let streams = vec![entry("video", Some("mpeg2video")), entry("audio", Some("mp3"))];
    let info = media_info_from_streams(&streams).unwrap();
    assert_eq!(info.video.unwrap().codec_name, "mpeg2video");
    assert_eq!(info.audio.unwrap().codec_name, "mp3");
}

#[test]
fn first_video_and_audio_win_and_others_are_ignored() {
    let streams = vec![
        entry("subtitle", Some("mov_text")),
        entry("audio", Some("opus")),
        entry("video", Some("av1")),
        entry("audio", Some("aac")),
        entry("video", Some("h264")),
    ];
    let info = media_info_from_streams(&streams).unwrap();
    assert_eq!(info.video.unwrap().codec_name, "av1");
    assert_eq!(info.audio.unwrap().codec_name, "opus");
}

#[test]
fn stream_without_codec_name_is_an_error() {
    let streams = vec![entry("video", Some("h264")), entry("data", None)];
    let err = media_info_from_streams(&streams).unwrap_err();
    assert_eq!(err, "stream missing codec_name");
}

#[test]
fn sample_rate_number_or_text() {
    let mut a = entry("audio", Some("aac"));
    a.sample_rate = Some(SampleRateField::Number(Some(48000)));
    let info = media_info_from_streams(&vec![a.clone()]).unwrap();
    assert_eq!(info.audio.unwrap().sample_rate, Some(48000));
    a.sample_rate = Some(SampleRateField::Number(Some(0x1_0000_0000 + 5)));
    let info = media_info_from_streams(&vec![a.clone()]).unwrap();
    assert_eq!(info.audio.unwrap().sample_rate, Some(5));
    a.sample_rate = Some(SampleRateField::Text("x".into()));
    let info = media_info_from_streams(&vec![a.clone()]).unwrap();
    assert_eq!(info.audio.unwrap().sample_rate, None);
    a.sample_rate = Some(SampleRateField::Other);
    let info = media_info_from_streams(&vec![a]).unwrap();
    assert_eq!(info.audio.unwrap().sample_rate, None);
}

#[test]
fn parse_fraction_basic() {
    assert_eq!(parse_fraction("15/1"), Some((15, 1)));
    assert_eq!(parse_fraction("30000/1001"), Some((30000, 1001)));
    assert_eq!(parse_fraction("0/0"), None);
    assert_eq!(parse_fraction("bad"), None);
}

#[test]
fn parse_fraction_edges() {
    assert_eq!(parse_fraction("+24/+1"), Some((24, 1)));
    assert_eq!(parse_fraction("1/2/3"), None);
    assert_eq!(parse_fraction("/1"), None);
    assert_eq!(parse_fraction("-1/1"), None);
    assert_eq!(parse_fraction("4294967295/1"), Some((4294967295, 1)));
    assert_eq!(parse_fraction("4294967296/1"), None);
}

#[test]
fn parse_u32_matches_from_str() {
    for s in ["0", "+7", "007", "4294967295", "4294967296", "", "+", "-1", " 1", "1 ", "12a", "99999999999"] {
        assert_eq!(parse_u32(s), s.parse::<u32>().ok(), "{s:?}");
    }
}
