use std::time::Duration;

use stream_to_agora::agora::audio::audio_codec;
use stream_to_agora::agora::error::{check, error_name, AgoraError};
use stream_to_agora::agora::observer::{outcome_for, ConnEvent, Outcome};
use stream_to_agora::agora::publisher::{decide, CodecMode, RequestedMode};
use stream_to_agora::agora::video::video_codec_type;
use stream_to_agora::agora::session::{
    check_config, check_renew_token, connect_step, run_step, ConnectStep, ConnectWait, RunStep,
    SessionConfig,
};
use stream_to_agora::ffmpeg::probe::{MediaInfo, Stream};

// ---------------------------------------------------------------------------
// Audio codec ids
// ---------------------------------------------------------------------------

#[test]
fn audio_codec_maps_codec_and_profile() {
    assert_eq!(audio_codec("aac", None), 8, "AUDIO_CODEC_AACLC");
    assert_eq!(audio_codec("aac", Some("LC")), 8, "plain AAC-LC profile");
    assert_eq!(audio_codec("aac", Some("HE-AAC")), 9, "AUDIO_CODEC_HEAAC");
    assert_eq!(audio_codec("aac", Some("he-aac")), 9, "case-insensitive");
    assert_eq!(audio_codec("aac", Some("HE-AACv2")), 11, "AUDIO_CODEC_HEAAC2");
    assert_eq!(audio_codec("aac", Some("HE-AACV2")), 11, "case-insensitive");
    assert_eq!(audio_codec("opus", None), 1, "AUDIO_CODEC_OPUS");
    assert_eq!(audio_codec("pcm_mulaw", None), 4, "AUDIO_CODEC_PCMU");
    assert_eq!(audio_codec("pcm_alaw", None), 3, "AUDIO_CODEC_PCMA");
    assert_eq!(audio_codec("mp3", None), 8, "unknown → AAC-LC default");
}

#[test]
fn audio_codec_profile_ignored_outside_aac() {
    assert_eq!(audio_codec("opus", Some("HE-AAC")), 1);
    assert_eq!(audio_codec("aac", Some("HE-AACv")), 8);
}

// ---------------------------------------------------------------------------
// Errors
// ---------------------------------------------------------------------------

#[test]
fn error_name_known_codes() {
    assert_eq!(error_name(0), Some("ERR_OK"));
    assert_eq!(error_name(110), Some("ERR_INVALID_TOKEN"));
    assert_eq!(error_name(109), Some("ERR_TOKEN_EXPIRED"));
    assert_eq!(error_name(101), Some("ERR_INVALID_APP_ID"));
    assert_eq!(error_name(424242), None);
}

#[test]
fn error_name_gaps_have_no_name() {
    assert_eq!(error_name(6), None);
    assert_eq!(error_name(-1), None);
    assert_eq!(error_name(17), Some("ERR_JOIN_CHANNEL_REJECTED"));
}

#[test]
fn check_ok_and_err() {
    assert!(check(0, "ctx").is_ok());
    let e = check(110, "agora_rtc_conn_connect").unwrap_err();
    assert_eq!(e.code, Some(110));
    assert!(e.describe().contains("agora_rtc_conn_connect"));
    assert!(e.describe().contains("ERR_INVALID_TOKEN"));
}

#[test]
fn display_includes_context_and_detail() {
    let e = AgoraError::msg("connect", "timed out after 10s");
    assert_eq!(e.describe(), "connect: timed out after 10s");
    let e = AgoraError::null("agora_service_create");
    assert_eq!(e.describe(), "agora_service_create: returned NULL");
}

#[test]
fn describe_renders_named_and_unnamed_codes() {
    assert_eq!(AgoraError::code("send", 110).describe(), "send (code 110: ERR_INVALID_TOKEN)");
    assert_eq!(AgoraError::code("send", 424242).describe(), "send (code 424242)");
    assert_eq!(AgoraError::code("send", -7).describe(), "send (code -7)");
    let e = AgoraError { context: "x".into(), code: Some(1), detail: Some("y".into()) };
    assert_eq!(e.describe(), "x (code 1: ERR_FAILED): y");
}

// ---------------------------------------------------------------------------
// Observer outcomes
// ---------------------------------------------------------------------------

#[test]
fn connected_maps_to_ready() {
    assert_eq!(outcome_for(&ConnEvent::Connected { conn_id: 7 }), Outcome::Ready { conn_id: 7 });
}

#[test]
fn shutdown_maps_to_stop() {
    assert_eq!(outcome_for(&ConnEvent::Shutdown), Outcome::Stop);
}

#[test]
fn failures_map_to_fatal_with_message() {
    assert!(matches!(outcome_for(&ConnEvent::ConnectionLost), Outcome::Fatal { .. }));
    let o = outcome_for(&ConnEvent::Failed { code: 110, msg: "bad token".into() });
    match o {
        Outcome::Fatal { message } => {
            assert!(message.contains("ERR_INVALID_TOKEN"));
            assert!(message.contains("bad token"));
        }
        _ => panic!("expected Fatal"),
    }
    let o = outcome_for(&ConnEvent::Disconnected { reason: 4 });
    match o {
        Outcome::Fatal { message } => assert!(message.contains("reason 4")),
        _ => panic!(),
    }
}

#[test]
fn failure_messages_exact() {
    let cases = [
        (110, "bad token", "connection error (code 110: ERR_INVALID_TOKEN): bad token"),
        (110, "", "connection error (code 110: ERR_INVALID_TOKEN)"),
        (999, "boom", "connection error (code 999): boom"),
        (999, "", "connection error (code 999)"),
    ];
    for (code, msg, want) in cases {
        let o = outcome_for(&ConnEvent::Failed { code, msg: msg.into() });
        assert_eq!(o, Outcome::Fatal { message: want.into() });
    }
    assert_eq!(
        outcome_for(&ConnEvent::ConnectionLost),
        Outcome::Fatal { message: "connection lost".into() }
    );
    assert_eq!(
        outcome_for(&ConnEvent::Disconnected { reason: -3 }),
        Outcome::Fatal { message: "disconnected (reason -3)".into() }
    );
    assert_eq!(
        outcome_for(&ConnEvent::TokenWillExpire { current: "t".into() }),
        Outcome::Continue
    );
}

// ---------------------------------------------------------------------------
// Codec mode decision
// ---------------------------------------------------------------------------

fn stream(codec: &str) -> Stream {
    Stream {
        codec_name: codec.into(),
        profile: None,
        width: None,
        height: None,
        avg_frame_rate: None,
        sample_rate: None,
        channels: None,
    }
}

fn media(video: &str, audio: &str) -> MediaInfo {
    let mut v = stream(video);
    v.width = Some(320);
    v.height = Some(180);
    v.avg_frame_rate = Some((15, 1));
    let mut a = stream(audio);
    a.sample_rate = Some(44100);
    a.channels = Some(2);
    MediaInfo { video: Some(v), audio: Some(a) }
}

fn h264_aac() -> MediaInfo {
    let mut i = media("h264", "aac");
    i.audio.as_mut().unwrap().profile = Some("LC".into());
    i
}

fn vp9_opus() -> MediaInfo {
    media("vp9", "opus")
}

fn mpeg2_mp3() -> MediaInfo {
    media("mpeg2video", "mp3")
}

fn hevc_opus() -> MediaInfo {
    media("hevc", "opus")
}

fn auto(i: &MediaInfo) -> CodecMode {
    decide(i, RequestedMode::Auto).unwrap()
}

#[test]
fn h264_aac_picks_encoded() {
    assert_eq!(auto(&h264_aac()), CodecMode::Encoded);
}

#[test]
fn vp9_opus_picks_encoded() {
    assert_eq!(auto(&vp9_opus()), CodecMode::Encoded);
}

#[test]
fn mpeg2_mp3_picks_raw() {
    assert_eq!(auto(&mpeg2_mp3()), CodecMode::Raw);
}

#[test]
fn video_only_input_uses_video_verdict() {
    let mut i = h264_aac();
    i.audio = None;
    assert_eq!(auto(&i), CodecMode::Encoded);
    let mut i = mpeg2_mp3();
    i.audio = None;
    assert_eq!(auto(&i), CodecMode::Raw);
}

#[test]
fn audio_unsupported_forces_raw_even_if_video_ok() {
    let mut i = h264_aac();
    i.audio.as_mut().unwrap().codec_name = "flac".into();
    assert_eq!(auto(&i), CodecMode::Raw);
}

#[test]
fn widened_codec_combinations_pick_encoded() {
    let vids = ["h264", "hevc", "vp8", "vp9", "av1"];
    let auds = ["aac", "opus", "pcm_mulaw", "pcm_alaw"];
    for v in vids {
        for a in auds {
            let mut i = h264_aac();
            i.video.as_mut().unwrap().codec_name = v.into();
            i.audio.as_mut().unwrap().codec_name = a.into();
            assert_eq!(auto(&i), CodecMode::Encoded, "{v}+{a} should be Encoded");
        }
    }
}

#[test]
fn new_video_codecs_video_only_pick_encoded() {
    for v in ["hevc", "vp8", "vp9", "av1"] {
        let mut i = h264_aac();
        i.video.as_mut().unwrap().codec_name = v.into();
        i.audio = None;
        assert_eq!(auto(&i), CodecMode::Encoded, "{v} video-only");
    }
}

#[test]
fn still_unsupported_codecs_force_raw() {
    let mut i = h264_aac();
    i.video.as_mut().unwrap().codec_name = "mpeg2video".into();
    assert_eq!(auto(&i), CodecMode::Raw, "mpeg2video → Raw");
    let mut i = h264_aac();
    i.audio.as_mut().unwrap().codec_name = "g722".into();
    assert_eq!(auto(&i), CodecMode::Raw, "h264+g722 → Raw");
}

#[test]
fn real_hevc_opus_fixture_probe_picks_encoded() {
    let i = hevc_opus();
    assert_eq!(i.video.as_ref().unwrap().codec_name, "hevc");
    assert_eq!(i.audio.as_ref().unwrap().codec_name, "opus");
    assert_eq!(auto(&i), CodecMode::Encoded);
}

#[test]
fn force_raw_overrides_a_passthrough_eligible_input() {
    assert_eq!(decide(&h264_aac(), RequestedMode::Raw), Ok(CodecMode::Raw));
    assert_eq!(decide(&mpeg2_mp3(), RequestedMode::Raw), Ok(CodecMode::Raw));
}

#[test]
fn force_encoded_ok_when_every_codec_is_eligible() {
    assert_eq!(decide(&h264_aac(), RequestedMode::Encoded), Ok(CodecMode::Encoded));
}

#[test]
fn force_encoded_errors_and_names_the_unsupported_codec() {
    let err = decide(&mpeg2_mp3(), RequestedMode::Encoded).unwrap_err();
    assert!(err.contains("mpeg2video"), "names the video codec: {err}");
    assert!(err.contains("mp3"), "names the audio codec: {err}");
    assert!(err.contains("--mode raw"), "suggests the fallback: {err}");

    let mut i = h264_aac();
    i.audio.as_mut().unwrap().codec_name = "flac".into();
    let err = decide(&i, RequestedMode::Encoded).unwrap_err();
    assert!(err.contains("flac"), "{err}");
    assert!(!err.contains("video codec"), "h264 video is fine: {err}");
}

#[test]
fn force_encoded_error_names_only_the_audio_when_video_passes() {
    let mut i = h264_aac();
    i.audio.as_mut().unwrap().codec_name = "vorbis".into();
    let err = decide(&i, RequestedMode::Encoded).unwrap_err();
    assert!(err.contains("audio codec 'vorbis'"), "{err}");
    assert!(!err.contains("video codec"), "{err}");
    assert!(!err.contains("h264"), "{err}");

    let mut j = h264_aac();
    j.video.as_mut().unwrap().codec_name = "mpeg4".into();
    let err = decide(&j, RequestedMode::Encoded).unwrap_err();
    assert!(err.contains("video codec 'mpeg4'"), "{err}");
    assert!(!err.contains("audio codec"), "{err}");

    // a codec name can itself carry the other stream's words
    let mut k = h264_aac();
    k.audio.as_mut().unwrap().codec_name = "video codec 'h264'".into();
    let err = decide(&k, RequestedMode::Encoded).unwrap_err();
    assert!(err.contains("video codec"), "{err}");
}

#[test]
fn force_encoded_error_text_exact() {
    let err = decide(&mpeg2_mp3(), RequestedMode::Encoded).unwrap_err();
    assert_eq!(
        err,
        "--mode encoded requested but video codec 'mpeg2video' and audio codec 'mp3' has no \
         encoded passthrough \u{2014} use --mode auto or --mode raw"
    );
}

#[test]
fn default_request_is_auto() {
    assert_eq!(RequestedMode::default(), RequestedMode::Auto);
}

#[test]
fn no_streams_is_encoded_under_auto() {
    let i = MediaInfo { video: None, audio: None };
    assert_eq!(auto(&i), CodecMode::Encoded);
}

// ---------------------------------------------------------------------------
// Session decisions
// ---------------------------------------------------------------------------

fn config() -> SessionConfig {
    SessionConfig {
        app_id: "appid".into(),
        channel: "demo".into(),
        user_id: "42".into(),
        use_string_uid: false,
        token: "tok".into(),
        connect_timeout: Duration::from_secs(10),
    }
}

#[test]
fn config_without_nul_is_accepted() {
    assert!(check_config(&config()).is_ok());
}

#[test]
fn config_with_nul_names_the_first_field() {
    let mut c = config();
    c.channel = "de\0mo".into();
    c.token = "t\0".into();
    let e = check_config(&c).unwrap_err();
    assert_eq!(e.describe(), "channel: contains a NUL byte");
    let mut c = config();
    c.user_id = "\0".into();
    assert_eq!(check_config(&c).unwrap_err().describe(), "rtc user id: contains a NUL byte");
}

#[test]
fn renew_token_with_nul_is_rejected() {
    assert!(check_renew_token("abc").is_ok());
    let e = check_renew_token("a\0c").unwrap_err();
    assert_eq!(e.describe(), "renew token: new token contains a NUL byte");
}

#[test]
fn connect_wait_decisions() {
    let t = Duration::from_secs(10);
    match connect_step(&ConnectWait::Received(ConnEvent::Connected { conn_id: 9 }), &t) {
        ConnectStep::Connected(id) => assert_eq!(id, 9),
        _ => panic!("expected Connected"),
    }
    assert!(matches!(
        connect_step(&ConnectWait::Received(ConnEvent::Shutdown), &t),
        ConnectStep::KeepWaiting
    ));
    match connect_step(&ConnectWait::Received(ConnEvent::ConnectionLost), &t) {
        ConnectStep::Abort(e) => assert_eq!(e.describe(), "connect: connection lost"),
        _ => panic!("expected Abort"),
    }
    match connect_step(&ConnectWait::ChannelClosed, &t) {
        ConnectStep::Abort(e) => assert_eq!(e.describe(), "connect: event channel closed unexpectedly"),
        _ => panic!("expected Abort"),
    }
    match connect_step(&ConnectWait::TimedOut, &t) {
        ConnectStep::Abort(e) => assert_eq!(
            e.describe(),
            "connect: timed out after 10s waiting to connect \u{2014} check app id / token / channel / network"
        ),
        _ => panic!("expected Abort"),
    }
}

#[test]
fn run_decisions() {
    assert!(matches!(run_step(&None), RunStep::Finish(Ok(()))));
    assert!(matches!(run_step(&Some(ConnEvent::Shutdown)), RunStep::Finish(Ok(()))));
    assert!(matches!(run_step(&Some(ConnEvent::Connected { conn_id: 1 })), RunStep::KeepWaiting));
    match run_step(&Some(ConnEvent::Disconnected { reason: 2 })) {
        RunStep::Finish(Err(e)) => assert_eq!(e.describe(), "connection: disconnected (reason 2)"),
        _ => panic!("expected an error"),
    }
}

#[test]
fn video_codec_type_maps_every_encoded_codec() {
    assert_eq!(video_codec_type("h264"), 2);
    assert_eq!(video_codec_type("hevc"), 3);
    assert_eq!(video_codec_type("vp8"), 1);
    assert_eq!(video_codec_type("vp9"), 13);
    assert_eq!(video_codec_type("av1"), 12);
}
