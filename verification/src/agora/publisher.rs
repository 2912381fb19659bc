//! The codec-mode decision: encoded passthrough or raw re-encode, picked
//! once at startup from the probed input and the `--mode` request.

use vstd::prelude::*;
use vstd::string::StringExecFns;
use crate::ffmpeg::probe::{MediaInfo, MediaInfoView, Stream, StreamView};
use crate::text::{has_text, lemma_text_only_inside, occurs_at, same_text};

verus! {

/// Which Agora sender path is used.
#[derive(Debug, Clone, Copy, PartialEq, Eq, Structural)]
pub enum CodecMode {
    /// Both streams use codecs Agora's encoded-frame senders accept; ffmpeg
    /// runs with `-c copy` (demux only).
    Encoded,
    /// At least one stream's codec isn't in Agora's encoded set; ffmpeg
    /// decodes to raw YUV+PCM and the raw senders are used.
    Raw,
}

/// What the user asked for via `--mode`.
#[derive(Debug, Clone, Copy, PartialEq, Eq, Structural)]
pub enum RequestedMode {
    /// Encoded passthrough when every stream's codec is passthrough-eligible,
    /// otherwise Raw. The default.
    Auto,
    /// Force the ffmpeg-decode and SDK-re-encode path for every input.
    Raw,
    /// Force encoded passthrough; an error when a stream's codec has no
    /// passthrough path.
    Encoded,
}

impl Default for RequestedMode {
    fn default() -> (m: Self)
        ensures
            m == RequestedMode::Auto,
    {
        RequestedMode::Auto
    }
}

/// Video codecs with an encoded passthrough path: H.264/H.265 (Annex-B) and
/// VP8/VP9/AV1 (IVF).
pub open spec fn video_passthrough(name: Seq<char>) -> bool {
    name == "h264"@ || name == "hevc"@ || name == "vp8"@ || name == "vp9"@ || name == "av1"@
}

/// Audio codecs with an encoded passthrough path: AAC (ADTS), Opus (Ogg) and
/// G.711 mu-law/A-law.
pub open spec fn audio_passthrough(name: Seq<char>) -> bool {
    name == "aac"@ || name == "opus"@ || name == "pcm_mulaw"@ || name == "pcm_alaw"@
}

/// The present video stream passes through (an absent one is neutral).
pub open spec fn video_ok(info: MediaInfoView) -> bool {
    match info.video {
        Some(v) => video_passthrough(v.codec_name),
        None => true,
    }
}

pub open spec fn audio_ok(info: MediaInfoView) -> bool {
    match info.audio {
        Some(a) => audio_passthrough(a.codec_name),
        None => true,
    }
}

/// Encoded exactly when every present stream can pass through.
pub open spec fn natural_mode_spec(info: MediaInfoView) -> CodecMode {
    if video_ok(info) && audio_ok(info) {
        CodecMode::Encoded
    } else {
        CodecMode::Raw
    }
}

/// The offending codecs named in the forced-encoded error.
pub open spec fn bad_codecs(info: MediaInfoView) -> Seq<char> {
    let vb = match info.video {
        Some(v) => if video_passthrough(v.codec_name) {
            None
        } else {
            Some("video codec '"@ + v.codec_name + "'"@)
        },
        None => None,
    };
    let ab = match info.audio {
        Some(a) => if audio_passthrough(a.codec_name) {
            None
        } else {
            Some("audio codec '"@ + a.codec_name + "'"@)
        },
        None => None,
    };
    match (vb, ab) {
        (Some(x), Some(y)) => x + " and "@ + y,
        (Some(x), None) => x,
        (None, Some(y)) => y,
        (None, None) => Seq::empty(),
    }
}

/// The sender path for the probed input and the request.
pub open spec fn decide_spec(info: MediaInfoView, requested: RequestedMode) -> Result<CodecMode, Seq<char>> {
    match requested {
        RequestedMode::Raw => Ok(CodecMode::Raw),
        RequestedMode::Auto => Ok(natural_mode_spec(info)),
        RequestedMode::Encoded => if video_ok(info) && audio_ok(info) {
            Ok(CodecMode::Encoded)
        } else {
            Err(
                "--mode encoded requested but "@ + bad_codecs(info)
                    + " has no encoded passthrough \u{2014} use --mode auto or --mode raw"@,
            )
        },
    }
}

fn is_video_passthrough(name: &str) -> (r: bool)
    ensures
        r == video_passthrough(name@),
{
    same_text(name, "h264") || same_text(name, "hevc") || same_text(name, "vp8") || same_text(
        name,
        "vp9",
    ) || same_text(name, "av1")
}

fn is_audio_passthrough(name: &str) -> (r: bool)
    ensures
        r == audio_passthrough(name@),
{
    same_text(name, "aac") || same_text(name, "opus") || same_text(name, "pcm_mulaw") || same_text(
        name,
        "pcm_alaw",
    )
}

fn stream_video_ok(v: &Option<Stream>) -> (r: bool)
    ensures
        r == match v {
            Some(s) => video_passthrough(s@.codec_name),
            None => true,
        },
{
    match v {
        Some(s) => is_video_passthrough(s.codec_name.as_str()),
        None => true,
    }
}

fn stream_audio_ok(a: &Option<Stream>) -> (r: bool)
    ensures
        r == match a {
            Some(s) => audio_passthrough(s@.codec_name),
            None => true,
        },
{
    match a {
        Some(s) => is_audio_passthrough(s.codec_name.as_str()),
        None => true,
    }
}

/// Encoded when both present streams use
/// passthrough-eligible codecs; otherwise Raw. A video-only or audio-only
/// input is judged by its one stream.
fn natural_mode(info: &MediaInfo) -> (m: CodecMode)
    ensures
        m == natural_mode_spec(info@),
{
    if stream_video_ok(&info.video) && stream_audio_ok(&info.audio) {
        CodecMode::Encoded
    } else {
        CodecMode::Raw
    }
}

/// Resolve the sender path from the probed input and the `--mode` request:
/// `Auto` gives the per-codec verdict, `Raw` always Raw, `Encoded` gives
/// Encoded or an error naming each codec that cannot pass through.
pub fn decide(info: &MediaInfo, requested: RequestedMode) -> (r: Result<CodecMode, String>)
    ensures
        match (r, decide_spec(info@, requested)) {
            (Ok(m), Ok(n)) => m == n,
            (Err(e), Err(t)) => e@ == t,
            _ => false,
        },
{
    match requested {
        RequestedMode::Raw => Ok(CodecMode::Raw),
        RequestedMode::Auto => Ok(natural_mode(info)),
        RequestedMode::Encoded => {
            let vok = stream_video_ok(&info.video);
            let aok = stream_audio_ok(&info.audio);
            if vok && aok {
                return Ok(CodecMode::Encoded);
            }
            let mut m = String::from_str("--mode encoded requested but ");
            if !vok {
                if let Some(v) = &info.video {
                    m.append("video codec '");
                    m.append(v.codec_name.as_str());
                    m.append("'");
                }
            }
            if !vok && !aok {
                m.append(" and ");
            }
            if !aok {
                if let Some(a) = &info.audio {
                    m.append("audio codec '");
                    m.append(a.codec_name.as_str());
                    m.append("'");
                }
            }
            m.append(" has no encoded passthrough \u{2014} use --mode auto or --mode raw");
            proof {
                let i = info@;
                assert(m@ =~= "--mode encoded requested but "@ + bad_codecs(i)
                    + " has no encoded passthrough \u{2014} use --mode auto or --mode raw"@);
            }
            Err(m)
        },
    }
}

/// Forcing passthrough succeeds exactly on the inputs that `--mode auto`
/// would already pass through, and then agrees with it.
pub proof fn lemma_forced_encoded_matches_auto(info: MediaInfoView)
    ensures
        decide_spec(info, RequestedMode::Encoded) is Ok <==> decide_spec(info, RequestedMode::Auto)
            == Ok::<CodecMode, Seq<char>>(CodecMode::Encoded),
        decide_spec(info, RequestedMode::Encoded) is Ok ==> decide_spec(info, RequestedMode::Encoded)
            == decide_spec(info, RequestedMode::Auto),
{
}

/// A forced-passthrough error is the fixed text around a non-empty list of
/// the offending streams (`video codec '<name>'` when the video cannot pass
/// through, `audio codec '<name>'` when the audio cannot, joined by ` and `).
pub proof fn lemma_forced_encoded_error_names_codecs(info: MediaInfoView)
    requires
        decide_spec(info, RequestedMode::Encoded) is Err,
    ensures
        bad_codecs(info).len() > 0,
        ({
            let vb = info.video matches Some(v) && !video_passthrough(v.codec_name);
            let ab = info.audio matches Some(a) && !audio_passthrough(a.codec_name);
            let vpart = "video codec '"@ + info.video->0.codec_name + "'"@;
            let apart = "audio codec '"@ + info.audio->0.codec_name + "'"@;
            &&& vb || ab
            &&& vb && ab ==> bad_codecs(info) == vpart + " and "@ + apart
            &&& vb && !ab ==> bad_codecs(info) == vpart
            &&& !vb && ab ==> bad_codecs(info) == apart
        }),
        decide_spec(info, RequestedMode::Encoded) == Err::<CodecMode, Seq<char>>(
            "--mode encoded requested but "@ + bad_codecs(info)
                + " has no encoded passthrough \u{2014} use --mode auto or --mode raw"@,
        ),
{
    reveal_strlit("video codec '");
    reveal_strlit("audio codec '");
}

/// What a forced-passthrough error mentions: the video codec, as
/// `video codec '<name>'`, when the video cannot pass through; the audio
/// codec, as `audio codec '<name>'`, when the audio cannot; and always the
/// `--mode raw` fallback. The words `video codec` appear in it only when the
/// video is named, and `audio codec` only when the audio is. The one
/// exception, left out here: a stream that is named can carry those words
/// in its own codec name (an audio codec called `video codec 'h264'`
/// beside passable video).
pub proof fn lemma_forced_encoded_error_mentions(info: MediaInfoView)
    requires
        decide_spec(info, RequestedMode::Encoded) is Err,
        (info.audio matches Some(a) && has_text(a.codec_name, "video codec"@)) ==> (info.video matches Some(
            v,
        ) && !video_passthrough(v.codec_name)),
        (info.video matches Some(v) && has_text(v.codec_name, "audio codec"@)) ==> (info.audio matches Some(
            a,
        ) && !audio_passthrough(a.codec_name)),
    ensures
        ({
            let msg = match decide_spec(info, RequestedMode::Encoded) {
                Err(m) => m,
                Ok(_) => Seq::empty(),
            };
            let vb = info.video matches Some(v) && !video_passthrough(v.codec_name);
            let ab = info.audio matches Some(a) && !audio_passthrough(a.codec_name);
            &&& has_text(msg, "--mode raw"@)
            &&& vb ==> has_text(msg, "video codec '"@ + info.video->0.codec_name + "'"@)
            &&& ab ==> has_text(msg, "audio codec '"@ + info.audio->0.codec_name + "'"@)
            &&& !vb ==> !has_text(msg, "video codec"@)
            &&& !ab ==> !has_text(msg, "audio codec"@)
        }),
{
    lemma_forced_encoded_error_names_codecs(info);
    reveal_strlit("--mode encoded requested but ");
    reveal_strlit(" has no encoded passthrough \u{2014} use --mode auto or --mode raw");
    reveal_strlit("video codec '");
    reveal_strlit("audio codec '");
    reveal_strlit("'");
    reveal_strlit("--mode raw");
    reveal_strlit("video codec");
    reveal_strlit("audio codec");
    let pre = "--mode encoded requested but "@;
    let suf = " has no encoded passthrough \u{2014} use --mode auto or --mode raw"@;
    let b = bad_codecs(info);
    let msg = pre + b + suf;
    let vb = info.video matches Some(v) && !video_passthrough(v.codec_name);
    let ab = info.audio matches Some(a) && !audio_passthrough(a.codec_name);
    let vpart = "video codec '"@ + info.video->0.codec_name + "'"@;
    let apart = "audio codec '"@ + info.audio->0.codec_name + "'"@;
    // the fallback closes the message
    let n = msg.len() as int;
    assert(msg.subrange(n - 10, n) =~= "--mode raw"@);
    assert(occurs_at(msg, "--mode raw"@, n - 10));
    if vb {
        assert(msg.subrange(pre.len() as int, (pre.len() + vpart.len()) as int) =~= vpart);
        assert(occurs_at(msg, vpart, pre.len() as int));
    }
    if ab {
        let at = (pre.len() + b.len() - apart.len()) as int;
        assert(msg.subrange(at, at + apart.len() as int) =~= apart);
        assert(occurs_at(msg, apart, at));
    }
    let z = "'"@ + suf;
    if !vb {
        let x = pre + "audio codec '"@;
        let name = info.audio->0.codec_name;
        assert(msg =~= x + name + z);
        lemma_text_only_inside(x, name, z, "video codec"@, 0);
    }
    if !ab {
        let x = pre + "video codec '"@;
        let name = info.video->0.codec_name;
        assert(msg =~= x + name + z);
        lemma_text_only_inside(x, name, z, "audio codec"@, 3);
    }
}

} // verus!
