//! The SDK codec id for an encoded audio stream.

use vstd::prelude::*;
use crate::text::{eq_ignore_ascii_case, eq_ignore_ascii_case_spec, same_text};

verus! {

/// `AUDIO_CODEC_TYPE` values from the SDK's `AgoraBase.h`.
pub const AUDIO_CODEC_OPUS: i32 = 1;
pub const AUDIO_CODEC_PCMA: i32 = 3;
pub const AUDIO_CODEC_PCMU: i32 = 4;
pub const AUDIO_CODEC_AACLC: i32 = 8;
pub const AUDIO_CODEC_HEAAC: i32 = 9;
pub const AUDIO_CODEC_HEAAC2: i32 = 11;

/// The codec id for ffprobe's `codec_name` (and `profile` for the AAC
/// family): Opus, G.711 mu-law/A-law, AAC-LC, HE-AAC, HE-AACv2 (the profile
/// compared ignoring ASCII case); anything else is AAC-LC.
pub open spec fn audio_codec_spec(codec_name: Seq<char>, profile: Option<Seq<char>>) -> i32 {
    if codec_name == "opus"@ {
        AUDIO_CODEC_OPUS
    } else if codec_name == "pcm_mulaw"@ {
        AUDIO_CODEC_PCMU
    } else if codec_name == "pcm_alaw"@ {
        AUDIO_CODEC_PCMA
    } else if codec_name == "aac"@ {
        match profile {
            Some(p) => if eq_ignore_ascii_case_spec(p, "HE-AACv2"@) {
                AUDIO_CODEC_HEAAC2
            } else if eq_ignore_ascii_case_spec(p, "HE-AAC"@) {
                AUDIO_CODEC_HEAAC
            } else {
                AUDIO_CODEC_AACLC
            },
            None => AUDIO_CODEC_AACLC,
        }
    } else {
        AUDIO_CODEC_AACLC
    }
}

/// Map ffprobe's `codec_name` (plus `profile` for the AAC family) to the
/// SDK's `AUDIO_CODEC_TYPE`.
///
/// ffmpeg's ADTS muxer signals HE-AAC's SBR implicitly, so a frame is 1024
/// core samples at the core rate either way; only the codec id changes, so
/// that the SDK enables SBR decoding.
pub fn audio_codec(codec_name: &str, profile: Option<&str>) -> (c: i32)
    ensures
        c == audio_codec_spec(
            codec_name@,
            match profile {
                Some(p) => Some(p@),
                None => None,
            },
        ),
{
    if same_text(codec_name, "opus") {
        AUDIO_CODEC_OPUS
    } else if same_text(codec_name, "pcm_mulaw") {
        AUDIO_CODEC_PCMU
    } else if same_text(codec_name, "pcm_alaw") {
        AUDIO_CODEC_PCMA
    } else if same_text(codec_name, "aac") {
        match profile {
            Some(p) => if eq_ignore_ascii_case(p, "HE-AACv2") {
                AUDIO_CODEC_HEAAC2
            } else if eq_ignore_ascii_case(p, "HE-AAC") {
                AUDIO_CODEC_HEAAC
            } else {
                AUDIO_CODEC_AACLC
            },
            None => AUDIO_CODEC_AACLC,
        }
    } else {
        AUDIO_CODEC_AACLC
    }
}

} // verus!
