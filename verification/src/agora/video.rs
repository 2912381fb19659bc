//! The SDK codec id for an encoded video stream.

use vstd::prelude::*;
use crate::text::same_text;

verus! {

/// `VIDEO_CODEC_TYPE` values from the SDK's `AgoraBase.h`.
pub const VIDEO_CODEC_VP8: i32 = 1;
pub const VIDEO_CODEC_H264: i32 = 2;
pub const VIDEO_CODEC_H265: i32 = 3;
pub const VIDEO_CODEC_AV1: i32 = 12;
pub const VIDEO_CODEC_VP9: i32 = 13;

/// The codec id for ffprobe's video `codec_name`: each passthrough codec
/// maps to its own id (H.264, H.265, VP8, VP9, AV1); any other name is
/// H.264, the Annex-B default.
pub open spec fn video_codec_type_spec(codec_name: Seq<char>) -> i32 {
    if codec_name == "hevc"@ {
        VIDEO_CODEC_H265
    } else if codec_name == "vp8"@ {
        VIDEO_CODEC_VP8
    } else if codec_name == "vp9"@ {
        VIDEO_CODEC_VP9
    } else if codec_name == "av1"@ {
        VIDEO_CODEC_AV1
    } else {
        VIDEO_CODEC_H264
    }
}

/// Map ffprobe's video `codec_name` to the SDK's `VIDEO_CODEC_TYPE`, so the
/// encoded sender labels the bitstream with its real codec.
pub fn video_codec_type(codec_name: &str) -> (c: i32)
    ensures
        c == video_codec_type_spec(codec_name@),
{
    if same_text(codec_name, "hevc") {
        VIDEO_CODEC_H265
    } else if same_text(codec_name, "vp8") {
        VIDEO_CODEC_VP8
    } else if same_text(codec_name, "vp9") {
        VIDEO_CODEC_VP9
    } else if same_text(codec_name, "av1") {
        VIDEO_CODEC_AV1
    } else {
        VIDEO_CODEC_H264
    }
}

} // verus!
