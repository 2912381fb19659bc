//! The ffmpeg command lines: the input-side flags for each kind of source
//! and the output-side flags for each stream and codec mode.

use vstd::prelude::*;
use vstd::string::StringExecFns;
use crate::agora::publisher::CodecMode;
use crate::text::{dec_nat, push_decimal};

verus! {

/// The kinds of input the pipeline distinguishes.
#[derive(Debug, Clone, Copy, PartialEq, Eq, Structural)]
pub enum InputKindLite {
    LocalFile,
    Http,
    Rtmp,
    Rtsp,
}

impl InputKindLite {
    /// Network sources, which the pumps may respawn ffmpeg for.
    pub fn is_remote(self) -> (r: bool)
        ensures
            r == !(self == InputKindLite::LocalFile),
    {
        match self {
            InputKindLite::LocalFile => false,
            _ => true,
        }
    }
}

/// Per-input pipeline options, shared by the video and the audio ffmpeg.
#[derive(Debug, Clone)]
pub struct PipelineOpts {
    pub http_headers: Vec<String>,
    pub user_agent: Option<String>,
    pub rtsp_transport: Option<String>,
    pub reconnect_attempts: u32,
    pub loop_forever: bool,
}

/// The text of each string in `v`.
pub open spec fn texts(v: Seq<String>) -> Seq<Seq<char>> {
    v.map_values(|s: String| s@)
}

impl Default for PipelineOpts {
    fn default() -> (o: Self)
        ensures
            o.http_headers@.len() == 0,
            o.user_agent is None,
            o.rtsp_transport is None,
            o.reconnect_attempts == 0,
            !o.loop_forever,
    {
        PipelineOpts {
            http_headers: Vec::new(),
            user_agent: None,
            rtsp_transport: None,
            reconnect_attempts: 0,
            loop_forever: false,
        }
    }
}

impl PipelineOpts {
    /// The same options with `loop_forever` set to `l`.
    pub fn with_loop(self, l: bool) -> (o: Self)
        ensures
            o == (PipelineOpts { loop_forever: l, ..self }),
    {
        let mut o = self;
        o.loop_forever = l;
        o
    }
}

/// The `-headers` value: each header followed by CRLF.
pub open spec fn header_block(hs: Seq<Seq<char>>) -> Seq<char>
    decreases hs.len(),
{
    if hs.len() == 0 {
        Seq::empty()
    } else {
        header_block(hs.drop_last()) + hs.last() + "\r\n"@
    }
}

/// The arguments that go before `-i <url>`: `-stream_loop -1` when looping;
/// for HTTP the reconnect triple, then `-headers` (when any header is given)
/// and `-user_agent` (when one is given); for RTSP `-rtsp_transport` (when
/// one is given); nothing more for RTMP or a local file.
pub open spec fn input_args_spec(
    kind: InputKindLite,
    headers: Seq<Seq<char>>,
    user_agent: Option<Seq<char>>,
    rtsp_transport: Option<Seq<char>>,
    loop_forever: bool,
) -> Seq<Seq<char>> {
    let looping = if loop_forever {
        seq!["-stream_loop"@, "-1"@]
    } else {
        Seq::empty()
    };
    looping + match kind {
        InputKindLite::Http => seq![
            "-reconnect"@,
            "1"@,
            "-reconnect_streamed"@,
            "1"@,
            "-reconnect_delay_max"@,
            "5"@,
        ] + (if headers.len() > 0 {
            seq!["-headers"@, header_block(headers)]
        } else {
            Seq::empty()
        }) + match user_agent {
            Some(ua) => seq!["-user_agent"@, ua],
            None => Seq::empty(),
        },
        InputKindLite::Rtsp => match rtsp_transport {
            Some(t) => seq!["-rtsp_transport"@, t],
            None => Seq::empty(),
        },
        _ => Seq::empty(),
    }
}

pub open spec fn opt_text(o: Option<String>) -> Option<Seq<char>> {
    match o {
        Some(s) => Some(s@),
        None => None,
    }
}

fn push_arg(v: &mut Vec<String>, s: &str)
    ensures
        texts(final(v)@) == texts(old(v)@).push(s@),
{
    v.push(String::from_str(s));
    assert(texts(v@) =~= texts(old(v)@).push(s@));
}

fn push_owned(v: &mut Vec<String>, s: String)
    ensures
        texts(final(v)@) == texts(old(v)@).push(s@),
{
    let ghost t = s@;
    v.push(s);
    assert(texts(v@) =~= texts(old(v)@).push(t));
}

fn join_headers(hs: &Vec<String>) -> (s: String)
    ensures
        s@ == header_block(texts(hs@)),
{
    let mut joined = String::new();
    let mut k: usize = 0;
    while k < hs.len()
        invariant
            k <= hs@.len(),
            joined@ == header_block(texts(hs@.subrange(0, k as int))),
        decreases hs.len() - k,
    {
        joined.append(hs[k].as_str());
        joined.append("\r\n");
        assert(texts(hs@.subrange(0, k + 1)).drop_last() =~= texts(hs@.subrange(0, k as int)));
        k = k + 1;
    }
    assert(hs@.subrange(0, k as int) =~= hs@);
    joined
}

/// The arguments that go before `-i <url>` in the ffmpeg invocation.
pub fn input_args(kind: InputKindLite, opts: &PipelineOpts) -> (a: Vec<String>)
    ensures
        texts(a@) == input_args_spec(
            kind,
            texts(opts.http_headers@),
            opt_text(opts.user_agent),
            opt_text(opts.rtsp_transport),
            opts.loop_forever,
        ),
{
    let mut a: Vec<String> = Vec::new();
    assert(texts(a@) =~= Seq::<Seq<char>>::empty());
    if opts.loop_forever {
        push_arg(&mut a, "-stream_loop");
        push_arg(&mut a, "-1");
    }
    let ghost looping = texts(a@);
    match kind {
        InputKindLite::Http => {
            push_arg(&mut a, "-reconnect");
            push_arg(&mut a, "1");
            push_arg(&mut a, "-reconnect_streamed");
            push_arg(&mut a, "1");
            push_arg(&mut a, "-reconnect_delay_max");
            push_arg(&mut a, "5");
            let ghost base = texts(a@);
            if opts.http_headers.len() > 0 {
                push_arg(&mut a, "-headers");
                push_owned(&mut a, join_headers(&opts.http_headers));
            }
            let ghost with_headers = texts(a@);
            match &opts.user_agent {
                Some(ua) => {
                    push_arg(&mut a, "-user_agent");
                    push_arg(&mut a, ua.as_str());
                },
                None => {},
            }
            proof {
                let hs = texts(opts.http_headers@);
                let hpart = if hs.len() > 0 {
                    seq!["-headers"@, header_block(hs)]
                } else {
                    Seq::<Seq<char>>::empty()
                };
                let upart = match opt_text(opts.user_agent) {
                    Some(ua) => seq!["-user_agent"@, ua],
                    None => Seq::<Seq<char>>::empty(),
                };
                assert(with_headers =~= base + hpart);
                assert(texts(a@) =~= with_headers + upart);
            }
        },
        InputKindLite::Rtsp => {
            match &opts.rtsp_transport {
                Some(t) => {
                    push_arg(&mut a, "-rtsp_transport");
                    push_arg(&mut a, t.as_str());
                },
                None => {},
            }
        },
        InputKindLite::Rtmp => {},
        InputKindLite::LocalFile => {},
    }
    proof {
        let spec_looping = if opts.loop_forever {
            seq!["-stream_loop"@, "-1"@]
        } else {
            Seq::<Seq<char>>::empty()
        };
        assert(looping =~= spec_looping);
        let full = input_args_spec(
            kind,
            texts(opts.http_headers@),
            opt_text(opts.user_agent),
            opt_text(opts.rtsp_transport),
            opts.loop_forever,
        );
        assert(texts(a@) =~= full);
    }
    a
}

/// The output arguments (after `-i <url>`) of the video ffmpeg: stream copy
/// into Annex-B H.264 for Encoded, decode to yuv420p raw video for Raw.
pub open spec fn video_args_spec(mode: CodecMode) -> Seq<Seq<char>> {
    match mode {
        CodecMode::Encoded => seq![
            "-map"@,
            "0:v:0"@,
            "-c:v"@,
            "copy"@,
            "-an"@,
            "-f"@,
            "h264"@,
            "pipe:1"@,
        ],
        CodecMode::Raw => seq![
            "-map"@,
            "0:v:0"@,
            "-an"@,
            "-pix_fmt"@,
            "yuv420p"@,
            "-f"@,
            "rawvideo"@,
            "pipe:1"@,
        ],
    }
}

/// The output arguments of the video ffmpeg for `mode`.
pub fn video_args(mode: CodecMode) -> (a: Vec<String>)
    ensures
        texts(a@) == video_args_spec(mode),
{
    let mut a: Vec<String> = Vec::new();
    assert(texts(a@) =~= Seq::<Seq<char>>::empty());
    match mode {
        CodecMode::Encoded => {
            push_arg(&mut a, "-map");
            push_arg(&mut a, "0:v:0");
            push_arg(&mut a, "-c:v");
            push_arg(&mut a, "copy");
            push_arg(&mut a, "-an");
            push_arg(&mut a, "-f");
            push_arg(&mut a, "h264");
            push_arg(&mut a, "pipe:1");
        },
        CodecMode::Raw => {
            push_arg(&mut a, "-map");
            push_arg(&mut a, "0:v:0");
            push_arg(&mut a, "-an");
            push_arg(&mut a, "-pix_fmt");
            push_arg(&mut a, "yuv420p");
            push_arg(&mut a, "-f");
            push_arg(&mut a, "rawvideo");
            push_arg(&mut a, "pipe:1");
        },
    }
    assert(texts(a@) =~= video_args_spec(mode));
    a
}

/// The output arguments of the audio ffmpeg: stream copy into ADTS for
/// Encoded; for Raw, decode to 48 kHz s16le PCM with `channels` channels.
pub open spec fn audio_args_spec(mode: CodecMode, channels: u32) -> Seq<Seq<char>> {
    match mode {
        CodecMode::Encoded => seq![
            "-map"@,
            "0:a:0"@,
            "-c:a"@,
            "copy"@,
            "-vn"@,
            "-f"@,
            "adts"@,
            "pipe:1"@,
        ],
        CodecMode::Raw => seq![
            "-map"@,
            "0:a:0"@,
            "-vn"@,
            "-acodec"@,
            "pcm_s16le"@,
            "-ar"@,
            "48000"@,
            "-ac"@,
            dec_nat(channels as nat),
            "-f"@,
            "s16le"@,
            "pipe:1"@,
        ],
    }
}

/// The output arguments of the audio ffmpeg for `mode`.
pub fn audio_args(mode: CodecMode, channels: u32) -> (a: Vec<String>)
    ensures
        texts(a@) == audio_args_spec(mode, channels),
{
    let mut a: Vec<String> = Vec::new();
    assert(texts(a@) =~= Seq::<Seq<char>>::empty());
    match mode {
        CodecMode::Encoded => {
            push_arg(&mut a, "-map");
            push_arg(&mut a, "0:a:0");
            push_arg(&mut a, "-c:a");
            push_arg(&mut a, "copy");
            push_arg(&mut a, "-vn");
            push_arg(&mut a, "-f");
            push_arg(&mut a, "adts");
            push_arg(&mut a, "pipe:1");
        },
        CodecMode::Raw => {
            push_arg(&mut a, "-map");
            push_arg(&mut a, "0:a:0");
            push_arg(&mut a, "-vn");
            push_arg(&mut a, "-acodec");
            push_arg(&mut a, "pcm_s16le");
            push_arg(&mut a, "-ar");
            push_arg(&mut a, "48000");
            push_arg(&mut a, "-ac");
            let mut ch = String::new();
            push_decimal(&mut ch, channels as u64);
            assert(ch@ =~= dec_nat(channels as nat));
            push_owned(&mut a, ch);
            push_arg(&mut a, "-f");
            push_arg(&mut a, "s16le");
            push_arg(&mut a, "pipe:1");
        },
    }
    assert(texts(a@) =~= audio_args_spec(mode, channels));
    a
}

} // verus!
