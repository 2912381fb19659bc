//! What `ffprobe -v error -of json -show_streams <input>` reports, reduced to
//! the first video and the first audio stream.

use vstd::prelude::*;
use vstd::string::StrSliceExecFns;
use vstd::string::StringExecFns;
use crate::text::same_text;

verus! {

/// The result of one probe: the first video and the first audio stream.
#[derive(Debug, Clone)]
pub struct MediaInfo {
    pub video: Option<Stream>,
    pub audio: Option<Stream>,
}

/// One stream's relevant parameters. `codec_name` is ffprobe's lowercase
/// codec id (`h264`, `aac`, `vp9`, `opus`, `mpeg2video`, `mp3`, ...).
#[derive(Debug, Clone, PartialEq, Eq)]
pub struct Stream {
    pub codec_name: String,
    pub profile: Option<String>,
    pub width: Option<u32>,
    pub height: Option<u32>,
    /// (num, den), e.g. (30000, 1001) for 29.97.
    pub avg_frame_rate: Option<(u32, u32)>,
    pub sample_rate: Option<u32>,
    pub channels: Option<u32>,
}

/// ffprobe's `sample_rate` field, which it writes either as a JSON number or
/// as a JSON string.
#[derive(Debug, Clone, PartialEq, Eq)]
pub enum SampleRateField {
    /// A JSON number, as an unsigned integer when it is one.
    Number(Option<u64>),
    /// A JSON string.
    Text(String),
    /// Any other JSON value.
    Other,
}

/// One entry of ffprobe's `streams` array, with the fields read here.
#[derive(Debug, Clone)]
pub struct ProbeStream {
    pub codec_type: String,
    pub codec_name: Option<String>,
    pub profile: Option<String>,
    pub width: Option<u32>,
    pub height: Option<u32>,
    pub avg_frame_rate: Option<String>,
    pub sample_rate: Option<SampleRateField>,
    pub channels: Option<u32>,
}

pub open spec fn opt_str(o: Option<String>) -> Option<Seq<char>> {
    match o {
        Some(s) => Some(s@),
        None => None,
    }
}

/// What a `Stream` holds.
pub struct StreamView {
    pub codec_name: Seq<char>,
    pub profile: Option<Seq<char>>,
    pub width: Option<u32>,
    pub height: Option<u32>,
    pub avg_frame_rate: Option<(u32, u32)>,
    pub sample_rate: Option<u32>,
    pub channels: Option<u32>,
}

impl View for Stream {
    type V = StreamView;

    open spec fn view(&self) -> StreamView {
        StreamView {
            codec_name: self.codec_name@,
            profile: opt_str(self.profile),
            width: self.width,
            height: self.height,
            avg_frame_rate: self.avg_frame_rate,
            sample_rate: self.sample_rate,
            channels: self.channels,
        }
    }
}

pub open spec fn opt_stream(o: Option<Stream>) -> Option<StreamView> {
    match o {
        Some(s) => Some(s@),
        None => None,
    }
}

/// What a `MediaInfo` holds.
pub struct MediaInfoView {
    pub video: Option<StreamView>,
    pub audio: Option<StreamView>,
}

impl View for MediaInfo {
    type V = MediaInfoView;

    open spec fn view(&self) -> MediaInfoView {
        MediaInfoView { video: opt_stream(self.video), audio: opt_stream(self.audio) }
    }
}

/// What a `SampleRateField` holds.
pub enum SampleRateView {
    Number(Option<u64>),
    Text(Seq<char>),
    Other,
}

/// What a `ProbeStream` holds.
pub struct ProbeStreamView {
    pub codec_type: Seq<char>,
    pub codec_name: Option<Seq<char>>,
    pub profile: Option<Seq<char>>,
    pub width: Option<u32>,
    pub height: Option<u32>,
    pub avg_frame_rate: Option<Seq<char>>,
    pub sample_rate: Option<SampleRateView>,
    pub channels: Option<u32>,
}

impl View for SampleRateField {
    type V = SampleRateView;

    open spec fn view(&self) -> SampleRateView {
        match self {
            SampleRateField::Number(n) => SampleRateView::Number(*n),
            SampleRateField::Text(s) => SampleRateView::Text(s@),
            SampleRateField::Other => SampleRateView::Other,
        }
    }
}

impl View for ProbeStream {
    type V = ProbeStreamView;

    open spec fn view(&self) -> ProbeStreamView {
        ProbeStreamView {
            codec_type: self.codec_type@,
            codec_name: opt_str(self.codec_name),
            profile: opt_str(self.profile),
            width: self.width,
            height: self.height,
            avg_frame_rate: opt_str(self.avg_frame_rate),
            sample_rate: match self.sample_rate {
                Some(f) => Some(f@),
                None => None,
            },
            channels: self.channels,
        }
    }
}

// ---------------------------------------------------------------------------
// Unsigned decimal parsing (the grammar of `u32::from_str`)
// ---------------------------------------------------------------------------

pub open spec fn is_digit(c: char) -> bool {
    '0' <= c && c <= '9'
}

pub open spec fn all_digits(s: Seq<char>) -> bool {
    forall|i: int| 0 <= i < s.len() ==> is_digit(#[trigger] s[i])
}

/// The value of a string of decimal digits.
pub open spec fn digits_value(s: Seq<char>) -> nat
    decreases s.len(),
{
    if s.len() == 0 {
        0
    } else {
        digits_value(s.drop_last()) * 10 + ((s.last() as u32) - ('0' as u32)) as nat
    }
}

/// `u32::from_str`: an optional `+`, then one or more ASCII digits, whose
/// value fits in a `u32`.
pub open spec fn parse_u32_spec(s: Seq<char>) -> Option<u32> {
    let body = if s.len() > 0 && s[0] == '+' {
        s.drop_first()
    } else {
        s
    };
    if body.len() > 0 && all_digits(body) && digits_value(body) <= u32::MAX {
        Some(digits_value(body) as u32)
    } else {
        None
    }
}

proof fn lemma_digits_prefix_le(s: Seq<char>, k: int)
    requires
        0 <= k <= s.len(),
        all_digits(s),
    ensures
        digits_value(s.subrange(0, k)) <= digits_value(s),
    decreases s.len(),
{
    if k < s.len() {
        let t = s.drop_last();
        assert(t.subrange(0, k) =~= s.subrange(0, k));
        assert(all_digits(t)) by {
            assert forall|i: int| 0 <= i < t.len() implies is_digit(#[trigger] t[i]) by {
                assert(t[i] == s[i]);
            }
        }
        lemma_digits_prefix_le(t, k);
    } else {
        assert(s.subrange(0, k) =~= s);
    }
}

/// `u32::from_str` on `s`.
pub fn parse_u32(s: &str) -> (r: Option<u32>)
    ensures
        r == parse_u32_spec(s@),
{
    let n = s.unicode_len();
    let start: usize = if n > 0 && s.get_char(0) == '+' {
        1
    } else {
        0
    };
    let ghost body = if s@.len() > 0 && s@[0] == '+' {
        s@.drop_first()
    } else {
        s@
    };
    assert(body =~= s@.subrange(start as int, n as int));
    if start == n {
        return None;
    }
    let mut acc: u64 = 0;
    let mut k: usize = start;
    assert(s@.subrange(start as int, k as int) =~= Seq::<char>::empty());
    while k < n
        invariant
            start <= k <= n,
            n == s@.len(),
            body == s@.subrange(start as int, n as int),
            body == (if s@.len() > 0 && s@[0] == '+' {
                s@.drop_first()
            } else {
                s@
            }),
            all_digits(s@.subrange(start as int, k as int)),
            acc == digits_value(s@.subrange(start as int, k as int)),
            acc <= u32::MAX,
        decreases n - k,
    {
        let c = s.get_char(k);
        let ghost pre = s@.subrange(start as int, k as int);
        let ghost next = s@.subrange(start as int, k + 1);
        assert(next.drop_last() =~= pre);
        if !(c >= '0' && c <= '9') {
            assert(body[k - start] == c);
            assert(!is_digit(body[k - start]));
            return None;
        }
        let d = (c as u32) - ('0' as u32);
        acc = acc * 10 + d as u64;
        assert(next.last() == c);
        assert(acc == digits_value(next));
        assert(all_digits(next)) by {
            assert forall|i: int| 0 <= i < next.len() implies is_digit(#[trigger] next[i]) by {
                if i < pre.len() {
                    assert(next[i] == pre[i]);
                }
            }
        }
        if acc > 0xFFFF_FFFF {
            proof {
                if all_digits(body) {
                    assert(body.subrange(0, k + 1 - start) =~= next);
                    lemma_digits_prefix_le(body, k + 1 - start);
                }
            }
            return None;
        }
        k = k + 1;
    }
    assert(s@.subrange(start as int, k as int) =~= body);
    Some(acc as u32)
}

/// Position of the first `c` in `s`, if any.
pub open spec fn first_index(s: Seq<char>, c: char) -> Option<int> {
    if exists|i: int| 0 <= i < s.len() && s[i] == c {
        Some(choose|i: int| 0 <= i < s.len() && s[i] == c && forall|j: int| 0 <= j < i ==> s[j] != c)
    } else {
        None
    }
}

/// `"num/den"` split at its first `/`, both halves parsed as `u32`; a zero
/// denominator is rejected.
pub open spec fn parse_fraction_spec(s: Seq<char>) -> Option<(u32, u32)> {
    match first_index(s, '/') {
        None => None,
        Some(i) => match (parse_u32_spec(s.subrange(0, i)), parse_u32_spec(s.subrange(i + 1, s.len() as int))) {
            (Some(n), Some(d)) => if d == 0 {
                None
            } else {
                Some((n, d))
            },
            _ => None,
        },
    }
}

/// Parse an ffprobe rate such as `"30000/1001"`: split at the first `/`,
/// parse both halves as `u32`, reject a zero denominator.
pub fn parse_fraction(s: &str) -> (r: Option<(u32, u32)>)
    ensures
        r == parse_fraction_spec(s@),
{
    let n = s.unicode_len();
    let mut k: usize = 0;
    while k < n
        invariant
            k <= n,
            n == s@.len(),
            forall|j: int| 0 <= j < k ==> s@[j] != '/',
        decreases n - k,
    {
        if s.get_char(k) == '/' {
            proof {
                let j = choose|i: int|
                    0 <= i < s@.len() && s@[i] == '/' && forall|j: int| 0 <= j < i ==> s@[j] != '/';
                assert(0 <= k < s@.len() && s@[k as int] == '/' && forall|j: int|
                    0 <= j < k ==> s@[j] != '/');
                assert(first_index(s@, '/') == Some(k as int));
            }
            let num = parse_u32(s.substring_char(0, k));
            let den = parse_u32(s.substring_char(k + 1, n));
            return match (num, den) {
                (Some(a), Some(b)) => if b == 0 {
                    None
                } else {
                    Some((a, b))
                },
                _ => None,
            };
        }
        k = k + 1;
    }
    None
}

// ---------------------------------------------------------------------------
// Streams to MediaInfo
// ---------------------------------------------------------------------------

/// The sample rate read from ffprobe's field: a number is truncated to
/// `u32`, a string is parsed as `u32`, anything else gives nothing.
pub open spec fn sample_rate_spec(f: Option<SampleRateView>) -> Option<u32> {
    match f {
        Some(SampleRateView::Number(Some(x))) => Some(x as u32),
        Some(SampleRateView::Text(t)) => parse_u32_spec(t),
        _ => None,
    }
}

/// The `Stream` made from a named probe entry.
pub open spec fn stream_spec(p: ProbeStreamView) -> StreamView {
    StreamView {
        codec_name: p.codec_name->0,
        profile: p.profile,
        width: p.width,
        height: p.height,
        avg_frame_rate: match p.avg_frame_rate {
            Some(t) => parse_fraction_spec(t),
            None => None,
        },
        sample_rate: sample_rate_spec(p.sample_rate),
        channels: p.channels,
    }
}

/// Every entry has a `codec_name`.
pub open spec fn all_named(ps: Seq<ProbeStreamView>) -> bool {
    forall|i: int| 0 <= i < ps.len() ==> (#[trigger] ps[i]).codec_name is Some
}

/// The first entry whose `codec_type` is `kind`, as a `Stream`.
pub open spec fn first_of_kind(ps: Seq<ProbeStreamView>, kind: Seq<char>) -> Option<StreamView>
    decreases ps.len(),
{
    if ps.len() == 0 {
        None
    } else if ps[0].codec_type == kind {
        Some(stream_spec(ps[0]))
    } else {
        first_of_kind(ps.drop_first(), kind)
    }
}

/// What a probe reports: an error when some stream lacks `codec_name`,
/// otherwise the first video and the first audio stream.
pub open spec fn media_info_spec(ps: Seq<ProbeStreamView>) -> Option<MediaInfoView> {
    if all_named(ps) {
        Some(MediaInfoView { video: first_of_kind(ps, "video"@), audio: first_of_kind(ps, "audio"@) })
    } else {
        None
    }
}

pub open spec fn probe_views(ps: Seq<ProbeStream>) -> Seq<ProbeStreamView> {
    ps.map_values(|p: ProbeStream| p@)
}

fn clone_opt_string(o: &Option<String>) -> (r: Option<String>)
    ensures
        opt_str(r) == opt_str(*o),
{
    match o {
        Some(s) => Some(String::from_str(s.as_str())),
        None => None,
    }
}

/// The `Stream` for one named probe entry.
fn to_stream(p: &ProbeStream) -> (s: Stream)
    requires
        p.codec_name is Some,
    ensures
        s@ == stream_spec(p@),
{
    let codec_name = match &p.codec_name {
        Some(n) => String::from_str(n.as_str()),
        None => String::new(),
    };
    let avg_frame_rate = match &p.avg_frame_rate {
        Some(t) => parse_fraction(t.as_str()),
        None => None,
    };
    let sample_rate = match &p.sample_rate {
        Some(SampleRateField::Number(Some(x))) => Some(*x as u32),
        Some(SampleRateField::Text(t)) => parse_u32(t.as_str()),
        _ => None,
    };
    Stream {
        codec_name,
        profile: clone_opt_string(&p.profile),
        width: p.width,
        height: p.height,
        avg_frame_rate,
        sample_rate,
        channels: p.channels,
    }
}

proof fn lemma_first_of_kind_step(ps: Seq<ProbeStreamView>, k: int, kind: Seq<char>)
    requires
        0 <= k < ps.len(),
        forall|j: int| 0 <= j < k ==> ps[j].codec_type != kind,
    ensures
        first_of_kind(ps, kind) == first_of_kind(ps.subrange(k, ps.len() as int), kind),
    decreases k,
{
    if k > 0 {
        assert(ps.drop_first().subrange(k - 1, ps.drop_first().len() as int) =~= ps.subrange(
            k,
            ps.len() as int,
        ));
        lemma_first_of_kind_step(ps.drop_first(), k - 1, kind);
    } else {
        assert(ps.subrange(0, ps.len() as int) =~= ps);
    }
}

proof fn lemma_first_of_kind_none(ps: Seq<ProbeStreamView>, kind: Seq<char>)
    requires
        forall|j: int| 0 <= j < ps.len() ==> ps[j].codec_type != kind,
    ensures
        first_of_kind(ps, kind) is None,
    decreases ps.len(),
{
    if ps.len() > 0 {
        lemma_first_of_kind_none(ps.drop_first(), kind);
    }
}

/// Reduce ffprobe's streams to a `MediaInfo`: fails with
/// `"stream missing codec_name"` when any stream lacks `codec_name`;
/// otherwise keeps the first video and the first audio stream and ignores
/// the rest (further video/audio streams, subtitles, attachments).
pub fn media_info_from_streams(streams: &Vec<ProbeStream>) -> (r: Result<MediaInfo, String>)
    ensures
        match (r, media_info_spec(probe_views(streams@))) {
            (Ok(info), Some(v)) => info@ == v,
            (Err(e), None) => e@ == "stream missing codec_name"@,
            _ => false,
        },
{
    let ghost ps = probe_views(streams@);
    let mut info = MediaInfo { video: None, audio: None };
    let mut k: usize = 0;
    let video_kind = "video";
    let audio_kind = "audio";
    proof {
        reveal_strlit("video");
        reveal_strlit("audio");
        assert("video"@[0] != "audio"@[0]);
    }
    while k < streams.len()
        invariant
            k <= streams@.len(),
            ps == probe_views(streams@),
            ps.len() == streams@.len(),
            video_kind@ == "video"@,
            audio_kind@ == "audio"@,
            "video"@ != "audio"@,
            forall|j: int| 0 <= j < k ==> (#[trigger] ps[j]).codec_name is Some,
            info.video is None ==> forall|j: int| 0 <= j < k ==> (#[trigger] ps[j]).codec_type != "video"@,
            info.audio is None ==> forall|j: int| 0 <= j < k ==> (#[trigger] ps[j]).codec_type != "audio"@,
            info.video is Some ==> opt_stream(info.video) == first_of_kind(ps, "video"@),
            info.audio is Some ==> opt_stream(info.audio) == first_of_kind(ps, "audio"@),
        decreases streams.len() - k,
    {
        let s = &streams[k];
        assert(ps[k as int] == s@);
        if s.codec_name.is_none() {
            assert(!all_named(ps));
            return Err(String::from_str("stream missing codec_name"));
        }
        let is_video = same_text(s.codec_type.as_str(), video_kind);
        let is_audio = same_text(s.codec_type.as_str(), audio_kind);
        if is_video && info.video.is_none() {
            proof {
                lemma_first_of_kind_step(ps, k as int, "video"@);
            }
            info.video = Some(to_stream(s));
        } else if is_audio && info.audio.is_none() {
            proof {
                lemma_first_of_kind_step(ps, k as int, "audio"@);
            }
            info.audio = Some(to_stream(s));
        }
        k = k + 1;
    }
    proof {
        if info.video is None {
            lemma_first_of_kind_none(ps, "video"@);
        }
        if info.audio is None {
            lemma_first_of_kind_none(ps, "audio"@);
        }
    }
    Ok(info)
}

} // verus!
