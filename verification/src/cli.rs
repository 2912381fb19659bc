//! Command-line values: the kind of input, the `--rtc-user-id` convention,
//! `--http-header` validation and the `--token-renew-cmd` placeholders.

use vstd::prelude::*;
use vstd::string::StrSliceExecFns;
use vstd::string::StringExecFns;
use crate::ffmpeg::probe::MediaInfo;
use crate::text::{
    ascii_fold, contains_char, eq_ignore_ascii_case, eq_ignore_ascii_case_spec, has_char,
    has_text, matches_at, occurs_at,
};

verus! {

/// The kind of source named by the input argument.
#[derive(Debug, Clone, Copy, PartialEq, Eq, Structural)]
pub enum InputKind {
    LocalFile,
    Https,
    Rtmp,
    Rtsp,
    Unknown,
}

/// `s` begins with `prefix`, ignoring ASCII case.
pub open spec fn starts_with_ignore_case(s: Seq<char>, prefix: Seq<char>) -> bool {
    s.len() >= prefix.len() && eq_ignore_ascii_case_spec(s.subrange(0, prefix.len() as int), prefix)
}

/// The scheme, compared ignoring ASCII case: http(s), rtmp or rtsp; any other
/// `://` is an unsupported URL; everything else is a local path.
pub open spec fn classify_spec(s: Seq<char>) -> InputKind {
    if starts_with_ignore_case(s, "https://"@) || starts_with_ignore_case(s, "http://"@) {
        InputKind::Https
    } else if starts_with_ignore_case(s, "rtmp://"@) {
        InputKind::Rtmp
    } else if starts_with_ignore_case(s, "rtsp://"@) {
        InputKind::Rtsp
    } else if has_text(s, "://"@) {
        InputKind::Unknown
    } else {
        InputKind::LocalFile
    }
}

fn starts_with_ci(s: &str, n: usize, prefix: &str) -> (r: bool)
    requires
        n == s@.len(),
    ensures
        r == starts_with_ignore_case(s@, prefix@),
{
    let m = prefix.unicode_len();
    if n < m {
        return false;
    }
    eq_ignore_ascii_case(s.substring_char(0, m), prefix)
}

/// Whether `needle` occurs in `s`.
pub fn contains_text(s: &str, needle: &str) -> (r: bool)
    ensures
        r == has_text(s@, needle@),
{
    let n = s.unicode_len();
    let m = needle.unicode_len();
    let mut k: usize = 0;
    while k < n
        invariant
            k <= n,
            n == s@.len(),
            m == needle@.len(),
            forall|j: int| 0 <= j < k ==> !occurs_at(s@, needle@, j),
        decreases n - k,
    {
        if matches_at(s, n, needle, m, k) {
            return true;
        }
        k = k + 1;
    }
    matches_at(s, n, needle, m, n)
}

/// Classify the input argument by its scheme.
pub fn classify_input(s: &str) -> (k: InputKind)
    ensures
        k == classify_spec(s@),
{
    let n = s.unicode_len();
    if starts_with_ci(s, n, "https://") || starts_with_ci(s, n, "http://") {
        InputKind::Https
    } else if starts_with_ci(s, n, "rtmp://") {
        InputKind::Rtmp
    } else if starts_with_ci(s, n, "rtsp://") {
        InputKind::Rtsp
    } else if contains_text(s, "://") {
        InputKind::Unknown
    } else {
        InputKind::LocalFile
    }
}

/// The parsed `--rtc-user-id`: the text handed to the SDK, and whether the
/// connection uses string accounts.
#[derive(Debug)]
pub struct ParsedUid {
    pub value: String,
    pub string_mode: bool,
}

pub open spec fn all_ascii_digits(s: Seq<char>) -> bool {
    forall|i: int| 0 <= i < s.len() ==> '0' <= #[trigger] s[i] && s[i] <= '9'
}

/// The convention: a leading `s/` forces a string account (and is
/// stripped); otherwise a non-empty all-digit id is numeric and anything
/// else is a string account, used verbatim.
pub open spec fn parse_uid_spec(raw: Seq<char>) -> (Seq<char>, bool) {
    if raw.len() >= 2 && raw.subrange(0, 2) == "s/"@ {
        (raw.subrange(2, raw.len() as int), true)
    } else {
        (raw, !(raw.len() > 0 && all_ascii_digits(raw)))
    }
}

/// Parse `--rtc-user-id`.
pub fn parse_rtc_user_id(raw: &str) -> (p: ParsedUid)
    ensures
        (p.value@, p.string_mode) == parse_uid_spec(raw@),
{
    let n = raw.unicode_len();
    proof {
        reveal_strlit("s/");
    }
    if n >= 2 && raw.get_char(0) == 's' && raw.get_char(1) == '/' {
        assert(raw@.subrange(0, 2) =~= "s/"@);
        let rest = raw.substring_char(2, n);
        return ParsedUid { value: String::from_str(rest), string_mode: true };
    }
    assert(!(raw@.len() >= 2 && raw@.subrange(0, 2) == "s/"@)) by {
        if raw@.len() >= 2 && raw@.subrange(0, 2) == "s/"@ {
            assert(raw@.subrange(0, 2)[0] == raw@[0]);
            assert(raw@.subrange(0, 2)[1] == raw@[1]);
        }
    }
    let mut all_digits = n > 0;
    let mut k: usize = 0;
    while k < n
        invariant
            k <= n,
            n == raw@.len(),
            all_digits == (n > 0 && forall|j: int| 0 <= j < k ==> '0' <= #[trigger] raw@[j] && raw@[j] <= '9'),
        decreases n - k,
    {
        let c = raw.get_char(k);
        if !(c >= '0' && c <= '9') {
            all_digits = false;
        }
        k = k + 1;
    }
    ParsedUid { value: String::from_str(raw), string_mode: !all_digits }
}

/// What `--http-header` accepts: a value with a colon and without CR or LF.
pub open spec fn header_check_spec(s: Seq<char>) -> Option<Seq<char>> {
    if !has_char(s, ':') {
        Some("--http-header `"@ + s + "` missing colon (expected `Key: Value`)"@)
    } else if has_char(s, '\r') || has_char(s, '\n') {
        Some("--http-header `"@ + s + "` contains a line break (CRLF injection)"@)
    } else {
        None
    }
}

/// Validate one `--http-header` value: it must contain `:` and must not
/// contain CR or LF (a header line cannot hold them).
pub fn validate_http_header(s: &str) -> (r: Result<(), String>)
    ensures
        match (r, header_check_spec(s@)) {
            (Ok(_), None) => true,
            (Err(e), Some(m)) => e@ == m,
            _ => false,
        },
{
    if !contains_char(s, ':') {
        let mut m = String::from_str("--http-header `");
        m.append(s);
        m.append("` missing colon (expected `Key: Value`)");
        return Err(m);
    }
    if contains_char(s, '\r') || contains_char(s, '\n') {
        let mut m = String::from_str("--http-header `");
        m.append(s);
        m.append("` contains a line break (CRLF injection)");
        return Err(m);
    }
    Ok(())
}

/// `str::replace`: every non-overlapping occurrence of the non-empty `pat`,
/// found left to right, replaced by `rep`.
pub open spec fn replace_all(s: Seq<char>, pat: Seq<char>, rep: Seq<char>) -> Seq<char>
    decreases s.len(),
{
    if pat.len() == 0 || s.len() < pat.len() {
        s
    } else if s.subrange(0, pat.len() as int) == pat {
        rep + replace_all(s.subrange(pat.len() as int, s.len() as int), pat, rep)
    } else {
        seq![s[0]] + replace_all(s.drop_first(), pat, rep)
    }
}

/// Replace every occurrence of the non-empty `pat` in `s` by `rep`.
pub fn replace_text(s: &str, pat: &str, rep: &str) -> (r: String)
    requires
        pat@.len() > 0,
    ensures
        r@ == replace_all(s@, pat@, rep@),
{
    let n = s.unicode_len();
    let m = pat.unicode_len();
    let mut out = String::new();
    let mut k: usize = 0;
    assert(s@.subrange(0, n as int) =~= s@);
    while k < n
        invariant
            k <= n,
            n == s@.len(),
            m == pat@.len(),
            m > 0,
            out@ + replace_all(s@.subrange(k as int, n as int), pat@, rep@) == replace_all(
                s@,
                pat@,
                rep@,
            ),
        decreases n - k,
    {
        let ghost rest = s@.subrange(k as int, n as int);
        if matches_at(s, n, pat, m, k) {
            assert(rest.subrange(0, m as int) =~= s@.subrange(k as int, k + m));
            assert(rest.subrange(m as int, rest.len() as int) =~= s@.subrange(k + m, n as int));
            out.append(rep);
            k = k + m;
        } else {
            proof {
                if rest.len() >= m {
                    assert(rest.subrange(0, m as int) =~= s@.subrange(k as int, k + m));
                }
            }
            assert(rest.drop_first() =~= s@.subrange(k + 1, n as int));
            assert(rest[0] == s@[k as int]);
            let one = s.substring_char(k, k + 1);
            assert(one@ =~= seq![rest[0]]);
            out.append(one);
            k = k + 1;
        }
    }
    assert(s@.subrange(k as int, n as int) =~= Seq::<char>::empty());
    assert(out@ + Seq::<char>::empty() =~= out@);
    out
}

/// The `--token-renew-cmd` template with `{channel}` and then
/// `{rtc_user_id}` replaced.
pub open spec fn substitute_spec(template: Seq<char>, channel: Seq<char>, rtc_user_id: Seq<char>) -> Seq<char> {
    replace_all(replace_all(template, "{channel}"@, channel), "{rtc_user_id}"@, rtc_user_id)
}

/// Substitute the `{channel}` and `{rtc_user_id}` placeholders in the
/// `--token-renew-cmd` template.
pub fn substitute_token_cmd(template: &str, channel: &str, rtc_user_id: &str) -> (r: String)
    ensures
        r@ == substitute_spec(template@, channel@, rtc_user_id@),
{
    proof {
        reveal_strlit("{channel}");
        reveal_strlit("{rtc_user_id}");
    }
    let first = replace_text(template, "{channel}", channel);
    replace_text(first.as_str(), "{rtc_user_id}", rtc_user_id)
}

/// `--audio-only` and `--video-only` cannot be given together.
pub open spec fn only_flags_spec(audio_only: bool, video_only: bool) -> Option<Seq<char>> {
    if audio_only && video_only {
        Some("--audio-only and --video-only are mutually exclusive"@)
    } else {
        None
    }
}

/// Refuse `--audio-only` together with `--video-only`.
pub fn check_only_flags(audio_only: bool, video_only: bool) -> (r: Result<(), String>)
    ensures
        match (r, only_flags_spec(audio_only, video_only)) {
            (Ok(_), None) => true,
            (Err(e), Some(m)) => e@ == m,
            _ => false,
        },
{
    if audio_only && video_only {
        Err(String::from_str("--audio-only and --video-only are mutually exclusive"))
    } else {
        Ok(())
    }
}

/// Which streams are published.
#[derive(Debug, Clone, Copy, PartialEq, Eq, Structural)]
pub struct StreamChoice {
    pub audio: bool,
    pub video: bool,
    /// The input has no audio and video is published alone: worth a warning.
    pub warn_no_audio: bool,
}

/// The streams published for an input with (or without) audio and video:
/// the flags are refused together, `--audio-only` needs audio,
/// `--video-only` needs video, and without `--audio-only` video is required;
/// otherwise each present stream is published unless the other one is
/// asked for alone.
pub open spec fn select_spec(has_audio: bool, has_video: bool, audio_only: bool, video_only: bool) -> Result<StreamChoice, Seq<char>> {
    if audio_only && video_only {
        Err("--audio-only and --video-only are mutually exclusive"@)
    } else if audio_only && !has_audio {
        Err("--audio-only requested but input has no audio stream"@)
    } else if video_only && !has_video {
        Err("--video-only requested but input has no video stream"@)
    } else if !audio_only && !has_video {
        Err("Input has no video stream; pass --audio-only to publish audio only"@)
    } else {
        Ok(
            StreamChoice {
                audio: has_audio && !video_only,
                video: has_video && !audio_only,
                warn_no_audio: !video_only && !has_audio,
            },
        )
    }
}

/// Decide which of the probed streams are published.
pub fn select_streams(info: &MediaInfo, audio_only: bool, video_only: bool) -> (r: Result<StreamChoice, String>)
    ensures
        match (r, select_spec(info.audio is Some, info.video is Some, audio_only, video_only)) {
            (Ok(c), Ok(d)) => c == d,
            (Err(e), Err(m)) => e@ == m,
            _ => false,
        },
{
    let has_audio = info.audio.is_some();
    let has_video = info.video.is_some();
    if audio_only && video_only {
        return Err(String::from_str("--audio-only and --video-only are mutually exclusive"));
    }
    if audio_only && !has_audio {
        return Err(String::from_str("--audio-only requested but input has no audio stream"));
    }
    if video_only && !has_video {
        return Err(String::from_str("--video-only requested but input has no video stream"));
    }
    if !audio_only && !has_video {
        return Err(String::from_str("Input has no video stream; pass --audio-only to publish audio only"));
    }
    Ok(
        StreamChoice {
            audio: has_audio && !video_only,
            video: has_video && !audio_only,
            warn_no_audio: !video_only && !has_audio,
        },
    )
}

/// A published stream is always present in the input, and at most one of
/// `--audio-only` / `--video-only` keeps the other stream out; an accepted
/// choice always publishes something.
pub proof fn lemma_selection_publishes_present_streams(has_audio: bool, has_video: bool, audio_only: bool, video_only: bool)
    requires
        select_spec(has_audio, has_video, audio_only, video_only) is Ok,
    ensures
        ({
            let c = select_spec(has_audio, has_video, audio_only, video_only)->Ok_0;
            &&& c.audio ==> has_audio
            &&& c.video ==> has_video
            &&& audio_only ==> c.audio && !c.video
            &&& video_only ==> c.video && !c.audio
            &&& c.audio || c.video
        }),
{
}

/// `char::is_whitespace`: the Unicode `White_Space` characters.
pub open spec fn is_white(c: char) -> bool {
    ('\u{9}' <= c && c <= '\u{d}') || c == ' ' || c == '\u{85}' || c == '\u{a0}' || c == '\u{1680}'
        || ('\u{2000}' <= c && c <= '\u{200a}') || c == '\u{2028}' || c == '\u{2029}' || c == '\u{202f}'
        || c == '\u{205f}' || c == '\u{3000}'
}

fn white(c: char) -> (r: bool)
    ensures
        r == is_white(c),
{
    (c >= '\u{9}' && c <= '\u{d}') || c == ' ' || c == '\u{85}' || c == '\u{a0}' || c == '\u{1680}' || (c
        >= '\u{2000}' && c <= '\u{200a}') || c == '\u{2028}' || c == '\u{2029}' || c == '\u{202f}' || c
        == '\u{205f}' || c == '\u{3000}'
}

/// `s` without its leading whitespace.
pub open spec fn trim_start(s: Seq<char>) -> Seq<char>
    decreases s.len(),
{
    if s.len() > 0 && is_white(s[0]) {
        trim_start(s.drop_first())
    } else {
        s
    }
}

/// `s` without its trailing whitespace.
pub open spec fn trim_end(s: Seq<char>) -> Seq<char>
    decreases s.len(),
{
    if s.len() > 0 && is_white(s.last()) {
        trim_end(s.drop_last())
    } else {
        s
    }
}

/// `str::trim`: `s` without leading and trailing whitespace.
pub open spec fn trim_spec(s: Seq<char>) -> Seq<char> {
    trim_end(trim_start(s))
}

/// The new token a `--token-renew-cmd` printed: its whole output with
/// leading and trailing whitespace removed; nothing when that is empty.
pub fn renewed_token(output: &str) -> (r: Option<String>)
    ensures
        trim_spec(output@).len() == 0 ==> r is None,
        trim_spec(output@).len() > 0 ==> (r matches Some(t) && t@ == trim_spec(output@)),
{
    let n = output.unicode_len();
    let mut a: usize = 0;
    assert(output@.subrange(0, n as int) =~= output@);
    while a < n && white(output.get_char(a))
        invariant
            a <= n,
            n == output@.len(),
            trim_start(output@) == trim_start(output@.subrange(a as int, n as int)),
        decreases n - a,
    {
        assert(output@.subrange(a as int, n as int).drop_first() =~= output@.subrange(a + 1, n as int));
        a = a + 1;
    }
    let ghost t = output@.subrange(a as int, n as int);
    assert(trim_start(output@) == t) by {
        if a < n {
            assert(t[0] == output@[a as int]);
        }
    }
    let mut e: usize = n;
    assert(t.subrange(0, (e - a) as int) =~= t);
    while e > a && white(output.get_char(e - 1))
        invariant
            a <= e <= n,
            n == output@.len(),
            t == output@.subrange(a as int, n as int),
            trim_end(t) == trim_end(t.subrange(0, (e - a) as int)),
        decreases e,
    {
        let ghost u = t.subrange(0, (e - a) as int);
        assert(u.last() == output@[e - 1]);
        assert(u.drop_last() =~= t.subrange(0, (e - 1 - a) as int));
        e = e - 1;
    }
    let ghost u = t.subrange(0, (e - a) as int);
    assert(trim_end(t) == u) by {
        if e > a {
            assert(u.last() == output@[e - 1]);
        }
    }
    if e == a {
        return None;
    }
    let piece = output.substring_char(a, e);
    assert(piece@ =~= u);
    Some(String::from_str(piece))
}

/// Case folding is an equivalence: equal folds compare alike.
proof fn lemma_fold_prefix(a: Seq<char>, b: Seq<char>, p: Seq<char>)
    requires
        eq_ignore_ascii_case_spec(a, b),
    ensures
        starts_with_ignore_case(a, p) == starts_with_ignore_case(b, p),
{
    if a.len() >= p.len() {
        let n = p.len() as int;
        let sa = a.subrange(0, n);
        let sb = b.subrange(0, n);
        assert forall|i: int| 0 <= i < n implies ascii_fold(#[trigger] sa[i]) == ascii_fold(sb[i]) by {
            assert(sa[i] == a[i]);
            assert(sb[i] == b[i]);
        }
        if eq_ignore_ascii_case_spec(sa, p) {
            assert forall|i: int| 0 <= i < n implies ascii_fold(#[trigger] sb[i]) == ascii_fold(p[i]) by {
                assert(ascii_fold(sa[i]) == ascii_fold(p[i]));
            }
        }
        if eq_ignore_ascii_case_spec(sb, p) {
            assert forall|i: int| 0 <= i < n implies ascii_fold(#[trigger] sa[i]) == ascii_fold(p[i]) by {
                assert(ascii_fold(sb[i]) == ascii_fold(p[i]));
            }
        }
    }
}

/// A character whose fold is that of `:` or `/` is that character.
proof fn lemma_fold_punct(c: char, d: char)
    requires
        ascii_fold(c) == ascii_fold(d),
        d == ':' || d == '/',
    ensures
        c == d,
{
}

/// The input's kind does not depend on ASCII case: two inputs equal up to
/// ASCII case are classified alike (`HTTPS://x` like `https://x`).
pub proof fn lemma_classify_ignores_case(a: Seq<char>, b: Seq<char>)
    requires
        eq_ignore_ascii_case_spec(a, b),
    ensures
        classify_spec(a) == classify_spec(b),
{
    lemma_fold_prefix(a, b, "https://"@);
    lemma_fold_prefix(a, b, "http://"@);
    lemma_fold_prefix(a, b, "rtmp://"@);
    lemma_fold_prefix(a, b, "rtsp://"@);
    reveal_strlit("://");
    let pat = "://"@;
    assert forall|k: int| occurs_at(a, pat, k) <==> occurs_at(b, pat, k) by {
        if 0 <= k && k + 3 <= a.len() {
            if occurs_at(a, pat, k) {
                assert forall|i: int| 0 <= i < 3 implies b.subrange(k, k + 3)[i] == pat[i] by {
                    assert(a.subrange(k, k + 3)[i] == a[k + i]);
                    assert(ascii_fold(a[k + i]) == ascii_fold(b[k + i]));
                    lemma_fold_punct(b[k + i], a[k + i]);
                }
                assert(b.subrange(k, k + 3) =~= pat);
            }
            if occurs_at(b, pat, k) {
                assert forall|i: int| 0 <= i < 3 implies a.subrange(k, k + 3)[i] == pat[i] by {
                    assert(b.subrange(k, k + 3)[i] == b[k + i]);
                    assert(ascii_fold(a[k + i]) == ascii_fold(b[k + i]));
                    lemma_fold_punct(a[k + i], b[k + i]);
                }
                assert(a.subrange(k, k + 3) =~= pat);
            }
        }
    }
    assert(has_text(a, pat) == has_text(b, pat)) by {
        if has_text(a, pat) {
            let k = choose|k: int| occurs_at(a, pat, k);
            assert(occurs_at(b, pat, k));
        }
        if has_text(b, pat) {
            let k = choose|k: int| occurs_at(b, pat, k);
            assert(occurs_at(a, pat, k));
        }
    }
}

/// Replacing a pattern that does not occur changes nothing.
proof fn lemma_replace_absent(s: Seq<char>, pat: Seq<char>, rep: Seq<char>)
    requires
        pat.len() > 0,
        !has_text(s, pat),
    ensures
        replace_all(s, pat, rep) == s,
    decreases s.len(),
{
    if s.len() >= pat.len() {
        assert(!occurs_at(s, pat, 0));
        let t = s.drop_first();
        assert(!has_text(t, pat)) by {
            if has_text(t, pat) {
                let k = choose|k: int| occurs_at(t, pat, k);
                assert(s.subrange(k + 1, k + 1 + pat.len()) =~= t.subrange(k, k + pat.len()));
                assert(occurs_at(s, pat, k + 1));
            }
        }
        lemma_replace_absent(t, pat, rep);
        assert(seq![s[0]] + t =~= s);
    }
}

/// A `--token-renew-cmd` without placeholders runs as written.
pub proof fn lemma_substitute_without_placeholders(template: Seq<char>, channel: Seq<char>, rtc_user_id: Seq<char>)
    requires
        !has_text(template, "{channel}"@),
        !has_text(template, "{rtc_user_id}"@),
    ensures
        substitute_spec(template, channel, rtc_user_id) == template,
{
    reveal_strlit("{channel}");
    reveal_strlit("{rtc_user_id}");
    lemma_replace_absent(template, "{channel}"@, channel);
    lemma_replace_absent(template, "{rtc_user_id}"@, rtc_user_id);
}

} // verus!
