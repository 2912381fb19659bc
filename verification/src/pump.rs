//! The decisions a frame pump takes between reads: what to push next from
//! its buffer and when, when a raw frame is complete, and, when an ffmpeg
//! child hits end of stream, whether to respawn it (bounded by
//! `--reconnect-attempts`) or give up, and when recent progress restores the
//! respawn budget.
//!
//! The pump itself (reading the pipe, sleeping, pushing to the SDK,
//! respawning the child) runs in the program and asks these functions what
//! to do.

use vstd::prelude::*;
use vstd::string::StringExecFns;
use crate::text::{dec_nat, push_decimal};
use crate::parse::aac::{adts_channels, adts_error, adts_frame_length, adts_malformed, adts_sample_rate,
    adts_sr_index, lemma_frame_stable_under_append, next_frame};
use crate::parse::annexb::{is_sc3, is_sc4, lemma_start_codes_from, start_codes};
use crate::parse::buffer::drain_front;
use crate::parse::h264::{au_split, lemma_au_stable_under_append, lemma_unit_ends_at_start_code, next_au, AuSplit};
use crate::parse::opus::concat_chunks;

verus! {

/// Progress within two seconds of a respawn does not count: only a push at
/// least this long after the respawn restores the respawn budget.
pub const PROGRESS_WINDOW_NS: u64 = 2_000_000_000;

/// Respawn bookkeeping of one pump.
pub struct Reconnect {
    consecutive_failures: u32,
    pushed_since_last_respawn: bool,
    last_respawn_at_ns: Option<u64>,
}

/// The state of a `Reconnect`: respawns since the last counted progress,
/// whether a frame was pushed since the last respawn, and when (on the
/// pump's monotonic clock, in nanoseconds) the last uncounted respawn
/// happened.
pub struct ReconnectView {
    pub failures: u32,
    pub pushed: bool,
    pub respawned_at: Option<u64>,
}

/// What to do at end of stream.
#[derive(Debug, Clone, Copy, PartialEq, Eq, Structural)]
pub enum EofAction {
    /// Respawn ffmpeg; this is attempt number `attempt` of the budget.
    Respawn { attempt: u32 },
    /// Stop the pump; `unreachable` when a remote source exhausted the
    /// budget, which is reported as a connection failure.
    GiveUp { unreachable: bool },
}

/// End of stream: a remote source within budget is respawned (recent pushes
/// first reset the count of consecutive failures); otherwise the pump stops,
/// reporting an unreachable remote source once the budget is spent.
pub open spec fn eof_spec(st: ReconnectView, is_remote: bool, attempts: u32) -> (ReconnectView, EofAction) {
    if is_remote && st.failures < attempts {
        let base: u32 = if st.pushed {
            0
        } else {
            st.failures
        };
        (
            ReconnectView { failures: (base + 1) as u32, pushed: false, respawned_at: st.respawned_at },
            EofAction::Respawn { attempt: (base + 1) as u32 },
        )
    } else {
        (st, EofAction::GiveUp { unreachable: st.failures >= attempts && is_remote })
    }
}

/// A frame was pushed at `now`: counted as progress, and when the last
/// respawn is at least two seconds old the failure count starts over.
pub open spec fn push_spec(st: ReconnectView, now: u64) -> ReconnectView {
    match st.respawned_at {
        Some(t) => if now >= t && now - t >= PROGRESS_WINDOW_NS {
            ReconnectView { failures: 0, pushed: true, respawned_at: None }
        } else {
            ReconnectView { pushed: true, ..st }
        },
        None => ReconnectView { pushed: true, ..st },
    }
}

impl Reconnect {
    pub closed spec fn view(&self) -> ReconnectView {
        ReconnectView {
            failures: self.consecutive_failures,
            pushed: self.pushed_since_last_respawn,
            respawned_at: self.last_respawn_at_ns,
        }
    }

    /// A fresh pump: no failures, and start-up counts as progress.
    pub fn new() -> (r: Self)
        ensures
            r.view() == (ReconnectView { failures: 0, pushed: true, respawned_at: None }),
    {
        Reconnect { consecutive_failures: 0, pushed_since_last_respawn: true, last_respawn_at_ns: None }
    }

    /// Decide what to do at end of stream.
    pub fn on_eof(&mut self, is_remote: bool, attempts: u32) -> (a: EofAction)
        ensures
            (final(self).view(), a) == eof_spec(old(self).view(), is_remote, attempts),
    {
        if is_remote && self.consecutive_failures < attempts {
            if self.pushed_since_last_respawn {
                self.consecutive_failures = 0;
            }
            self.consecutive_failures = self.consecutive_failures + 1;
            self.pushed_since_last_respawn = false;
            EofAction::Respawn { attempt: self.consecutive_failures }
        } else {
            EofAction::GiveUp {
                unreachable: self.consecutive_failures >= attempts && is_remote,
            }
        }
    }

    /// The respawn decided by `on_eof` happened at `now_ns`.
    pub fn on_respawned(&mut self, now_ns: u64)
        ensures
            final(self).view() == (ReconnectView { respawned_at: Some(now_ns), ..old(self).view() }),
    {
        self.last_respawn_at_ns = Some(now_ns);
    }

    /// A frame was pushed at `now_ns`.
    pub fn on_push(&mut self, now_ns: u64)
        ensures
            final(self).view() == push_spec(old(self).view(), now_ns),
    {
        self.pushed_since_last_respawn = true;
        if let Some(t) = self.last_respawn_at_ns {
            if now_ns >= t && now_ns - t >= PROGRESS_WINDOW_NS {
                self.consecutive_failures = 0;
                self.last_respawn_at_ns = None;
            }
        }
    }
}

/// The failure reported when a remote source gave up after `attempts`
/// respawns.
pub open spec fn unreachable_message_spec(attempts: u32) -> Seq<char> {
    "RTMP/RTSP source unreachable after "@ + dec_nat(attempts as nat) + " attempts"@
}

/// The failure message for a remote source that `on_eof` gave up on as
/// unreachable; it is reported with code 0.
pub fn unreachable_message(attempts: u32) -> (s: String)
    ensures
        s@ == unreachable_message_spec(attempts),
{
    let mut s = String::from_str("RTMP/RTSP source unreachable after ");
    push_decimal(&mut s, attempts as u64);
    s.append(" attempts");
    s
}

/// The state after `n` ends of stream in a row, each followed by its respawn
/// (if one was decided) at time `t`, with no frame pushed in between; and
/// how many respawns were decided.
pub open spec fn eof_run(st: ReconnectView, is_remote: bool, attempts: u32, n: nat, t: u64) -> (ReconnectView, nat)
    decreases n,
{
    if n == 0 {
        (st, 0)
    } else {
        let (st1, a) = eof_spec(st, is_remote, attempts);
        match a {
            EofAction::Respawn { .. } => {
                let st2 = ReconnectView { respawned_at: Some(t), ..st1 };
                let (st3, k) = eof_run(st2, is_remote, attempts, (n - 1) as nat, t);
                (st3, k + 1)
            },
            EofAction::GiveUp { .. } => {
                let (st3, k) = eof_run(st1, is_remote, attempts, (n - 1) as nat, t);
                (st3, k)
            },
        }
    }
}

proof fn lemma_eof_run_from_unpushed(st: ReconnectView, is_remote: bool, attempts: u32, n: nat, t: u64)
    requires
        !st.pushed,
        st.failures <= attempts,
    ensures
        eof_run(st, is_remote, attempts, n, t).1 <= attempts - st.failures,
        !eof_run(st, is_remote, attempts, n, t).0.pushed,
    decreases n,
{
    if n > 0 {
        let (st1, a) = eof_spec(st, is_remote, attempts);
        match a {
            EofAction::Respawn { .. } => {
                let st2 = ReconnectView { respawned_at: Some(t), ..st1 };
                lemma_eof_run_from_unpushed(st2, is_remote, attempts, (n - 1) as nat, t);
            },
            EofAction::GiveUp { .. } => {
                lemma_eof_run_from_unpushed(st1, is_remote, attempts, (n - 1) as nat, t);
            },
        }
    }
}

/// Respawning is bounded by `--reconnect-attempts`: however many ends of
/// stream arrive in a row without a frame pushed in between, at most
/// `attempts` of them lead to a respawn.
pub proof fn lemma_respawns_bounded(st: ReconnectView, is_remote: bool, attempts: u32, n: nat, t: u64)
    ensures
        eof_run(st, is_remote, attempts, n, t).1 <= attempts,
    decreases n,
{
    if n > 0 {
        let (st1, a) = eof_spec(st, is_remote, attempts);
        match a {
            EofAction::Respawn { .. } => {
                let st2 = ReconnectView { respawned_at: Some(t), ..st1 };
                lemma_eof_run_from_unpushed(st2, is_remote, attempts, (n - 1) as nat, t);
            },
            EofAction::GiveUp { .. } => {
                lemma_respawns_bounded(st1, is_remote, attempts, (n - 1) as nat, t);
            },
        }
    }
}

/// A local file is never respawned, and `--reconnect-attempts 0` disables
/// respawning entirely; in both cases the pump stops at end of stream.
pub proof fn lemma_no_respawn_without_budget(st: ReconnectView, is_remote: bool, attempts: u32)
    requires
        !is_remote || attempts == 0,
    ensures
        eof_spec(st, is_remote, attempts).1 is GiveUp,
        eof_spec(st, is_remote, attempts).0 == st,
{
}

/// A push at least two seconds after a respawn restores the whole budget:
/// the next end of stream of a remote source with a non-zero budget is
/// respawned as attempt 1.
pub proof fn lemma_progress_restores_budget(st: ReconnectView, t: u64, now: u64, attempts: u32)
    requires
        st.respawned_at == Some(t),
        now >= t,
        now - t >= PROGRESS_WINDOW_NS,
        attempts > 0,
    ensures
        eof_spec(push_spec(st, now), true, attempts).1 == (EofAction::Respawn { attempt: 1 }),
{
}

// ---------------------------------------------------------------------------
// Pacing
// ---------------------------------------------------------------------------

/// A frame rate component, with 0 taken as 1.
pub open spec fn at_least_one(x: u32) -> nat {
    if x == 0 {
        1
    } else {
        x as nat
    }
}

/// When frame `idx` is due, in microseconds after the session started:
/// `idx * 1e6 * den / num` with the rate's zero parts taken as 1.
pub open spec fn frame_due_us_spec(idx: nat, fps_n: u32, fps_d: u32) -> nat {
    idx * 1_000_000 * at_least_one(fps_d) / at_least_one(fps_n)
}

/// The microsecond offset at which frame `idx` is due.
pub fn frame_due_us(idx: u64, fps_n: u32, fps_d: u32) -> (us: u64)
    requires
        idx * 1_000_000 * at_least_one(fps_d) <= u64::MAX,
    ensures
        us == frame_due_us_spec(idx as nat, fps_n, fps_d),
{
    let n: u64 = if fps_n == 0 {
        1
    } else {
        fps_n as u64
    };
    let d: u64 = if fps_d == 0 {
        1
    } else {
        fps_d as u64
    };
    assert(idx * 1_000_000 <= idx * 1_000_000 * d) by (nonlinear_arith)
        requires
            d >= 1,
    ;
    idx * 1_000_000 * d / n
}

/// The presentation timestamp of frame `idx` in milliseconds:
/// `idx * 1000 * den / num` with the rate's zero parts taken as 1.
pub open spec fn frame_pts_ms_spec(idx: nat, fps_n: u32, fps_d: u32) -> nat {
    idx * 1000 * at_least_one(fps_d) / at_least_one(fps_n)
}

/// The millisecond timestamp of frame `idx`.
pub fn frame_pts_ms(idx: u64, fps_n: u32, fps_d: u32) -> (ms: i64)
    requires
        idx * 1000 * at_least_one(fps_d) <= i64::MAX,
    ensures
        ms == frame_pts_ms_spec(idx as nat, fps_n, fps_d),
{
    let n: i64 = if fps_n == 0 {
        1
    } else {
        fps_n as i64
    };
    let d: i64 = if fps_d == 0 {
        1
    } else {
        fps_d as i64
    };
    assert(idx * 1000 <= idx * 1000 * d) by (nonlinear_arith)
        requires
            d >= 1,
    ;
    let i = idx as i64;
    i * 1000 * d / n
}

/// Pacing never runs backwards: a later frame is never due earlier.
pub proof fn lemma_frame_due_monotone(i: nat, j: nat, fps_n: u32, fps_d: u32)
    requires
        i <= j,
    ensures
        frame_due_us_spec(i, fps_n, fps_d) <= frame_due_us_spec(j, fps_n, fps_d),
        frame_pts_ms_spec(i, fps_n, fps_d) <= frame_pts_ms_spec(j, fps_n, fps_d),
{
    let n = at_least_one(fps_n);
    let d = at_least_one(fps_d);
    assert(i * 1_000_000 * d <= j * 1_000_000 * d) by (nonlinear_arith)
        requires
            i <= j,
    ;
    assert(i * 1000 * d <= j * 1000 * d) by (nonlinear_arith)
        requires
            i <= j,
    ;
    assert((i * 1_000_000 * d) / n <= (j * 1_000_000 * d) / n) by (nonlinear_arith)
        requires
            i * 1_000_000 * d <= j * 1_000_000 * d,
            n >= 1,
    ;
    assert((i * 1000 * d) / n <= (j * 1000 * d) / n) by (nonlinear_arith)
        requires
            i * 1000 * d <= j * 1000 * d,
            n >= 1,
    ;
}

/// A frame's timestamp is the whole millisecond of the moment it is due.
pub proof fn lemma_pts_is_due_in_ms(idx: nat, fps_n: u32, fps_d: u32)
    ensures
        frame_pts_ms_spec(idx, fps_n, fps_d) == frame_due_us_spec(idx, fps_n, fps_d) / 1000,
{
    let n = at_least_one(fps_n) as int;
    let d = at_least_one(fps_d) as int;
    let x = idx * 1000 * d;
    assert(idx * 1_000_000 * d == x * 1000) by (nonlinear_arith)
        requires
            x == idx * 1000 * d,
    ;
    assert(x >= 0) by (nonlinear_arith)
        requires
            x == idx * 1000 * d,
            d >= 1,
            idx >= 0,
    ;
    vstd::arithmetic::div_mod::lemma_div_denominator(x * 1000, n, 1000);
    vstd::arithmetic::div_mod::lemma_div_denominator(x * 1000, 1000, n);
    assert(n * 1000 == 1000 * n) by (nonlinear_arith);
    assert((x * 1000) / 1000 == x) by (nonlinear_arith)
        requires
            x >= 0,
    ;
}

/// The capture timestamp of raw PCM chunk `idx` (each chunk is 10 ms), in
/// milliseconds, wrapped to 32 bits as the SDK's field holds it.
pub fn pcm_timestamp_ms(idx: u64) -> (ms: u32)
    requires
        idx * 10 <= u64::MAX,
    ensures
        ms == (idx * 10) % 0x1_0000_0000,
{
    let total = idx * 10;
    let ms = total as u32;
    assert(ms == total % 0x1_0000_0000) by (bit_vector)
        requires
            ms == total as u32,
    ;
    ms
}

// ---------------------------------------------------------------------------
// Push steps
// ---------------------------------------------------------------------------

/// An encoded video unit to push, with when it is due and its timestamp.
pub struct VideoPush {
    pub data: Vec<u8>,
    pub is_keyframe: bool,
    /// Microseconds after the session started.
    pub due_us: u64,
    pub pts_ms: i64,
}

/// One step of the encoded-video pump over its buffer, for frame number
/// `frame_idx`: split the buffer as a stream that has not ended (so the
/// access unit at the end, with no start code after it, is never taken).
/// When an access unit is found, its length in bytes is taken from the front
/// of the buffer and pushed, with its keyframe flag, due time and timestamp;
/// otherwise nothing changes.
pub fn h264_step(buf: &mut Vec<u8>, frame_idx: u64, fps_n: u32, fps_d: u32) -> (r: Option<VideoPush>)
    requires
        frame_idx * 1_000_000 * at_least_one(fps_d) <= u64::MAX,
        frame_idx * 1000 * at_least_one(fps_d) <= i64::MAX,
    ensures
        match au_split(old(buf)@, false) {
            AuSplit::Unit { start, end, keyframe } => {
                &&& r matches Some(p)
                &&& p.data@ == old(buf)@.subrange(0, end - start)
                &&& p.is_keyframe == keyframe
                &&& p.due_us == frame_due_us_spec(frame_idx as nat, fps_n, fps_d)
                &&& p.pts_ms == frame_pts_ms_spec(frame_idx as nat, fps_n, fps_d)
                &&& final(buf)@ == old(buf)@.subrange(end - start, old(buf)@.len() as int)
            },
            _ => r is None && final(buf)@ == old(buf)@,
        },
{
    let (len, is_keyframe) = match next_au(buf.as_slice(), false) {
        Ok(Some(au)) => (au.data.len(), au.is_keyframe),
        _ => {
            return None;
        },
    };
    let data = vstd::slice::slice_to_vec(&buf.as_slice()[0..len]);
    drain_front(buf, len);
    Some(
        VideoPush {
            data,
            is_keyframe,
            due_us: frame_due_us(frame_idx, fps_n, fps_d),
            pts_ms: frame_pts_ms(frame_idx, fps_n, fps_d),
        },
    )
}

/// In steady state ffmpeg's Annex-B output starts with a start code. Then
/// each step pushes exactly one whole access unit, what is left again starts
/// with a start code (the next access unit's), and the access unit at the end
/// of the buffer is never pushed: one is taken only once a start code after
/// it has arrived.
pub proof fn lemma_h264_steps_stay_aligned(b: Seq<u8>)
    requires
        is_sc3(b, 0) || is_sc4(b, 0),
        au_split(b, false) is Unit,
    ensures
        au_split(b, false) matches AuSplit::Unit { start, end, .. } && start == 0 && end < b.len() && (is_sc3(
            b.subrange(end, b.len() as int),
            0,
        ) || is_sc4(b.subrange(end, b.len() as int), 0)),
{
    let s = start_codes(b);
    lemma_start_codes_from(b, 0);
    assert(s[0] == 0);
    lemma_unit_ends_at_start_code(b);
    let end = au_split(b, false)->end;
    let rest = b.subrange(end, b.len() as int);
    assert(rest[0] == b[end] && rest[1] == b[end + 1] && rest[2] == b[end + 2]);
    if is_sc4(b, end) {
        assert(rest[3] == b[end + 3]);
    }
}

// ---------------------------------------------------------------------------
// The encoded-video pump over a whole stream
// ---------------------------------------------------------------------------

/// What one `h264_step` takes from the front of buffer `b`: the access unit's
/// bytes and keyframe flag, and the bytes left behind it; `None` when the
/// step takes nothing.
pub open spec fn h264_take(b: Seq<u8>) -> Option<(Seq<u8>, bool, Seq<u8>)> {
    match au_split(b, false) {
        AuSplit::Unit { start, end, keyframe } => Some(
            (b.subrange(0, end - start), keyframe, b.subrange(end - start, b.len() as int)),
        ),
        _ => None,
    }
}

/// A step that takes something takes a non-empty prefix of the buffer.
pub proof fn lemma_h264_take_progress(b: Seq<u8>)
    requires
        h264_take(b) is Some,
    ensures
        h264_take(b) matches Some((d, k, r)) && d.len() > 0 && d + r == b && r.len() < b.len(),
{
    lemma_unit_ends_at_start_code(b);
    lemma_start_codes_from(b, 0);
    let (d, k, r) = h264_take(b).unwrap();
    assert(d + r =~= b);
}

/// Steps over `b` until one takes nothing: the access units pushed, in order
/// (bytes and keyframe flag), and the bytes left.
pub open spec fn h264_drain(b: Seq<u8>) -> (Seq<(Seq<u8>, bool)>, Seq<u8>)
    decreases b.len(),
{
    match h264_take(b) {
        Some((d, k, r)) => {
            proof {
                lemma_h264_take_progress(b);
            }
            let (us, left) = h264_drain(r);
            (seq![(d, k)] + us, left)
        },
        None => (Seq::empty(), b),
    }
}

/// The encoded-video pump from buffer `b` over a run of events: `Some(bytes)`
/// is a read that returned bytes, appended and then drained; `None` is an end
/// of stream after which the child was respawned, and the buffer is cleared.
/// The access units pushed, in order, and the bytes left. The pump numbers
/// its pushes from its first, across respawns: the `k`-th unit here goes out
/// with frame index `k` (its due time and timestamp are
/// `frame_due_us_spec(k, ..)` and `frame_pts_ms_spec(k, ..)`).
pub open spec fn h264_feed(b: Seq<u8>, events: Seq<Option<Seq<u8>>>) -> (Seq<(Seq<u8>, bool)>, Seq<u8>)
    decreases events.len(),
{
    if events.len() == 0 {
        (Seq::empty(), b)
    } else {
        let (us1, b1) = match events[0] {
            Some(c) => h264_drain(b + c),
            None => (Seq::empty(), Seq::empty()),
        };
        let (us2, b2) = h264_feed(b1, events.drop_first());
        (us1 + us2, b2)
    }
}

/// Reads only, no respawn.
pub open spec fn only_reads(chunks: Seq<Seq<u8>>) -> Seq<Option<Seq<u8>>> {
    chunks.map_values(|c: Seq<u8>| Some(c))
}

/// An access unit taken from `b` is taken the same way from `b` with more
/// bytes behind it, which stay behind it.
proof fn lemma_h264_take_append(b: Seq<u8>, more: Seq<u8>)
    requires
        h264_take(b) is Some,
    ensures
        h264_take(b) matches Some((d, k, r)) && h264_take(b + more) == Some((d, k, r + more)),
{
    lemma_au_stable_under_append(b, more);
    lemma_unit_ends_at_start_code(b);
    lemma_start_codes_from(b, 0);
    let (d, k, r) = h264_take(b).unwrap();
    let c = b + more;
    let n = d.len() as int;
    assert(c.subrange(0, n) =~= d);
    assert(c.subrange(n, c.len() as int) =~= r + more);
}

/// Draining `b + more` first pushes what draining `b` pushes; what follows
/// depends only on what that left, with `more` behind it.
proof fn lemma_h264_drain_append(b: Seq<u8>, more: Seq<u8>)
    ensures
        h264_drain(b + more) == (h264_drain(b).0 + h264_drain(h264_drain(b).1 + more).0, h264_drain(
            h264_drain(b).1 + more,
        ).1),
    decreases b.len(),
{
    match h264_take(b) {
        Some((d, k, r)) => {
            lemma_h264_take_progress(b);
            lemma_h264_take_append(b, more);
            lemma_h264_drain_append(r, more);
            let tail = h264_drain(h264_drain(r).1 + more).0;
            assert(seq![(d, k)] + h264_drain(r).0 + tail =~= seq![(d, k)] + (h264_drain(r).0 + tail));
        },
        None => {
            assert(Seq::<(Seq<u8>, bool)>::empty() + h264_drain(b + more).0 =~= h264_drain(b + more).0);
        },
    }
}

/// After draining, the next step takes nothing.
proof fn lemma_h264_drain_ends_idle(b: Seq<u8>)
    ensures
        h264_take(h264_drain(b).1) is None,
    decreases b.len(),
{
    if let Some((d, k, r)) = h264_take(b) {
        lemma_h264_take_progress(b);
        lemma_h264_drain_ends_idle(r);
    }
}

/// The access units the encoded-video pump pushes do not depend on how the
/// stream was cut into reads: from a buffer on which a step takes nothing (an
/// empty one, say), reading the chunks one by one and draining after each
/// pushes the same units, in the same order, and leaves the same bytes, as
/// draining the whole stream at once.
pub proof fn lemma_h264_chunking_does_not_matter(b: Seq<u8>, chunks: Seq<Seq<u8>>)
    requires
        h264_take(b) is None,
    ensures
        h264_feed(b, only_reads(chunks)) == h264_drain(b + concat_chunks(chunks)),
    decreases chunks.len(),
{
    let ev = only_reads(chunks);
    if chunks.len() == 0 {
        assert(b + concat_chunks(chunks) =~= b);
        assert(ev.len() == 0);
    } else {
        let c0 = chunks[0];
        let rest = chunks.drop_first();
        assert(ev[0] == Some(c0));
        assert(ev.drop_first() =~= only_reads(rest));
        assert(b + concat_chunks(chunks) =~= (b + c0) + concat_chunks(rest));
        lemma_h264_drain_append(b + c0, concat_chunks(rest));
        lemma_h264_drain_ends_idle(b + c0);
        lemma_h264_chunking_does_not_matter(h264_drain(b + c0).1, rest);
    }
}

/// A respawn cuts the stream: what was buffered before it is dropped, so the
/// pump pushes what it pushed up to the respawn and then exactly what a pump
/// with an empty buffer pushes over the events after it.
pub proof fn lemma_h264_respawn_starts_afresh(b: Seq<u8>, events: Seq<Option<Seq<u8>>>, i: int)
    requires
        0 <= i < events.len(),
        events[i] is None,
    ensures
        h264_feed(b, events) == (
            h264_feed(b, events.take(i)).0 + h264_feed(Seq::empty(), events.skip(i + 1)).0,
            h264_feed(Seq::empty(), events.skip(i + 1)).1,
        ),
    decreases i,
{
    let after = h264_feed(Seq::empty(), events.skip(i + 1));
    if i == 0 {
        assert(events.drop_first() =~= events.skip(1));
        assert(events.take(0).len() == 0);
        assert(Seq::<(Seq<u8>, bool)>::empty() + after.0 =~= after.0);
        assert(Seq::<(Seq<u8>, bool)>::empty() + Seq::<(Seq<u8>, bool)>::empty() + after.0 =~= after.0);
    } else {
        let (us1, b1) = match events[0] {
            Some(c) => h264_drain(b + c),
            None => (Seq::empty(), Seq::empty()),
        };
        let tail = events.drop_first();
        assert(tail.skip(i) =~= events.skip(i + 1));
        assert(events.take(i).drop_first() =~= tail.take(i - 1));
        assert(events.take(i)[0] == events[0]);
        lemma_h264_respawn_starts_afresh(b1, tail, i - 1);
        let pre = h264_feed(b1, tail.take(i - 1)).0;
        assert(us1 + (pre + after.0) =~= (us1 + pre) + after.0);
    }
}

/// Runs `h264_step` over the buffer until it takes nothing, numbering the
/// pushes from frame `first_idx`: the access units `h264_drain` gives, in
/// order, the `k`-th with the due time and timestamp of frame
/// `first_idx + k`; the buffer keeps what the drain leaves.
pub fn h264_drain_buffer(buf: &mut Vec<u8>, first_idx: u64, fps_n: u32, fps_d: u32) -> (pushes: Vec<VideoPush>)
    requires
        (first_idx + old(buf)@.len()) * 1_000_000 * at_least_one(fps_d) <= u64::MAX,
        (first_idx + old(buf)@.len()) * 1000 * at_least_one(fps_d) <= i64::MAX,
    ensures
        final(buf)@ == h264_drain(old(buf)@).1,
        pushes.len() == h264_drain(old(buf)@).0.len(),
        forall|k: int|
            0 <= k < pushes.len() ==> {
                &&& (#[trigger] pushes[k]).data@ == h264_drain(old(buf)@).0[k].0
                &&& pushes[k].is_keyframe == h264_drain(old(buf)@).0[k].1
                &&& pushes[k].due_us == frame_due_us_spec((first_idx + k) as nat, fps_n, fps_d)
                &&& pushes[k].pts_ms == frame_pts_ms_spec((first_idx + k) as nat, fps_n, fps_d)
            },
{
    let ghost b0 = buf@;
    let ghost units = h264_drain(b0).0;
    let mut pushes: Vec<VideoPush> = Vec::new();
    let mut idx = first_idx;
    loop
        invariant
            idx == first_idx + pushes.len(),
            pushes.len() + buf@.len() <= b0.len(),
            (first_idx + b0.len()) * 1_000_000 * at_least_one(fps_d) <= u64::MAX,
            (first_idx + b0.len()) * 1000 * at_least_one(fps_d) <= i64::MAX,
            units == h264_drain(b0).0,
            h264_drain(buf@).1 == h264_drain(b0).1,
            pushes.len() + h264_drain(buf@).0.len() == units.len(),
            forall|k: int|
                0 <= k < h264_drain(buf@).0.len() ==> #[trigger] h264_drain(buf@).0[k] == units[pushes.len()
                    + k],
            forall|k: int|
                0 <= k < pushes.len() ==> {
                    &&& (#[trigger] pushes[k]).data@ == units[k].0
                    &&& pushes[k].is_keyframe == units[k].1
                    &&& pushes[k].due_us == frame_due_us_spec((first_idx + k) as nat, fps_n, fps_d)
                    &&& pushes[k].pts_ms == frame_pts_ms_spec((first_idx + k) as nat, fps_n, fps_d)
                },
        ensures
            buf@ == h264_drain(b0).1,
            pushes.len() == units.len(),
            forall|k: int|
                0 <= k < pushes.len() ==> {
                    &&& (#[trigger] pushes[k]).data@ == units[k].0
                    &&& pushes[k].is_keyframe == units[k].1
                    &&& pushes[k].due_us == frame_due_us_spec((first_idx + k) as nat, fps_n, fps_d)
                    &&& pushes[k].pts_ms == frame_pts_ms_spec((first_idx + k) as nat, fps_n, fps_d)
                },
        decreases buf@.len(),
    {
        let ghost before = buf@;
        proof {
            let i = idx as nat;
            let top = (first_idx + b0.len()) as nat;
            let d = at_least_one(fps_d);
            assert(i * 1_000_000 * d <= top * 1_000_000 * d && i * 1000 * d <= top * 1000 * d && top
                <= top * 1_000_000 * d) by (nonlinear_arith)
                requires
                    i <= top,
                    d >= 1,
            ;
        }
        match h264_step(buf, idx, fps_n, fps_d) {
            Some(p) => {
                proof {
                    lemma_h264_take_progress(before);
                    let rest = h264_drain(buf@).0;
                    assert(h264_drain(before).0 == seq![(p.data@, p.is_keyframe)] + rest);
                    assert forall|k: int| 0 <= k < rest.len() implies #[trigger] rest[k] == units[pushes.len()
                        + 1 + k] by {
                        assert(h264_drain(before).0[k + 1] == rest[k]);
                    }
                    assert(h264_drain(before).0[0] == units[pushes.len() as int]);
                }
                pushes.push(p);
                idx = idx + 1;
            },
            None => {
                assert(h264_drain(buf@).0.len() == 0);
                break;
            },
        }
    }
    pushes
}

/// An encoded audio frame to push.
pub struct AudioPush {
    pub data: Vec<u8>,
    pub sample_rate: u32,
    pub channels: u32,
    pub samples_per_channel: u32,
}

/// One step of the encoded-audio pump over its buffer: a whole ADTS frame at
/// the front is taken and pushed with its rate and channel count (1024
/// samples per channel); a short buffer gives nothing; a malformed header is
/// an error. Only a taken frame changes the buffer.
pub fn aac_step(buf: &mut Vec<u8>) -> (r: Result<Option<AudioPush>, &'static str>)
    ensures
        ({
            let b = old(buf)@;
            if b.len() < 7 || (!adts_malformed(b) && b.len() < adts_frame_length(b)) {
                r matches Ok(None) && final(buf)@ == b
            } else if adts_malformed(b) {
                r matches Err(e) && e@ == adts_error(b) && final(buf)@ == b
            } else {
                let n = adts_frame_length(b) as int;
                &&& r matches Ok(Some(p))
                &&& p.data@ == b.subrange(0, n)
                &&& p.sample_rate == adts_sample_rate(adts_sr_index(b))
                &&& p.channels == adts_channels(b)
                &&& p.samples_per_channel == 1024
                &&& final(buf)@ == b.subrange(n, b.len() as int)
            }
        }),
{
    let (len, sample_rate, channels, samples_per_channel) = match next_frame(buf.as_slice()) {
        Ok(Some(f)) => (f.data.len(), f.sample_rate, f.channels, f.samples_per_channel),
        Ok(None) => {
            return Ok(None);
        },
        Err(e) => {
            return Err(e);
        },
    };
    let data = vstd::slice::slice_to_vec(&buf.as_slice()[0..len]);
    drain_front(buf, len);
    Ok(Some(AudioPush { data, sample_rate, channels, samples_per_channel }))
}

// ---------------------------------------------------------------------------
// The encoded-audio pump over a whole stream
// ---------------------------------------------------------------------------

/// What one `aac_step` does with buffer `b`: `None` when it takes nothing;
/// `Some(Err(why))` at a malformed header, which ends the pump; otherwise
/// `Some(Ok(..))` with the frame's bytes, sample rate and channel count, and
/// the bytes left behind it.
pub open spec fn aac_take(b: Seq<u8>) -> Option<Result<(Seq<u8>, u32, u32, Seq<u8>), Seq<char>>> {
    if b.len() < 7 || (!adts_malformed(b) && b.len() < adts_frame_length(b)) {
        None
    } else if adts_malformed(b) {
        Some(Err(adts_error(b)))
    } else {
        let n = adts_frame_length(b) as int;
        Some(
            Ok(
                (
                    b.subrange(0, n),
                    adts_sample_rate(adts_sr_index(b)),
                    adts_channels(b),
                    b.subrange(n, b.len() as int),
                ),
            ),
        )
    }
}

/// A step that takes a frame takes a non-empty prefix of the buffer.
pub proof fn lemma_aac_take_progress(b: Seq<u8>)
    requires
        aac_take(b) matches Some(Ok(_)),
    ensures
        aac_take(b) matches Some(Ok((d, sr, ch, r))) && d.len() > 0 && d + r == b && r.len() < b.len(),
{
    let n = adts_frame_length(b) as int;
    assert(b.subrange(0, n) + b.subrange(n, b.len() as int) =~= b);
}

/// Steps over `b` until one takes nothing or meets a malformed header: the
/// frames pushed, in order (bytes, sample rate, channels), the bytes left,
/// and the error it stopped at, if any.
pub open spec fn aac_drain(b: Seq<u8>) -> (Seq<(Seq<u8>, u32, u32)>, Seq<u8>, Option<Seq<char>>)
    decreases b.len(),
{
    match aac_take(b) {
        Some(Ok((d, sr, ch, r))) => {
            proof {
                lemma_aac_take_progress(b);
            }
            let (fs, left, err) = aac_drain(r);
            (seq![(d, sr, ch)] + fs, left, err)
        },
        Some(Err(why)) => (Seq::empty(), b, Some(why)),
        None => (Seq::empty(), b, None),
    }
}

/// The encoded-audio pump from buffer `b` over a run of events, as
/// `h264_feed` reads them (`Some(bytes)` a read, `None` a respawn that clears
/// the buffer); it ends at the first malformed header. The frames pushed, in
/// order, the bytes left, and the error it ended at, if any.
pub open spec fn aac_feed(b: Seq<u8>, events: Seq<Option<Seq<u8>>>) -> (
    Seq<(Seq<u8>, u32, u32)>,
    Seq<u8>,
    Option<Seq<char>>,
)
    decreases events.len(),
{
    if events.len() == 0 {
        (Seq::empty(), b, None)
    } else {
        let (fs1, b1, err1) = match events[0] {
            Some(c) => aac_drain(b + c),
            None => (Seq::empty(), Seq::empty(), None),
        };
        if err1 is Some {
            (fs1, b1, err1)
        } else {
            let (fs2, b2, err2) = aac_feed(b1, events.drop_first());
            (fs1 + fs2, b2, err2)
        }
    }
}

/// What a step does with `b` it does the same with more bytes behind `b`,
/// which stay behind what it takes.
proof fn lemma_aac_take_append(b: Seq<u8>, more: Seq<u8>)
    requires
        aac_take(b) is Some,
    ensures
        match aac_take(b) {
            Some(Ok((d, sr, ch, r))) => aac_take(b + more) == Some(
                Ok::<(Seq<u8>, u32, u32, Seq<u8>), Seq<char>>((d, sr, ch, r + more)),
            ),
            _ => aac_take(b + more) == aac_take(b),
        },
{
    lemma_frame_stable_under_append(b, more);
    let c = b + more;
    if !adts_malformed(b) {
        let n = adts_frame_length(b) as int;
        assert(c.subrange(n, c.len() as int) =~= b.subrange(n, b.len() as int) + more);
    }
}

/// Draining `b + more` first pushes what draining `b` pushes; if that met a
/// malformed header the longer drain stops there too, and otherwise what
/// follows depends only on what it left, with `more` behind it.
proof fn lemma_aac_drain_append(b: Seq<u8>, more: Seq<u8>)
    ensures
        ({
            let (fs1, b1, err1) = aac_drain(b);
            if err1 is Some {
                aac_drain(b + more) == (fs1, b1 + more, err1)
            } else {
                let (fs3, b3, err3) = aac_drain(b1 + more);
                aac_drain(b + more) == (fs1 + fs3, b3, err3)
            }
        }),
    decreases b.len(),
{
    match aac_take(b) {
        Some(Ok((d, sr, ch, r))) => {
            lemma_aac_take_progress(b);
            lemma_aac_take_append(b, more);
            lemma_aac_drain_append(r, more);
            let (fs1, b1, err1) = aac_drain(r);
            if err1 is None {
                let fs3 = aac_drain(b1 + more).0;
                assert(seq![(d, sr, ch)] + fs1 + fs3 =~= seq![(d, sr, ch)] + (fs1 + fs3));
            }
        },
        Some(Err(_)) => {
            lemma_aac_take_append(b, more);
        },
        None => {
            let fs = aac_drain(b + more).0;
            assert(Seq::<(Seq<u8>, u32, u32)>::empty() + fs =~= fs);
        },
    }
}

/// After a drain that met no malformed header, the next step takes nothing.
proof fn lemma_aac_drain_ends_idle(b: Seq<u8>)
    requires
        aac_drain(b).2 is None,
    ensures
        aac_take(aac_drain(b).1) is None,
    decreases b.len(),
{
    if let Some(Ok((d, sr, ch, r))) = aac_take(b) {
        lemma_aac_take_progress(b);
        lemma_aac_drain_ends_idle(r);
    }
}

/// The frames the encoded-audio pump pushes do not depend on how the stream
/// was cut into reads: from a buffer on which a step takes nothing (an empty
/// one, say), reading the chunks one by one and draining after each pushes
/// the same frames, in the same order, as draining the whole stream at once,
/// and ends at the same malformed header if either does; when neither does,
/// the same bytes are left.
pub proof fn lemma_aac_chunking_does_not_matter(b: Seq<u8>, chunks: Seq<Seq<u8>>)
    requires
        aac_take(b) is None,
    ensures
        aac_feed(b, only_reads(chunks)).0 == aac_drain(b + concat_chunks(chunks)).0,
        aac_feed(b, only_reads(chunks)).2 == aac_drain(b + concat_chunks(chunks)).2,
        aac_feed(b, only_reads(chunks)).2 is None ==> aac_feed(b, only_reads(chunks)).1 == aac_drain(
            b + concat_chunks(chunks),
        ).1,
    decreases chunks.len(),
{
    let ev = only_reads(chunks);
    if chunks.len() == 0 {
        assert(b + concat_chunks(chunks) =~= b);
        assert(ev.len() == 0);
    } else {
        let c0 = chunks[0];
        let rest = chunks.drop_first();
        assert(ev[0] == Some(c0));
        assert(ev.drop_first() =~= only_reads(rest));
        assert(b + concat_chunks(chunks) =~= (b + c0) + concat_chunks(rest));
        lemma_aac_drain_append(b + c0, concat_chunks(rest));
        if aac_drain(b + c0).2 is None {
            lemma_aac_drain_ends_idle(b + c0);
            lemma_aac_chunking_does_not_matter(aac_drain(b + c0).1, rest);
        }
    }
}

/// A respawn cuts the stream: unless the pump already ended at a malformed
/// header, it pushes what it pushed up to the respawn and then exactly what a
/// pump with an empty buffer does over the events after it.
pub proof fn lemma_aac_respawn_starts_afresh(b: Seq<u8>, events: Seq<Option<Seq<u8>>>, i: int)
    requires
        0 <= i < events.len(),
        events[i] is None,
    ensures
        ({
            let before = aac_feed(b, events.take(i));
            let after = aac_feed(Seq::empty(), events.skip(i + 1));
            if before.2 is Some {
                aac_feed(b, events) == before
            } else {
                aac_feed(b, events) == (before.0 + after.0, after.1, after.2)
            }
        }),
    decreases i,
{
    let after = aac_feed(Seq::empty(), events.skip(i + 1));
    if i == 0 {
        assert(events.drop_first() =~= events.skip(1));
        assert(events.take(0).len() == 0);
        assert(Seq::<(Seq<u8>, u32, u32)>::empty() + after.0 =~= after.0);
        assert(Seq::<(Seq<u8>, u32, u32)>::empty() + Seq::<(Seq<u8>, u32, u32)>::empty() + after.0
            =~= after.0);
    } else {
        let (fs1, b1, err1) = match events[0] {
            Some(c) => aac_drain(b + c),
            None => (Seq::empty(), Seq::empty(), None),
        };
        let tail = events.drop_first();
        assert(tail.skip(i) =~= events.skip(i + 1));
        assert(events.take(i).drop_first() =~= tail.take(i - 1));
        assert(events.take(i)[0] == events[0]);
        if err1 is None {
            lemma_aac_respawn_starts_afresh(b1, tail, i - 1);
            let pre = aac_feed(b1, tail.take(i - 1)).0;
            assert(fs1 + (pre + after.0) =~= (fs1 + pre) + after.0);
        }
    }
}

/// Runs `aac_step` over the buffer until it takes nothing or meets a
/// malformed header: the frames `aac_drain` gives, in order (1024 samples per
/// channel each), and the error it stopped at, if any; the buffer keeps what
/// the drain leaves.
pub fn aac_drain_buffer(buf: &mut Vec<u8>) -> (r: (Vec<AudioPush>, Option<&'static str>))
    ensures
        final(buf)@ == aac_drain(old(buf)@).1,
        r.0.len() == aac_drain(old(buf)@).0.len(),
        forall|k: int|
            0 <= k < r.0.len() ==> {
                &&& (#[trigger] r.0[k]).data@ == aac_drain(old(buf)@).0[k].0
                &&& r.0[k].sample_rate == aac_drain(old(buf)@).0[k].1
                &&& r.0[k].channels == aac_drain(old(buf)@).0[k].2
                &&& r.0[k].samples_per_channel == 1024
            },
        match r.1 {
            Some(e) => aac_drain(old(buf)@).2 == Some(e@),
            None => aac_drain(old(buf)@).2 is None,
        },
{
    let ghost b0 = buf@;
    let ghost frames = aac_drain(b0).0;
    let mut pushes: Vec<AudioPush> = Vec::new();
    let mut err: Option<&'static str> = None;
    loop
        invariant_except_break
            err is None,
        invariant
            frames == aac_drain(b0).0,
            aac_drain(buf@).1 == aac_drain(b0).1,
            aac_drain(buf@).2 == aac_drain(b0).2,
            pushes.len() + aac_drain(buf@).0.len() == frames.len(),
            forall|k: int|
                0 <= k < aac_drain(buf@).0.len() ==> #[trigger] aac_drain(buf@).0[k] == frames[pushes.len()
                    + k],
            forall|k: int|
                0 <= k < pushes.len() ==> {
                    &&& (#[trigger] pushes[k]).data@ == frames[k].0
                    &&& pushes[k].sample_rate == frames[k].1
                    &&& pushes[k].channels == frames[k].2
                    &&& pushes[k].samples_per_channel == 1024
                },
        ensures
            buf@ == aac_drain(b0).1,
            pushes.len() == frames.len(),
            forall|k: int|
                0 <= k < pushes.len() ==> {
                    &&& (#[trigger] pushes[k]).data@ == frames[k].0
                    &&& pushes[k].sample_rate == frames[k].1
                    &&& pushes[k].channels == frames[k].2
                    &&& pushes[k].samples_per_channel == 1024
                },
            match err {
                Some(e) => aac_drain(b0).2 == Some(e@),
                None => aac_drain(b0).2 is None,
            },
        decreases buf@.len(),
    {
        let ghost before = buf@;
        match aac_step(buf) {
            Ok(Some(p)) => {
                proof {
                    lemma_aac_take_progress(before);
                    let rest = aac_drain(buf@).0;
                    assert(aac_drain(before).0 == seq![(p.data@, p.sample_rate, p.channels)] + rest);
                    assert forall|k: int| 0 <= k < rest.len() implies #[trigger] rest[k] == frames[pushes.len()
                        + 1 + k] by {
                        assert(aac_drain(before).0[k + 1] == rest[k]);
                    }
                    assert(aac_drain(before).0[0] == frames[pushes.len() as int]);
                }
                pushes.push(p);
            },
            Ok(None) => {
                assert(aac_take(buf@) is None);
                assert(aac_drain(buf@).0.len() == 0 && aac_drain(buf@).2 is None);
                break;
            },
            Err(e) => {
                assert(aac_take(buf@) == Some(Err::<(Seq<u8>, u32, u32, Seq<u8>), Seq<char>>(e@)));
                assert(aac_drain(buf@).0.len() == 0 && aac_drain(buf@).2 == Some(e@));
                err = Some(e);
                break;
            },
        }
    }
    (pushes, err)
}

/// Progress of reading one fixed-size raw frame.
#[derive(Debug, Clone, Copy, PartialEq, Eq, Structural)]
pub enum Fill {
    /// The read returned no bytes: the stream ended (a frame of size 0 can
    /// therefore never be completed).
    EndOfStream,
    /// This many bytes of the frame are in.
    Partial(usize),
    /// The frame is complete.
    Full,
}

/// After a read of `n_read` bytes into the rest of a `need`-byte frame of
/// which `filled` bytes were in: an empty read is end of stream; otherwise
/// the frame is complete or has `filled + n_read` bytes.
pub fn raw_fill_step(need: usize, filled: usize, n_read: usize) -> (f: Fill)
    requires
        filled + n_read <= need,
    ensures
        n_read == 0 ==> f == Fill::EndOfStream,
        n_read > 0 && filled + n_read == need ==> f == Fill::Full,
        n_read > 0 && filled + n_read < need ==> f == Fill::Partial((filled + n_read) as usize),
{
    if n_read == 0 {
        Fill::EndOfStream
    } else if filled + n_read == need {
        Fill::Full
    } else {
        Fill::Partial(filled + n_read)
    }
}

} // verus!
