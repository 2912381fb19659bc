use stream_to_agora::pump::{
    aac_drain_buffer, aac_step, frame_due_us, frame_pts_ms, h264_drain_buffer, h264_step, pcm_timestamp_ms,
    raw_fill_step, unreachable_message, AudioPush, EofAction, Fill, Reconnect, VideoPush,
};

const SEC: u64 = 1_000_000_000;

#[test]
fn local_file_never_respawns() {
    let mut r = Reconnect::new();
    assert_eq!(r.on_eof(false, 5), EofAction::GiveUp { unreachable: false });
}

#[test]
fn zero_attempts_disables_respawn_and_reports_unreachable() {
    let mut r = Reconnect::new();
    assert_eq!(r.on_eof(true, 0), EofAction::GiveUp { unreachable: true });
}

#[test]
fn respawns_are_bounded_by_attempts() {
    let mut r = Reconnect::new();
    let mut respawns = 0;
    for i in 0..10u64 {
        match r.on_eof(true, 3) {
            EofAction::Respawn { attempt } => {
                respawns += 1;
                assert_eq!(attempt, respawns);
                r.on_respawned(i * SEC);
            }
            EofAction::GiveUp { unreachable } => {
                assert!(unreachable);
                break;
            }
        }
    }
    assert_eq!(respawns, 3);
}

#[test]
fn progress_two_seconds_after_respawn_restores_the_budget() {
    let mut r = Reconnect::new();
    assert_eq!(r.on_eof(true, 2), EofAction::Respawn { attempt: 1 });
    r.on_respawned(10 * SEC);
    r.on_push(11 * SEC); // too soon: still counts toward the budget
    assert_eq!(r.on_eof(true, 2), EofAction::Respawn { attempt: 1 });
    r.on_respawned(20 * SEC);
    assert_eq!(r.on_eof(true, 2), EofAction::Respawn { attempt: 2 });
    r.on_respawned(21 * SEC);
    r.on_push(23 * SEC); // two seconds after the respawn
    assert_eq!(r.on_eof(true, 2), EofAction::Respawn { attempt: 1 });
}

#[test]
fn pacing_values() {
    assert_eq!(frame_due_us(0, 30, 1), 0);
    assert_eq!(frame_due_us(30, 30, 1), 1_000_000);
    assert_eq!(frame_due_us(1, 30000, 1001), 33366);
    assert_eq!(frame_due_us(3, 0, 0), 3_000_000);
    assert_eq!(frame_pts_ms(1, 30000, 1001), 33);
    assert_eq!(frame_pts_ms(15, 15, 1), 1000);
    assert_eq!(pcm_timestamp_ms(3), 30);
    assert_eq!(pcm_timestamp_ms(429_496_730), 4);
}

#[test]
fn timestamp_is_the_due_millisecond() {
    for idx in [0u64, 1, 7, 29, 30, 1000, 123_456] {
        for (n, d) in [(30u32, 1u32), (30000, 1001), (24000, 1001), (15, 1), (0, 0), (25, 2)] {
            assert_eq!(frame_pts_ms(idx, n, d) as u64, frame_due_us(idx, n, d) / 1000, "{idx} {n}/{d}");
        }
    }
}

#[test]
fn pacing_is_monotone() {
    let mut last = 0;
    for idx in 0..200u64 {
        let t = frame_due_us(idx, 30000, 1001);
        assert!(t >= last);
        last = t;
    }
}

fn slice_nal(nal_type: u8, len: usize) -> Vec<u8> {
    let mut v = vec![0, 0, 0, 1, nal_type, 0x80];
    v.extend(std::iter::repeat(0xAB).take(len));
    v
}

#[test]
fn h264_steps_push_each_unit_but_the_last() {
    let mut sps = vec![0, 0, 0, 1, 7, 0xAB, 0xAB];
    sps.extend(vec![0, 0, 0, 1, 8, 0xAB]);
    let mut key = sps.clone();
    key.extend(slice_nal(5, 30));
    let p1 = slice_nal(1, 20);
    let p2 = slice_nal(1, 10);
    let mut buf = key.clone();
    buf.extend(&p1);
    buf.extend(&p2);

    let a = h264_step(&mut buf, 0, 30, 1).unwrap();
    assert_eq!(a.data, key);
    assert!(a.is_keyframe);
    assert_eq!((a.due_us, a.pts_ms), (0, 0));
    let b = h264_step(&mut buf, 1, 30, 1).unwrap();
    assert_eq!(b.data, p1);
    assert!(!b.is_keyframe);
    assert_eq!((b.due_us, b.pts_ms), (33333, 33));
    // the last access unit has no start code after it yet
    assert!(h264_step(&mut buf, 2, 30, 1).is_none());
    assert_eq!(buf, p2);
}

#[test]
fn h264_step_pushes_leading_bytes_as_the_unit_length() {
    // bytes before the first start code shift what is taken from the front
    let mut buf = vec![0xEE, 0xEE];
    let u = slice_nal(1, 10);
    buf.extend(&u);
    buf.extend(slice_nal(1, 5));
    let whole = buf.clone();
    let a = h264_step(&mut buf, 0, 25, 1).unwrap();
    assert_eq!(a.data, whole[..u.len()].to_vec());
    assert_eq!(buf, whole[u.len()..].to_vec());
}

#[test]
fn aac_steps() {
    let mut frame = vec![0xFF, 0xF1, (1 << 6) | (4 << 2), (2 << 6), (20 >> 3) as u8, ((20u8 << 5) & 0xE0) | 0x1F, 0xFC];
    frame.resize(20, 0xAA);
    let mut buf = frame.clone();
    buf.extend(&frame[..10]);
    let a = aac_step(&mut buf).unwrap().unwrap();
    assert_eq!(a.data, frame);
    assert_eq!((a.sample_rate, a.channels, a.samples_per_channel), (44100, 2, 1024));
    assert!(aac_step(&mut buf).unwrap().is_none());
    assert_eq!(buf, frame[..10].to_vec());
    let mut bad = vec![0u8; 9];
    assert_eq!(aac_step(&mut bad).err(), Some("ADTS sync word missing"));
    assert_eq!(bad.len(), 9);
}

#[test]
fn raw_fill_steps() {
    assert_eq!(raw_fill_step(0, 0, 0), Fill::EndOfStream);
    assert_eq!(raw_fill_step(10, 4, 0), Fill::EndOfStream);
    assert_eq!(raw_fill_step(10, 4, 3), Fill::Partial(7));
    assert_eq!(raw_fill_step(10, 4, 6), Fill::Full);
}

#[test]
fn unreachable_message_names_the_attempts() {
    assert_eq!(unreachable_message(3), "RTMP/RTSP source unreachable after 3 attempts");
    assert_eq!(unreachable_message(0), "RTMP/RTSP source unreachable after 0 attempts");
    assert_eq!(unreachable_message(4294967295), "RTMP/RTSP source unreachable after 4294967295 attempts");
}

fn video_stream() -> (Vec<u8>, Vec<Vec<u8>>) {
    let mut key = vec![0, 0, 0, 1, 7, 0xAB, 0xAB, 0, 0, 0, 1, 8, 0xAB];
    key.extend(slice_nal(5, 30));
    let units = vec![key, slice_nal(1, 20), slice_nal(1, 3), slice_nal(1, 40), slice_nal(1, 7)];
    (units.concat(), units)
}

fn video_summary(pushes: &[VideoPush]) -> Vec<(Vec<u8>, bool, u64, i64)> {
    pushes.iter().map(|p| (p.data.clone(), p.is_keyframe, p.due_us, p.pts_ms)).collect()
}

#[test]
fn h264_drain_pushes_every_unit_but_the_last_with_its_frame_index() {
    let (stream, units) = video_stream();
    let mut buf = stream.clone();
    let pushes = h264_drain_buffer(&mut buf, 10, 25, 1);
    assert_eq!(pushes.len(), 4);
    for (k, p) in pushes.iter().enumerate() {
        assert_eq!(p.data, units[k]);
        assert_eq!(p.is_keyframe, k == 0);
        assert_eq!(p.due_us, (10 + k as u64) * 40_000);
        assert_eq!(p.pts_ms, (10 + k as i64) * 40);
    }
    assert_eq!(buf, units[4]);
    assert!(h264_drain_buffer(&mut buf, 14, 25, 1).is_empty());
    assert_eq!(buf, units[4]);
}

#[test]
fn h264_pushes_do_not_depend_on_read_sizes() {
    let (stream, _) = video_stream();
    let mut whole = Vec::new();
    let mut buf = stream.clone();
    whole.extend(video_summary(&h264_drain_buffer(&mut buf, 0, 30000, 1001)));
    for size in [1usize, 2, 5, 13, 64] {
        let mut b = Vec::new();
        let mut got = Vec::new();
        for chunk in stream.chunks(size) {
            b.extend_from_slice(chunk);
            let next = got.len() as u64;
            got.extend(video_summary(&h264_drain_buffer(&mut b, next, 30000, 1001)));
        }
        assert_eq!(got, whole, "read size {size}");
        assert_eq!(b, buf, "read size {size}");
    }
}

fn adts_frame(len: usize, fill: u8) -> Vec<u8> {
    let mut f = vec![0xFF, 0xF1, (1 << 6) | (3 << 2), (1 << 6) | ((len >> 11) as u8 & 0x03), (len >> 3) as u8, ((len as u8) << 5) | 0x1F, 0xFC];
    f.resize(len, fill);
    f
}

fn audio_summary(pushes: &[AudioPush]) -> Vec<(Vec<u8>, u32, u32, u32)> {
    pushes.iter().map(|p| (p.data.clone(), p.sample_rate, p.channels, p.samples_per_channel)).collect()
}

#[test]
fn aac_drain_pushes_whole_frames_and_stops_at_a_bad_header() {
    let f1 = adts_frame(20, 0x11);
    let f2 = adts_frame(9, 0x22);
    let mut buf = [f1.clone(), f2.clone(), vec![0x00; 8]].concat();
    let (pushes, err) = aac_drain_buffer(&mut buf);
    assert_eq!(
        audio_summary(&pushes),
        vec![(f1.clone(), 48000, 1, 1024), (f2.clone(), 48000, 1, 1024)]
    );
    assert_eq!(err, Some("ADTS sync word missing"));
    assert_eq!(buf, vec![0x00; 8]);

    let mut short = [f1.clone(), f2[..5].to_vec()].concat();
    let (pushes, err) = aac_drain_buffer(&mut short);
    assert_eq!(audio_summary(&pushes), vec![(f1, 48000, 1, 1024)]);
    assert_eq!(err, None);
    assert_eq!(short, f2[..5].to_vec());
}

#[test]
fn aac_pushes_do_not_depend_on_read_sizes() {
    let stream = [adts_frame(20, 1), adts_frame(33, 2), adts_frame(7, 3), adts_frame(12, 4)].concat();
    let mut all = stream.clone();
    let (whole, err) = aac_drain_buffer(&mut all);
    assert_eq!(err, None);
    assert_eq!(whole.len(), 4);
    assert!(all.is_empty());
    for size in [1usize, 3, 7, 19, 100] {
        let mut b = Vec::new();
        let mut got = Vec::new();
        for chunk in stream.chunks(size) {
            b.extend_from_slice(chunk);
            let (ps, e) = aac_drain_buffer(&mut b);
            assert_eq!(e, None);
            got.extend(audio_summary(&ps));
        }
        assert_eq!(got, audio_summary(&whole), "read size {size}");
        assert!(b.is_empty());
    }
}
