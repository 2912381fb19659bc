use stream_to_agora::parse::aac;
use stream_to_agora::parse::g711;
use stream_to_agora::parse::h264;
use stream_to_agora::parse::hevc;
use stream_to_agora::parse::ivf::{leb128, IvfCodec, IvfReader};
use stream_to_agora::parse::opus::{opus_samples, OpusDemux};
use stream_to_agora::parse::pcm;
use stream_to_agora::parse::yuv;

// ---------------------------------------------------------------------------
// AAC (ADTS)
// ---------------------------------------------------------------------------

/// An ADTS frame: AAC-LC, given sr_index + channels + length.
fn adts(frame_length: u16, sr_index: u8, channels: u8) -> Vec<u8> {
    let profile = 1u8;
    let mut v = vec![
        0xFF,
        0xF1,
        (profile << 6) | (sr_index << 2) | ((channels >> 2) & 0x1),
        ((channels & 0x03) << 6) | ((frame_length >> 11) as u8 & 0x03),
        (frame_length >> 3) as u8,
        (((frame_length << 5) as u8) & 0xE0) | 0x1F,
        0xFC,
    ];
    v.resize(frame_length as usize, 0xAA);
    v
}

#[test]
fn parses_one_aac_lc_44k_stereo_frame() {
    let f = adts(64, 4, 2);
    let frame = aac::next_frame(&f).unwrap().unwrap();
    assert_eq!(frame.data.len(), 64);
    assert_eq!(frame.sample_rate, 44100);
    assert_eq!(frame.channels, 2);
    assert_eq!(frame.samples_per_channel, 1024);
}

#[test]
fn returns_none_when_buf_too_short() {
    let f = adts(64, 4, 2);
    assert!(aac::next_frame(&f[..3]).unwrap().is_none());
    assert!(aac::next_frame(&f[..40]).unwrap().is_none());
}

#[test]
fn rejects_missing_syncword() {
    let bytes = b"\x00\x00\x00\x00\x00\x00\x00";
    assert!(aac::next_frame(bytes).is_err());
}

#[test]
fn rejects_bad_sr_index() {
    let mut f = adts(64, 4, 2);
    f[2] = (f[2] & !0x3C) | (15 << 2);
    assert!(aac::next_frame(&f).is_err());
}

#[test]
fn samples_per_channel_constant() {
    let f = adts(120, 3, 1);
    let frame = aac::next_frame(&f).unwrap().unwrap();
    assert_eq!(frame.sample_rate, 48000);
    assert_eq!(frame.channels, 1);
    assert_eq!(frame.samples_per_channel, 1024);
}

#[test]
fn aac_crc_header_is_nine_bytes_and_frame_is_whole() {
    let mut f = adts(30, 8, 1);
    f[1] = 0xF0; // protection_absent = 0: a CRC follows the header
    let frame = aac::next_frame(&f).unwrap().unwrap();
    assert_eq!(frame.data.len(), 30);
    assert_eq!(frame.sample_rate, 16000);
}

#[test]
fn aac_frame_shorter_than_its_header_is_rejected() {
    let mut f = adts(64, 4, 2);
    // frame_length = 5, shorter than the 7-byte header
    f[3] &= !0x03;
    f[4] = 0;
    f[5] = ((5u8 << 5) & 0xE0) | 0x1F;
    assert!(aac::next_frame(&f).is_err());
}

#[test]
fn aac_channel_config_zero_is_rejected() {
    let f = adts(64, 4, 0);
    assert!(aac::next_frame(&f).is_err());
}

#[test]
fn aac_frame_result_unchanged_when_more_bytes_arrive() {
    let mut f = adts(64, 4, 2);
    let first = aac::next_frame(&f).unwrap().unwrap().data.to_vec();
    f.extend(adts(40, 4, 2));
    let again = aac::next_frame(&f).unwrap().unwrap();
    assert_eq!(again.data, &first[..]);
}

// ---------------------------------------------------------------------------
// G.711
// ---------------------------------------------------------------------------

#[test]
fn exact_20ms_8k_mono() {
    let buf = vec![0xD5u8; 160];
    let f = g711::next_frame(&buf, 8000, 1, 20).unwrap();
    assert_eq!(f.data.len(), 160);
    assert_eq!(f.samples_per_channel, 160);
    assert_eq!(f.sample_rate, 8000);
    assert_eq!(f.channels, 1);
}

#[test]
fn need_more_when_short() {
    let buf = vec![0u8; 159];
    assert!(g711::next_frame(&buf, 8000, 1, 20).is_none());
}

#[test]
fn stereo_doubles_chunk() {
    let buf = vec![0u8; 320];
    let f = g711::next_frame(&buf, 8000, 2, 20).unwrap();
    assert_eq!(f.data.len(), 320);
    assert_eq!(f.samples_per_channel, 160);
    assert_eq!(f.channels, 2);
}

#[test]
fn ten_ms_16k() {
    let buf = vec![0u8; 160];
    let f = g711::next_frame(&buf, 16000, 1, 10).unwrap();
    assert_eq!(f.samples_per_channel, 160);
    assert_eq!(f.data.len(), 160);
}

#[test]
fn leftover_after_one_frame_is_caller_drained() {
    let buf = vec![7u8; 200];
    let f = g711::next_frame(&buf, 8000, 1, 20).unwrap();
    assert_eq!(f.data.len(), 160);
}

#[test]
fn g711_zero_parameters_are_taken_as_one() {
    let buf = vec![1u8; 4000];
    // a rate below 1 kHz gives an empty chunk, which is never handed out
    assert!(g711::next_frame(&buf, 0, 1, 20).is_none());
    let f = g711::next_frame(&buf, 8000, 0, 0).unwrap();
    assert_eq!(f.channels, 1);
    assert_eq!(f.samples_per_channel, 8);
    assert_eq!(f.data.len(), 8);
}

// ---------------------------------------------------------------------------
// PCM / YUV sizes
// ---------------------------------------------------------------------------

#[test]
fn ten_ms_48k_stereo_is_1920_bytes() {
    assert_eq!(pcm::frame_bytes(480, 2), 1920);
}

#[test]
fn yuv420p_320x180_size() {
    assert_eq!(yuv::frame_bytes(320, 180), 320 * 180 * 3 / 2);
}

#[test]
fn yuv420p_odd_size_rounds_down() {
    assert_eq!(yuv::frame_bytes(3, 3), 13);
}

// ---------------------------------------------------------------------------
// H.264
// ---------------------------------------------------------------------------

fn sc4() -> Vec<u8> {
    vec![0, 0, 0, 1]
}

/// A slice NALU whose first payload byte encodes `first_mb_in_slice = 0`.
fn h264_vcl(nal_type: u8, len: usize) -> Vec<u8> {
    let mut v = sc4();
    v.push(nal_type & 0x1F);
    v.push(0x80);
    v.extend(std::iter::repeat(0xAB).take(len.saturating_sub(2)));
    v
}

/// A non-slice NALU (SPS/PPS/SEI/AUD).
fn h264_nonvcl(nal_type: u8, len: usize) -> Vec<u8> {
    let mut v = sc4();
    v.push(nal_type & 0x1F);
    v.extend(std::iter::repeat(0xAB).take(len.saturating_sub(1)));
    v
}

#[test]
fn h264_bare_idr_is_not_a_keyframe_without_param_sets() {
    let buf = h264_vcl(5, 100);
    let au = h264::next_au(&buf, true).unwrap().unwrap();
    assert_eq!(au.data.len(), buf.len());
    assert!(!au.is_keyframe);
}

#[test]
fn sps_pps_idr_collapsed_into_one_keyframe_au() {
    let mut buf = h264_nonvcl(7, 5);
    buf.extend(h264_nonvcl(8, 5));
    buf.extend(h264_vcl(5, 50));
    let au = h264::next_au(&buf, true).unwrap().unwrap();
    assert_eq!(au.data.len(), buf.len());
    assert!(au.is_keyframe);
}

#[test]
fn h264_keyframe_param_sets_not_glued_onto_preceding_delta() {
    let mut buf = h264_vcl(1, 20);
    let p_len = buf.len();
    buf.extend(h264_nonvcl(7, 5));
    buf.extend(h264_nonvcl(8, 5));
    buf.extend(h264_vcl(5, 40));
    buf.extend(h264_vcl(1, 10));

    let au = h264::next_au(&buf, false).unwrap().unwrap();
    assert_eq!(au.data.len(), p_len, "first AU must be the lone P frame");
    assert!(!au.is_keyframe);

    let rest = &buf[p_len..];
    let au2 = h264::next_au(rest, false).unwrap().unwrap();
    assert_eq!(au2.data.len(), rest.len() - (sc4().len() + 2 + 8));
    assert!(au2.is_keyframe, "IDR must carry its SPS/PPS and be a keyframe");
}

#[test]
fn h264_consecutive_delta_frames_split_each_picture() {
    let mut buf = h264_vcl(1, 30);
    let first = buf.len();
    buf.extend(h264_vcl(1, 20));
    let au = h264::next_au(&buf, false).unwrap().unwrap();
    assert_eq!(au.data.len(), first);
    assert!(!au.is_keyframe);
}

#[test]
fn h264_returns_none_when_need_more() {
    let buf = h264_vcl(1, 30);
    assert!(h264::next_au(&buf, false).unwrap().is_none());
}

#[test]
fn h264_finds_3byte_and_4byte_start_codes() {
    let mut buf = vec![0, 0, 1, 0x65, 0x80];
    buf.extend([0xAB; 20]);
    buf.extend([0, 0, 0, 1, 0x41, 0x80]);
    buf.extend([0xAB; 20]);
    let au = h264::next_au(&buf, false).unwrap().unwrap();
    assert!(!au.is_keyframe);
    assert_eq!(au.data.len(), 3 + 2 + 20);
}

#[test]
fn h264_empty_returns_none() {
    assert!(h264::next_au(&[], true).unwrap().is_none());
}

#[test]
fn h264_trailing_bytes_without_start_code_error_on_eof() {
    assert!(h264::next_au(&[0xAA, 0xBB, 0xCC, 0xDD], true).is_err());
    assert!(h264::next_au(&[0xAA, 0xBB, 0xCC, 0xDD], false).unwrap().is_none());
}

#[test]
fn h264_second_slice_of_a_picture_stays_in_its_au() {
    // first_mb_in_slice = 1 is ue(v) "010" -> payload byte 0x40.
    let mut buf = h264_vcl(1, 20);
    let mut second = sc4();
    second.push(1);
    second.push(0x40);
    second.extend([0xAB; 10]);
    buf.extend(&second);
    let picture = buf.len();
    buf.extend(h264_vcl(1, 10));
    let au = h264::next_au(&buf, false).unwrap().unwrap();
    assert_eq!(au.data.len(), picture);
}

#[test]
fn h264_au_unchanged_when_more_bytes_arrive() {
    let mut buf = h264_vcl(1, 30);
    let first = buf.len();
    buf.extend(h264_vcl(1, 20));
    let a = h264::next_au(&buf, false).unwrap().unwrap().data.len();
    buf.extend(h264_vcl(1, 25));
    let b = h264::next_au(&buf, false).unwrap().unwrap().data.len();
    assert_eq!(a, first);
    assert_eq!(b, first);
}

// ---------------------------------------------------------------------------
// H.265
// ---------------------------------------------------------------------------

/// A slice NALU: 2-byte header, then an RBSP whose top bit is
/// `first_slice_segment_in_pic_flag`.
fn hevc_vcl(nal_type: u8, first_in_pic: bool, rbsp_len: usize) -> Vec<u8> {
    let mut v = sc4();
    v.push(nal_type << 1);
    v.push(0x01);
    v.push(if first_in_pic { 0x80 } else { 0x00 });
    v.extend(std::iter::repeat(0xAB).take(rbsp_len.saturating_sub(1)));
    v
}

/// A non-slice NALU (VPS/SPS/PPS/AUD/SEI).
fn hevc_nonvcl(nal_type: u8, len: usize) -> Vec<u8> {
    let mut v = sc4();
    v.push(nal_type << 1);
    v.push(0x01);
    v.extend(std::iter::repeat(0xAB).take(len));
    v
}

#[test]
fn hevc_bare_idr_is_not_a_keyframe_without_param_sets() {
    let buf = hevc_vcl(19, true, 100);
    let au = hevc::next_au(&buf, true).unwrap().unwrap();
    assert_eq!(au.data.len(), buf.len());
    assert!(!au.is_keyframe);
}

#[test]
fn vps_sps_pps_idr_collapsed_into_one_keyframe_au() {
    let mut buf = hevc_nonvcl(32, 4);
    buf.extend(hevc_nonvcl(33, 5));
    buf.extend(hevc_nonvcl(34, 3));
    buf.extend(hevc_vcl(19, true, 50));
    let au = hevc::next_au(&buf, true).unwrap().unwrap();
    assert_eq!(au.data.len(), buf.len());
    assert!(au.is_keyframe);
}

#[test]
fn hevc_keyframe_param_sets_not_glued_onto_preceding_delta() {
    let trail0 = hevc_vcl(1, true, 20);
    let vps = hevc_nonvcl(32, 4);
    let sps = hevc_nonvcl(33, 5);
    let pps = hevc_nonvcl(34, 3);
    let idr = hevc_vcl(19, true, 40);
    let trail1 = hevc_vcl(1, true, 10);

    let mut buf = trail0.clone();
    buf.extend(&vps);
    buf.extend(&sps);
    buf.extend(&pps);
    buf.extend(&idr);
    buf.extend(&trail1);

    let au = hevc::next_au(&buf, false).unwrap().unwrap();
    assert_eq!(au.data.len(), trail0.len(), "first AU = lone TRAIL");
    assert!(!au.is_keyframe);

    let rest = &buf[trail0.len()..];
    let au2 = hevc::next_au(rest, false).unwrap().unwrap();
    assert_eq!(
        au2.data.len(),
        vps.len() + sps.len() + pps.len() + idr.len(),
        "second AU = VPS+SPS+PPS+IDR, ends before the trailing TRAIL"
    );
    assert!(au2.is_keyframe, "IDR must carry its param sets");
}

#[test]
fn hevc_consecutive_delta_frames_split_each_picture() {
    let first = hevc_vcl(1, true, 30);
    let mut buf = first.clone();
    buf.extend(hevc_vcl(1, true, 20));
    let au = hevc::next_au(&buf, false).unwrap().unwrap();
    assert_eq!(au.data.len(), first.len());
    assert!(!au.is_keyframe);
}

#[test]
fn multi_slice_picture_stays_one_au() {
    let s0 = hevc_vcl(1, true, 20);
    let s1 = hevc_vcl(1, false, 20);
    let mut buf = s0.clone();
    buf.extend(&s1);
    buf.extend(hevc_vcl(1, true, 10));
    let au = hevc::next_au(&buf, false).unwrap().unwrap();
    assert_eq!(au.data.len(), s0.len() + s1.len(), "both slices in one AU");
    assert!(!au.is_keyframe);
}

#[test]
fn hevc_returns_none_when_need_more() {
    let buf = hevc_vcl(1, true, 30);
    assert!(hevc::next_au(&buf, false).unwrap().is_none());
}

#[test]
fn hevc_finds_3byte_and_4byte_start_codes() {
    let mut buf = vec![0, 0, 1, 19 << 1, 0x01, 0x80];
    buf.extend([0xAB; 20]);
    buf.extend([0, 0, 0, 1, 1 << 1, 0x01, 0x80]);
    buf.extend([0xAB; 20]);
    let au = hevc::next_au(&buf, false).unwrap().unwrap();
    assert!(!au.is_keyframe);
    assert_eq!(au.data.len(), 3 + 3 + 20);
}

#[test]
fn hevc_empty_returns_none() {
    assert!(hevc::next_au(&[], true).unwrap().is_none());
}

#[test]
fn aud_and_sei_before_slice_join_the_keyframe_au() {
    let mut buf = hevc_nonvcl(35, 2);
    buf.extend(hevc_nonvcl(39, 6));
    buf.extend(hevc_nonvcl(32, 4));
    buf.extend(hevc_nonvcl(33, 5));
    buf.extend(hevc_nonvcl(34, 3));
    buf.extend(hevc_vcl(19, true, 40));
    let au = hevc::next_au(&buf, true).unwrap().unwrap();
    assert_eq!(au.data.len(), buf.len());
    assert!(au.is_keyframe);
}

#[test]
fn suffix_sei_after_slice_does_not_split() {
    let p0 = {
        let mut v = hevc_vcl(1, true, 20);
        v.extend(hevc_nonvcl(40, 4));
        v
    };
    let mut buf = p0.clone();
    buf.extend(hevc_vcl(1, true, 10));
    let au = hevc::next_au(&buf, false).unwrap().unwrap();
    assert_eq!(au.data.len(), p0.len(), "suffix SEI stays with its slice");
    assert!(!au.is_keyframe);
}

#[test]
fn cra_is_a_keyframe_with_param_sets() {
    let mut buf = hevc_nonvcl(32, 3);
    buf.extend(hevc_nonvcl(33, 4));
    buf.extend(hevc_nonvcl(34, 2));
    buf.extend(hevc_vcl(21, true, 30));
    let au = hevc::next_au(&buf, true).unwrap().unwrap();
    assert_eq!(au.data.len(), buf.len());
    assert!(au.is_keyframe);
}

#[test]
fn prefix_sei_after_slice_starts_new_au() {
    let trail = hevc_vcl(1, true, 15);
    let mut buf = trail.clone();
    buf.extend(hevc_nonvcl(39, 5));
    buf.extend(hevc_vcl(1, true, 10));
    let au = hevc::next_au(&buf, false).unwrap().unwrap();
    assert_eq!(au.data.len(), trail.len());
    assert!(!au.is_keyframe);
}

#[test]
fn eof_flushes_final_picture() {
    let mut buf = hevc_nonvcl(32, 3);
    buf.extend(hevc_nonvcl(33, 4));
    buf.extend(hevc_nonvcl(34, 2));
    buf.extend(hevc_vcl(20, true, 25));
    let total = buf.len();
    assert!(hevc::next_au(&buf, false).unwrap().is_none(), "no boundary yet");
    let au = hevc::next_au(&buf, true).unwrap().unwrap();
    assert_eq!(au.data.len(), total);
    assert!(au.is_keyframe);
}

#[test]
fn trailing_bytes_without_start_code_error_on_eof() {
    assert!(hevc::next_au(&[0xAA, 0xBB, 0xCC, 0xDD], true).is_err());
}

// ---------------------------------------------------------------------------
// IVF (VP8 / VP9 / AV1)
// ---------------------------------------------------------------------------

fn ivf_header(fourcc: &[u8; 4]) -> Vec<u8> {
    let mut h = b"DKIF".to_vec();
    h.extend([0, 0]);
    h.extend([32, 0]);
    h.extend(fourcc);
    h.extend([0u8; 32 - 12]);
    h
}

fn ivf_frame(payload: &[u8]) -> Vec<u8> {
    let mut f = (payload.len() as u32).to_le_bytes().to_vec();
    f.extend(0u64.to_le_bytes());
    f.extend(payload);
    f
}

#[test]
fn vp8_keyframe_then_delta() {
    let mut buf = ivf_header(b"VP80");
    buf.extend(ivf_frame(&[0x00, 0xAA, 0xBB]));
    buf.extend(ivf_frame(&[0x01, 0xCC]));
    let mut r = IvfReader::new(IvfCodec::Vp8);
    let a = r.pull(&mut buf).unwrap().unwrap();
    assert!(a.is_keyframe);
    assert_eq!(a.data, vec![0x00, 0xAA, 0xBB]);
    let b = r.pull(&mut buf).unwrap().unwrap();
    assert!(!b.is_keyframe);
    assert_eq!(b.data, vec![0x01, 0xCC]);
    assert!(r.pull(&mut buf).unwrap().is_none());
}

#[test]
fn vp9_keyframe_then_delta() {
    let mut buf = ivf_header(b"VP90");
    buf.extend(ivf_frame(&[0x80, 0x11]));
    buf.extend(ivf_frame(&[0x84, 0x22]));
    let mut r = IvfReader::new(IvfCodec::Vp9);
    assert!(r.pull(&mut buf).unwrap().unwrap().is_keyframe);
    assert!(!r.pull(&mut buf).unwrap().unwrap().is_keyframe);
}

#[test]
fn av1_keyframe_needs_sequence_header() {
    let key_tu = [0x12, 0x00, 0x0A, 0x01, 0x00, 0x32, 0x01, 0x00];
    let delta_tu = [0x12, 0x00, 0x32, 0x01, 0x00];
    let mut buf = ivf_header(b"AV01");
    buf.extend(ivf_frame(&key_tu));
    buf.extend(ivf_frame(&delta_tu));
    let mut r = IvfReader::new(IvfCodec::Av1);
    assert!(r.pull(&mut buf).unwrap().unwrap().is_keyframe);
    assert!(!r.pull(&mut buf).unwrap().unwrap().is_keyframe);
}

#[test]
fn need_more_until_full_frame() {
    let mut buf = ivf_header(b"VP80");
    buf.extend(ivf_frame(&[0x00; 50]));
    buf.truncate(32 + 12 + 20);
    let mut r = IvfReader::new(IvfCodec::Vp8);
    assert!(r.pull(&mut buf).unwrap().is_none());
}

#[test]
fn partial_file_header_need_more() {
    let mut buf = b"DKIF\x00\x00".to_vec();
    let mut r = IvfReader::new(IvfCodec::Vp9);
    assert!(r.pull(&mut buf).unwrap().is_none());
}

#[test]
fn bad_magic_errs() {
    let mut buf = vec![0u8; 40];
    let mut r = IvfReader::new(IvfCodec::Vp8);
    assert!(r.pull(&mut buf).is_err());
}

#[test]
fn leb128_multibyte() {
    assert_eq!(leb128(&[0x00]), Some((0, 1)));
    assert_eq!(leb128(&[0x7F]), Some((127, 1)));
    assert_eq!(leb128(&[0x80, 0x01]), Some((128, 2)));
    assert_eq!(leb128(&[0xC1, 0x02]), Some((321, 2)));
}

#[test]
fn leb128_truncated_is_none() {
    assert_eq!(leb128(&[0x80]), None);
    assert_eq!(leb128(&[]), None);
}

#[test]
fn ivf_frame_split_across_reads_comes_out_once_complete() {
    let mut full = ivf_header(b"VP80");
    full.extend(ivf_frame(&[0x00, 1, 2, 3, 4, 5]));
    let mut r = IvfReader::new(IvfCodec::Vp8);
    let mut buf: Vec<u8> = full[..40].to_vec();
    assert!(r.pull(&mut buf).unwrap().is_none());
    buf.extend_from_slice(&full[40..]);
    let f = r.pull(&mut buf).unwrap().unwrap();
    assert_eq!(f.data, vec![0x00, 1, 2, 3, 4, 5]);
    assert!(f.is_keyframe);
    assert!(buf.is_empty());
}

// ---------------------------------------------------------------------------
// Ogg Opus
// ---------------------------------------------------------------------------

fn ogg_page(header_type: u8, seq: u32, segs: &[u8], data: &[u8]) -> Vec<u8> {
    let mut v = b"OggS".to_vec();
    v.push(0);
    v.push(header_type);
    v.extend(0u64.to_le_bytes());
    v.extend(1u32.to_le_bytes());
    v.extend(seq.to_le_bytes());
    v.extend([0u8; 4]);
    v.push(segs.len() as u8);
    v.extend(segs);
    v.extend(data);
    v
}

fn opus_head(channels: u8) -> Vec<u8> {
    let mut v = b"OpusHead".to_vec();
    v.push(1);
    v.push(channels);
    v.extend([0u8; 9]);
    v
}

fn opus_tags() -> Vec<u8> {
    let mut v = b"OpusTags".to_vec();
    v.extend([0u8; 8]);
    v
}

/// Audio packet: TOC for config 31 (CELT FB), code = `code`.
fn audio_pkt(code: u8, frame_count: u8, body: usize) -> Vec<u8> {
    let toc = (31u8 << 3) | (code & 0x03);
    let mut v = vec![toc];
    if code == 3 {
        v.push(frame_count & 0x3F);
    }
    v.extend(std::iter::repeat(0xAA).take(body));
    v
}

fn header_pages() -> Vec<u8> {
    let h = opus_head(2);
    let t = opus_tags();
    let mut s = ogg_page(0x02, 0, &[h.len() as u8], &h);
    s.extend(ogg_page(0x00, 1, &[t.len() as u8], &t));
    s
}

#[test]
fn yields_audio_packets_and_skips_headers() {
    let a = audio_pkt(0, 0, 7);
    let b = audio_pkt(0, 0, 4);
    let mut stream = header_pages();
    stream.extend(ogg_page(0x00, 2, &[a.len() as u8, b.len() as u8], &[a.clone(), b.clone()].concat()));
    let mut d = OpusDemux::new();
    let mut buf = stream;

    let p1 = d.pull(&mut buf).unwrap().unwrap();
    assert_eq!(p1.data, a);
    assert_eq!(p1.sample_rate, 48000);
    assert_eq!(p1.channels, 2);
    assert_eq!(p1.samples_per_channel, 960);

    let p2 = d.pull(&mut buf).unwrap().unwrap();
    assert_eq!(p2.data, b);
    assert_eq!(p2.channels, 2);

    assert!(d.pull(&mut buf).unwrap().is_none());
}

#[test]
fn cross_page_packet_reassembled() {
    let mut pkt = audio_pkt(0, 0, 264);
    assert_eq!(pkt.len(), 265);
    let head = pkt[..255].to_vec();
    let tail = pkt[255..].to_vec();
    let mut stream = header_pages();
    stream.extend(ogg_page(0x00, 2, &[255], &head));
    stream.extend(ogg_page(0x01, 3, &[10], &tail));
    let mut d = OpusDemux::new();
    let mut buf = stream;
    let p = d.pull(&mut buf).unwrap().unwrap();
    assert_eq!(p.data.len(), 265);
    pkt.truncate(265);
    assert_eq!(p.data, pkt);
    assert!(d.pull(&mut buf).unwrap().is_none());
}

#[test]
fn need_more_when_partial_page() {
    let mut buf = b"OggS".to_vec();
    buf.extend([0u8; 10]);
    let mut d = OpusDemux::new();
    assert!(d.pull(&mut buf).unwrap().is_none());
}

#[test]
fn resync_skips_leading_garbage() {
    let a = audio_pkt(0, 0, 9);
    let mut stream = b"\xde\xad\xbe\xefJUNK".to_vec();
    stream.extend(header_pages());
    stream.extend(ogg_page(0x00, 2, &[a.len() as u8], &a));
    let mut d = OpusDemux::new();
    let mut buf = stream;
    let p = d.pull(&mut buf).unwrap().unwrap();
    assert_eq!(p.data, a);
}

#[test]
fn toc_sample_counts() {
    assert_eq!(opus_samples(&[(0u8 << 3) | 0, 0xAA]).unwrap(), 480);
    assert_eq!(opus_samples(&[(31u8 << 3) | 0]).unwrap(), 960);
    assert_eq!(opus_samples(&[(31u8 << 3) | 3, 3]).unwrap(), 2880);
    assert_eq!(opus_samples(&[(16u8 << 3) | 0]).unwrap(), 120);
    assert!(opus_samples(&[(31u8 << 3) | 3]).is_err());
    assert_eq!(opus_samples(&[(31u8 << 3) | 1]).unwrap(), 1920);
    assert_eq!(opus_samples(&[(31u8 << 3) | 2]).unwrap(), 1920);
    assert!(opus_samples(&[(31u8 << 3) | 3, 0]).is_err());
}

#[test]
fn opus_silk_and_hybrid_durations() {
    // config 3: SILK NB 60 ms -> 2880; config 13: Hybrid SWB 20 ms -> 960.
    assert_eq!(opus_samples(&[3u8 << 3]).unwrap(), 2880);
    assert_eq!(opus_samples(&[13u8 << 3]).unwrap(), 960);
    assert_eq!(opus_samples(&[12u8 << 3]).unwrap(), 480);
}

#[test]
fn mono_channel_count_from_opushead() {
    let h = opus_head(1);
    let t = opus_tags();
    let a = audio_pkt(0, 0, 6);
    let mut buf = ogg_page(0x02, 0, &[h.len() as u8], &h);
    buf.extend(ogg_page(0x00, 1, &[t.len() as u8], &t));
    buf.extend(ogg_page(0x00, 2, &[a.len() as u8], &a));
    let mut d = OpusDemux::new();
    let p = d.pull(&mut buf).unwrap().unwrap();
    assert_eq!(p.channels, 1);
}

#[test]
fn audio_packets_across_multiple_pages() {
    let a = audio_pkt(0, 0, 6);
    let b = audio_pkt(1, 0, 9);
    let mut buf = header_pages();
    buf.extend(ogg_page(0x00, 2, &[a.len() as u8], &a));
    buf.extend(ogg_page(0x00, 3, &[b.len() as u8], &b));
    let mut d = OpusDemux::new();
    let p1 = d.pull(&mut buf).unwrap().unwrap();
    assert_eq!(p1.data, a);
    assert_eq!(p1.samples_per_channel, 960);
    let p2 = d.pull(&mut buf).unwrap().unwrap();
    assert_eq!(p2.data, b);
    assert_eq!(p2.samples_per_channel, 1920);
    assert!(d.pull(&mut buf).unwrap().is_none());
}

#[test]
fn empty_page_between_audio_is_skipped() {
    let a = audio_pkt(0, 0, 5);
    let mut buf = header_pages();
    buf.extend(ogg_page(0x00, 2, &[], &[]));
    buf.extend(ogg_page(0x00, 3, &[a.len() as u8], &a));
    let mut d = OpusDemux::new();
    let p = d.pull(&mut buf).unwrap().unwrap();
    assert_eq!(p.data, a);
}

#[test]
fn incremental_feed_yields_packet_once_complete() {
    let a = audio_pkt(0, 0, 7);
    let mut full = header_pages();
    full.extend(ogg_page(0x00, 2, &[a.len() as u8], &a));
    let mut d = OpusDemux::new();
    let mut buf: Vec<u8> = Vec::new();
    let mut got = None;
    for chunk in full.chunks(13) {
        buf.extend_from_slice(chunk);
        while let Some(p) = d.pull(&mut buf).unwrap() {
            got = Some(p);
        }
    }
    let p = got.expect("packet after full stream fed in 13-byte chunks");
    assert_eq!(p.data, a);
    assert_eq!(p.channels, 2);
}

#[test]
fn opus_packet_without_opushead_defaults_to_stereo() {
    let a = audio_pkt(0, 0, 3);
    let mut buf = ogg_page(0x00, 0, &[a.len() as u8], &a);
    let mut d = OpusDemux::new();
    let p = d.pull(&mut buf).unwrap().unwrap();
    assert_eq!(p.channels, 2);
}

#[test]
fn opus_malformed_packet_is_an_error() {
    // code 3 with a zero frame count
    let bad = vec![(31u8 << 3) | 3, 0];
    let mut buf = header_pages();
    buf.extend(ogg_page(0x00, 2, &[bad.len() as u8], &bad));
    let mut d = OpusDemux::new();
    assert!(d.pull(&mut buf).is_err());
}

#[test]
fn hevc_au_unchanged_when_more_bytes_arrive() {
    let first = hevc_vcl(1, true, 30);
    let mut buf = first.clone();
    buf.extend(hevc_vcl(1, true, 20));
    let a = hevc::next_au(&buf, false).unwrap().unwrap().data.len();
    buf.extend(hevc_nonvcl(32, 5));
    let b = hevc::next_au(&buf, false).unwrap().unwrap().data.len();
    assert_eq!(a, first.len());
    assert_eq!(b, first.len());
}

#[test]
fn opus_packets_do_not_depend_on_read_sizes() {
    let a = audio_pkt(0, 0, 30);
    let b = audio_pkt(1, 0, 300);
    let mut full = header_pages();
    full.extend(ogg_page(0x00, 2, &[a.len() as u8], &a));
    full.extend(ogg_page(0x00, 3, &[255], &b[..255]));
    full.extend(ogg_page(0x01, 4, &[(b.len() - 255) as u8], &b[255..]));
    let whole: Vec<Vec<u8>> = {
        let mut d = OpusDemux::new();
        let mut buf = full.clone();
        let mut out = Vec::new();
        while let Some(p) = d.pull(&mut buf).unwrap() {
            out.push(p.data);
        }
        out
    };
    assert_eq!(whole, vec![a.clone(), b.clone()]);
    for step in [1usize, 2, 5, 27, 64, 100] {
        let mut d = OpusDemux::new();
        let mut buf: Vec<u8> = Vec::new();
        let mut out = Vec::new();
        for chunk in full.chunks(step) {
            buf.extend_from_slice(chunk);
            while let Some(p) = d.pull(&mut buf).unwrap() {
                assert_eq!(p.sample_rate, 48000);
                out.push(p.data);
            }
        }
        assert_eq!(out, whole, "chunks of {step}");
    }
}

#[test]
fn ivf_frames_do_not_depend_on_read_sizes() {
    let mut full = ivf_header(b"VP80");
    full.extend(ivf_frame(&[0x00, 1, 2]));
    full.extend(ivf_frame(&[0x01, 3]));
    for step in [1usize, 3, 12, 40] {
        let mut r = IvfReader::new(IvfCodec::Vp8);
        let mut buf: Vec<u8> = Vec::new();
        let mut out = Vec::new();
        for chunk in full.chunks(step) {
            buf.extend_from_slice(chunk);
            while let Some(f) = r.pull(&mut buf).unwrap() {
                out.push((f.data, f.is_keyframe));
            }
        }
        assert_eq!(out, vec![(vec![0x00, 1, 2], true), (vec![0x01, 3], false)], "chunks of {step}");
    }
}

#[test]
fn opus_pull_leaves_a_suffix_and_no_whole_page() {
    let mut d = OpusDemux::new();
    let mut buf = b"no capture pattern here".to_vec();
    assert!(d.pull(&mut buf).unwrap().is_none());
    assert_eq!(buf, b"no capture pattern here".to_vec());

    let a = audio_pkt(0, 0, 5);
    let page = ogg_page(0x00, 2, &[a.len() as u8], &a);
    let mut buf = b"JUNK".to_vec();
    buf.extend(header_pages());
    buf.extend(&page[..20]);
    let mut d = OpusDemux::new();
    assert!(d.pull(&mut buf).unwrap().is_none());
    assert_eq!(buf, page[..20].to_vec());
}
