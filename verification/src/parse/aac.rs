//! ADTS-framed AAC: read one frame from the front of a byte slice.
//!
//! ADTS header (7 bytes, 9 with CRC): syncword 12 bits = 0xFFF, id 1, layer 2,
//! protection_absent 1 (0 = CRC present, +2 bytes), profile 2, sampling
//! frequency index 4, private 1, channel configuration 3, four 1-bit flags,
//! frame_length 13 (whole frame including the header), buffer fullness 11,
//! raw data blocks 2.

use vstd::prelude::*;

verus! {

/// One AAC frame extracted from an ADTS stream.
#[derive(Debug, Clone, PartialEq, Eq)]
pub struct AacFrame<'a> {
    /// The whole frame, ADTS header included.
    pub data: &'a [u8],
    pub sample_rate: u32,
    pub channels: u32,
    /// 1024 per frame (every profile is paced as AAC-LC).
    pub samples_per_channel: u32,
}

/// The ADTS sampling-frequency table (13 defined entries).
pub open spec fn adts_sample_rate(index: u8) -> u32 {
    if index == 0 {
        96000
    } else if index == 1 {
        88200
    } else if index == 2 {
        64000
    } else if index == 3 {
        48000
    } else if index == 4 {
        44100
    } else if index == 5 {
        32000
    } else if index == 6 {
        24000
    } else if index == 7 {
        22050
    } else if index == 8 {
        16000
    } else if index == 9 {
        12000
    } else if index == 10 {
        11025
    } else if index == 11 {
        8000
    } else {
        7350
    }
}

/// The ISO/IEC 14496-3 sampling-frequency table: indices 0, 1 and 2 are
/// 96000, 88200 and 64000 Hz, each of indices 3 to 11 is half the rate three
/// places before it (48000, 44100, 32000, 24000, 22050, 16000, 12000, 11025,
/// 8000), index 12 is 7350 Hz, and the rates fall strictly as the index
/// grows.
pub proof fn lemma_adts_sample_rate_table(i: u8, j: u8)
    requires
        i < j < 13,
    ensures
        adts_sample_rate(0) == 96000,
        adts_sample_rate(1) == 88200,
        adts_sample_rate(2) == 64000,
        adts_sample_rate(12) == 7350,
        j == i + 3 && j <= 11 ==> adts_sample_rate(i) == 2 * adts_sample_rate(j),
        adts_sample_rate(i) > adts_sample_rate(j),
{
}

pub open spec fn adts_sync_ok(b: Seq<u8>) -> bool {
    b[0] == 0xFF && (b[1] & 0xF0) == 0xF0
}

pub open spec fn adts_header_len(b: Seq<u8>) -> int {
    if (b[1] & 0x01) == 0 {
        9
    } else {
        7
    }
}

pub open spec fn adts_sr_index(b: Seq<u8>) -> u8 {
    (b[2] >> 2u8) & 0x0F
}

pub open spec fn adts_channels(b: Seq<u8>) -> u32 {
    (((b[2] & 0x01) << 2u8) | (b[3] >> 6u8)) as u32
}

pub open spec fn adts_frame_length(b: Seq<u8>) -> u32 {
    (((b[3] as u32) & 0x03) << 11u32) | ((b[4] as u32) << 3u32) | (((b[5] as u32) & 0xE0) >> 5u32)
}

/// The header at the front of `b` is malformed.
pub open spec fn adts_malformed(b: Seq<u8>) -> bool {
    !adts_sync_ok(b) || adts_sr_index(b) >= 13 || adts_channels(b) == 0 || adts_frame_length(b)
        < adts_header_len(b)
}

/// Why the header at the front of `b` is rejected, checked in this order.
pub open spec fn adts_error(b: Seq<u8>) -> Seq<char> {
    if !adts_sync_ok(b) {
        "ADTS sync word missing"@
    } else if adts_sr_index(b) >= 13 {
        "ADTS bad sample-rate index"@
    } else if adts_channels(b) == 0 {
        "ADTS channel config 0 (PCE) not supported"@
    } else {
        "ADTS frame_length < header"@
    }
}

fn sample_rate_for_index(index: u8) -> (r: u32)
    requires
        index < 13,
    ensures
        r == adts_sample_rate(index),
{
    match index {
        0 => 96000,
        1 => 88200,
        2 => 64000,
        3 => 48000,
        4 => 44100,
        5 => 32000,
        6 => 24000,
        7 => 22050,
        8 => 16000,
        9 => 12000,
        10 => 11025,
        11 => 8000,
        _ => 7350,
    }
}

/// Try to read one AAC frame starting at byte 0 of `buf`: `Ok(Some(frame))`
/// when a complete frame is buffered, `Ok(None)` when `buf` is shorter than
/// the 7-byte header or than the frame, `Err` when the bytes at offset 0 are
/// not a usable ADTS header.
pub fn next_frame(buf: &[u8]) -> (r: Result<Option<AacFrame<'_>>, &'static str>)
    ensures
        buf@.len() < 7 ==> r == Ok::<Option<AacFrame>, &'static str>(None),
        buf@.len() >= 7 ==> (r is Err <==> adts_malformed(buf@)),
        r matches Err(e) ==> e@ == adts_error(buf@),
        buf@.len() >= 7 && !adts_malformed(buf@) ==> match r {
            Ok(None) => buf@.len() < adts_frame_length(buf@),
            Ok(Some(f)) => {
                &&& adts_frame_length(buf@) <= buf@.len()
                &&& f.data@ == buf@.subrange(0, adts_frame_length(buf@) as int)
                &&& f.sample_rate == adts_sample_rate(adts_sr_index(buf@))
                &&& f.channels == adts_channels(buf@)
                &&& f.samples_per_channel == 1024
            },
            Err(_) => false,
        },
{
    if buf.len() < 7 {
        return Ok(None);
    }
    if buf[0] != 0xFF || (buf[1] & 0xF0) != 0xF0 {
        return Err("ADTS sync word missing");
    }
    let has_crc = (buf[1] & 0x01) == 0;
    let header_len: u32 = if has_crc { 9 } else { 7 };
    let sr_index = (buf[2] >> 2u8) & 0x0F;
    if sr_index >= 13 {
        return Err("ADTS bad sample-rate index");
    }
    let channels = (((buf[2] & 0x01) << 2u8) | (buf[3] >> 6u8)) as u32;
    if channels == 0 {
        return Err("ADTS channel config 0 (PCE) not supported");
    }
    let frame_length: u32 = (((buf[3] as u32) & 0x03) << 11u32) | ((buf[4] as u32) << 3u32) | (((
    buf[5] as u32) & 0xE0) >> 5u32);
    if frame_length < header_len {
        return Err("ADTS frame_length < header");
    }
    if (buf.len() as u64) < frame_length as u64 {
        return Ok(None);
    }
    Ok(
        Some(
            AacFrame {
                data: &buf[0..frame_length as usize],
                sample_rate: sample_rate_for_index(sr_index),
                channels,
                samples_per_channel: 1024,
            },
        ),
    )
}

/// A frame (or a malformed header) read from `b` reads the same once more
/// bytes arrive behind it.
pub proof fn lemma_frame_stable_under_append(b: Seq<u8>, more: Seq<u8>)
    requires
        b.len() >= 7,
    ensures
        adts_malformed(b + more) == adts_malformed(b),
        adts_error(b + more) == adts_error(b),
        !adts_malformed(b) && adts_frame_length(b) <= b.len() ==> {
            &&& adts_frame_length(b + more) == adts_frame_length(b)
            &&& (b + more).subrange(0, adts_frame_length(b) as int) == b.subrange(
                0,
                adts_frame_length(b) as int,
            )
            &&& adts_sample_rate(adts_sr_index(b + more)) == adts_sample_rate(adts_sr_index(b))
            &&& adts_channels(b + more) == adts_channels(b)
        },
{
    let c = b + more;
    assert(c[0] == b[0] && c[1] == b[1] && c[2] == b[2] && c[3] == b[3] && c[4] == b[4] && c[5] == b[5]);
    if adts_frame_length(b) <= b.len() {
        assert(c.subrange(0, adts_frame_length(b) as int) =~= b.subrange(0, adts_frame_length(b) as int));
    }
}

} // verus!
