//! Frame parsers for the byte streams that ffmpeg writes to its pipes.

pub mod annexb;
pub mod bits;
pub mod buffer;
pub mod expgolomb;
pub mod h264;
pub mod hevc;
pub mod g711;
pub mod pcm;
pub mod yuv;
pub mod aac;
pub mod ivf;
pub mod opus;
