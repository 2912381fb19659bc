//! The logic of stream-to-agora: frame splitters for ffmpeg's output, the
//! codec-mode and connection decisions, the ffmpeg command lines, command-line
//! value handling and the pumps' respawn and pacing rules, each with its
//! contract.

pub mod agora;
pub mod cli;
pub mod ffmpeg;
pub mod parse;
pub mod pump;
pub mod text;
