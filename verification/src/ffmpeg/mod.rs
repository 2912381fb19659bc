//! ffprobe output model and the ffmpeg invocations the pipeline builds.

pub mod pipeline;
pub mod probe;
