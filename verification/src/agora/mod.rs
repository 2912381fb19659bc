//! Agora SDK error codes, connection-event decisions, the codec-mode
//! decision and the SDK codec ids.

pub mod audio;
pub mod error;
pub mod observer;
pub mod publisher;
pub mod session;
pub mod video;
