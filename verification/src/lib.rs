//! Ogma core: the meeting library's rules — transcript assembly, note
//! rendering, sync fan-out, WAV framing, segment rotation and the pipeline's
//! resume decisions — each stated and proved.

pub mod audio_recorder;
pub mod config;
pub mod datetime;
pub mod desktop;
pub mod error;
pub mod mcp;
pub mod models;
pub mod notion;
pub mod pipeline;
pub mod providers;
pub mod recording;
pub mod session;
pub mod storage;
pub mod sync;
pub mod text;
pub mod tray;
