//! From GStreamer buffers to MXL flows.
pub mod audio;
pub mod audio_laws;
pub mod channel;
pub mod data;
pub mod data_laws;
pub mod payload;
pub mod timestamp;
