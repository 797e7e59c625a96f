//! From MXL flows to GStreamer buffers.
pub mod audio;
pub mod audio_laws;
pub mod video;
pub mod video_laws;
