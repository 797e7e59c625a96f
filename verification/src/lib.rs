//! What GStreamer elements need to exchange media with MXL flows.
//!
//! - Ancillary data: packets in their two encodings ([`packet`], [`data`]), MXL data grains
//!   ([`grain`]), their bytes ([`packet_laws`], [`grain_laws`]), and what survives the way from one
//!   to the other ([`round_trip`]).
//! - The sink: when buffers are due and what is written of them ([`sink`]).
//! - The source: what is read next and what buffers are made of it ([`source`]).
//! - Rates and times ([`rate`]), errors ([`error`]), and where MXL is found ([`config`]).
//!
//! Bits are read and written by `bitstream_io` ([`bitstream`]), over the model in [`bits`].
pub mod bits;
pub mod bitstream;
pub mod config;
pub mod data;
pub mod error;
pub mod grain;
pub mod grain_laws;
pub mod packet;
pub mod packet_laws;
pub mod rate;
pub mod round_trip;
pub mod sink;
pub mod source;
