[package]
name = "gst_mxl"
version = "0.1.0"
edition = "2021"
publish = false

[dependencies]
bitstream-io = "=4.10.0"
crossbeam = "0.8"
gstreamer = "0.23"
thiserror = "2"
tracing = "0.1"
