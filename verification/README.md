# gst_mxl

The rules by which GStreamer elements write to and read from flows of the Media eXchange Layer
(MXL), verified with Verus.

- `src/` is the library. It maps ancillary data between GStreamer's `meta/x-st-2038` buffers and
  MXL's `video/smpte291` grains, decides when buffers are due and which grain or samples they go to,
  lays interleaved audio out in planes and back, and decides what a source reads next. Functions say
  in `ensures` what they return; what holds of several functions together is stated and proved in
  `round_trip.rs` and in the `*_laws.rs` modules.
- `app/` stands between the library and GStreamer, the MXL SDK, the clock and the file system.
- `tests/` runs the library.

What is trusted rather than proved: that `bitstream_io` reads and writes bits as `bitstream.rs` says,
that a `crossbeam` channel takes commands as `sink/channel.rs` says, and that a `PathBuf` made from a
text holds that text (`config.rs`).
