use gst_mxl::error::FlowError;
use gst_mxl::rate::Rational;
use gst_mxl::sink::audio::{
    compute_chunk, next_chunk, next_chunk_fits, samples_fit, start_chunks,
    write_samples_per_channel, AudioFormat, ChannelPlanes, SamplesWriteAccess,
};
use gst_mxl::sink::timestamp::buffer_timestamp;
use gst_mxl::source::audio::{interleave_audio, ChannelData, SamplesData};

const RATE: Rational = Rational { numerator: 48_000, denominator: 1 };

fn planes(first: usize, second: usize) -> ChannelPlanes {
    ChannelPlanes { plane1: vec![0xee; first], plane2: vec![0xee; second] }
}

#[test]
fn buffer_timestamp_counts_from_the_base_time() {
    assert_eq!(buffer_timestamp(Some(100), Some(20), 3), Ok(123));
    assert_eq!(buffer_timestamp(Some(u64::MAX), Some(20), 3), Ok(u64::MAX));
    assert_eq!(buffer_timestamp(None, Some(20), 3), Err(FlowError::Error));
    assert_eq!(buffer_timestamp(Some(100), None, 3), Err(FlowError::Error));
}

#[test]
fn format_follows_the_flow() {
    let format = AudioFormat::new(32, 2, RATE, 97);
    assert_eq!(format.bytes_per_sample, 4);
    assert_eq!(format.num_channels, 2);
    assert_eq!(format.max_chunk, 48);
    assert_eq!(format.frame_size(), Some(8));
    assert_eq!(AudioFormat::new(7, 2, RATE, 96).frame_size(), None);
    assert_eq!(AudioFormat::new(32, 0, RATE, 96).frame_size(), None);
}

#[test]
fn buffer_is_cut_into_chunks_of_half_the_ring() {
    let format = AudioFormat::new(16, 2, RATE, 96);
    // 100 frames of four bytes, and two bytes that fill no frame.
    let src: Vec<u8> = (0..402).map(|i| (i % 251) as u8).collect();
    let mut cursor = start_chunks(&src, &format, 5_000);
    let mut bytes = Vec::new();
    let mut seen = Vec::new();
    assert!(next_chunk_fits(&cursor, &format));
    while let Some(chunk) = next_chunk(&src, &format, &mut cursor) {
        assert!(next_chunk_fits(&cursor, &format));
        seen.push((chunk.mxl_ts, chunk.samples));
        bytes.extend_from_slice(chunk.bytes);
    }
    // 48 samples last one millisecond.
    assert_eq!(seen, [(5_000, 48), (1_005_000, 48), (2_005_000, 4)]);
    assert_eq!(bytes, src[..400]);
}

#[test]
fn chunks_lose_less_than_a_nanosecond_each() {
    let rate = Rational { numerator: 44_100, denominator: 1 };
    let format = AudioFormat::new(16, 1, rate, 14);
    let src = [0u8; 200];
    let mut cursor = start_chunks(&src, &format, 0);
    let mut count: u64 = 0;
    while let Some(_chunk) = next_chunk(&src, &format, &mut cursor) {
        count += 1;
        let due = cursor.src_offset_samples as u64 * 1_000_000_000 / 44_100;
        assert!(cursor.mxl_ts <= due && due <= cursor.mxl_ts + count);
    }
    assert_eq!(count, 15);
}

#[test]
fn chunk_that_cannot_be_timed_is_told() {
    let format = AudioFormat::new(16, 2, RATE, 96);
    let src = [0u8; 400];
    let cursor = start_chunks(&src, &format, u64::MAX);
    assert!(!next_chunk_fits(&cursor, &format));
    let still = AudioFormat::new(16, 2, Rational { numerator: 0, denominator: 1 }, 96);
    assert!(!next_chunk_fits(&start_chunks(&src, &still, 0), &still));
    assert!(next_chunk_fits(&start_chunks(&[], &still, 0), &still));
}

#[test]
fn chunk_bytes_are_found_by_sample() {
    let src = [0, 1, 2, 3, 4, 5, 6, 7, 8, 9, 10, 11];
    assert_eq!(compute_chunk(&src, 2, 2, 1, 8), &[4, 5, 6, 7, 8, 9, 10, 11]);
    assert_eq!(compute_chunk(&src, 2, 2, 3, 0), &[] as &[u8]);
}

#[test]
fn channels_are_taken_apart() {
    let src = [1, 2, 11, 12, 3, 4, 13, 14, 5, 6, 15, 16];
    let mut access = SamplesWriteAccess { channels: vec![planes(4, 2), planes(2, 6)] };
    assert!(samples_fit(2, 2, &access, 3, &src));
    assert_eq!(write_samples_per_channel(2, 2, &mut access, 3, &src), Ok(()));
    assert_eq!(access.channels[0].plane1, [1, 2, 3, 4]);
    assert_eq!(access.channels[0].plane2, [5, 6]);
    assert_eq!(access.channels[1].plane1, [11, 12]);
    assert_eq!(access.channels[1].plane2, [13, 14, 15, 16, 0xee, 0xee]);
}

#[test]
fn missing_channel_is_an_error_after_those_before_it() {
    let src = [1, 2, 11, 12];
    let mut access = SamplesWriteAccess { channels: vec![planes(2, 0)] };
    assert_eq!(
        write_samples_per_channel(2, 2, &mut access, 1, &src),
        Err(FlowError::Error)
    );
    assert_eq!(access.channels[0].plane1, [1, 2]);
}

#[test]
fn samples_that_are_not_there_are_left_out() {
    let src = [1, 2, 3, 4, 5];
    let mut access = SamplesWriteAccess { channels: vec![planes(6, 0)] };
    write_samples_per_channel(2, 1, &mut access, 3, &src).unwrap();
    assert_eq!(access.channels[0].plane1, [1, 2, 3, 4, 0xee, 0xee]);
}

#[test]
fn samples_without_room_are_dropped() {
    let src = [1, 2, 3, 4, 5, 6];
    let mut access = SamplesWriteAccess { channels: vec![planes(2, 2)] };
    write_samples_per_channel(2, 1, &mut access, 3, &src).unwrap();
    assert_eq!(access.channels[0].plane1, [1, 2]);
    assert_eq!(access.channels[0].plane2, [3, 4]);
}

#[test]
fn sample_across_the_cut_goes_to_the_front_of_the_second_plane() {
    let src = [1, 2, 3, 4, 5, 6];
    let mut access = SamplesWriteAccess { channels: vec![planes(3, 3)] };
    write_samples_per_channel(2, 1, &mut access, 3, &src).unwrap();
    assert_eq!(access.channels[0].plane1, [1, 2, 0xee]);
    // The third sample overwrites the second half of the second.
    assert_eq!(access.channels[0].plane2, [3, 5, 6]);
}

#[test]
fn sizes_out_of_range_are_told() {
    let access = SamplesWriteAccess { channels: vec![planes(2, 2)] };
    assert!(!samples_fit(usize::MAX, 2, &access, 1, &[]));
    assert!(!samples_fit(0, 2, &access, usize::MAX, &[]));
    assert!(samples_fit(0, 1, &access, usize::MAX, &[]));
}

#[test]
fn audio_comes_back_from_the_ring() {
    let src: Vec<u8> = (0..24).collect();
    let mut access = SamplesWriteAccess { channels: vec![planes(4, 8), planes(12, 0)] };
    write_samples_per_channel(4, 2, &mut access, 3, &src).unwrap();
    let samples = SamplesData {
        channels: access
            .channels
            .into_iter()
            .map(|planes| ChannelData { data1: planes.plane1, data2: planes.plane2 })
            .collect(),
    };
    assert_eq!(interleave_audio(&samples), src);
}
