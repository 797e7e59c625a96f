use crossbeam::channel::{unbounded, Receiver};
use gst_mxl::error::FlowError;
use gst_mxl::grain::{mxl_smpte291_grain_from_gst_st2038, MXL_DATA_FORMAT_GRAIN_SIZE};
use gst_mxl::rate::{
    grains_to_ns, grains_to_ns_in_range, ns_to_grains, ns_to_grains_in_range, Rational,
};
use gst_mxl::sink::channel::DataCommand;
use gst_mxl::sink::data::{
    data, data_pts, data_pts_fits, eos, finish_eos, take_last_grain, DataState, InitialTime,
    St2038Alignment, LATENCY_CUSHION,
};
use gst_mxl::sink::payload::{copy_payload, pace, time_left, WriteStep};

/// One ST 2038 packet.
const PACKET: [u8; 12] = [
    0x02, 0x02, 0x80, 0x15, 0x61, 0x40, 0x50, 0x2a, 0xa9, 0x55, 0x80, 0x3f,
];

/// Another, without user data.
const EMPTY_PACKET: [u8; 9] = [0, 0, 0, 0, 0, 0, 0, 0, 3];

const FIFTY: Rational = Rational { numerator: 50, denominator: 1 };

fn sink(st2038_alignment: St2038Alignment) -> (DataState, Receiver<DataCommand>) {
    let (tx, rx) = unbounded();
    let state = DataState {
        initial_time: None,
        latency: 0,
        st2038_alignment,
        grain_index: 0,
        pending_grain_builder: None,
        pending_grain_mxl_index: None,
        tx,
    };
    (state, rx)
}

fn written(rx: &Receiver<DataCommand>) -> Option<(Vec<u8>, u64)> {
    match rx.try_recv() {
        Ok(DataCommand::Write { data }) => Some((data.buf, data.index)),
        Err(_) => None,
    }
}

#[test]
fn rates_convert_grains_and_nanoseconds() {
    let ntsc = Rational { numerator: 30_000, denominator: 1_001 };
    assert_eq!(grains_to_ns(3, &FIFTY), 60_000_000);
    assert_eq!(grains_to_ns(1, &ntsc), 33_366_666);
    assert_eq!(ns_to_grains(59_999_999, &FIFTY), 2);
    assert_eq!(ns_to_grains(33_366_667, &ntsc), 1);
    assert_eq!(ns_to_grains(33_366_666, &ntsc), 0);
}

#[test]
fn rates_out_of_range_are_told() {
    let none = Rational { numerator: 0, denominator: 0 };
    let negative = Rational { numerator: 50, denominator: -1 };
    assert!(grains_to_ns_in_range(u64::MAX, &FIFTY));
    assert!(!grains_to_ns_in_range(0, &none));
    assert!(!ns_to_grains_in_range(0, &none));
    assert!(!grains_to_ns_in_range(1, &negative));
    assert!(grains_to_ns_in_range(0, &negative));
}

#[test]
fn first_buffer_ties_mxl_time_to_the_pipeline() {
    let (mut state, _rx) = sink(St2038Alignment::Frame);
    assert_eq!(data_pts(&mut state, 1_000, 400, Some(500), &FIFTY), Ok(1_100));
    assert_eq!(state.initial_time, Some(InitialTime { mxl_pts_offset: 600 }));
    assert_eq!(data_pts(&mut state, 2_000, 1_500, Some(1_600), &FIFTY), Ok(2_200));
    assert_eq!(state.initial_time, Some(InitialTime { mxl_pts_offset: 600 }));
    assert_eq!(state.latency, 0);
}

#[test]
fn late_buffer_adds_whole_grains_of_latency() {
    let (mut state, _rx) = sink(St2038Alignment::Frame);
    state.initial_time = Some(InitialTime { mxl_pts_offset: 0 });
    // 50 ms late: two grains of 20 ms.
    let due = data_pts(&mut state, 150_000_000, 0, Some(100_000_000), &FIFTY);
    assert_eq!(due, Ok(100_000_000 + 40_000_000 + LATENCY_CUSHION));
    assert_eq!(state.latency, 2);
    // No longer late with that latency.
    let due = data_pts(&mut state, 150_000_000, 0, Some(120_000_000), &FIFTY);
    assert_eq!(due, Ok(160_000_000));
    assert_eq!(state.latency, 2);
}

#[test]
fn late_buffer_is_due_within_a_grain_of_the_cushion() {
    let (mut state, _rx) = sink(St2038Alignment::Frame);
    state.initial_time = Some(InitialTime { mxl_pts_offset: 0 });
    for late in [1, 19_999_999, 20_000_000, 123_456_789] {
        state.latency = 3;
        let now = 60_000_000 + 1_000 + late;
        let due = data_pts(&mut state, now, 0, Some(1_000), &FIFTY).unwrap();
        assert!(due <= now + LATENCY_CUSHION);
        assert!(now + LATENCY_CUSHION < due + 20_000_000);
    }
}

#[test]
fn buffer_without_timestamp_is_an_error() {
    let (mut state, _rx) = sink(St2038Alignment::Frame);
    assert_eq!(data_pts(&mut state, 1_000, 400, None, &FIFTY), Err(FlowError::Error));
    assert_eq!(state.initial_time, Some(InitialTime { mxl_pts_offset: 600 }));
}

#[test]
fn timestamps_out_of_range_are_told() {
    let (state, _rx) = sink(St2038Alignment::Frame);
    assert!(data_pts_fits(&state, 1_000, 400, Some(500), &FIFTY));
    assert!(!data_pts_fits(&state, 400, 1_000, Some(500), &FIFTY));
    assert!(!data_pts_fits(&state, 1_000, 400, Some(u64::MAX), &FIFTY));
    assert!(!data_pts_fits(&state, 1_000, 400, Some(500), &Rational {
        numerator: 0,
        denominator: 1,
    }));
}

#[test]
fn frame_alignment_makes_a_grain_of_each_buffer() {
    let (mut state, rx) = sink(St2038Alignment::Frame);
    assert_eq!(data(&mut state, 7, Some(&PACKET), false), Ok(()));
    let grain = mxl_smpte291_grain_from_gst_st2038(&PACKET).unwrap();
    assert_eq!(grain.len(), MXL_DATA_FORMAT_GRAIN_SIZE);
    assert_eq!(written(&rx), Some((grain, 7)));
    assert_eq!(written(&rx), None);
    assert_eq!(state.grain_index, 1);
}

#[test]
fn frame_alignment_refuses_what_it_cannot_read() {
    let (mut state, rx) = sink(St2038Alignment::Frame);
    assert_eq!(data(&mut state, 7, None, false), Err(FlowError::Error));
    assert_eq!(data(&mut state, 7, Some(&[0xff]), false), Err(FlowError::Error));
    assert_eq!(written(&rx), None);
    assert_eq!(state.grain_index, 0);
}

#[test]
fn packet_alignment_collects_up_to_the_marker() {
    let (mut state, rx) = sink(St2038Alignment::Packet);
    assert_eq!(data(&mut state, 7, Some(&PACKET), false), Ok(()));
    assert_eq!(written(&rx), None);
    assert_eq!(state.pending_grain_mxl_index, Some(7));
    assert_eq!(data(&mut state, 7, Some(&EMPTY_PACKET), true), Ok(()));
    let both = [PACKET.as_slice(), EMPTY_PACKET.as_slice()].concat();
    assert_eq!(written(&rx), Some((mxl_smpte291_grain_from_gst_st2038(&both).unwrap(), 7)));
    assert_eq!(written(&rx), None);
    assert_eq!(state.pending_grain_mxl_index, None);
    assert!(state.pending_grain_builder.is_none());
    assert_eq!(state.grain_index, 1);
}

#[test]
fn packet_alignment_ends_a_grain_when_the_index_changes() {
    let (mut state, rx) = sink(St2038Alignment::Packet);
    data(&mut state, 7, Some(&PACKET), false).unwrap();
    data(&mut state, 8, Some(&EMPTY_PACKET), true).unwrap();
    assert_eq!(written(&rx), Some((mxl_smpte291_grain_from_gst_st2038(&PACKET).unwrap(), 7)));
    assert_eq!(
        written(&rx),
        Some((mxl_smpte291_grain_from_gst_st2038(&EMPTY_PACKET).unwrap(), 8))
    );
    assert_eq!(state.grain_index, 2);
}

#[test]
fn packet_alignment_keeps_what_was_appended_before_an_error() {
    let (mut state, rx) = sink(St2038Alignment::Packet);
    let broken = [PACKET.as_slice(), &[0xff]].concat();
    assert_eq!(data(&mut state, 7, Some(&broken), true), Err(FlowError::Error));
    assert_eq!(written(&rx), None);
    assert_eq!(data(&mut state, 7, None, true), Err(FlowError::Error));
    assert_eq!(data(&mut state, 7, Some(&[]), true), Ok(()));
    assert_eq!(written(&rx), Some((mxl_smpte291_grain_from_gst_st2038(&PACKET).unwrap(), 7)));
}

#[test]
fn marker_without_index_is_an_error() {
    let (mut state, _rx) = sink(St2038Alignment::Packet);
    data(&mut state, 7, Some(&PACKET), false).unwrap();
    state.pending_grain_mxl_index = None;
    assert_eq!(data(&mut state, 7, Some(&[]), true), Err(FlowError::Error));
    assert!(state.pending_grain_builder.is_some());
}

#[test]
fn closed_channel_is_an_error() {
    let (mut state, rx) = sink(St2038Alignment::Frame);
    drop(rx);
    assert_eq!(data(&mut state, 7, Some(&PACKET), false), Err(FlowError::Error));
    assert_eq!(state.grain_index, 0);

    let (mut state, rx) = sink(St2038Alignment::Packet);
    data(&mut state, 7, Some(&PACKET), false).unwrap();
    drop(rx);
    // The grain that is over is lost, and its index stays.
    assert_eq!(data(&mut state, 8, Some(&PACKET), false), Err(FlowError::Error));
    assert_eq!(state.pending_grain_mxl_index, Some(7));
    assert!(state.pending_grain_builder.is_none());
    // A later buffer for another index drops it.
    assert_eq!(data(&mut state, 9, Some(&PACKET), false), Ok(()));
    assert_eq!(state.pending_grain_mxl_index, Some(9));
}

#[test]
fn too_many_packets_for_a_grain_are_lost_at_the_marker() {
    let (mut state, rx) = sink(St2038Alignment::Packet);
    let many: Vec<u8> = ST2038_LONG.repeat(15);
    assert_eq!(data(&mut state, 7, Some(&many), true), Err(FlowError::Error));
    assert_eq!(written(&rx), None);
    assert_eq!(state.pending_grain_mxl_index, None);
    assert!(state.pending_grain_builder.is_none());
}

/// A packet with 255 user data words, all zero: 328 bytes.
const ST2038_LONG: [u8; 328] = {
    let mut packet = [0u8; 328];
    // data_count 0x0ff in bits 50 to 59.
    packet[6] = 0x0f;
    packet[7] = 0xf0;
    // Four padding bits: 30 + 10 * 259 = 2620 bits of content.
    packet[327] = 0x0f;
    packet
};

#[test]
fn end_of_stream_hands_on_the_grain_being_built() {
    let (mut state, rx) = sink(St2038Alignment::Packet);
    eos(&mut state);
    assert_eq!(written(&rx), None);
    data(&mut state, 7, Some(&PACKET), false).unwrap();
    eos(&mut state);
    assert_eq!(written(&rx), Some((mxl_smpte291_grain_from_gst_st2038(&PACKET).unwrap(), 7)));
    assert_eq!(state.pending_grain_mxl_index, None);
    assert!(state.pending_grain_builder.is_none());
    assert_eq!(state.grain_index, 1);
}

#[test]
fn second_end_of_stream_changes_nothing() {
    let (mut state, rx) = sink(St2038Alignment::Packet);
    data(&mut state, 7, Some(&PACKET), false).unwrap();
    eos(&mut state);
    assert!(written(&rx).is_some());
    eos(&mut state);
    assert_eq!(written(&rx), None);
    assert_eq!(state.pending_grain_mxl_index, None);
    assert_eq!(state.grain_index, 1);
}

#[test]
fn last_grain_that_cannot_be_made_is_lost() {
    let (mut state, rx) = sink(St2038Alignment::Packet);
    data(&mut state, 7, Some(&ST2038_LONG.repeat(15)), false).unwrap();
    eos(&mut state);
    assert_eq!(written(&rx), None);
    assert_eq!(state.pending_grain_mxl_index, None);
    assert!(state.pending_grain_builder.is_none());
    assert_eq!(state.grain_index, 0);
}

#[test]
fn last_grain_goes_by_the_answer_of_the_channel() {
    let (mut state, _rx) = sink(St2038Alignment::Packet);
    assert!(take_last_grain(&mut state).is_none());
    data(&mut state, 7, Some(&PACKET), false).unwrap();
    let grain = take_last_grain(&mut state).unwrap();
    assert_eq!(grain.buf, mxl_smpte291_grain_from_gst_st2038(&PACKET).unwrap());
    assert_eq!(grain.index, 7);
    finish_eos(&mut state, false);
    assert_eq!((state.pending_grain_mxl_index, state.grain_index), (Some(7), 0));
    finish_eos(&mut state, true);
    assert_eq!((state.pending_grain_mxl_index, state.grain_index), (None, 1));
}

#[test]
fn end_of_stream_does_nothing_in_frame_alignment() {
    let (mut state, rx) = sink(St2038Alignment::Packet);
    data(&mut state, 7, Some(&PACKET), false).unwrap();
    state.st2038_alignment = St2038Alignment::Frame;
    eos(&mut state);
    assert_eq!(written(&rx), None);
    assert_eq!(state.pending_grain_mxl_index, Some(7));
    assert!(state.pending_grain_builder.is_some());
}

#[test]
fn end_of_stream_on_a_closed_channel_keeps_the_index() {
    let (mut state, rx) = sink(St2038Alignment::Packet);
    data(&mut state, 7, Some(&PACKET), false).unwrap();
    drop(rx);
    eos(&mut state);
    assert_eq!(state.pending_grain_mxl_index, Some(7));
    assert!(state.pending_grain_builder.is_none());
    assert_eq!(state.grain_index, 0);
}

#[test]
fn grain_counter_wraps() {
    let (mut state, _rx) = sink(St2038Alignment::Frame);
    state.grain_index = u64::MAX;
    data(&mut state, 7, Some(&PACKET), false).unwrap();
    assert_eq!(state.grain_index, 0);
}

#[test]
fn payload_takes_what_fits() {
    let mut payload = [9u8; 4];
    copy_payload(&mut payload, &[1, 2]);
    assert_eq!(payload, [1, 2, 9, 9]);
    copy_payload(&mut payload, &[3, 4, 5, 6, 7]);
    assert_eq!(payload, [3, 4, 5, 6]);
    copy_payload(&mut payload, &[]);
    assert_eq!(payload, [3, 4, 5, 6]);
}

#[test]
fn grain_is_committed_when_it_is_due() {
    assert_eq!(time_left(1_000, 1_000), None);
    assert_eq!(time_left(1_000, 1_001), None);
    assert_eq!(time_left(1_001, 1_000), Some(1));
    assert_eq!(pace(5, false, false), WriteStep::Wait { remaining: 5 });
    assert_eq!(pace(5, true, false), WriteStep::Commit);
    assert_eq!(pace(5, false, true), WriteStep::Skip);
    assert_eq!(pace(5, true, true), WriteStep::Skip);
}
