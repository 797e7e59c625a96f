use gst_mxl::error::FlowError;
use gst_mxl::rate::Rational;
use gst_mxl::source::audio::{
    audio_buffer_size, audio_state_init, batch_size, begin_batch, can_interleave, catch_up,
    define_cushion, finish_batch, interleave_audio, is_reader_late, locate_batch, receive_batch,
    resync_state, wait_for_sample, AudioState, AudioStep, BatchPlan, ChannelData, FlowInfo,
    SamplesData, WaitStep,
};

fn reader(index: u64) -> AudioState {
    AudioState { index, is_initialized: true, next_discont: false }
}

fn info(head_index: u64) -> FlowInfo {
    FlowInfo { buffer_length: 480, max_commit_batch_size_hint: 480, head_index }
}

fn channel(data1: &[u8], data2: &[u8]) -> ChannelData {
    ChannelData { data1: data1.to_vec(), data2: data2.to_vec() }
}

fn stereo() -> SamplesData {
    SamplesData {
        channels: vec![
            channel(&[1, 2, 3, 4], &[5, 6, 7, 8]),
            channel(&[11, 12, 13, 14, 15, 16, 17, 18], &[]),
        ],
    }
}

#[test]
fn define_cushion_leaves_two_batches_of_headroom() {
    assert_eq!(define_cushion(1000, 48), 1000 - 96);
    assert_eq!(define_cushion(10, 48), 0);
}

#[test]
fn oldest_valid_sample_index_formula() {
    let ring = 480u64;
    let batch = 48u64;
    let head = 500u64;
    let oldest_valid = head.saturating_sub(ring.saturating_sub(batch));
    assert_eq!(oldest_valid, 68);
    assert!(10 < oldest_valid, "index 10 should trigger catch-up");
    assert!(define_cushion(head, batch) >= oldest_valid);
}

/// Correct audio PTS uses the sample index read, not `batch_counter`.
#[test]
fn correct_audio_pts_uses_sample_index_not_batch_counter() {
    let sample_rate = Rational {
        numerator: 48_000,
        denominator: 1,
    };
    let period_ns = 1_000_000_000u64 / 48_000;
    let batch = 48u64;
    let read_index = 4800u64;
    let batch_counter = 2u64;

    let wrong_pts = batch_counter * batch * period_ns;
    // Mirror `index_to_timestamp`: rational mul-div, not a pre-truncated
    // period, so the sample index maps to an exact timestamp.
    let correct_pts = read_index * 1_000_000_000 * sample_rate.denominator as u64
        / sample_rate.numerator as u64;

    assert_ne!(wrong_pts, correct_pts);
    assert_eq!(correct_pts, 100_000_000);
}

#[test]
fn catch_up_jumps_sample_index_and_requires_discont() {
    let head = 500u64;
    let batch = 48u64;
    let target = define_cushion(head, batch);
    assert_eq!(target, 404);
    assert!(
        target > 0,
        "cushion read must still reflect a real sample index"
    );
}

#[test]
fn cushion_of_a_huge_batch_is_the_start() {
    assert_eq!(define_cushion(u64::MAX, u64::MAX), 0);
    assert_eq!(define_cushion(u64::MAX, u64::MAX / 2), 1);
}

#[test]
fn batch_is_the_least_of_its_bounds() {
    assert_eq!(batch_size(&info(0)), 48);
    assert_eq!(batch_size(&FlowInfo { buffer_length: 60, ..info(0) }), 30);
    assert_eq!(batch_size(&FlowInfo { max_commit_batch_size_hint: 10, ..info(0) }), 10);
}

#[test]
fn reader_is_set_once() {
    let mut state = AudioState { index: 7, is_initialized: false, next_discont: false };
    audio_state_init(48, &info(500), &mut state);
    assert_eq!(state, reader(452));
    audio_state_init(48, &info(900), &mut state);
    assert_eq!(state, reader(452));
    let mut early = AudioState { index: 7, is_initialized: false, next_discont: true };
    audio_state_init(48, &info(10), &mut early);
    assert_eq!(early, AudioState { next_discont: true, ..reader(0) });
}

#[test]
fn turn_starts_from_the_flow() {
    let mut state = AudioState { index: 0, is_initialized: false, next_discont: false };
    assert_eq!(
        begin_batch(&info(500), &mut state),
        BatchPlan { batch: 48, ring: 480, head: 500 }
    );
    assert_eq!(state, reader(452));
}

#[test]
fn reader_waits_for_the_whole_batch() {
    let state = reader(452);
    assert_eq!(wait_for_sample(500, 48, &state, 0), WaitStep::Ready);
    assert_eq!(wait_for_sample(499, 48, &state, 0), WaitStep::Poll);
    assert_eq!(wait_for_sample(499, 48, &state, 100_000_000), WaitStep::Poll);
    assert_eq!(wait_for_sample(499, 48, &state, 100_000_001), WaitStep::TimedOut);
    assert_eq!(wait_for_sample(500, 48, &state, 100_000_001), WaitStep::Ready);
}

#[test]
fn late_reader_jumps_and_owes_a_mark() {
    let mut state = reader(67);
    assert!(is_reader_late(500, 48, 480, &mut state));
    assert_eq!(state, reader(404));
    let mut state = reader(68);
    assert!(!is_reader_late(500, 48, 480, &mut state));
    assert_eq!(state, reader(68));

    let mut state = reader(10);
    locate_batch(500, 48, 480, &mut state);
    assert_eq!(state, AudioState { next_discont: true, ..reader(404) });
    // Not late again until the producer has gone on by 480 - 3 * 48 samples.
    assert!(!is_reader_late(500 + 336, 48, 480, &mut state));
    assert!(is_reader_late(500 + 337, 48, 480, &mut state));
}

#[test]
fn catching_up_and_resyncing_change_one_field_each() {
    let mut state = reader(10);
    catch_up(500, 48, &mut state);
    assert_eq!(state, reader(404));
    resync_state(&mut state);
    assert_eq!(state, AudioState { next_discont: true, ..reader(404) });
}

#[test]
fn channels_are_interleaved_sample_by_sample() {
    assert!(can_interleave(&stereo()));
    assert_eq!(
        interleave_audio(&stereo()),
        [1, 2, 3, 4, 11, 12, 13, 14, 5, 6, 7, 8, 15, 16, 17, 18]
    );
    assert_eq!(audio_buffer_size(&stereo()), Some(16));
    let none = SamplesData { channels: vec![] };
    assert!(can_interleave(&none));
    assert!(interleave_audio(&none).is_empty());
    assert_eq!(audio_buffer_size(&none), Some(0));
}

#[test]
fn last_channel_says_how_much_is_interleaved() {
    let short_last = SamplesData {
        channels: vec![channel(&[1, 2, 3, 4, 5, 6, 7, 8], &[]), channel(&[11, 12, 13, 14, 15], &[])],
    };
    assert!(can_interleave(&short_last));
    assert_eq!(interleave_audio(&short_last), [1, 2, 3, 4, 11, 12, 13, 14]);
    let short_first = SamplesData {
        channels: vec![channel(&[1, 2, 3], &[]), channel(&[11, 12, 13, 14], &[])],
    };
    assert!(!can_interleave(&short_first));
}

#[test]
fn batch_makes_a_buffer() {
    let mut state = AudioState { next_discont: true, ..reader(404) };
    match receive_batch(48, &mut state, &stereo(), Some(123)) {
        AudioStep::Emit(buffer) => {
            assert_eq!(buffer.pts, 123);
            assert!(buffer.discont);
            assert_eq!(buffer.bytes, interleave_audio(&stereo()));
        }
        AudioStep::Skip => panic!("expected a buffer"),
    }
    assert_eq!(state, reader(404));
    assert_eq!(finish_batch(48, &mut state, true), Ok(()));
    assert_eq!(state, reader(452));
    match receive_batch(48, &mut state, &stereo(), Some(124)) {
        AudioStep::Emit(buffer) => assert!(!buffer.discont),
        AudioStep::Skip => panic!("expected a buffer"),
    }
}

#[test]
fn batch_from_before_the_start_is_passed_over() {
    let mut state = AudioState { next_discont: true, ..reader(404) };
    assert!(matches!(receive_batch(48, &mut state, &stereo(), None), AudioStep::Skip));
    assert_eq!(state, AudioState { next_discont: true, ..reader(452) });
}

#[test]
fn buffer_that_cannot_be_built_is_an_error() {
    let mut state = reader(404);
    assert_eq!(finish_batch(48, &mut state, false), Err(FlowError::Error));
    assert_eq!(state, reader(404));
}
