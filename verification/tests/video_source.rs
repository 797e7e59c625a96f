use gst_mxl::error::FlowError;
use gst_mxl::source::video::{
    attach, check_grain, finish_grain, receive_grain, SlotStep, VideoState, VideoStep,
    MXL_GRAIN_FLAG_INVALID,
};

fn reader(index: u64) -> VideoState {
    VideoState { index, is_initialized: true, next_discont: false }
}

#[test]
fn reader_attaches_at_the_newest_grain() {
    let mut state = VideoState { index: 0, is_initialized: false, next_discont: false };
    assert!(!attach(&mut state, 0));
    assert!(!state.is_initialized);
    assert!(attach(&mut state, 12));
    assert_eq!(state, reader(12));
    assert!(attach(&mut state, 20));
    assert_eq!(state, reader(12));
    assert!(attach(&mut state, 0));
    assert_eq!(state, reader(12));
}

#[test]
fn invalid_grain_is_an_error() {
    assert_eq!(check_grain(MXL_GRAIN_FLAG_INVALID, 5, 5), Err(FlowError::Error));
    assert_eq!(check_grain(0xffff_ffff, 4, 5), Err(FlowError::Error));
    assert_eq!(check_grain(2, 5, 5), Ok(SlotStep::Use { index: 5, discont: false }));
}

#[test]
fn slot_may_hold_another_grain() {
    assert_eq!(check_grain(0, 4, 5), Ok(SlotStep::Wait));
    assert_eq!(check_grain(0, 6, 5), Ok(SlotStep::Use { index: 6, discont: true }));
}

#[test]
fn grain_makes_a_buffer() {
    let mut state = reader(5);
    assert_eq!(
        receive_grain(&mut state, 5, false, false, Some(9)),
        VideoStep::Emit { pts: 9, discont: false }
    );
    assert_eq!(state, reader(5));
    assert_eq!(finish_grain(&mut state, 5, true), Ok(()));
    assert_eq!(state, reader(6));
    assert_eq!(finish_grain(&mut state, 6, false), Err(FlowError::Error));
    assert_eq!(state, reader(6));
}

#[test]
fn gap_is_marked() {
    for (jumped, slot) in [(true, false), (false, true), (true, true)] {
        let mut state = reader(5);
        assert_eq!(
            receive_grain(&mut state, 8, jumped, slot, Some(9)),
            VideoStep::Emit { pts: 9, discont: true }
        );
        assert_eq!(state, reader(5));
    }
}

#[test]
fn gap_before_a_skipped_grain_is_marked_on_the_next_buffer() {
    let mut state = reader(5);
    assert_eq!(receive_grain(&mut state, 8, true, false, None), VideoStep::Skip);
    assert_eq!(state, VideoState { next_discont: true, ..reader(9) });
    assert_eq!(receive_grain(&mut state, 9, false, false, None), VideoStep::Skip);
    assert_eq!(state, VideoState { next_discont: true, ..reader(10) });
    assert_eq!(
        receive_grain(&mut state, 10, false, false, Some(1)),
        VideoStep::Emit { pts: 1, discont: true }
    );
    assert_eq!(state, reader(10));
}

#[test]
fn owed_mark_is_kept_by_a_buffer_with_a_gap_of_its_own() {
    let mut state = VideoState { next_discont: true, ..reader(5) };
    assert_eq!(
        receive_grain(&mut state, 8, true, false, Some(9)),
        VideoStep::Emit { pts: 9, discont: true }
    );
    assert!(state.next_discont);
}
