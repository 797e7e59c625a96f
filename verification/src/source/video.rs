//! MXL video grains into buffers.
//!
//! The reader takes one grain after the other, starting at the newest. A reader that has fallen
//! behind the ring jumps forward, and the next buffer is marked as discontinuous.
use crate::error::FlowError;
use vstd::prelude::*;

verus! {

/// Set in the flags of a grain that must not be used.
pub const MXL_GRAIN_FLAG_INVALID: u32 = 1;

/// What the source keeps between two video buffers.
#[derive(Debug, Clone, Copy, PartialEq, Eq, Structural)]
pub struct VideoState {
    /// The grain index that is read next.
    pub index: u64,
    /// Whether `index` has been set.
    pub is_initialized: bool,
    /// Whether the next buffer follows a gap.
    pub next_discont: bool,
}

/// Where the next grain is to be read.
#[derive(Debug, Clone, Copy, PartialEq, Eq, Structural)]
pub enum ReadStep {
    /// It has not been written yet.
    WaitForProducer,
    /// At `index`, which is not the one expected if `discont`.
    Read { index: u64, discont: bool },
}

/// What is to be done about a grain that has been read.
#[derive(Debug, Clone, Copy, PartialEq, Eq, Structural)]
pub enum SlotStep {
    /// The slot still holds an older grain: the one asked for is yet to come.
    Wait,
    /// Use the grain, which has the index `index`; it is a newer one than asked for if `discont`.
    Use { index: u64, discont: bool },
}

/// What becomes of a grain that has been read.
#[derive(Debug, Clone, Copy, PartialEq, Eq, Structural)]
pub enum VideoStep {
    /// It came before the pipeline started, and is passed over.
    Skip,
    /// It makes a buffer.
    Emit { pts: u64, discont: bool },
}

/// A reader that has not been set starts at the newest grain, if there is one.
pub open spec fn attached(state: VideoState, head: u64) -> VideoState {
    if state.is_initialized || head == 0 {
        state
    } else {
        VideoState { index: head, is_initialized: true, ..state }
    }
}

/// What the slot for the grain `read_index` is good for, given the index of the grain it holds.
pub open spec fn slot_step(read_index: u64, actual: u64) -> SlotStep {
    if actual < read_index {
        SlotStep::Wait
    } else {
        SlotStep::Use { index: actual, discont: actual > read_index }
    }
}

/// The reader behind the grain `read_index`.
pub open spec fn moved_past(state: VideoState, read_index: u64) -> VideoState {
    VideoState { index: (read_index + 1) as u64, ..state }
}

/// The reader after the grain `read_index` has been read, whose timestamp is `pts`; `gap` says
/// whether it is another one than expected. A grain without a timestamp is passed over, and a gap
/// before it is remembered. For another the mark that is owed is paid, unless it has a gap of its
/// own.
pub open spec fn grain_received(
    state: VideoState,
    read_index: u64,
    gap: bool,
    pts: Option<u64>,
) -> VideoState {
    match pts {
        Some(_) => VideoState { next_discont: gap && state.next_discont, ..state },
        None => VideoState {
            next_discont: gap || state.next_discont,
            ..moved_past(state, read_index)
        },
    }
}

/// What becomes of a grain whose timestamp is `pts`; `gap` says whether it is another one than
/// expected.
pub open spec fn grain_step(state: VideoState, gap: bool, pts: Option<u64>) -> VideoStep {
    match pts {
        Some(pts) => VideoStep::Emit { pts, discont: gap || state.next_discont },
        None => VideoStep::Skip,
    }
}

/// What is found of a grain that was read for `read_index`.
pub open spec fn grain_found(flags: u32, actual: u64, read_index: u64) -> Result<
    SlotStep,
    FlowError,
> {
    if is_invalid(flags) {
        Err(FlowError::Error)
    } else {
        Ok(slot_step(read_index, actual))
    }
}

/// Attach to the flow at its newest grain. `false` if the producer has not committed one yet.
pub fn attach(video_state: &mut VideoState, head: u64) -> (ready: bool)
    ensures
        *final(video_state) == attached(*old(video_state), head),
        ready == final(video_state).is_initialized,
{
    if !video_state.is_initialized {
        if head == 0 {
            return false;
        }
        video_state.index = head;
        video_state.is_initialized = true;
    }
    true
}

/// Whether the flag for a grain that must not be used is set.
pub open spec fn is_invalid(flags: u32) -> bool {
    flags % 2 == 1
}

/// Look at a grain that was read for `read_index`, with the flags `flags` and the index `actual`. An
/// invalid grain is an error.
pub fn check_grain(flags: u32, actual: u64, read_index: u64) -> (result: Result<SlotStep, FlowError>)
    ensures
        result == if is_invalid(flags) {
            Err::<SlotStep, FlowError>(FlowError::Error)
        } else {
            Ok(slot_step(read_index, actual))
        },
        result == grain_found(flags, actual, read_index),
{
    assert((flags & 1 != 0) == (flags % 2 == 1)) by (bit_vector);
    if flags & MXL_GRAIN_FLAG_INVALID != 0 {
        return Err(FlowError::Error);
    }
    if actual < read_index {
        Ok(SlotStep::Wait)
    } else if actual > read_index {
        Ok(SlotStep::Use { index: actual, discont: true })
    } else {
        Ok(SlotStep::Use { index: actual, discont: false })
    }
}

/// Take in the grain `read_index`, whose timestamp is `pts`: `None` if it came before the pipeline
/// started. Such a grain is passed over rather than given a timestamp of zero, which would spoil
/// the first interval between frames. `jumped` and `slot_discont` say whether the reader or the slot
/// skipped some.
pub fn receive_grain(
    video_state: &mut VideoState,
    read_index: u64,
    jumped: bool,
    slot_discont: bool,
    pts: Option<u64>,
) -> (step: VideoStep)
    requires
        read_index < u64::MAX,
    ensures
        *final(video_state) == grain_received(
            *old(video_state),
            read_index,
            jumped || slot_discont,
            pts,
        ),
        step == match pts {
            Some(pts) => (VideoStep::Emit {
                pts,
                discont: jumped || slot_discont || old(video_state).next_discont,
            }),
            None => VideoStep::Skip,
        },
        step == grain_step(*old(video_state), jumped || slot_discont, pts),
{
    match pts {
        Some(pts) => {
            let mut discont = jumped || slot_discont;
            if !discont {
                discont = video_state.next_discont;
                video_state.next_discont = false;
            }
            VideoStep::Emit { pts, discont }
        },
        None => {
            video_state.next_discont = video_state.next_discont || jumped || slot_discont;
            video_state.index = read_index + 1;
            VideoStep::Skip
        },
    }
}

/// Go on after the buffer for the grain `read_index` has been built, or could not be.
pub fn finish_grain(video_state: &mut VideoState, read_index: u64, built: bool) -> (result: Result<
    (),
    FlowError,
>)
    requires
        read_index < u64::MAX,
    ensures
        result is Ok <==> built,
        *final(video_state) == if built {
            moved_past(*old(video_state), read_index)
        } else {
            *old(video_state)
        },
        final(video_state).index == if built {
            read_index + 1
        } else {
            old(video_state).index as int
        },
        final(video_state).next_discont == old(video_state).next_discont,
{
    if !built {
        return Err(FlowError::Error);
    }
    video_state.index = read_index + 1;
    Ok(())
}

} // verus!
