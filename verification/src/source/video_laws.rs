//! What holds of the video source from one grain to the next.
use crate::error::FlowError;
use crate::source::video;
use crate::source::video::{SlotStep, VideoState, VideoStep};
use vstd::prelude::*;

verus! {

/// A reader attaches once, and never to a flow without grains.
pub proof fn reader_attaches_once(state: VideoState, head: u64, later: u64)
    requires
        !state.is_initialized,
    ensures
        video::attached(state, 0) == state,
        head > 0 ==> {
            let set = video::attached(state, head);
            &&& set.is_initialized && set.index == head
            &&& video::attached(set, later) == set
        },
{
}

/// A grain older than the one asked for is never used, and a newer one only as a gap.
pub proof fn slot_is_never_stale(read_index: u64, actual: u64)
    ensures
        video::slot_step(read_index, actual) is Wait <==> actual < read_index,
        video::slot_step(read_index, actual) matches SlotStep::Use { index, discont } ==> {
            &&& index == actual
            &&& index >= read_index
            &&& discont <==> index != read_index
        },
{
}

/// A gap before a grain that is passed over is not forgotten: the next buffer is marked, whatever
/// is passed over in between.
pub proof fn skipped_gap_is_remembered(state: VideoState, first: u64, second: u64, gap: bool)
    ensures
        video::grain_received(state, first, true, None).next_discont,
        state.next_discont ==> video::grain_received(state, second, gap, None).next_discont,
{
}

/// A mark that is owed is paid by the next buffer without a gap of its own.
pub proof fn mark_is_paid(state: VideoState, read_index: u64, pts: u64)
    ensures
        !video::grain_received(state, read_index, false, Some(pts)).next_discont,
{
}

/// Whether a grain is passed over or made into a buffer, the reader goes on behind it: readers of
/// one flow stay aligned.
pub proof fn readers_stay_aligned(state: VideoState, read_index: u64, gap: bool, pts: u64)
    requires
        read_index < u64::MAX,
    ensures
        video::grain_received(state, read_index, gap, None).index == read_index + 1,
        video::moved_past(
            video::grain_received(state, read_index, gap, Some(pts)),
            read_index,
        ).index == read_index + 1,
{
}

/// A reader is set to the newest grain the first time that there is one, and never again.
pub proof fn reader_is_set_to_newest(state: VideoState, head: u64)
    ensures
        ({
            let set = video::attached(state, head);
            &&& state.is_initialized ==> set == state
            &&& !state.is_initialized && head == 0 ==> set == state
            &&& !state.is_initialized && head > 0 ==> set.index == head && set.is_initialized
            &&& set.next_discont == state.next_discont
        }),
{
}

/// Taking in a grain leaves the index where it is until the buffer is built, and goes past a grain
/// that is passed over. A buffer without a gap of its own pays the mark that is owed; one with a gap
/// leaves it owed; a grain that is passed over adds its gap to what is owed.
pub proof fn grain_is_taken_in(state: VideoState, read_index: u64, gap: bool, pts: u64)
    requires
        read_index < u64::MAX,
    ensures
        ({
            let made = video::grain_received(state, read_index, gap, Some(pts));
            let passed = video::grain_received(state, read_index, gap, None);
            let past = video::moved_past(made, read_index);
            &&& made.index == state.index
            &&& made.next_discont == (gap && state.next_discont)
            &&& passed.index == read_index + 1
            &&& passed.next_discont == (gap || state.next_discont)
            &&& past.index == read_index + 1
            &&& past.next_discont == made.next_discont
            &&& made.is_initialized == state.is_initialized
            &&& passed.is_initialized == state.is_initialized
            &&& past.is_initialized == state.is_initialized
        }),
{
}

/// The reader after grains that were read one after the other from its index on, each of which was
/// made into a buffer if `made` says so and else passed over.
pub open spec fn after_grains(state: VideoState, made: Seq<bool>) -> VideoState
    decreases made.len(),
{
    if made.len() == 0 {
        state
    } else {
        let before = after_grains(state, made.drop_last());
        if made.last() {
            video::moved_past(
                video::grain_received(before, before.index, false, Some(0)),
                before.index,
            )
        } else {
            video::grain_received(before, before.index, false, None)
        }
    }
}

/// Grains follow one another without repeat or gap, whichever of them were passed over.
pub proof fn grains_follow_on(state: VideoState, made: Seq<bool>)
    requires
        state.index + made.len() <= u64::MAX,
    ensures
        after_grains(state, made).index == state.index + made.len(),
    decreases made.len(),
{
    if made.len() > 0 {
        grains_follow_on(state, made.drop_last());
        let before = after_grains(state, made.drop_last());
        grain_is_taken_in(before, before.index, false, 0);
    }
}

/// A grain is invalid exactly if the lowest bit of its flags is set, whatever the others are.
pub proof fn lowest_flag_is_invalid(flags: u32)
    ensures
        video::is_invalid(flags) <==> flags & 1 == 1,
        video::MXL_GRAIN_FLAG_INVALID == 1,
{
    assert((flags & 1 == 1) == (flags % 2 == 1)) by (bit_vector);
}

/// A grain with the lowest flag set is an error, whatever its index; of the others, one that is older
/// than the one asked for is waited past, and any other is used under its own index.
pub proof fn grain_is_checked(flags: u32, actual: u64, read_index: u64)
    ensures
        video::grain_found(flags, actual, read_index) is Err <==> flags & 1 == 1,
        flags & 1 == 0 ==> video::grain_found(flags, actual, read_index) == Ok::<
            SlotStep,
            FlowError,
        >(
            if actual < read_index {
                SlotStep::Wait
            } else {
                SlotStep::Use { index: actual, discont: actual != read_index }
            },
        ),
{
    assert((flags & 1 == 1) == (flags % 2 == 1)) by (bit_vector);
    assert((flags & 1 == 0) == (flags % 2 == 0)) by (bit_vector);
}

/// A buffer has the timestamp of its grain, and is marked exactly if the grain or one that was passed
/// over before it came after a gap; and a mark that was owed before a run of grains that were passed
/// over is on the buffer after them.
pub proof fn buffer_is_marked_after_gap(state: VideoState, skipped: u64, gap: bool, later: bool, pts: u64)
    ensures
        video::grain_step(state, gap, None) is Skip,
        video::grain_step(state, gap, Some(pts)) == (VideoStep::Emit {
            pts,
            discont: gap || state.next_discont,
        }),
        video::grain_step(video::grain_received(state, skipped, gap, None), later, Some(pts)) == (
        VideoStep::Emit { pts, discont: gap || later || state.next_discont }),
{
}

} // verus!
