//! What holds of the data sink from one buffer to the next.
use crate::error::{FlowError, MapFailure};
use crate::grain;
use crate::grain::GrainDraft;
use crate::rate;
use crate::rate::Rational;
use crate::round_trip;
use crate::sink::channel;
use crate::sink::data;
use crate::sink::channel::{DataCommand, WriteGrainData};
use crate::sink::data::{DataModel, DataState, InitialTime, St2038Alignment};
use vstd::prelude::*;

verus! {

/// A grain that is being built has an index.
pub open spec fn pending_has_index(state: DataModel) -> bool {
    state.pending_grain is Some ==> state.pending_grain_mxl_index is Some
}

/// `later` has handed on what `earlier` had, and then grains that each fill a slot, all of which it
/// has counted.
pub open spec fn handed_on_since(earlier: DataModel, later: DataModel) -> bool {
    let before = earlier.sent().len() as int;
    &&& later.sent().len() >= before
    &&& later.sent().take(before) == earlier.sent()
    &&& forall|i: int|
        before <= i < later.sent().len() ==> (#[trigger] later.sent()[i]).0.len()
            == grain::MXL_DATA_FORMAT_GRAIN_SIZE
    &&& later.grain_index == (earlier.grain_index + (later.sent().len() - before))
        % 0x1_0000_0000_0000_0000
}

/// A buffer leaves no grain without an index, whatever comes of it.
pub proof fn data_keeps_index(
    state: DataModel,
    mxl_index: u64,
    packets: Option<Seq<u8>>,
    marker: bool,
    first: bool,
    second: bool,
)
    requires
        pending_has_index(state),
    ensures
        pending_has_index(
            data::data_outcome(state, mxl_index, packets, marker, first, second).0,
        ),
{
}

/// The end of the stream leaves no grain without an index. If the channel accepts, it leaves none
/// that is being built.
pub proof fn eos_keeps_index(state: DataModel, accepted: bool)
    requires
        pending_has_index(state),
    ensures
        pending_has_index(data::eos_outcome(state, accepted)),
        accepted && state.st2038_alignment == St2038Alignment::Packet ==> data::eos_outcome(
            state,
            accepted,
        ).pending_grain is None,
{
}

/// One more grain that fills a slot, offered, and counted if it was taken.
proof fn lemma_one_offer(
    state: DataModel,
    grain: (Seq<u8>, u64),
    accepted: bool,
    later: DataModel,
)
    requires
        grain.0.len() == grain::MXL_DATA_FORMAT_GRAIN_SIZE,
        later.sends == state.sends.push((grain, accepted)),
        later.grain_index == if accepted {
            data::counted(state).grain_index
        } else {
            state.grain_index
        },
    ensures
        handed_on_since(state, later),
{
    channel::lemma_taken(state.sends, grain, accepted);
    assert(later.sent().take(state.sent().len() as int) =~= state.sent());
}

/// Nothing offered.
proof fn lemma_no_offer(state: DataModel, later: DataModel)
    requires
        later.sends == state.sends,
        later.grain_index == state.grain_index,
    ensures
        handed_on_since(state, later),
{
    assert(later.sent().take(state.sent().len() as int) =~= state.sent());
}

/// Handed on in two steps.
proof fn lemma_handed_on_twice(first: DataModel, second: DataModel, third: DataModel)
    requires
        handed_on_since(first, second),
        handed_on_since(second, third),
    ensures
        handed_on_since(first, third),
{
    let before = first.sent().len() as int;
    let between = second.sent().len() as int;
    assert(third.sent().take(between).take(before) =~= third.sent().take(before));
    assert forall|i: int| before <= i < third.sent().len() implies (#[trigger] third.sent()[i]).0.len()
        == grain::MXL_DATA_FORMAT_GRAIN_SIZE by {
        if i < between {
            assert(third.sent()[i] == third.sent().take(between)[i]);
        }
    }
}

/// Whatever comes of a buffer, what was handed on before it stays, every grain handed on for it
/// fills a slot, and each is counted once.
pub proof fn data_hands_on_whole_grains(
    state: DataModel,
    mxl_index: u64,
    packets: Option<Seq<u8>>,
    marker: bool,
    first: bool,
    second: bool,
)
    ensures
        handed_on_since(
            state,
            data::data_outcome(state, mxl_index, packets, marker, first, second).0,
        ),
{
    let done = data::data_outcome(state, mxl_index, packets, marker, first, second).0;
    match state.st2038_alignment {
        St2038Alignment::Frame => {
            if done.sends.len() == state.sends.len() {
                lemma_no_offer(state, done);
            } else {
                let bytes = grain::grain_of(packets->Some_0)->Ok_0;
                lemma_one_offer(state, (bytes, mxl_index), first, done);
            }
        },
        St2038Alignment::Packet => {
            let (taken, stale) = data::stale_grain_taken(state, mxl_index);
            let (flushed, flush) = match stale {
                Ok(Some(grain)) => data::stale_grain_offered(
                    data::offered(taken, grain, first),
                    first,
                ),
                Ok(None) => (taken, Ok(())),
                Err(error) => (taken, Err(error)),
            };
            if flushed.sends.len() == state.sends.len() {
                lemma_no_offer(state, flushed);
            } else {
                lemma_one_offer(state, stale->Ok_0->Some_0, first, flushed);
            }
            if done.sends.len() == flushed.sends.len() {
                lemma_no_offer(flushed, done);
            } else {
                let appended = data::packets_appended(flushed, mxl_index, packets).0;
                lemma_one_offer(
                    flushed,
                    data::ended_grain_taken(appended).1->Ok_0,
                    second,
                    done,
                );
            }
            lemma_handed_on_twice(state, flushed, done);
        },
    }
}

/// The same of the end of the stream.
pub proof fn eos_hands_on_whole_grains(state: DataModel, accepted: bool)
    ensures
        handed_on_since(state, data::eos_outcome(state, accepted)),
{
    let done = data::eos_outcome(state, accepted);
    match data::last_grain_taken(state).1 {
        Some(grain) => lemma_one_offer(state, grain, accepted, done),
        None => lemma_no_offer(state, done),
    }
}

/// In frame alignment a buffer that makes a grain has it offered to the channel once, under the
/// index that the buffer is due at, and succeeds if and only if it is taken. One that makes none is
/// an error that changes nothing. What packet alignment keeps is left alone.
pub proof fn frame_is_offered_once(
    state: DataModel,
    mxl_index: u64,
    packets: Option<Seq<u8>>,
    marker: bool,
    first: bool,
    second: bool,
)
    requires
        state.st2038_alignment == St2038Alignment::Frame,
    ensures
        ({
            let (done, result) = data::data_outcome(
                state,
                mxl_index,
                packets,
                marker,
                first,
                second,
            );
            &&& match packets {
                Some(st2038) => match grain::grain_of(st2038) {
                    Ok(bytes) => {
                        &&& done.sends == state.sends.push(((bytes, mxl_index), first))
                        &&& result is Ok <==> first
                    },
                    Err(_) => result is Err && done == state,
                },
                None => result is Err && done == state,
            }
            &&& done.pending_grain == state.pending_grain
            &&& done.pending_grain_mxl_index == state.pending_grain_mxl_index
        }),
{
}

/// At the end of the stream the grain that is being built is offered to the channel once, under its
/// index, if it can be made. If it is taken, or cannot be made, nothing is left of it.
pub proof fn last_grain_is_offered_once(
    state: DataModel,
    draft: GrainDraft,
    index: u64,
    accepted: bool,
)
    requires
        state.st2038_alignment == St2038Alignment::Packet,
        state.pending_grain == Some(draft),
        state.pending_grain_mxl_index == Some(index),
    ensures
        ({
            let done = data::eos_outcome(state, accepted);
            &&& match grain::finish_grain(draft) {
                Ok(bytes) => {
                    &&& done.sends == state.sends.push(((bytes, index), accepted))
                    &&& done.grain_index == if accepted {
                        data::counted(state).grain_index
                    } else {
                        state.grain_index
                    }
                    &&& accepted ==> done.pending_grain_mxl_index is None
                },
                Err(_) => {
                    &&& done.sends == state.sends
                    &&& done.grain_index == state.grain_index
                    &&& done.pending_grain_mxl_index is None
                },
            }
            &&& done.pending_grain is None
        }),
{
}

/// The end of the stream comes once: a second one offers nothing and changes nothing.
pub proof fn second_eos_changes_nothing(state: DataModel, accepted: bool, later: bool)
    ensures
        data::eos_outcome(data::eos_outcome(state, accepted), later) == data::eos_outcome(
            state,
            accepted,
        ),
{
}

/// In packet alignment it makes no difference how the packets of a grain are spread over buffers:
/// two buffers for one index come to the same as one buffer that holds what they hold.
pub proof fn packets_may_come_in_parts(
    state: DataModel,
    mxl_index: u64,
    first: Seq<u8>,
    second: Seq<u8>,
    marker: bool,
    stale_accepted: bool,
    ended_accepted: bool,
)
    requires
        data::packet_outcome(
            state,
            mxl_index,
            Some(first),
            false,
            stale_accepted,
            ended_accepted,
        ).1 is Ok,
    ensures
        data::packet_outcome(
            data::packet_outcome(
                state,
                mxl_index,
                Some(first),
                false,
                stale_accepted,
                ended_accepted,
            ).0,
            mxl_index,
            Some(second),
            marker,
            stale_accepted,
            ended_accepted,
        ) == data::packet_outcome(
            state,
            mxl_index,
            Some(first + second),
            marker,
            stale_accepted,
            ended_accepted,
        ),
{
    let (taken, stale) = data::stale_grain_taken(state, mxl_index);
    let flushed = match stale {
        Ok(Some(grain)) => data::stale_grain_offered(
            data::offered(taken, grain, stale_accepted),
            stale_accepted,
        ).0,
        _ => taken,
    };
    let draft = match flushed.pending_grain {
        Some(draft) => draft,
        None => grain::empty_draft(),
    };
    round_trip::append_in_parts(draft, first, second);
    let appended = data::packets_appended(flushed, mxl_index, Some(first)).0;
    assert(data::stale_grain_taken(appended, mxl_index).0 == appended);
    assert(data::packets_appended(appended, mxl_index, Some(second)) == data::packets_appended(
        flushed,
        mxl_index,
        Some(first + second),
    ));
}

/// With no grain being built, a buffer that ends a grain makes of it in packet alignment what it
/// makes in frame alignment.
pub proof fn whole_grain_in_packet_alignment(
    state: DataModel,
    mxl_index: u64,
    st2038: Seq<u8>,
    accepted: bool,
    stale_accepted: bool,
)
    requires
        state.pending_grain is None,
        state.pending_grain_mxl_index is None,
        grain::grain_of(st2038) is Ok,
    ensures
        data::packet_outcome(state, mxl_index, Some(st2038), true, stale_accepted, accepted)
            == data::frame_outcome(state, mxl_index, Some(st2038), accepted),
{
}

/// The latency never shrinks, and MXL time is tied to the pipeline's once: after a buffer the
/// offset is the one that was used for it, and later buffers use it whenever they come.
pub proof fn timing_only_grows(
    initial_time: Option<InitialTime>,
    latency: nat,
    gst_pts: nat,
    mxl_now: u64,
    gst_now: u64,
    later_mxl_now: u64,
    later_gst_now: u64,
    rate: Rational,
)
    requires
        gst_now <= mxl_now,
    ensures
        ({
            let offset = data::pts_offset(initial_time, mxl_now, gst_now);
            let kept = Some(InitialTime { mxl_pts_offset: offset as u64 });
            &&& data::data_timing(latency, gst_pts + offset, mxl_now as nat, rate).latency
                >= latency
            &&& data::pts_offset(kept, later_mxl_now, later_gst_now) == offset
        }),
{
}

/// A buffer that comes late is put off to the present and the cushion, less a grain at most, and but
/// for the nanosecond that rounding may add or lose.
pub proof fn late_buffer_is_due_soon(latency: nat, mxl_pts: nat, mxl_now: nat, rate: Rational)
    requires
        rate.numerator > 0,
        rate.denominator > 0,
        rate::whole_ns(latency, rate) <= u64::MAX,
        mxl_pts + rate::whole_ns(latency, rate) < mxl_now,
        rate::whole_grains(
            (mxl_now - mxl_pts - rate::whole_ns(latency, rate)) as nat,
            rate,
        ) <= u64::MAX,
        mxl_now < u64::MAX,
    ensures
        ({
            let due = data::data_timing(latency, mxl_pts, mxl_now, rate).pts;
            let present = mxl_now + data::LATENCY_CUSHION;
            &&& due <= present + 1
            &&& present <= due + rate::whole_ns(1, rate) + 1
        }),
{
    let late = (mxl_now - mxl_pts - rate::whole_ns(latency, rate)) as nat;
    let grains = rate::whole_grains(late, rate);
    rate::grains_measure_time(late, rate);
    rate::durations_add_up(latency, grains, rate);
    rate::durations_add_up(grains, 1, rate);
    assert(rate::duration(latency, rate) == rate::whole_ns(latency, rate));
    assert(rate::grain_count(late, rate) == grains);
    assert(rate::whole_ns(latency + grains, rate) <= u64::MAX);
    assert(rate::duration(latency + grains, rate) == rate::whole_ns(latency + grains, rate));
}

/// One more, as a counter of 64 bits has it.
pub open spec fn one_more(count: u64) -> int {
    (count + 1) % 0x1_0000_0000_0000_0000
}

/// `a` and `b` differ in nothing that a buffer does not touch.
pub open spec fn same_settings(a: DataModel, b: DataModel) -> bool {
    &&& a.initial_time == b.initial_time
    &&& a.latency == b.latency
    &&& a.st2038_alignment == b.st2038_alignment
}

/// In packet alignment, a grain that is being built for another index than a buffer is due at is
/// offered to the channel before anything else, once, under its own index. If it is taken, the
/// buffer is then treated as one that finds no grain being built. If it is not taken, or cannot be
/// made, that is an error and nothing of the buffer is used. It never goes without an offer while
/// the call succeeds.
pub proof fn stale_grain_is_offered_first(
    state: DataModel,
    draft: GrainDraft,
    index: u64,
    mxl_index: u64,
    packets: Option<Seq<u8>>,
    marker: bool,
    first: bool,
    second: bool,
)
    requires
        state.st2038_alignment == St2038Alignment::Packet,
        state.pending_grain == Some(draft),
        state.pending_grain_mxl_index == Some(index),
        index != mxl_index,
    ensures
        ({
            let (done, result) = data::data_outcome(
                state,
                mxl_index,
                packets,
                marker,
                first,
                second,
            );
            let before = state.sends.len() as int;
            match grain::finish_grain(draft) {
                Ok(bytes) => {
                    let idle = DataModel {
                        pending_grain: None,
                        pending_grain_mxl_index: None,
                        grain_index: one_more(state.grain_index) as u64,
                        sends: state.sends.push(((bytes, index), true)),
                        ..state
                    };
                    &&& done.sends.len() > before
                    &&& done.sends.take(before) == state.sends
                    &&& done.sends[before] == ((bytes, index), first)
                    &&& first ==> (done, result) == data::data_outcome(
                        idle,
                        mxl_index,
                        packets,
                        marker,
                        first,
                        second,
                    )
                    &&& !first ==> {
                        &&& result is Err
                        &&& done.sends.len() == before + 1
                        &&& done.grain_index == state.grain_index
                        &&& done.pending_grain is None
                        &&& done.pending_grain_mxl_index == Some(index)
                        &&& same_settings(done, state)
                    }
                },
                Err(_) => {
                    &&& result is Err
                    &&& done.sends == state.sends
                    &&& done.grain_index == state.grain_index
                    &&& done.pending_grain is None
                    &&& done.pending_grain_mxl_index == Some(index)
                    &&& same_settings(done, state)
                },
            }
        }),
{
    let done = data::data_outcome(state, mxl_index, packets, marker, first, second).0;
    assert(done.sends.take(state.sends.len() as int) =~= state.sends);
}

/// In packet alignment, a buffer that finds no grain being built for another index has its packets
/// appended to the one for its own, or to a new one without packets. Nothing is offered until a
/// marker comes; then the grain is, once, under its index, and nothing of it is kept.
pub proof fn packets_are_collected(
    state: DataModel,
    mxl_index: u64,
    packets: Option<Seq<u8>>,
    marker: bool,
    first: bool,
    second: bool,
)
    requires
        state.st2038_alignment == St2038Alignment::Packet,
        state.pending_grain is None || state.pending_grain_mxl_index is None
            || state.pending_grain_mxl_index == Some(mxl_index),
    ensures
        ({
            let (done, result) = data::data_outcome(
                state,
                mxl_index,
                packets,
                marker,
                first,
                second,
            );
            let (draft, index) = match state.pending_grain {
                Some(draft) => (draft, state.pending_grain_mxl_index),
                None => (GrainDraft { payload: Seq::empty(), anc_count: 0 }, Some(mxl_index)),
            };
            let (longer, whole) = match packets {
                Some(st2038) => (
                    grain::append_packets(draft, st2038).0,
                    grain::append_packets(draft, st2038).1 is Ok,
                ),
                None => (draft, false),
            };
            let made = grain::finish_grain(longer);
            let offers = whole && marker && index is Some && made is Ok;
            &&& same_settings(done, state)
            &&& result is Ok <==> whole && (marker ==> offers && second)
            &&& done.sends == if offers {
                state.sends.push(((made->Ok_0, index->Some_0), second))
            } else {
                state.sends
            }
            &&& done.grain_index == if offers && second {
                one_more(state.grain_index)
            } else {
                state.grain_index as int
            }
            &&& done.pending_grain == if whole && marker && index is Some {
                None
            } else {
                Some(longer)
            }
            &&& done.pending_grain_mxl_index == if whole && marker {
                None
            } else {
                index
            }
        }),
{
}

/// In frame alignment a grain that is taken is counted, and nothing else is touched.
pub proof fn frame_is_counted(
    state: DataModel,
    mxl_index: u64,
    packets: Option<Seq<u8>>,
    marker: bool,
    first: bool,
    second: bool,
)
    requires
        state.st2038_alignment == St2038Alignment::Frame,
    ensures
        ({
            let (done, result) = data::data_outcome(
                state,
                mxl_index,
                packets,
                marker,
                first,
                second,
            );
            &&& same_settings(done, state)
            &&& done.grain_index == if result is Ok {
                one_more(state.grain_index)
            } else {
                state.grain_index as int
            }
            &&& done.sends.len() <= state.sends.len() + 1
        }),
{
}

/// At the end of the stream, nothing is touched where no grain is being built for an index in packet
/// alignment; otherwise the grain is counted if it is taken, and its index is kept if it is not.
pub proof fn eos_touches_one_grain(state: DataModel, accepted: bool)
    ensures
        ({
            let done = data::eos_outcome(state, accepted);
            let pending = state.st2038_alignment == St2038Alignment::Packet && state.pending_grain is Some
                && state.pending_grain_mxl_index is Some;
            &&& !pending ==> done == state
            &&& pending ==> {
                let made = grain::finish_grain(state.pending_grain->Some_0);
                &&& same_settings(done, state)
                &&& done.pending_grain is None
                &&& done.grain_index == if made is Ok && accepted {
                    one_more(state.grain_index)
                } else {
                    state.grain_index as int
                }
                &&& done.sends == match made {
                    Ok(bytes) => state.sends.push(
                        ((bytes, state.pending_grain_mxl_index->Some_0), accepted),
                    ),
                    Err(_) => state.sends,
                }
                &&& done.pending_grain_mxl_index == if made is Ok && !accepted {
                    state.pending_grain_mxl_index
                } else {
                    None
                }
            }
        }),
{
}

/// The steps that `data` and `eos` are made of, in numbers: what each does with the answer of the
/// channel.
pub proof fn answers_are_counted(state: DataModel, accepted: bool)
    ensures
        ({
            let (stale, stale_result) = data::stale_grain_offered(state, accepted);
            let (ended, ended_result) = data::grain_offered(state, accepted);
            let last = data::last_grain_offered(state, accepted);
            &&& stale_result is Ok <==> accepted
            &&& ended_result is Ok <==> accepted
            &&& !accepted ==> stale == state && ended == state && last == state
            &&& accepted ==> {
                &&& stale.grain_index == one_more(state.grain_index)
                &&& ended.grain_index == one_more(state.grain_index)
                &&& last.grain_index == one_more(state.grain_index)
                &&& stale.pending_grain_mxl_index is None
                &&& ended.pending_grain_mxl_index == state.pending_grain_mxl_index
                &&& last.pending_grain_mxl_index is None
            }
            &&& forall|after: DataModel|
                #![trigger same_settings(after, state)]
                after == stale || after == ended || after == last ==> same_settings(after, state)
                    && after.pending_grain == state.pending_grain && after.sends == state.sends
        }),
{
}

/// What is taken out to be offered: the draft that was being built, under its index, and nothing
/// else.
pub proof fn grains_are_taken_whole(state: DataModel, mxl_index: u64)
    ensures
        ({
            let (stale_left, stale) = data::stale_grain_taken(state, mxl_index);
            let (ended_left, ended) = data::ended_grain_taken(state);
            let (last_left, last) = data::last_grain_taken(state);
            let other = state.pending_grain_mxl_index is Some && state.pending_grain_mxl_index
                != Some(mxl_index);
            &&& stale matches Ok(Some((bytes, index))) ==> {
                &&& other && state.pending_grain_mxl_index == Some(index)
                &&& state.pending_grain matches Some(draft) && grain::finish_grain(draft) == Ok::<
                    Seq<u8>,
                    MapFailure,
                >(bytes)
            }
            &&& stale is Err <==> other && state.pending_grain is Some && grain::finish_grain(
                state.pending_grain->Some_0,
            ) is Err
            &&& stale == Ok::<Option<(Seq<u8>, u64)>, FlowError>(None) <==> !(other
                && state.pending_grain is Some)
            &&& ended matches Ok((bytes, index)) ==> {
                &&& state.pending_grain_mxl_index == Some(index)
                &&& state.pending_grain matches Some(draft) && grain::finish_grain(draft) == Ok::<
                    Seq<u8>,
                    MapFailure,
                >(bytes)
            }
            &&& ended is Ok <==> state.pending_grain_mxl_index is Some && state.pending_grain is Some
                && grain::finish_grain(state.pending_grain->Some_0) is Ok
            &&& last matches Some((bytes, index)) ==> {
                &&& state.pending_grain_mxl_index == Some(index)
                &&& state.pending_grain matches Some(draft) && grain::finish_grain(draft) == Ok::<
                    Seq<u8>,
                    MapFailure,
                >(bytes)
            }
            &&& last is Some <==> state.st2038_alignment == St2038Alignment::Packet
                && state.pending_grain_mxl_index is Some && state.pending_grain is Some
                && grain::finish_grain(state.pending_grain->Some_0) is Ok
            &&& stale_left.pending_grain == if other {
                None
            } else {
                state.pending_grain
            }
            &&& stale_left.pending_grain_mxl_index == if other && state.pending_grain is None {
                None
            } else {
                state.pending_grain_mxl_index
            }
            &&& ended_left.pending_grain == if state.pending_grain_mxl_index is Some {
                None
            } else {
                state.pending_grain
            }
            &&& ended_left.pending_grain_mxl_index is None
            &&& last_left.pending_grain == if state.st2038_alignment == St2038Alignment::Packet
                && state.pending_grain_mxl_index is Some {
                None
            } else {
                state.pending_grain
            }
            &&& last_left.pending_grain_mxl_index == if state.st2038_alignment
                == St2038Alignment::Packet && state.pending_grain is Some && last is None {
                None
            } else {
                state.pending_grain_mxl_index
            }
            &&& forall|left: DataModel|
                #![trigger same_settings(left, state)]
                left == stale_left || left == ended_left || left == last_left ==> same_settings(
                    left,
                    state,
                ) && left.grain_index == state.grain_index && left.sends == state.sends
        }),
{
}

/// When a buffer is due: at its time after the latency if that is still to come, and the latency
/// stays. If it has passed, the latency grows by the whole grains that have, and the buffer is due
/// five milliseconds after its time and the new latency.
pub proof fn buffer_is_due_after_latency(latency: nat, mxl_pts: nat, mxl_now: nat, rate: Rational)
    ensures
        ({
            let timing = data::data_timing(latency, mxl_pts, mxl_now, rate);
            let passed = mxl_now - mxl_pts - rate::duration(latency, rate);
            &&& passed <= 0 ==> timing.latency == latency && timing.pts == mxl_pts + rate::duration(
                latency,
                rate,
            )
            &&& passed > 0 ==> {
                &&& timing.latency == latency + rate::grain_count(passed as nat, rate)
                &&& timing.pts == mxl_pts + rate::duration(timing.latency, rate) + 5_000_000
            }
        }),
{
}

/// What a first buffer finds between the clocks is what counts from then on.
pub proof fn clocks_are_tied_once(mxl_now: u64, gst_now: u64, offset: u64)
    requires
        gst_now <= mxl_now,
    ensures
        data::pts_offset(None, mxl_now, gst_now) + gst_now == mxl_now,
        data::pts_offset(Some(InitialTime { mxl_pts_offset: offset }), mxl_now, gst_now) == offset,
{
}

/// A time can be computed if and only if MXL time is not behind the pipeline's, no product leaves
/// 128 bits, nothing is divided by zero, and no sum leaves 64 bits.
pub proof fn times_are_computed_in_range(
    state: DataModel,
    mxl_now: u64,
    gst_now: u64,
    gst_pts: u64,
    rate: Rational,
)
    ensures
        data::data_pts_in_range(state, mxl_now, gst_now, None, rate) <==> gst_now <= mxl_now,
        gst_now <= mxl_now ==> ({
            let mxl_pts = gst_pts as nat + data::pts_offset(state.initial_time, mxl_now, gst_now);
            let pts = mxl_pts + rate::duration(state.latency as nat, rate);
            let late = (mxl_now - pts) as nat;
            let longer = state.latency as nat + rate::grain_count(late, rate);
            data::data_pts_in_range(state, mxl_now, gst_now, Some(gst_pts), rate) <==> {
                &&& rate::duration_in_range(state.latency as nat, rate)
                &&& pts <= u64::MAX
                &&& pts < mxl_now ==> {
                    &&& rate::grain_count_in_range(late, rate)
                    &&& longer <= u64::MAX
                    &&& rate::duration_in_range(longer, rate)
                    &&& mxl_pts + rate::duration(longer, rate) + 5_000_000 <= u64::MAX
                }
            }
        }),
{
}

/// What is said of the state is said of the fields of the same names, of the builder, and of what
/// the sender has been asked to send; and a state is in order whenever its builder is.
pub proof fn state_is_its_fields(state: DataState)
    ensures
        state@.initial_time == state.initial_time,
        state@.latency == state.latency,
        state@.st2038_alignment == state.st2038_alignment,
        state@.grain_index == state.grain_index,
        state@.pending_grain_mxl_index == state.pending_grain_mxl_index,
        state@.sends == channel::sends(state.tx),
        state.pending_grain_builder is None <==> state@.pending_grain is None,
        state.pending_grain_builder matches Some(builder) ==> state@.pending_grain == Some(builder@),
        state.well_formed() <==> (state.pending_grain_builder matches Some(builder)
            ==> builder.well_formed()),
{
}

/// What is said of a grain that is handed on, or of a buffer, is said of its bytes and its index.
pub proof fn grain_is_its_fields(data: WriteGrainData, st2038: &[u8])
    ensures
        (DataCommand::Write { data })@ == (data.buf@, data.index),
        data::grain_view(Some(data)) == Some((data.buf@, data.index)),
        data::grain_view(None) is None,
        data::bytes_of(Some(st2038)) == Some(st2038@),
        data::bytes_of(None) is None,
{
}

} // verus!
