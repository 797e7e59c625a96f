//! Ancillary data buffers into MXL data grains.
use crate::error::{AncillaryMapError, FlowError};
use crate::grain;
use crate::grain::{mxl_smpte291_grain_from_gst_st2038, GrainDraft, MxlSmpte291GrainBuilder};
use crate::rate;
use crate::rate::{
    grains_to_ns, grains_to_ns_in_range, ns_to_grains, ns_to_grains_in_range, Rational,
};
use crate::sink::channel;
use crate::sink::channel::{commit_padded_grain, DataCommand, WriteGrainData};
use crossbeam::channel::Sender;
use vstd::prelude::*;

verus! {

/// Nanoseconds by which a buffer that came late is put off beyond the latency.
pub const LATENCY_CUSHION: u64 = 5_000_000;

/// How buffers relate to grains.
#[derive(Debug, Clone, Copy, PartialEq, Eq, Structural)]
pub enum St2038Alignment {
    /// A buffer holds all the packets of a grain.
    Frame,
    /// A buffer holds some of the packets of a grain; a marker ends the grain.
    Packet,
}

/// How MXL time relates to the time of the pipeline.
#[derive(Debug, Clone, Copy, PartialEq, Eq, Structural)]
pub struct InitialTime {
    pub mxl_pts_offset: u64,
}

/// What the sink keeps between two data buffers.
pub struct DataState {
    pub initial_time: Option<InitialTime>,
    /// In grains.
    pub latency: u64,
    pub st2038_alignment: St2038Alignment,
    /// How many grains have been handed on.
    pub grain_index: u64,
    pub pending_grain_builder: Option<MxlSmpte291GrainBuilder>,
    pub pending_grain_mxl_index: Option<u64>,
    pub tx: Sender<DataCommand>,
}

/// What a [`DataState`] holds.
#[verifier::ext_equal]
pub struct DataModel {
    pub initial_time: Option<InitialTime>,
    pub latency: u64,
    pub st2038_alignment: St2038Alignment,
    pub grain_index: u64,
    pub pending_grain: Option<GrainDraft>,
    pub pending_grain_mxl_index: Option<u64>,
    /// The grains offered to the channel, and their indices, each with whether it was taken.
    pub sends: Seq<((Seq<u8>, u64), bool)>,
}

impl DataModel {
    /// The grains handed on, and their indices.
    pub open spec fn sent(self) -> Seq<(Seq<u8>, u64)> {
        channel::taken(self.sends)
    }
}

impl View for DataState {
    type V = DataModel;

    open spec fn view(&self) -> DataModel {
        DataModel {
            initial_time: self.initial_time,
            latency: self.latency,
            st2038_alignment: self.st2038_alignment,
            grain_index: self.grain_index,
            pending_grain: match self.pending_grain_builder {
                Some(builder) => Some(builder@),
                None => None,
            },
            pending_grain_mxl_index: self.pending_grain_mxl_index,
            sends: channel::sends(self.tx),
        }
    }
}

/// When a buffer is due: what it makes of the latency, and its MXL timestamp.
pub struct DataTiming {
    pub latency: nat,
    pub pts: nat,
}

/// When a buffer is due that is to be shown at `mxl_pts` and comes at `mxl_now`: after the latency,
/// which grows by the whole grains that it is late, if it is.
pub open spec fn data_timing(latency: nat, mxl_pts: nat, mxl_now: nat, rate: Rational) -> DataTiming {
    let pts = mxl_pts + rate::duration(latency, rate);
    if pts < mxl_now {
        let longer = latency + rate::grain_count((mxl_now - pts) as nat, rate);
        DataTiming {
            latency: longer,
            pts: mxl_pts + rate::duration(longer, rate) + LATENCY_CUSHION as nat,
        }
    } else {
        DataTiming { latency, pts }
    }
}

/// `data_timing` can be computed: every step stays in range.
pub open spec fn data_timing_in_range(
    latency: nat,
    mxl_pts: nat,
    mxl_now: nat,
    rate: Rational,
) -> bool {
    let pts = mxl_pts + rate::duration(latency, rate);
    let timing = data_timing(latency, mxl_pts, mxl_now, rate);
    &&& mxl_pts <= u64::MAX
    &&& rate::duration_in_range(latency, rate)
    &&& pts <= u64::MAX
    &&& pts < mxl_now ==> {
        &&& rate::grain_count_in_range((mxl_now - pts) as nat, rate)
        &&& timing.latency <= u64::MAX
        &&& rate::duration_in_range(timing.latency, rate)
        &&& timing.pts <= u64::MAX
    }
}

/// The MXL time at pipeline time zero: as it was first found.
pub open spec fn pts_offset(initial_time: Option<InitialTime>, mxl_now: u64, gst_now: u64) -> nat {
    match initial_time {
        Some(initial) => initial.mxl_pts_offset as nat,
        None => (mxl_now - gst_now) as nat,
    }
}

/// A time stamp for a data buffer can be computed: MXL time is not behind the pipeline's, and every
/// step stays in range.
pub open spec fn data_pts_in_range(
    state: DataModel,
    mxl_now: u64,
    gst_now: u64,
    gst_pts: Option<u64>,
    rate: Rational,
) -> bool {
    &&& gst_now <= mxl_now
    &&& gst_pts matches Some(pts) ==> data_timing_in_range(
        state.latency as nat,
        pts as nat + pts_offset(state.initial_time, mxl_now, gst_now),
        mxl_now as nat,
        rate,
    )
}

/// Whether [`data_pts`] can be computed.
pub fn data_pts_fits(
    state: &DataState,
    mxl_now: u64,
    gst_now: u64,
    gst_pts: Option<u64>,
    rate: &Rational,
) -> (fits: bool)
    ensures
        fits == data_pts_in_range(state@, mxl_now, gst_now, gst_pts, *rate),
{
    if gst_now > mxl_now {
        return false;
    }
    let gst_pts = match gst_pts {
        Some(pts) => pts,
        None => return true,
    };
    let offset = match state.initial_time {
        Some(initial) => initial.mxl_pts_offset,
        None => mxl_now - gst_now,
    };
    let mxl_pts = match gst_pts.checked_add(offset) {
        Some(sum) => sum,
        None => return false,
    };
    if !grains_to_ns_in_range(state.latency, rate) {
        return false;
    }
    let pts = match mxl_pts.checked_add(grains_to_ns(state.latency, rate)) {
        Some(sum) => sum,
        None => return false,
    };
    if pts >= mxl_now {
        return true;
    }
    if !ns_to_grains_in_range(mxl_now - pts, rate) {
        return false;
    }
    let latency = match state.latency.checked_add(ns_to_grains(mxl_now - pts, rate)) {
        Some(sum) => sum,
        None => return false,
    };
    if !grains_to_ns_in_range(latency, rate) {
        return false;
    }
    match mxl_pts.checked_add(grains_to_ns(latency, rate)) {
        Some(sum) => sum.checked_add(LATENCY_CUSHION).is_some(),
        None => false,
    }
}

/// The MXL timestamp of a data buffer that comes at `gst_now` of the pipeline and `mxl_now` of MXL
/// with the timestamp `gst_pts`.
pub fn data_pts(
    state: &mut DataState,
    mxl_now: u64,
    gst_now: u64,
    gst_pts: Option<u64>,
    rate: &Rational,
) -> (result: Result<u64, FlowError>)
    requires
        data_pts_in_range(old(state)@, mxl_now, gst_now, gst_pts, *rate),
    ensures
        ({
            let offset = pts_offset(old(state)@.initial_time, mxl_now, gst_now);
            let initial_time = Some(InitialTime { mxl_pts_offset: offset as u64 });
            match gst_pts {
                Some(pts) => {
                    let timing = data_timing(
                        old(state)@.latency as nat,
                        pts as nat + offset,
                        mxl_now as nat,
                        *rate,
                    );
                    &&& result matches Ok(due) && due == timing.pts
                    &&& final(state)@ == (DataModel {
                        initial_time,
                        latency: timing.latency as u64,
                        ..old(state)@
                    })
                },
                None => {
                    &&& result is Err
                    &&& final(state)@ == (DataModel { initial_time, ..old(state)@ })
                },
            }
        }),
        final(state).pending_grain_builder == old(state).pending_grain_builder,
        final(state).tx == old(state).tx,
{
    let first = InitialTime { mxl_pts_offset: mxl_now - gst_now };
    let initial = match state.initial_time {
        Some(initial) => initial,
        None => first,
    };
    state.initial_time = Some(initial);

    let gst_pts = match gst_pts {
        Some(pts) => pts,
        None => return Err(FlowError::Error),
    };
    let mxl_pts = gst_pts + initial.mxl_pts_offset;
    let mut pts = mxl_pts + grains_to_ns(state.latency, rate);
    if pts < mxl_now {
        let diff_ns = mxl_now - pts;
        let diff_grains = ns_to_grains(diff_ns, rate);
        state.latency = state.latency + diff_grains;
        let latency_ns = grains_to_ns(state.latency, rate);
        pts = mxl_pts + latency_ns + LATENCY_CUSHION;
    }
    Ok(pts)
}

impl DataState {
    /// A grain that is being built is a proper draft.
    pub open spec fn well_formed(&self) -> bool {
        self.pending_grain_builder matches Some(builder) ==> builder.well_formed()
    }
}

/// What a buffer holds, if it could be read.
pub open spec fn bytes_of(packets: Option<&[u8]>) -> Option<Seq<u8>> {
    match packets {
        Some(st2038) => Some(st2038@),
        None => None,
    }
}

/// A grain and its index, as they are handed on.
pub open spec fn grain_view(data: Option<WriteGrainData>) -> Option<(Seq<u8>, u64)> {
    match data {
        Some(data) => Some((data.buf@, data.index)),
        None => None,
    }
}

/// One more grain has been handed on.
pub open spec fn counted(state: DataModel) -> DataModel {
    let grain_index = if state.grain_index == u64::MAX {
        0
    } else {
        (state.grain_index + 1) as u64
    };
    DataModel { grain_index, ..state }
}

/// The channel was offered `grain`.
pub open spec fn offered(state: DataModel, grain: (Seq<u8>, u64), accepted: bool) -> DataModel {
    DataModel { sends: state.sends.push((grain, accepted)), ..state }
}

/// A grain for another index than `mxl_index` that is being built is over: it is taken out, to be
/// handed on.
pub open spec fn stale_grain_taken(state: DataModel, mxl_index: u64) -> (
    DataModel,
    Result<Option<(Seq<u8>, u64)>, FlowError>,
) {
    match state.pending_grain_mxl_index {
        Some(pending) if pending != mxl_index => match state.pending_grain {
            Some(draft) => (
                DataModel { pending_grain: None, ..state },
                match grain::finish_grain(draft) {
                    Ok(bytes) => Ok(Some((bytes, pending))),
                    Err(_) => Err(FlowError::Error),
                },
            ),
            None => (DataModel { pending_grain_mxl_index: None, ..state }, Ok(None)),
        },
        _ => (state, Ok(None)),
    }
}

/// The grain that was over has been offered to the channel.
pub open spec fn stale_grain_offered(state: DataModel, accepted: bool) -> (
    DataModel,
    Result<(), FlowError>,
) {
    if accepted {
        (counted(DataModel { pending_grain_mxl_index: None, ..state }), Ok(()))
    } else {
        (state, Err(FlowError::Error))
    }
}

/// The packets of a buffer are appended to the grain that is being built, or to a new one for
/// `mxl_index`. `None` is a buffer that could not be read.
pub open spec fn packets_appended(
    state: DataModel,
    mxl_index: u64,
    packets: Option<Seq<u8>>,
) -> (DataModel, Result<(), FlowError>) {
    let (draft, index) = match state.pending_grain {
        Some(draft) => (draft, state.pending_grain_mxl_index),
        None => (grain::empty_draft(), Some(mxl_index)),
    };
    let (longer, result) = match packets {
        Some(st2038) => match grain::append_packets(draft, st2038) {
            (longer, Ok(_)) => (longer, Ok(())),
            (longer, Err(_)) => (longer, Err(FlowError::Error)),
        },
        None => (draft, Err(FlowError::Error)),
    };
    (DataModel { pending_grain: Some(longer), pending_grain_mxl_index: index, ..state }, result)
}

/// A marker ends the grain that is being built: it is taken out, to be handed on.
pub open spec fn ended_grain_taken(state: DataModel) -> (
    DataModel,
    Result<(Seq<u8>, u64), FlowError>,
) {
    let rest = DataModel { pending_grain_mxl_index: None, ..state };
    match (state.pending_grain_mxl_index, state.pending_grain) {
        (Some(index), Some(draft)) => (
            DataModel { pending_grain: None, ..rest },
            match grain::finish_grain(draft) {
                Ok(bytes) => Ok((bytes, index)),
                Err(_) => Err(FlowError::Error),
            },
        ),
        _ => (rest, Err(FlowError::Error)),
    }
}

/// A grain has been offered to the channel that nothing is kept of.
pub open spec fn grain_offered(state: DataModel, accepted: bool) -> (
    DataModel,
    Result<(), FlowError>,
) {
    if accepted {
        (counted(state), Ok(()))
    } else {
        (state, Err(FlowError::Error))
    }
}

/// What a buffer makes of the state in packet alignment, given whether the channel accepts the
/// grain that the buffer shows to be over and the grain that the buffer ends.
pub open spec fn packet_outcome(
    state: DataModel,
    mxl_index: u64,
    packets: Option<Seq<u8>>,
    marker: bool,
    stale_accepted: bool,
    ended_accepted: bool,
) -> (DataModel, Result<(), FlowError>) {
    let (taken, stale) = stale_grain_taken(state, mxl_index);
    let (flushed, flush) = match stale {
        Ok(Some(grain)) => stale_grain_offered(
            offered(taken, grain, stale_accepted),
            stale_accepted,
        ),
        Ok(None) => (taken, Ok(())),
        Err(error) => (taken, Err(error)),
    };
    let (appended, append) = packets_appended(flushed, mxl_index, packets);
    let (rest, ended) = ended_grain_taken(appended);
    if flush is Err {
        (flushed, flush)
    } else if append is Err || !marker {
        (appended, append)
    } else {
        match ended {
            Ok(grain) => grain_offered(offered(rest, grain, ended_accepted), ended_accepted),
            Err(error) => (rest, Err(error)),
        }
    }
}

/// What a buffer makes of the state in frame alignment, given whether the channel accepts the grain
/// that the buffer makes.
pub open spec fn frame_outcome(
    state: DataModel,
    mxl_index: u64,
    packets: Option<Seq<u8>>,
    accepted: bool,
) -> (DataModel, Result<(), FlowError>) {
    match packets {
        Some(st2038) => match grain::grain_of(st2038) {
            Ok(bytes) => grain_offered(offered(state, (bytes, mxl_index), accepted), accepted),
            Err(_) => (state, Err(FlowError::Error)),
        },
        None => (state, Err(FlowError::Error)),
    }
}

/// What a buffer makes of the state. `first` says whether the channel accepts a grain that the
/// buffer makes (frame alignment) or shows to be over (packet alignment), `second` whether it
/// accepts one that the buffer ends.
pub open spec fn data_outcome(
    state: DataModel,
    mxl_index: u64,
    packets: Option<Seq<u8>>,
    marker: bool,
    first: bool,
    second: bool,
) -> (DataModel, Result<(), FlowError>) {
    match state.st2038_alignment {
        St2038Alignment::Frame => frame_outcome(state, mxl_index, packets, first),
        St2038Alignment::Packet => packet_outcome(
            state,
            mxl_index,
            packets,
            marker,
            first,
            second,
        ),
    }
}

/// The end of the stream ends the grain that is being built in packet alignment: it is taken out, to
/// be handed on. One that cannot be made is lost.
pub open spec fn last_grain_taken(state: DataModel) -> (DataModel, Option<(Seq<u8>, u64)>) {
    match (state.st2038_alignment, state.pending_grain_mxl_index, state.pending_grain) {
        (St2038Alignment::Packet, Some(index), Some(draft)) => {
            let taken = DataModel { pending_grain: None, ..state };
            match grain::finish_grain(draft) {
                Ok(bytes) => (taken, Some((bytes, index))),
                Err(_) => (DataModel { pending_grain_mxl_index: None, ..taken }, None),
            }
        },
        _ => (state, None),
    }
}

/// The last grain has been offered to the channel.
pub open spec fn last_grain_offered(state: DataModel, accepted: bool) -> DataModel {
    if accepted {
        counted(DataModel { pending_grain_mxl_index: None, ..state })
    } else {
        state
    }
}

/// What the end of the stream makes of the state, given whether the channel accepts the grain that
/// is being built.
pub open spec fn eos_outcome(state: DataModel, accepted: bool) -> DataModel {
    match last_grain_taken(state) {
        (taken, Some(grain)) => last_grain_offered(offered(taken, grain, accepted), accepted),
        (taken, None) => taken,
    }
}

/// Take out the grain that is being built if it is for another index than `mxl_index`.
pub fn take_stale_grain(state: &mut DataState, mxl_index: u64) -> (result: Result<
    Option<WriteGrainData>,
    FlowError,
>)
    requires
        old(state).well_formed(),
    ensures
        final(state).well_formed(),
        final(state).tx == old(state).tx,
        ({
            let (expected, grain) = stale_grain_taken(old(state)@, mxl_index);
            &&& final(state)@ == expected
            &&& match grain {
                Ok(grain) => result matches Ok(data) && grain_view(data) == grain,
                Err(_) => result is Err,
            }
        }),
{
    if let Some(pending_mxl_index) = state.pending_grain_mxl_index {
        if pending_mxl_index != mxl_index {
            if let Some(builder) = state.pending_grain_builder.take() {
                return match builder.into_padded_grain() {
                    Ok(buf) => Ok(Some(WriteGrainData { buf, index: pending_mxl_index })),
                    Err(_) => Err(FlowError::Error),
                };
            }
            state.pending_grain_mxl_index = None;
        }
    }
    Ok(None)
}

/// Go on after the grain that was over has been offered to the channel.
pub fn finish_stale_grain(state: &mut DataState, accepted: bool) -> (result: Result<(), FlowError>)
    requires
        old(state).well_formed(),
    ensures
        final(state).well_formed(),
        final(state).tx == old(state).tx,
        (final(state)@, result) == stale_grain_offered(old(state)@, accepted),
{
    if !accepted {
        return Err(FlowError::Error);
    }
    state.grain_index = state.grain_index.wrapping_add(1);
    state.pending_grain_mxl_index = None;
    Ok(())
}

/// Append the packets of a buffer to the grain that is being built, or to a new one.
pub fn append_packets(state: &mut DataState, mxl_index: u64, packets: Option<&[u8]>) -> (result:
    Result<(), FlowError>)
    requires
        old(state).well_formed(),
    ensures
        final(state).well_formed(),
        final(state).tx == old(state).tx,
        (final(state)@, result) == packets_appended(
            old(state)@,
            mxl_index,
            bytes_of(packets),
        ),
{
    let mut builder = match state.pending_grain_builder.take() {
        Some(builder) => builder,
        None => match MxlSmpte291GrainBuilder::new() {
            Ok(builder) => {
                state.pending_grain_mxl_index = Some(mxl_index);
                builder
            },
            Err(_) => return Err(FlowError::Error),
        },
    };
    let appended: Result<(), AncillaryMapError> = match packets {
        Some(st2038) => builder.append_st2038_packets(st2038),
        None => {
            state.pending_grain_builder = Some(builder);
            return Err(FlowError::Error);
        },
    };
    state.pending_grain_builder = Some(builder);
    match appended {
        Ok(_) => Ok(()),
        Err(_) => Err(FlowError::Error),
    }
}

/// Take out the grain that is being built, which a marker ends.
pub fn take_ended_grain(state: &mut DataState) -> (result: Result<WriteGrainData, FlowError>)
    requires
        old(state).well_formed(),
    ensures
        final(state).well_formed(),
        final(state).tx == old(state).tx,
        ({
            let (expected, grain) = ended_grain_taken(old(state)@);
            &&& final(state)@ == expected
            &&& match grain {
                Ok(grain) => result matches Ok(data) && (data.buf@, data.index) == grain,
                Err(_) => result is Err,
            }
        }),
{
    let pending_mxl_index = match state.pending_grain_mxl_index.take() {
        Some(index) => index,
        None => return Err(FlowError::Error),
    };
    let builder = match state.pending_grain_builder.take() {
        Some(builder) => builder,
        None => return Err(FlowError::Error),
    };
    match builder.into_padded_grain() {
        Ok(buf) => Ok(WriteGrainData { buf, index: pending_mxl_index }),
        Err(_) => Err(FlowError::Error),
    }
}

/// Go on after a grain has been offered to the channel that nothing is kept of.
pub fn finish_grain_offer(state: &mut DataState, accepted: bool) -> (result: Result<(), FlowError>)
    requires
        old(state).well_formed(),
    ensures
        final(state).well_formed(),
        final(state).tx == old(state).tx,
        (final(state)@, result) == grain_offered(old(state)@, accepted),
{
    if !accepted {
        return Err(FlowError::Error);
    }
    state.grain_index = state.grain_index.wrapping_add(1);
    Ok(())
}

/// Make a grain from a buffer and hand it to the writing thread: the grain is sent once, if there is
/// one, and it is an error if there is none or it is not taken.
pub fn commit_buffer(packets: Option<&[u8]>, state: &mut DataState, index: u64) -> (result: Result<
    (),
    FlowError,
>)
    requires
        old(state).well_formed(),
    ensures
        final(state).well_formed(),
        final(state)@ == match packets {
            Some(st2038) => match grain::grain_of(st2038@) {
                Ok(bytes) => offered(old(state)@, (bytes, index), result is Ok),
                Err(_) => old(state)@,
            },
            None => old(state)@,
        },
        result is Ok ==> (packets matches Some(st2038) && grain::grain_of(st2038@) is Ok),
{
    let st2038 = match packets {
        Some(st2038) => st2038,
        None => return Err(FlowError::Error),
    };
    match mxl_smpte291_grain_from_gst_st2038(st2038) {
        Ok(buf) => commit_padded_grain(&mut state.tx, buf, index),
        Err(_) => Err(FlowError::Error),
    }
}

/// Take in a data buffer that is due at `mxl_index`: `packets` is what it holds, or `None` if it
/// cannot be read, and `marker` whether it ends a grain.
pub fn data(state: &mut DataState, mxl_index: u64, packets: Option<&[u8]>, marker: bool) -> (result:
    Result<(), FlowError>)
    requires
        old(state).well_formed(),
    ensures
        final(state).well_formed(),
        exists|first: bool, second: bool|
            (final(state)@, result) == #[trigger] data_outcome(
                old(state)@,
                mxl_index,
                bytes_of(packets),
                marker,
                first,
                second,
            ),
{
    let ghost start = state@;
    let ghost seen = bytes_of(packets);
    match state.st2038_alignment {
        St2038Alignment::Frame => {
            let accepted = commit_buffer(packets, state, mxl_index).is_ok();
            let result = finish_grain_offer(state, accepted);
            assert((state@, result) == data_outcome(
                start,
                mxl_index,
                seen,
                marker,
                accepted,
                true,
            ));
            result
        },
        St2038Alignment::Packet => {
            let ghost mut first = true;
            let stale = match take_stale_grain(state, mxl_index) {
                Ok(stale) => stale,
                Err(error) => {
                    assert((state@, Err::<(), FlowError>(error)) == data_outcome(
                        start,
                        mxl_index,
                        seen,
                        marker,
                        true,
                        true,
                    ));
                    return Err(error);
                },
            };
            if let Some(grain) = stale {
                let accepted = commit_padded_grain(&mut state.tx, grain.buf, grain.index).is_ok();
                proof {
                    first = accepted;
                }
                let flush = finish_stale_grain(state, accepted);
                if flush.is_err() {
                    assert((state@, flush) == data_outcome(
                        start,
                        mxl_index,
                        seen,
                        marker,
                        first,
                        true,
                    ));
                    return flush;
                }
            }
            let append = append_packets(state, mxl_index, packets);
            if append.is_err() || !marker {
                assert((state@, append) == data_outcome(
                    start,
                    mxl_index,
                    seen,
                    marker,
                    first,
                    true,
                ));
                return append;
            }
            let grain = match take_ended_grain(state) {
                Ok(grain) => grain,
                Err(error) => {
                    assert((state@, Err::<(), FlowError>(error)) == data_outcome(
                        start,
                        mxl_index,
                        seen,
                        marker,
                        first,
                        true,
                    ));
                    return Err(error);
                },
            };
            let accepted = commit_padded_grain(&mut state.tx, grain.buf, grain.index).is_ok();
            let result = finish_grain_offer(state, accepted);
            assert((state@, result) == data_outcome(
                start,
                mxl_index,
                seen,
                marker,
                first,
                accepted,
            ));
            result
        },
    }
}

/// Take out the grain that is being built, which the end of the stream ends.
pub fn take_last_grain(state: &mut DataState) -> (result: Option<WriteGrainData>)
    requires
        old(state).well_formed(),
    ensures
        final(state).well_formed(),
        final(state).tx == old(state).tx,
        (final(state)@, grain_view(result)) == last_grain_taken(old(state)@),
{
    if let St2038Alignment::Frame = state.st2038_alignment {
        return None;
    }
    let pending_mxl_index = match state.pending_grain_mxl_index {
        Some(index) => index,
        None => return None,
    };
    let builder = match state.pending_grain_builder.take() {
        Some(builder) => builder,
        None => return None,
    };
    match builder.into_padded_grain() {
        Ok(buf) => Some(WriteGrainData { buf, index: pending_mxl_index }),
        Err(_) => {
            state.pending_grain_mxl_index = None;
            None
        },
    }
}

/// Go on after the last grain has been offered to the channel.
pub fn finish_eos(state: &mut DataState, accepted: bool)
    requires
        old(state).well_formed(),
    ensures
        final(state).well_formed(),
        final(state).tx == old(state).tx,
        final(state)@ == last_grain_offered(old(state)@, accepted),
{
    if accepted {
        state.pending_grain_mxl_index = None;
        state.grain_index = state.grain_index.wrapping_add(1);
    }
}

/// Take in the end of the stream: the grain that is being built is handed on, if there is one.
pub fn eos(state: &mut DataState)
    requires
        old(state).well_formed(),
    ensures
        final(state).well_formed(),
        exists|accepted: bool| final(state)@ == #[trigger] eos_outcome(old(state)@, accepted),
{
    let ghost start = state@;
    let mut accepted = true;
    if let Some(grain) = take_last_grain(state) {
        accepted = commit_padded_grain(&mut state.tx, grain.buf, grain.index).is_ok();
        finish_eos(state, accepted);
    }
    assert(state@ == eos_outcome(start, accepted));
}

} // verus!
