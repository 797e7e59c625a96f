//! The MXL timestamps of video and audio buffers.
use crate::error::FlowError;
use vstd::prelude::*;

verus! {

/// The MXL timestamp of a buffer: its own, from the base time of the pipeline on, and `offset` more.
pub open spec fn mxl_timestamp(gst_pts: u64, base_time: u64, offset: u64) -> u64 {
    let sum = gst_pts + base_time + offset;
    if sum > u64::MAX {
        u64::MAX
    } else {
        sum as u64
    }
}

/// The MXL timestamp of a buffer, if the pipeline has a base time and the buffer a timestamp.
pub fn buffer_timestamp(base_time: Option<u64>, gst_pts: Option<u64>, offset: u64) -> (result:
    Result<u64, FlowError>)
    ensures
        result == match (base_time, gst_pts) {
            (Some(base_time), Some(gst_pts)) => Ok(mxl_timestamp(gst_pts, base_time, offset)),
            _ => Err::<u64, FlowError>(FlowError::Error),
        },
{
    match (base_time, gst_pts) {
        (Some(base_time), Some(gst_pts)) => Ok(
            gst_pts.saturating_add(base_time).saturating_add(offset),
        ),
        _ => Err(FlowError::Error),
    }
}

/// The timestamp is the sum of its three parts, or the largest there is if the sum is larger; so it is
/// never earlier than any of them, and a later part makes it no earlier.
pub proof fn timestamp_is_a_sum(gst_pts: u64, base_time: u64, offset: u64, later: u64)
    ensures
        ({
            let ts = mxl_timestamp(gst_pts, base_time, offset);
            &&& gst_pts + base_time + offset <= 0xffff_ffff_ffff_ffff ==> ts == gst_pts + base_time
                + offset
            &&& gst_pts + base_time + offset > 0xffff_ffff_ffff_ffff ==> ts
                == 0xffff_ffff_ffff_ffffu64
            &&& ts >= gst_pts && ts >= base_time && ts >= offset
            &&& gst_pts <= later ==> ts <= mxl_timestamp(later, base_time, offset)
        }),
{
}

} // verus!
