//! The payload of an open grain, and when to commit it.
use vstd::prelude::*;

verus! {

/// What `payload` holds after as much of `src` as fits has been copied to its front.
pub open spec fn copied(payload: Seq<u8>, src: Seq<u8>) -> Seq<u8> {
    if src.len() <= payload.len() {
        src + payload.skip(src.len() as int)
    } else {
        src.take(payload.len() as int)
    }
}

/// Copy as much of `src` as fits to the front of `payload`.
pub fn copy_payload(payload: &mut [u8], src: &[u8])
    ensures
        final(payload)@ == copied(old(payload)@, src@),
        final(payload)@.len() == old(payload)@.len(),
        forall|i: int|
            0 <= i < old(payload)@.len() ==> #[trigger] final(payload)@[i] == if i < src@.len() {
                src@[i]
            } else {
                old(payload)@[i]
            },
{
    let copy_len = if src.len() <= payload.len() {
        src.len()
    } else {
        payload.len()
    };
    let ghost before = payload@;
    let mut i: usize = 0;
    while i < copy_len
        invariant
            i <= copy_len,
            copy_len <= src@.len(),
            copy_len <= before.len(),
            payload@ =~= src@.take(i as int) + before.skip(i as int),
        decreases copy_len - i,
    {
        payload[i] = src[i];
        i += 1;
    }
    assert(payload@ =~= copied(before, src@));
}

/// What is to be done about a grain that has been filled.
#[derive(Debug, Clone, Copy, PartialEq, Eq, Structural)]
pub enum WriteStep {
    /// Commit it.
    Commit,
    /// Wait for so many nanoseconds, or until the sink shuts down.
    Wait { remaining: u64 },
    /// Leave it uncommitted.
    Skip,
}

/// How many nanoseconds are left at `mxl_now` until `pts`, if any.
pub open spec fn left_until(pts: u64, mxl_now: u64) -> Option<u64> {
    if pts > mxl_now {
        Some((pts - mxl_now) as u64)
    } else {
        None
    }
}

/// How many nanoseconds are left at `mxl_now` until `pts`, if any.
pub fn time_left(pts: u64, mxl_now: u64) -> (left: Option<u64>)
    ensures
        left == if pts > mxl_now {
            Some((pts - mxl_now) as u64)
        } else {
            None
        },
        left == left_until(pts, mxl_now),
{
    if pts > mxl_now {
        Some(pts - mxl_now)
    } else {
        None
    }
}

/// What is to be done about a grain that was filled before its time.
pub open spec fn paced(remaining: u64, waited: bool, shutdown: bool) -> WriteStep {
    if shutdown {
        WriteStep::Skip
    } else if waited {
        WriteStep::Commit
    } else {
        WriteStep::Wait { remaining }
    }
}

/// What is to be done about a grain that was filled `remaining` nanoseconds before its time: it is
/// waited for once, and committed unless the sink shuts down.
pub fn pace(remaining: u64, waited: bool, shutdown: bool) -> (step: WriteStep)
    ensures
        step == if shutdown {
            WriteStep::Skip
        } else if waited {
            WriteStep::Commit
        } else {
            (WriteStep::Wait { remaining })
        },
        step == paced(remaining, waited, shutdown),
{
    if shutdown {
        WriteStep::Skip
    } else if waited {
        WriteStep::Commit
    } else {
        WriteStep::Wait { remaining }
    }
}

/// After a copy the payload is as long as it was, starts with all of `src` that there is room for,
/// byte for byte, and goes on as it did.
pub proof fn copy_is_complete(payload: Seq<u8>, src: Seq<u8>)
    ensures
        copied(payload, src).len() == payload.len(),
        forall|i: int|
            0 <= i < payload.len() && i < src.len() ==> #[trigger] copied(payload, src)[i] == src[i],
        forall|i: int|
            src.len() <= i < payload.len() ==> #[trigger] copied(payload, src)[i] == payload[i],
{
}

/// A second copy leaves nothing of the first where it reaches.
pub proof fn later_copy_counts(payload: Seq<u8>, first: Seq<u8>, second: Seq<u8>)
    requires
        first.len() <= second.len(),
    ensures
        copied(copied(payload, first), second) == copied(payload, second),
{
    assert(copied(copied(payload, first), second) =~= copied(payload, second));
}

/// A grain is never committed before its time unless it was waited for, is waited for until exactly
/// its time, and is never committed or waited for once the sink shuts down.
pub proof fn grain_is_committed_in_time(pts: u64, mxl_now: u64, waited: bool, shutdown: bool)
    ensures
        left_until(pts, mxl_now) is None <==> pts <= mxl_now,
        left_until(pts, mxl_now) matches Some(remaining) ==> {
            &&& mxl_now + remaining == pts
            &&& paced(remaining, waited, true) == WriteStep::Skip
            &&& paced(remaining, false, false) == (WriteStep::Wait { remaining })
            &&& paced(remaining, true, false) == WriteStep::Commit
        },
{
}

} // verus!
