//! The channel to the thread that writes data grains.
use crate::error::FlowError;
use crossbeam::channel::Sender;
use vstd::prelude::*;

verus! {

/// A grain for the writing thread.
#[derive(Debug)]
pub struct WriteGrainData {
    pub buf: Vec<u8>,
    pub index: u64,
}

/// What the writing thread is asked to do.
#[derive(Debug)]
pub enum DataCommand {
    Write { data: WriteGrainData },
}

impl View for DataCommand {
    type V = (Seq<u8>, u64);

    open spec fn view(&self) -> (Seq<u8>, u64) {
        match self {
            DataCommand::Write { data } => (data.buf@, data.index),
        }
    }
}

/// `crossbeam::channel::Sender`, of which only [`sends`] is known.
#[verifier::external_type_specification]
#[verifier::external_body]
#[verifier::reject_recursive_types(T)]
pub struct ExSender<T>(Sender<T>);

/// The grains, and their indices, that `tx` has been asked to send, in order, each with whether its
/// channel took it.
pub uninterp spec fn sends(tx: Sender<DataCommand>) -> Seq<((Seq<u8>, u64), bool)>;

/// What was taken of what was to be sent.
pub open spec fn taken(sends: Seq<((Seq<u8>, u64), bool)>) -> Seq<(Seq<u8>, u64)>
    decreases sends.len(),
{
    if sends.len() == 0 {
        Seq::empty()
    } else {
        let (grain, accepted) = sends.last();
        let before = taken(sends.drop_last());
        if accepted {
            before.push(grain)
        } else {
            before
        }
    }
}

/// What is taken with one more to be sent.
pub proof fn lemma_taken(sends: Seq<((Seq<u8>, u64), bool)>, grain: (Seq<u8>, u64), accepted: bool)
    ensures
        taken(sends.push((grain, accepted))) == if accepted {
            taken(sends).push(grain)
        } else {
            taken(sends)
        },
{
    assert(sends.push((grain, accepted)).drop_last() =~= sends);
}

/// `Sender::send`: offers `command` to the channel once, waiting for room if the channel is bounded
/// and full, and says whether it was taken. It is refused if all receivers are gone; whether they
/// are is not stated.
#[verifier::external_body]
fn send(tx: &mut Sender<DataCommand>, command: DataCommand) -> (accepted: bool)
    ensures
        sends(*final(tx)) == sends(*old(tx)).push((command@, accepted)),
{
    tx.send(command).is_ok()
}

/// Hand a grain to the writing thread: it is sent once, and it is an error if it is not taken.
pub fn commit_padded_grain(tx: &mut Sender<DataCommand>, buf: Vec<u8>, index: u64) -> (result: Result<
    (),
    FlowError,
>)
    ensures
        sends(*final(tx)) == sends(*old(tx)).push(((buf@, index), result is Ok)),
{
    let data = WriteGrainData { buf, index };
    if send(tx, DataCommand::Write { data }) {
        Ok(())
    } else {
        Err(FlowError::Error)
    }
}

} // verus!
