//! MXL sample rings into interleaved audio buffers.
//!
//! The reader takes one batch of samples after the other. A reader that has fallen behind what the
//! ring still holds jumps forward, and the next buffer is marked as discontinuous.
use crate::error::FlowError;
use vstd::prelude::*;

verus! {

/// The longest time to wait for a producer, in nanoseconds.
pub const PRODUCER_TIMEOUT: u128 = 100_000_000;

/// Samples per channel that are read at once, if the flow allows.
pub const DEFAULT_BATCH_SIZE: u32 = 48;

/// The bytes of a sample.
pub const SAMPLE_SIZE: usize = 4;

/// What the source keeps between two audio buffers.
#[derive(Debug, Clone, Copy, PartialEq, Eq, Structural)]
pub struct AudioState {
    /// The sample index that is read next.
    pub index: u64,
    /// Whether `index` has been set.
    pub is_initialized: bool,
    /// Whether the next buffer follows a gap.
    pub next_discont: bool,
}

/// What is known of a continuous flow.
#[derive(Debug, Clone, Copy, PartialEq, Eq, Structural)]
pub struct FlowInfo {
    /// Samples per channel that the ring holds.
    pub buffer_length: u32,
    pub max_commit_batch_size_hint: u32,
    /// The sample index behind the last one written.
    pub head_index: u64,
}

/// What is to be done while the samples of a batch are not all there.
#[derive(Debug, Clone, Copy, PartialEq, Eq, Structural)]
pub enum WaitStep {
    /// They are there.
    Ready,
    /// Ask for the head index again.
    Poll,
    /// Read what there is.
    TimedOut,
}

/// `a - b`, or zero.
pub open spec fn minus(a: nat, b: nat) -> nat {
    if a >= b {
        (a - b) as nat
    } else {
        0
    }
}

/// How many samples per channel are read at once: the default, but no more than half the ring nor
/// than the producer commits at once.
pub open spec fn batch_of(info: FlowInfo) -> u32 {
    let half = info.buffer_length / 2;
    let least = if half < DEFAULT_BATCH_SIZE {
        half
    } else {
        DEFAULT_BATCH_SIZE
    };
    if info.max_commit_batch_size_hint < least {
        info.max_commit_batch_size_hint
    } else {
        least
    }
}

/// The oldest sample that can still be read as the first of a batch.
pub open spec fn oldest_valid(head: u64, batch: u64, ring: u64) -> nat {
    minus(head as nat, minus(ring as nat, batch as nat))
}

/// Where a reader that has fallen behind goes on: two batches before the head.
pub open spec fn cushion_index(head: u64, batch: u64) -> nat {
    minus(head as nat, 2 * batch as nat)
}

/// A reader that has not been set starts one batch before the head.
pub open spec fn initialized(state: AudioState, batch: u64, head: u64) -> AudioState {
    if state.is_initialized {
        state
    } else {
        AudioState { index: minus(head as nat, batch as nat) as u64, is_initialized: true, ..state }
    }
}

/// A reader that has fallen behind the oldest sample jumps.
pub open spec fn caught_up(state: AudioState, head: u64, batch: u64, ring: u64) -> AudioState {
    if state.index < oldest_valid(head, batch, ring) {
        AudioState { index: cushion_index(head, batch) as u64, ..state }
    } else {
        state
    }
}

/// The reader before a batch is read: one that jumps owes a mark on the next buffer.
pub open spec fn located(state: AudioState, head: u64, batch: u64, ring: u64) -> AudioState {
    if state.index < oldest_valid(head, batch, ring) {
        AudioState { next_discont: true, ..caught_up(state, head, batch, ring) }
    } else {
        state
    }
}

/// The reader one batch further.
pub open spec fn advanced(state: AudioState, batch: u64) -> AudioState {
    AudioState { index: (state.index + batch) as u64, ..state }
}

/// The reader after a batch has been read whose timestamp is `pts`. A batch without one is passed
/// over; for another the mark that is owed is paid.
pub open spec fn received(state: AudioState, batch: u64, pts: Option<u64>) -> AudioState {
    match pts {
        Some(_) => AudioState { next_discont: false, ..state },
        None => advanced(state, batch),
    }
}

/// How many samples per channel are read at once.
pub fn batch_size(info: &FlowInfo) -> (batch: u32)
    ensures
        batch == batch_of(*info),
{
    let half = info.buffer_length / 2;
    let least = if half < DEFAULT_BATCH_SIZE {
        half
    } else {
        DEFAULT_BATCH_SIZE
    };
    if info.max_commit_batch_size_hint < least {
        info.max_commit_batch_size_hint
    } else {
        least
    }
}

/// Set the index of a reader that has none.
pub fn audio_state_init(batch: u64, reader_info: &FlowInfo, audio_state: &mut AudioState)
    ensures
        *final(audio_state) == initialized(*old(audio_state), batch, reader_info.head_index),
{
    if !audio_state.is_initialized {
        audio_state.index = reader_info.head_index.saturating_sub(batch);
        audio_state.is_initialized = true;
    }
}

/// What a turn of the source starts from.
#[derive(Debug, Clone, Copy, PartialEq, Eq, Structural)]
pub struct BatchPlan {
    /// Samples per channel that are read.
    pub batch: u64,
    /// Samples per channel that the ring holds.
    pub ring: u64,
    pub head: u64,
}

/// Start a turn of the source.
pub fn begin_batch(reader_info: &FlowInfo, audio_state: &mut AudioState) -> (plan: BatchPlan)
    ensures
        plan.batch == batch_of(*reader_info),
        plan.ring == reader_info.buffer_length,
        plan.head == reader_info.head_index,
        *final(audio_state) == initialized(
            *old(audio_state),
            batch_of(*reader_info) as u64,
            reader_info.head_index,
        ),
{
    let batch = batch_size(reader_info) as u64;
    audio_state_init(batch, reader_info, audio_state);
    BatchPlan { batch, ring: reader_info.buffer_length as u64, head: reader_info.head_index }
}

/// Have the next buffer marked as discontinuous.
pub fn resync_state(audio_state: &mut AudioState)
    ensures
        *final(audio_state) == (AudioState { next_discont: true, ..*old(audio_state) }),
{
    audio_state.next_discont = true;
}

/// What is to be done while a reader may have to wait for a batch.
pub open spec fn wait_step(state: AudioState, head: u64, batch: u64, elapsed: u128) -> WaitStep {
    if state.index + batch <= head {
        WaitStep::Ready
    } else if elapsed > PRODUCER_TIMEOUT {
        WaitStep::TimedOut
    } else {
        WaitStep::Poll
    }
}

/// What is to be done `elapsed` nanoseconds after the first look at the head index, which is `head`
/// now.
pub fn wait_for_sample(head: u64, batch: u64, audio_state: &AudioState, elapsed: u128) -> (step:
    WaitStep)
    requires
        audio_state.index + batch <= u64::MAX,
    ensures
        step == if audio_state.index + batch <= head {
            WaitStep::Ready
        } else if elapsed > PRODUCER_TIMEOUT {
            WaitStep::TimedOut
        } else {
            WaitStep::Poll
        },
        step == wait_step(*audio_state, head, batch, elapsed),
        step is Ready <==> audio_state.index + batch <= head,
        step is TimedOut <==> audio_state.index + batch > head && elapsed > 100_000_000,
{
    if audio_state.index + batch <= head {
        WaitStep::Ready
    } else if elapsed > PRODUCER_TIMEOUT {
        WaitStep::TimedOut
    } else {
        WaitStep::Poll
    }
}

/// Where a reader that has fallen behind goes on: two batches before the head, so that it is not
/// late again at once if the producer has gone on meanwhile.
pub fn define_cushion(head: u64, batch: u64) -> (index: u64)
    ensures
        index == cushion_index(head, batch),
{
    match batch.checked_mul(2) {
        Some(cushion) => head.saturating_sub(cushion),
        None => 0,
    }
}

/// Jump forward.
pub fn catch_up(head: u64, batch: u64, audio_state: &mut AudioState)
    ensures
        *final(audio_state) == (AudioState {
            index: cushion_index(head, batch) as u64,
            ..*old(audio_state)
        }),
{
    audio_state.index = define_cushion(head, batch);
}

/// Whether the reader has fallen behind what the ring holds; if so it jumps forward.
pub fn is_reader_late(head: u64, batch: u64, ring: u64, audio_state: &mut AudioState) -> (late:
    bool)
    ensures
        late == (old(audio_state).index < oldest_valid(head, batch, ring)),
        *final(audio_state) == caught_up(*old(audio_state), head, batch, ring),
{
    let oldest_valid = head.saturating_sub(ring.saturating_sub(batch));
    if audio_state.index < oldest_valid {
        catch_up(head, batch, audio_state);
        true
    } else {
        false
    }
}

/// Make ready to read a batch: a reader that has fallen behind jumps, and owes a mark.
pub fn locate_batch(head: u64, batch: u64, ring: u64, audio_state: &mut AudioState)
    ensures
        *final(audio_state) == located(*old(audio_state), head, batch, ring),
{
    if is_reader_late(head, batch, ring, audio_state) {
        resync_state(audio_state);
    }
}

/// The samples of one channel of a batch: what stands at the end of the ring, and what goes on at
/// its start.
pub struct ChannelData {
    pub data1: Vec<u8>,
    pub data2: Vec<u8>,
}

impl View for ChannelData {
    type V = Seq<u8>;

    open spec fn view(&self) -> Seq<u8> {
        self.data1@ + self.data2@
    }
}

/// A batch of samples, channel by channel.
pub struct SamplesData {
    pub channels: Vec<ChannelData>,
}

impl View for SamplesData {
    type V = Seq<Seq<u8>>;

    open spec fn view(&self) -> Seq<Seq<u8>> {
        Seq::new(self.channels@.len(), |ch: int| self.channels@[ch]@)
    }
}

/// How many samples of each channel are interleaved: as many as the last one has.
pub open spec fn frame_count(channels: Seq<Seq<u8>>) -> nat {
    if channels.len() == 0 {
        0
    } else {
        channels.last().len() / SAMPLE_SIZE as nat
    }
}

/// Every channel has the samples that are interleaved.
pub open spec fn has_frames(channels: Seq<Seq<u8>>) -> bool {
    forall|ch: int|
        0 <= ch < channels.len() ==> frame_count(channels) * SAMPLE_SIZE <= (
        #[trigger] channels[ch]).len()
}

/// The samples of all channels, one of each channel after the other.
pub open spec fn interleaved(channels: Seq<Seq<u8>>) -> Seq<u8> {
    let size = SAMPLE_SIZE as nat;
    let frame_len = channels.len() * size;
    Seq::new(
        frame_count(channels) * frame_len,
        |k: int|
            channels[k % frame_len as int / size as int][k / frame_len as int * size + k
                % frame_len as int % size as int],
    )
}

/// Where a byte of a sample stands among interleaved samples.
proof fn lemma_position(channels: nat, count: nat, frame: nat, ch: nat, byte: nat)
    requires
        frame < count,
        ch < channels,
        byte < 4,
    ensures
        ({
            let k = (frame * (channels * 4) + ch * 4 + byte) as int;
            let len = (channels * 4) as int;
            &&& 0 <= k < count * (channels * 4)
            &&& k / len == frame
            &&& k % len / 4 == ch
            &&& k % len % 4 == byte
        }),
{
    let len = (channels * 4) as int;
    let within = (ch * 4 + byte) as int;
    assert(0 <= within < len);
    vstd::arithmetic::div_mod::lemma_fundamental_div_mod_converse(
        frame * len + within,
        len,
        frame as int,
        within,
    );
    assert(frame * len + len == (frame + 1) * len) by (nonlinear_arith);
    assert((frame + 1) * len <= count * len) by (nonlinear_arith)
        requires
            frame + 1 <= count,
            len >= 0,
    ;
    assert(frame * len >= 0) by (nonlinear_arith)
        requires
            len >= 0,
    ;
}

/// The two parts of a channel in one.
fn combined_channel(data: &ChannelData) -> (combined: Vec<u8>)
    ensures
        combined@ == data@,
{
    let mut combined: Vec<u8> = Vec::new();
    combined.extend_from_slice(data.data1.as_slice());
    combined.extend_from_slice(data.data2.as_slice());
    assert(combined@ =~= data@);
    combined
}

/// Whether every channel has the samples that are interleaved.
pub fn can_interleave(samples: &SamplesData) -> (fits: bool)
    ensures
        fits == has_frames(samples@),
{
    let num_channels = samples.channels.len();
    if num_channels == 0 {
        return true;
    }
    let last = combined_channel(&samples.channels[num_channels - 1]);
    let needed = last.len() / SAMPLE_SIZE * SAMPLE_SIZE;
    let mut ch: usize = 0;
    while ch < num_channels
        invariant
            ch <= num_channels,
            num_channels == samples.channels@.len(),
            needed == frame_count(samples@) * SAMPLE_SIZE,
            forall|c: int| 0 <= c < ch ==> needed <= (#[trigger] samples@[c]).len(),
        decreases num_channels - ch,
    {
        let combined = combined_channel(&samples.channels[ch]);
        assert(samples@[ch as int] == combined@);
        if combined.len() < needed {
            return false;
        }
        ch += 1;
    }
    true
}

/// Interleave the channels of a batch.
pub fn interleave_audio(samples: &SamplesData) -> (bytes: Vec<u8>)
    requires
        has_frames(samples@),
    ensures
        bytes@ == interleaved(samples@),
{
    let num_channels = samples.channels.len();
    let ghost model = samples@;
    let ghost total = frame_count(model);
    let ghost goal = interleaved(model);
    let ghost frame_len = (num_channels * 4) as nat;
    let mut channels: Vec<Vec<u8>> = Vec::new();
    let mut total_samples_per_channel: usize = 0;
    let mut ch: usize = 0;
    while ch < num_channels
        invariant
            ch <= num_channels,
            num_channels == samples.channels@.len(),
            model == samples@,
            channels@.len() == ch,
            forall|c: int| 0 <= c < ch ==> (#[trigger] channels@[c])@ == model[c],
            total_samples_per_channel == if ch == 0 {
                0
            } else {
                model[ch - 1].len() / 4
            },
        decreases num_channels - ch,
    {
        let combined = combined_channel(&samples.channels[ch]);
        assert(model[ch as int] == combined@);
        total_samples_per_channel = combined.len() / SAMPLE_SIZE;
        channels.push(combined);
        ch += 1;
    }
    let mut bytes: Vec<u8> = Vec::new();
    let mut frame: usize = 0;
    while frame < total_samples_per_channel
        invariant
            frame <= total_samples_per_channel,
            total_samples_per_channel == total,
            total == frame_count(model),
            goal == interleaved(model),
            has_frames(model),
            num_channels == model.len(),
            channels@.len() == num_channels,
            forall|c: int| 0 <= c < num_channels ==> (#[trigger] channels@[c])@ == model[c],
            frame_len == num_channels * 4,
            bytes@.len() == frame * frame_len,
            forall|k: int| 0 <= k < bytes@.len() ==> #[trigger] bytes@[k] == goal[k],
        decreases total_samples_per_channel - frame,
    {
        let mut ch: usize = 0;
        while ch < num_channels
            invariant
                ch <= num_channels,
                frame < total_samples_per_channel,
                total_samples_per_channel == total,
                total == frame_count(model),
                goal == interleaved(model),
                has_frames(model),
                num_channels == model.len(),
                channels@.len() == num_channels,
                forall|c: int| 0 <= c < num_channels ==> (#[trigger] channels@[c])@ == model[c],
                frame_len == num_channels * 4,
                bytes@.len() == frame * frame_len + ch * 4,
                forall|k: int| 0 <= k < bytes@.len() ==> #[trigger] bytes@[k] == goal[k],
            decreases num_channels - ch,
        {
            assert(frame_count(model) * 4 <= model[ch as int].len());
            assert(channels@[ch as int]@ == model[ch as int]);
            let chan_len = channels[ch].len();
            let offset = frame * SAMPLE_SIZE;
            let mut byte: usize = 0;
            while byte < SAMPLE_SIZE
                invariant
                    byte <= SAMPLE_SIZE,
                    ch < num_channels,
                    frame < total,
                    goal == interleaved(model),
                    total == frame_count(model),
                    num_channels == model.len(),
                    channels@.len() == num_channels,
                    channels@[ch as int]@ == model[ch as int],
                    chan_len == model[ch as int].len(),
                    total * 4 <= chan_len,
                    offset == frame * 4,
                    frame_len == num_channels * 4,
                    bytes@.len() == frame * frame_len + ch * 4 + byte,
                    forall|k: int| 0 <= k < bytes@.len() ==> #[trigger] bytes@[k] == goal[k],
                decreases SAMPLE_SIZE - byte,
            {
                proof {
                    lemma_position(
                        num_channels as nat,
                        total,
                        frame as nat,
                        ch as nat,
                        byte as nat,
                    );
                }
                bytes.push(channels[ch][offset + byte]);
                byte += 1;
            }
            ch += 1;
        }
        proof {
            assert((frame + 1) * frame_len == frame * frame_len + frame_len) by (nonlinear_arith);
        }
        frame += 1;
    }
    assert(bytes@ =~= goal);
    bytes
}

/// The bytes of all channels together.
pub open spec fn channel_bytes(channels: Seq<Seq<u8>>) -> nat
    decreases channels.len(),
{
    if channels.len() == 0 {
        0
    } else {
        channel_bytes(channels.drop_last()) + channels.last().len()
    }
}

/// The size of the buffer for a batch, if it is in range.
pub fn audio_buffer_size(samples: &SamplesData) -> (size: Option<usize>)
    ensures
        size == if channel_bytes(samples@) <= usize::MAX {
            Some(channel_bytes(samples@) as usize)
        } else {
            None
        },
{
    let num_channels = samples.channels.len();
    let ghost model = samples@;
    let mut buf_size: usize = 0;
    let mut ch: usize = 0;
    while ch < num_channels
        invariant
            ch <= num_channels,
            num_channels == samples.channels@.len(),
            model == samples@,
            buf_size == channel_bytes(model.take(ch as int)),
        decreases num_channels - ch,
    {
        let data = &samples.channels[ch];
        proof {
            assert(model.take(ch + 1).drop_last() =~= model.take(ch as int));
            lemma_channel_bytes_grow(model, ch + 1);
        }
        let channel_size = match data.data1.len().checked_add(data.data2.len()) {
            Some(sum) => sum,
            None => return None,
        };
        buf_size = match buf_size.checked_add(channel_size) {
            Some(sum) => sum,
            None => return None,
        };
        ch += 1;
    }
    assert(model.take(num_channels as int) =~= model);
    Some(buf_size)
}

/// The bytes of some channels are no more than those of all.
proof fn lemma_channel_bytes_grow(channels: Seq<Seq<u8>>, count: int)
    requires
        0 <= count <= channels.len(),
    ensures
        channel_bytes(channels.take(count)) <= channel_bytes(channels),
    decreases channels.len(),
{
    if count < channels.len() {
        lemma_channel_bytes_grow(channels.drop_last(), count);
        assert(channels.drop_last().take(count) =~= channels.take(count));
    } else {
        assert(channels.take(count) =~= channels);
    }
}

/// What becomes of a batch that has been read.
pub enum AudioStep {
    /// It came before the pipeline started, and is passed over.
    Skip,
    /// It makes a buffer.
    Emit(AudioBuffer),
}

/// What an audio buffer holds.
pub struct AudioBuffer {
    pub pts: u64,
    /// Whether it follows a gap.
    pub discont: bool,
    pub bytes: Vec<u8>,
}

/// Take in a batch that has been read, whose timestamp is `pts`: `None` if it came before the
/// pipeline started. Such a batch is passed over rather than given a timestamp of zero.
pub fn receive_batch(
    batch: u64,
    audio_state: &mut AudioState,
    samples: &SamplesData,
    pts: Option<u64>,
) -> (step: AudioStep)
    requires
        has_frames(samples@),
        old(audio_state).index + batch <= u64::MAX,
    ensures
        *final(audio_state) == received(*old(audio_state), batch, pts),
        final(audio_state).index == old(audio_state).index + if pts is Some {
            0
        } else {
            batch as int
        },
        final(audio_state).is_initialized == old(audio_state).is_initialized,
        final(audio_state).next_discont == (old(audio_state).next_discont && pts is None),
        match pts {
            Some(pts) => step matches AudioStep::Emit(buffer) && {
                &&& buffer.pts == pts
                &&& buffer.discont == old(audio_state).next_discont
                &&& buffer.bytes@ == interleaved(samples@)
            },
            None => step is Skip,
        },
{
    let bytes = interleave_audio(samples);
    match pts {
        Some(pts) => {
            let discont = audio_state.next_discont;
            audio_state.next_discont = false;
            AudioStep::Emit(AudioBuffer { pts, discont, bytes })
        },
        None => {
            audio_state.index = audio_state.index + batch;
            AudioStep::Skip
        },
    }
}

/// Go on after the buffer for a batch has been built, or could not be.
pub fn finish_batch(batch: u64, audio_state: &mut AudioState, built: bool) -> (result: Result<
    (),
    FlowError,
>)
    requires
        old(audio_state).index + batch <= u64::MAX,
    ensures
        result is Ok <==> built,
        *final(audio_state) == if built {
            advanced(*old(audio_state), batch)
        } else {
            *old(audio_state)
        },
        final(audio_state).index == old(audio_state).index + if built {
            batch as int
        } else {
            0
        },
        final(audio_state).is_initialized == old(audio_state).is_initialized,
        final(audio_state).next_discont == old(audio_state).next_discont,
{
    if !built {
        return Err(FlowError::Error);
    }
    audio_state.index = audio_state.index + batch;
    Ok(())
}

} // verus!
