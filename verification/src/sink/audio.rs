//! Interleaved audio buffers into MXL sample rings.
//!
//! A buffer is cut into chunks of at most half the ring. Each chunk has its own timestamp, and its
//! samples go to one pair of planes per channel: the part of the ring that is written runs to the
//! end of the ring in the first plane and goes on at its start in the second.
use crate::error::FlowError;
use crate::rate;
use crate::rate::{grains_to_ns, grains_to_ns_in_range, Rational};
use vstd::prelude::*;

verus! {

/// The part of a channel's ring that is open for writing.
pub struct ChannelPlanes {
    pub plane1: Vec<u8>,
    pub plane2: Vec<u8>,
}

/// What a [`ChannelPlanes`] holds.
#[verifier::ext_equal]
pub struct Planes {
    pub plane1: Seq<u8>,
    pub plane2: Seq<u8>,
}

impl View for ChannelPlanes {
    type V = Planes;

    open spec fn view(&self) -> Planes {
        Planes { plane1: self.plane1@, plane2: self.plane2@ }
    }
}

/// The part of a ring that is open for writing, channel by channel.
pub struct SamplesWriteAccess {
    pub channels: Vec<ChannelPlanes>,
}

/// `bytes` with `sample` in place of what stands at `at`.
pub open spec fn splice(bytes: Seq<u8>, at: int, sample: Seq<u8>) -> Seq<u8> {
    bytes.take(at) + sample + bytes.skip(at + sample.len())
}

/// What writing `sample` at `at` of a channel makes of its planes. A sample goes to the first plane
/// if it fits there, else to the second, where one that starts before the end of the first is put
/// at the front. A sample for which there is no room is dropped.
pub open spec fn put_sample(planes: Planes, at: int, sample: Seq<u8>) -> Planes {
    let len = planes.plane1.len() as int;
    let second = if at < len {
        0
    } else {
        at - len
    };
    if at + sample.len() <= len {
        Planes { plane1: splice(planes.plane1, at, sample), ..planes }
    } else if at < len + planes.plane2.len() && second + sample.len() <= planes.plane2.len() {
        Planes { plane2: splice(planes.plane2, second, sample), ..planes }
    } else {
        planes
    }
}

/// Where a channel's sample stands in interleaved bytes.
pub open spec fn sample_offset(bps: nat, channels: nat, ch: nat, i: nat) -> nat {
    i * (channels * bps) + ch * bps
}

/// What writing the first `count` samples of channel `ch` of `src` makes of its planes. Samples that
/// `src` does not hold are left out.
pub open spec fn put_samples(
    planes: Planes,
    bps: nat,
    channels: nat,
    ch: nat,
    count: nat,
    src: Seq<u8>,
) -> Planes
    decreases count,
{
    if count == 0 {
        planes
    } else {
        let i = (count - 1) as nat;
        let before = put_samples(planes, bps, channels, ch, i, src);
        let from = sample_offset(bps, channels, ch, i) as int;
        if from + bps > src.len() {
            before
        } else {
            put_sample(before, (i * bps) as int, src.subrange(from, from + bps))
        }
    }
}

/// Whether a sample fits at `offset` of a plane.
pub fn does_sample_fit_in_plane(bytes_per_sample: usize, plane: &[u8], offset: usize) -> (fits: bool)
    requires
        offset + bytes_per_sample <= usize::MAX,
    ensures
        fits == (offset + bytes_per_sample <= plane@.len()),
{
    offset + bytes_per_sample <= plane.len()
}

/// Write the sample at `sample_offset` of `src_chunk` at `written` of a plane.
pub fn write_sample(
    bytes_per_sample: usize,
    src_chunk: &[u8],
    plane: &mut [u8],
    written: usize,
    sample_offset: usize,
)
    requires
        written + bytes_per_sample <= old(plane)@.len(),
        sample_offset + bytes_per_sample <= src_chunk@.len(),
    ensures
        final(plane)@ == splice(
            old(plane)@,
            written as int,
            src_chunk@.subrange(sample_offset as int, sample_offset + bytes_per_sample),
        ),
{
    let ghost before = plane@;
    let ghost sample = src_chunk@.subrange(
        sample_offset as int,
        sample_offset + bytes_per_sample,
    );
    let plane_len = plane.len();
    let src_len = src_chunk.len();
    let mut i: usize = 0;
    while i < bytes_per_sample
        invariant
            i <= bytes_per_sample,
            written + bytes_per_sample <= plane_len,
            plane_len == before.len(),
            sample_offset + bytes_per_sample <= src_len,
            src_len == src_chunk@.len(),
            sample == src_chunk@.subrange(sample_offset as int, sample_offset + bytes_per_sample),
            plane@ =~= splice(before, written as int, sample.take(i as int)),
        decreases bytes_per_sample - i,
    {
        plane[written + i] = src_chunk[sample_offset + i];
        i += 1;
    }
    assert(sample.take(bytes_per_sample as int) =~= sample);
}

/// The samples of a channel can be written: every offset stays in range.
pub open spec fn offsets_in_range(
    bps: nat,
    channels: nat,
    count: nat,
    src_len: nat,
    planes: Planes,
) -> bool {
    &&& src_len + channels * bps <= usize::MAX
    &&& bps == 0 ==> count * channels <= usize::MAX
    &&& planes.plane1.len() + planes.plane2.len() <= usize::MAX
}

/// The offset of a sample, and where the sample ends, are in range as long as the sample before is
/// in `src`.
proof fn lemma_sample_offset(bps: nat, channels: nat, ch: nat, i: nat, count: nat, src_len: nat)
    requires
        ch < channels,
        i < count,
        src_len + channels * bps <= usize::MAX,
        bps == 0 ==> count * channels <= usize::MAX,
        i > 0 ==> sample_offset(bps, channels, ch, (i - 1) as nat) + bps <= src_len,
    ensures
        i * channels <= usize::MAX,
        i * channels * bps == i * (channels * bps),
        ch * bps <= channels * bps - bps,
        sample_offset(bps, channels, ch, i) + bps <= usize::MAX,
        i * bps <= sample_offset(bps, channels, ch, i),
{
    assert(i * channels * bps == i * (channels * bps)) by (nonlinear_arith);
    assert(ch * bps <= channels * bps - bps) by (nonlinear_arith)
        requires
            ch < channels,
    ;
    assert(i * bps <= i * (channels * bps)) by (nonlinear_arith)
        requires
            channels >= 1,
    ;
    if i > 0 {
        assert(i * (channels * bps) == (i - 1) * (channels * bps) + channels * bps)
            by (nonlinear_arith)
            requires
                i > 0,
        ;
    }
    if bps == 0 {
        assert(i * channels <= count * channels) by (nonlinear_arith)
            requires
                i < count,
        ;
    } else {
        assert(i * channels <= i * (channels * bps)) by (nonlinear_arith)
            requires
                bps >= 1,
        ;
    }
}

/// Write the samples of one channel of interleaved `src_chunk` to its planes.
pub fn write_channel(
    bytes_per_sample: usize,
    num_channels: usize,
    ch: usize,
    planes: &mut ChannelPlanes,
    samples_per_channel: usize,
    src_chunk: &[u8],
)
    requires
        ch < num_channels,
        offsets_in_range(
            bytes_per_sample as nat,
            num_channels as nat,
            samples_per_channel as nat,
            src_chunk@.len(),
            old(planes)@,
        ),
    ensures
        final(planes)@ == put_samples(
            old(planes)@,
            bytes_per_sample as nat,
            num_channels as nat,
            ch as nat,
            samples_per_channel as nat,
            src_chunk@,
        ),
        final(planes)@.plane1.len() == old(planes)@.plane1.len(),
        final(planes)@.plane2.len() == old(planes)@.plane2.len(),
{
    let ghost bps = bytes_per_sample as nat;
    let ghost channels = num_channels as nat;
    let ghost count = samples_per_channel as nat;
    let ghost before = planes@;
    proof {
        if count > 0 {
            lemma_sample_offset(bps, channels, ch as nat, 0, count, src_chunk@.len());
        }
    }
    let mut written: usize = 0;
    let mut i: usize = 0;
    while i < samples_per_channel
        invariant
            i <= samples_per_channel,
            ch < num_channels,
            before == old(planes)@,
            bps == bytes_per_sample,
            channels == num_channels,
            count == samples_per_channel,
            offsets_in_range(bps, channels, count, src_chunk@.len(), before),
            written == i * bytes_per_sample,
            i > 0 ==> sample_offset(bps, channels, ch as nat, (i - 1) as nat) + bps
                <= src_chunk@.len(),
            planes@ == put_samples(before, bps, channels, ch as nat, i as nat, src_chunk@),
            planes@.plane1.len() == before.plane1.len(),
            planes@.plane2.len() == before.plane2.len(),
        decreases samples_per_channel - i,
    {
        proof {
            lemma_sample_offset(bps, channels, ch as nat, i as nat, count, src_chunk@.len());
        }
        let sample_offset = i * num_channels * bytes_per_sample + ch * bytes_per_sample;
        if sample_offset + bytes_per_sample > src_chunk.len() {
            proof {
                lemma_no_more_samples(before, bps, channels, ch as nat, i as nat, count, src_chunk@);
            }
            return;
        }
        if does_sample_fit_in_plane(bytes_per_sample, planes.plane1.as_slice(), written) {
            write_sample(
                bytes_per_sample,
                src_chunk,
                planes.plane1.as_mut_slice(),
                written,
                sample_offset,
            );
        } else if written < planes.plane1.len() + planes.plane2.len() {
            let plane2_offset = written.saturating_sub(planes.plane1.len());
            if does_sample_fit_in_plane(bytes_per_sample, planes.plane2.as_slice(), plane2_offset) {
                write_sample(
                    bytes_per_sample,
                    src_chunk,
                    planes.plane2.as_mut_slice(),
                    plane2_offset,
                    sample_offset,
                );
            }
        }
        proof {
            assert((i + 1) * bytes_per_sample == i * bytes_per_sample + bytes_per_sample)
                by (nonlinear_arith);
        }
        written += bytes_per_sample;
        i += 1;
    }
}

/// Where `src` ends before a sample, it ends before all that follow.
proof fn lemma_no_more_samples(
    planes: Planes,
    bps: nat,
    channels: nat,
    ch: nat,
    i: nat,
    count: nat,
    src: Seq<u8>,
)
    requires
        i <= count,
        sample_offset(bps, channels, ch, i) + bps > src.len(),
    ensures
        put_samples(planes, bps, channels, ch, count, src) == put_samples(
            planes,
            bps,
            channels,
            ch,
            i,
            src,
        ),
    decreases count,
{
    if i < count {
        let last = (count - 1) as nat;
        lemma_no_more_samples(planes, bps, channels, ch, i, last, src);
        assert(i * (channels * bps) <= last * (channels * bps)) by (nonlinear_arith)
            requires
                i <= last,
        ;
    }
}

/// The samples of each channel that is there can be written.
pub open spec fn chunk_in_range(
    bps: nat,
    num_channels: nat,
    count: nat,
    src_len: nat,
    channels: Seq<ChannelPlanes>,
) -> bool {
    forall|ch: int|
        0 <= ch < num_channels && ch < channels.len() ==> offsets_in_range(
            bps,
            num_channels,
            count,
            src_len,
            #[trigger] channels[ch]@,
        )
}

/// Whether [`write_samples_per_channel`] can be done.
pub fn samples_fit(
    bytes_per_sample: usize,
    num_channels: usize,
    access: &SamplesWriteAccess,
    samples_per_channel: usize,
    src_chunk: &[u8],
) -> (fits: bool)
    ensures
        fits == chunk_in_range(
            bytes_per_sample as nat,
            num_channels as nat,
            samples_per_channel as nat,
            src_chunk@.len(),
            access.channels@,
        ),
{
    let offsets_fit = match num_channels.checked_mul(bytes_per_sample) {
        Some(frame) => src_chunk.len().checked_add(frame).is_some() && (bytes_per_sample != 0
            || samples_per_channel.checked_mul(num_channels).is_some()),
        None => false,
    };
    let mut ch: usize = 0;
    while ch < num_channels && ch < access.channels.len()
        invariant
            ch <= num_channels,
            ch <= access.channels@.len(),
            offsets_fit == (src_chunk@.len() + num_channels * bytes_per_sample <= usize::MAX && (
            bytes_per_sample == 0 ==> samples_per_channel * num_channels <= usize::MAX)),
            forall|c: int|
                0 <= c < ch ==> offsets_in_range(
                    bytes_per_sample as nat,
                    num_channels as nat,
                    samples_per_channel as nat,
                    src_chunk@.len(),
                    #[trigger] access.channels@[c]@,
                ),
        decreases num_channels - ch,
    {
        let planes = &access.channels[ch];
        let planes_fit = planes.plane1.len().checked_add(planes.plane2.len()).is_some();
        if !offsets_fit || !planes_fit {
            assert(!offsets_in_range(
                bytes_per_sample as nat,
                num_channels as nat,
                samples_per_channel as nat,
                src_chunk@.len(),
                access.channels@[ch as int]@,
            ));
            return false;
        }
        ch += 1;
    }
    true
}

/// Write interleaved `src_chunk` to the planes of its channels. If a channel is missing, those
/// before it have been written.
pub fn write_samples_per_channel(
    bytes_per_sample: usize,
    num_channels: usize,
    access: &mut SamplesWriteAccess,
    samples_per_channel: usize,
    src_chunk: &[u8],
) -> (result: Result<(), FlowError>)
    requires
        chunk_in_range(
            bytes_per_sample as nat,
            num_channels as nat,
            samples_per_channel as nat,
            src_chunk@.len(),
            old(access).channels@,
        ),
    ensures
        result is Ok <==> num_channels <= old(access).channels@.len(),
        final(access).channels@.len() == old(access).channels@.len(),
        forall|ch: int|
            0 <= ch < old(access).channels@.len() ==> #[trigger] final(access).channels@[ch]@
                == if ch < num_channels {
                put_samples(
                    old(access).channels@[ch]@,
                    bytes_per_sample as nat,
                    num_channels as nat,
                    ch as nat,
                    samples_per_channel as nat,
                    src_chunk@,
                )
            } else {
                old(access).channels@[ch]@
            },
{
    let ghost before = access.channels@;
    let mut ch: usize = 0;
    while ch < num_channels
        invariant
            ch <= num_channels,
            ch <= before.len(),
            before == old(access).channels@,
            access.channels@.len() == before.len(),
            chunk_in_range(
                bytes_per_sample as nat,
                num_channels as nat,
                samples_per_channel as nat,
                src_chunk@.len(),
                before,
            ),
            forall|c: int|
                0 <= c < ch ==> #[trigger] access.channels@[c]@ == put_samples(
                    before[c]@,
                    bytes_per_sample as nat,
                    num_channels as nat,
                    c as nat,
                    samples_per_channel as nat,
                    src_chunk@,
                ),
            forall|c: int|
                ch <= c < before.len() ==> #[trigger] access.channels@[c] == before[c],
        decreases num_channels - ch,
    {
        if ch >= access.channels.len() {
            return Err(FlowError::Error);
        }
        assert(access.channels@[ch as int]@ == before[ch as int]@);
        write_channel(
            bytes_per_sample,
            num_channels,
            ch,
            &mut access.channels[ch],
            samples_per_channel,
            src_chunk,
        );
        ch += 1;
    }
    Ok(())
}

/// How the samples of an audio flow are laid out and timed.
#[derive(Debug, Clone, Copy, PartialEq, Eq, Structural)]
pub struct AudioFormat {
    pub bytes_per_sample: usize,
    pub num_channels: usize,
    pub sample_rate: Rational,
    /// How many samples per channel are written at once.
    pub max_chunk: usize,
}

impl AudioFormat {
    /// The bytes of one sample of each channel.
    pub open spec fn frame_len(&self) -> nat {
        (self.num_channels * self.bytes_per_sample) as nat
    }

    /// A buffer can be divided into frames.
    pub open spec fn has_frames(&self) -> bool {
        0 < self.frame_len() <= usize::MAX
    }

    /// The format of a flow with samples of `bit_depth` bits, in a ring of `buffer_length` samples.
    pub fn new(bit_depth: u32, channel_count: u32, sample_rate: Rational, buffer_length: u32) -> (format:
        Self)
        ensures
            format.bytes_per_sample == bit_depth / 8,
            format.num_channels == channel_count,
            format.sample_rate == sample_rate,
            format.max_chunk == buffer_length / 2,
    {
        AudioFormat {
            bytes_per_sample: (bit_depth / 8) as usize,
            num_channels: channel_count as usize,
            sample_rate,
            max_chunk: (buffer_length / 2) as usize,
        }
    }

    /// The bytes of one sample of each channel, if there are any and they are not too many.
    pub fn frame_size(&self) -> (size: Option<usize>)
        ensures
            size matches Some(size) ==> size == self.frame_len(),
            size is Some <==> self.has_frames(),
    {
        match self.num_channels.checked_mul(self.bytes_per_sample) {
            Some(size) => if size > 0 {
                Some(size)
            } else {
                None
            },
            None => None,
        }
    }
}

/// How far a buffer has been written.
#[derive(Debug, Clone, Copy, PartialEq, Eq, Structural)]
pub struct ChunkCursor {
    /// Samples per channel that are left.
    pub remaining: usize,
    /// Samples per channel that have been written.
    pub src_offset_samples: usize,
    /// The MXL timestamp of what is left.
    pub mxl_ts: u64,
}

impl ChunkCursor {
    /// The cursor stands in `src`, all of whose frames have been or will be written.
    pub open spec fn well_formed(&self, src: Seq<u8>, format: AudioFormat) -> bool {
        &&& format.has_frames()
        &&& self.src_offset_samples + self.remaining == src.len() / format.frame_len()
    }

    /// How many samples per channel are written next.
    pub open spec fn next_samples(&self, format: AudioFormat) -> nat {
        if self.remaining <= format.max_chunk {
            self.remaining as nat
        } else {
            format.max_chunk as nat
        }
    }

    /// The next chunk can be timed.
    pub open spec fn next_in_range(&self, format: AudioFormat) -> bool {
        let samples = self.next_samples(format);
        self.remaining > 0 ==> {
            &&& rate::duration_in_range(samples, format.sample_rate)
            &&& self.mxl_ts + rate::duration(samples, format.sample_rate) <= u64::MAX
        }
    }

    /// The cursor after the next chunk.
    pub open spec fn advanced(&self, format: AudioFormat) -> ChunkCursor {
        let samples = self.next_samples(format);
        ChunkCursor {
            remaining: (self.remaining - samples) as usize,
            src_offset_samples: (self.src_offset_samples + samples) as usize,
            mxl_ts: (self.mxl_ts + rate::duration(samples, format.sample_rate)) as u64,
        }
    }

    /// The bytes of the next chunk.
    pub open spec fn next_bytes(&self, src: Seq<u8>, format: AudioFormat) -> Seq<u8> {
        src.subrange(
            (self.src_offset_samples * format.frame_len()) as int,
            ((self.src_offset_samples + self.next_samples(format)) * format.frame_len()) as int,
        )
    }
}

/// A part of a buffer that is written at once.
pub struct AudioChunk<'a> {
    pub mxl_ts: u64,
    /// Samples per channel.
    pub samples: usize,
    pub bytes: &'a [u8],
}

/// Start to write the buffer `src`.
pub fn start_chunks(src: &[u8], format: &AudioFormat, mxl_ts: u64) -> (cursor: ChunkCursor)
    requires
        format.has_frames(),
    ensures
        cursor.well_formed(src@, *format),
        cursor.src_offset_samples == 0,
        cursor.mxl_ts == mxl_ts,
{
    let samples_per_buffer = src.len() / (format.num_channels * format.bytes_per_sample);
    ChunkCursor { remaining: samples_per_buffer, src_offset_samples: 0, mxl_ts }
}

/// Whether the next chunk can be timed.
pub fn next_chunk_fits(cursor: &ChunkCursor, format: &AudioFormat) -> (fits: bool)
    ensures
        fits == cursor.next_in_range(*format),
{
    if cursor.remaining == 0 {
        return true;
    }
    let samples = if cursor.remaining <= format.max_chunk {
        cursor.remaining
    } else {
        format.max_chunk
    };
    grains_to_ns_in_range(samples as u64, &format.sample_rate) && cursor.mxl_ts.checked_add(
        grains_to_ns(samples as u64, &format.sample_rate),
    ).is_some()
}

/// The bytes of a chunk.
pub fn compute_chunk(
    src: &[u8],
    bytes_per_sample: usize,
    num_channels: usize,
    src_offset_samples: usize,
    chunk_bytes: usize,
) -> (chunk: &[u8])
    requires
        src_offset_samples * num_channels <= usize::MAX,
        src_offset_samples * num_channels * bytes_per_sample + chunk_bytes <= src@.len(),
    ensures
        chunk@ == src@.subrange(
            src_offset_samples * num_channels * bytes_per_sample,
            src_offset_samples * num_channels * bytes_per_sample + chunk_bytes,
        ),
{
    let len = src.len();
    assert(src_offset_samples * num_channels * bytes_per_sample + chunk_bytes <= len);
    let start = src_offset_samples * num_channels * bytes_per_sample;
    vstd::slice::slice_subrange(src, start, start + chunk_bytes)
}

/// The next chunk of the buffer `src`, if any of it is left.
pub fn next_chunk<'a>(src: &'a [u8], format: &AudioFormat, cursor: &mut ChunkCursor) -> (chunk: Option<
    AudioChunk<'a>,
>)
    requires
        old(cursor).well_formed(src@, *format),
        old(cursor).next_in_range(*format),
    ensures
        final(cursor).well_formed(src@, *format),
        if old(cursor).remaining == 0 {
            &&& chunk is None
            &&& *final(cursor) == *old(cursor)
        } else {
            &&& chunk matches Some(chunk) && {
                &&& chunk.mxl_ts == old(cursor).mxl_ts
                &&& chunk.samples == old(cursor).next_samples(*format)
                &&& chunk.bytes@ == old(cursor).next_bytes(src@, *format)
            }
            &&& *final(cursor) == old(cursor).advanced(*format)
        },
{
    if cursor.remaining == 0 {
        return None;
    }
    let mxl_ts = cursor.mxl_ts;
    let samples = if cursor.remaining <= format.max_chunk {
        cursor.remaining
    } else {
        format.max_chunk
    };
    let src_len = src.len();
    proof {
        lemma_chunk_bytes(src_len as nat, *format, *cursor);
    }
    let chunk_bytes = samples * format.num_channels * format.bytes_per_sample;
    let bytes = compute_chunk(
        src,
        format.bytes_per_sample,
        format.num_channels,
        cursor.src_offset_samples,
        chunk_bytes,
    );
    cursor.mxl_ts = mxl_ts + grains_to_ns(samples as u64, &format.sample_rate);
    cursor.src_offset_samples = cursor.src_offset_samples + samples;
    cursor.remaining = cursor.remaining - samples;
    Some(AudioChunk { mxl_ts, samples, bytes })
}

/// The bytes of the next chunk are in the buffer.
proof fn lemma_chunk_bytes(src_len: nat, format: AudioFormat, cursor: ChunkCursor)
    requires
        src_len <= usize::MAX,
        format.has_frames(),
        cursor.src_offset_samples + cursor.remaining == src_len / format.frame_len(),
    ensures
        ({
            let start = cursor.src_offset_samples as nat;
            let samples = cursor.next_samples(format);
            let channels = format.num_channels as nat;
            let bps = format.bytes_per_sample as nat;
            &&& start * channels <= usize::MAX
            &&& start * channels * bps == start * format.frame_len()
            &&& samples * channels <= usize::MAX
            &&& samples * channels * bps == samples * format.frame_len()
            &&& (start + samples) * format.frame_len() == start * format.frame_len() + samples
                * format.frame_len()
            &&& (start + samples) * format.frame_len() <= src_len
        }),
{
    let start = cursor.src_offset_samples as nat;
    let samples = cursor.next_samples(format);
    let channels = format.num_channels as nat;
    let bps = format.bytes_per_sample as nat;
    let frame = format.frame_len();
    let total = src_len / frame;
    assert(start * channels * bps == start * (channels * bps)) by (nonlinear_arith);
    assert(samples * channels * bps == samples * (channels * bps)) by (nonlinear_arith);
    assert((start + samples) * frame == start * frame + samples * frame) by (nonlinear_arith);
    assert(total * frame <= src_len) by (nonlinear_arith)
        requires
            total == src_len / frame,
            frame > 0,
    ;
    assert((start + samples) * frame <= total * frame) by (nonlinear_arith)
        requires
            start + samples <= total,
    ;
    assert(bps >= 1) by (nonlinear_arith)
        requires
            channels * bps > 0,
    ;
    assert(start * channels <= start * channels * bps) by (nonlinear_arith)
        requires
            bps >= 1,
    ;
    assert(samples * channels <= samples * channels * bps) by (nonlinear_arith)
        requires
            bps >= 1,
    ;
}

} // verus!
