//! What holds of the audio source from one batch to the next, and of the sink and the source
//! together.
use crate::sink::audio as sink_audio;
use crate::sink::audio::Planes;
use crate::sink::audio_laws as sink_laws;
use crate::source::audio;
use crate::source::audio::{AudioState, FlowInfo, SamplesData};
use vstd::prelude::*;

verus! {

/// A reader is set once, to where a whole batch has been written, if one has.
pub proof fn reader_starts_behind_head(state: AudioState, batch: u64, head: u64, later: u64)
    requires
        !state.is_initialized,
    ensures
        ({
            let set = audio::initialized(state, batch, head);
            &&& head >= batch ==> set.index + batch == head
            &&& audio::initialized(set, batch, later) == set
        }),
{
}

/// A batch is never more than half the ring.
pub proof fn batch_fits_ring(info: FlowInfo)
    ensures
        2 * audio::batch_of(info) <= info.buffer_length,
        audio::batch_of(info) <= info.max_commit_batch_size_hint,
        audio::batch_of(info) <= audio::DEFAULT_BATCH_SIZE,
{
}

/// A reader that has caught up has a whole batch before it, if one has been written. In a ring of
/// three batches or more it is not late, and does not become late until the producer has gone on by
/// the rest of the ring.
pub proof fn caught_up_reader_has_headroom(
    state: AudioState,
    head: u64,
    batch: u64,
    ring: u64,
    later_head: u64,
)
    requires
        state.index < audio::oldest_valid(head, batch, ring),
        3 * batch <= ring,
        later_head <= head + (ring - 3 * batch),
    ensures
        ({
            let ready = audio::located(state, head, batch, ring);
            &&& head >= batch ==> ready.index + batch <= head
            &&& ready.index >= audio::oldest_valid(head, batch, ring)
            &&& ready.index >= audio::oldest_valid(later_head, batch, ring)
        }),
{
}

/// A reader that is not late stays where it is; one that is owes a mark, keeps owing it while
/// batches are passed over, and has paid it once a buffer was made.
pub proof fn gap_is_marked(
    state: AudioState,
    head: u64,
    batch: u64,
    ring: u64,
    pts: u64,
)
    ensures
        ({
            let ready = audio::located(state, head, batch, ring);
            &&& state.index >= audio::oldest_valid(head, batch, ring) ==> ready == state
            &&& state.index < audio::oldest_valid(head, batch, ring) ==> ready.next_discont
            &&& audio::received(ready, batch, None).next_discont == ready.next_discont
            &&& !audio::received(ready, batch, Some(pts)).next_discont
        }),
{
}

/// Whether a batch is passed over or made into a buffer, the reader goes on by one batch: readers of
/// one flow stay aligned.
pub proof fn readers_stay_aligned(state: AudioState, batch: u64, pts: u64)
    ensures
        audio::received(state, batch, None).index == audio::advanced(
            audio::received(state, batch, Some(pts)),
            batch,
        ).index,
{
}

/// Channels of `len` bytes each, together.
proof fn lemma_even_channel_bytes(channels: Seq<Seq<u8>>, len: nat)
    requires
        forall|ch: int| 0 <= ch < channels.len() ==> (#[trigger] channels[ch]).len() == len,
    ensures
        audio::channel_bytes(channels) == channels.len() * len,
    decreases channels.len(),
{
    if channels.len() > 0 {
        lemma_even_channel_bytes(channels.drop_last(), len);
        assert(channels.len() * len == (channels.len() - 1) * len + len) by (nonlinear_arith)
            requires
                channels.len() > 0,
        ;
    }
}

/// Channels with as many whole samples each fill the buffer that is made for them.
pub proof fn even_channels_fill_buffer(channels: Seq<Seq<u8>>, samples: nat)
    requires
        forall|ch: int|
            0 <= ch < channels.len() ==> (#[trigger] channels[ch]).len() == samples
                * audio::SAMPLE_SIZE,
    ensures
        audio::has_frames(channels),
        audio::interleaved(channels).len() == audio::channel_bytes(channels),
{
    let len = samples * 4;
    lemma_even_channel_bytes(channels, len);
    if channels.len() > 0 {
        assert(channels.last().len() == len);
        assert(samples * (channels.len() * 4) == channels.len() * (samples * 4))
            by (nonlinear_arith);
    }
}

/// Interleaved audio that is written to a ring and read from it again comes back as it was, however
/// the ring is cut into planes between whole samples.
pub proof fn audio_survives_ring(src: Seq<u8>, num_channels: nat, samples: nat, rings: Seq<Planes>)
    requires
        num_channels > 0,
        rings.len() == num_channels,
        src.len() == samples * (num_channels * 4),
        forall|ch: int|
            0 <= ch < num_channels ==> {
                &&& (#[trigger] rings[ch]).plane1.len() % 4 == 0
                &&& rings[ch].plane1.len() + rings[ch].plane2.len() == samples * 4
            },
    ensures
        audio::interleaved(
            Seq::new(
                num_channels,
                |ch: int|
                    sink_laws::joined(
                        sink_audio::put_samples(
                            rings[ch],
                            4,
                            num_channels,
                            ch as nat,
                            samples,
                            src,
                        ),
                    ),
            ),
        ) == src,
{
    let channels = Seq::new(
        num_channels,
        |ch: int|
            sink_laws::joined(
                sink_audio::put_samples(rings[ch], 4, num_channels, ch as nat, samples, src),
            ),
    );
    let frame_len = (num_channels * 4) as int;
    assert forall|ch: int| 0 <= ch < num_channels implies (#[trigger] channels[ch]).len() == samples
        * 4 && forall|k: int|
        0 <= k < samples * 4 ==> #[trigger] channels[ch][k] == src[k / 4 * frame_len + ch * 4 + k
            % 4] by {
        sink_laws::lemma_enough_samples(4, num_channels, ch as nat, samples, src);
        sink_laws::samples_land_in_order(rings[ch], 4, num_channels, ch as nat, samples, src);
    }
    let out = audio::interleaved(channels);
    assert(channels.last().len() == samples * 4);
    assert(out.len() == src.len());
    assert forall|k: int| 0 <= k < out.len() implies out[k] == src[k] by {
        let frame = k / frame_len;
        let within = k % frame_len;
        let ch = within / 4;
        let byte = within % 4;
        vstd::arithmetic::div_mod::lemma_fundamental_div_mod(k, frame_len);
        assert(0 <= frame < samples) by (nonlinear_arith)
            requires
                0 <= k < samples * frame_len,
                frame == k / frame_len,
                frame_len > 0,
        ;
        assert(0 <= ch < num_channels);
        assert(out[k] == channels[ch][frame * 4 + byte]);
        assert(frame_len * frame == frame * frame_len) by (nonlinear_arith);
    }
    assert(out =~= src);
}

/// A batch is as large as its three bounds allow: 48 samples, half the ring, and what the producer
/// commits at once.
pub proof fn batch_is_as_large_as_allowed(info: FlowInfo, size: u32)
    requires
        size <= 48,
        2 * size <= info.buffer_length,
        size <= info.max_commit_batch_size_hint,
    ensures
        size <= audio::batch_of(info),
        audio::batch_of(info) <= 48,
        2 * audio::batch_of(info) <= info.buffer_length,
        audio::batch_of(info) <= info.max_commit_batch_size_hint,
{
}

/// A sample is too old as the first of a batch exactly if the ring does not hold it any more with
/// one batch to spare; and a reader goes on two batches before the head, or at the start.
pub proof fn ring_holds_what_is_valid(head: u64, batch: u64, ring: u64, index: u64)
    ensures
        batch <= ring ==> (index < audio::oldest_valid(head, batch, ring) <==> index + ring < head
            + batch),
        batch > ring ==> audio::oldest_valid(head, batch, ring) == head,
        audio::oldest_valid(head, batch, ring) <= head,
        head >= 2 * batch ==> audio::cushion_index(head, batch) + 2 * batch == head,
        head < 2 * batch ==> audio::cushion_index(head, batch) == 0,
{
}

/// A reader that has no index gets the one a batch before the head, or the start; any other keeps
/// its own. Nothing else changes.
pub proof fn reader_is_set_from_head(state: AudioState, batch: u64, head: u64)
    ensures
        ({
            let set = audio::initialized(state, batch, head);
            &&& state.is_initialized ==> set == state
            &&& !state.is_initialized && head >= batch ==> set.index + batch == head
            &&& !state.is_initialized && head < batch ==> set.index == 0
            &&& set.is_initialized
            &&& set.next_discont == state.next_discont
        }),
{
}

/// A reader moves before a read exactly if what it wants has gone from the ring; then it goes to two
/// batches before the head, or the start, and owes a mark. Nothing else changes.
pub proof fn late_reader_jumps(state: AudioState, head: u64, batch: u64, ring: u64)
    ensures
        ({
            let jumped = audio::caught_up(state, head, batch, ring);
            let ready = audio::located(state, head, batch, ring);
            let late = if batch <= ring {
                state.index + ring < head + batch
            } else {
                state.index < head
            };
            &&& !late ==> jumped == state && ready == state
            &&& late ==> {
                &&& head >= 2 * batch ==> jumped.index + 2 * batch == head
                &&& head < 2 * batch ==> jumped.index == 0
                &&& ready.index == jumped.index
                &&& jumped.next_discont == state.next_discont
                &&& ready.next_discont
                &&& jumped.is_initialized == state.is_initialized
                &&& ready.is_initialized == state.is_initialized
            }
        }),
{
}

/// A batch that was read takes the reader on by the samples that it holds, whether it was passed
/// over or made into a buffer, and not before.
pub proof fn reader_goes_on_by_a_batch(state: AudioState, batch: u64, pts: u64)
    requires
        state.index + batch <= u64::MAX,
    ensures
        ({
            let made = audio::received(state, batch, Some(pts));
            let passed = audio::received(state, batch, None);
            &&& made.index == state.index
            &&& audio::advanced(made, batch).index == state.index + batch
            &&& passed.index == state.index + batch
            &&& made.next_discont == false
            &&& audio::advanced(made, batch).next_discont == false
            &&& passed.next_discont == state.next_discont
            &&& made.is_initialized == state.is_initialized
            &&& audio::advanced(made, batch).is_initialized == state.is_initialized
            &&& passed.is_initialized == state.is_initialized
        }),
{
}

/// The reader after batches, each of which was made into a buffer if `made` says so and else passed
/// over.
pub open spec fn after_batches(state: AudioState, batch: u64, made: Seq<bool>) -> AudioState
    decreases made.len(),
{
    if made.len() == 0 {
        state
    } else {
        let before = after_batches(state, batch, made.drop_last());
        if made.last() {
            audio::advanced(audio::received(before, batch, Some(0)), batch)
        } else {
            audio::received(before, batch, None)
        }
    }
}

/// Batches follow one another without repeat or gap: each starts where the one before it ended,
/// whichever of them were passed over.
pub proof fn batches_follow_on(state: AudioState, batch: u64, made: Seq<bool>)
    requires
        state.index + made.len() * batch <= u64::MAX,
    ensures
        after_batches(state, batch, made).index == state.index + made.len() * batch,
    decreases made.len(),
{
    if made.len() > 0 {
        assert(made.len() * batch == (made.len() - 1) * batch + batch) by (nonlinear_arith)
            requires
                made.len() > 0,
        ;
        batches_follow_on(state, batch, made.drop_last());
        let before = after_batches(state, batch, made.drop_last());
        reader_goes_on_by_a_batch(before, batch, 0);
    }
}

/// A reader reads as soon as the whole batch is there, gives up only when it is not and more than a
/// tenth of a second has gone, and otherwise asks again.
pub proof fn reader_waits_for_batch(
    state: AudioState,
    head: u64,
    batch: u64,
    elapsed: u128,
    later_head: u64,
)
    ensures
        ({
            let step = audio::wait_step(state, head, batch, elapsed);
            &&& step is Ready <==> state.index + batch <= head
            &&& step is TimedOut <==> state.index + batch > head && elapsed > 100_000_000
            &&& step is Poll <==> state.index + batch > head && elapsed <= 100_000_000
            &&& step is Ready && later_head >= head ==> audio::wait_step(
                state,
                later_head,
                batch,
                elapsed,
            ) is Ready
        }),
{
}

/// Each byte of each sample of each channel has one place among the interleaved ones, and no other
/// bytes are there: samples of four bytes, one of each channel after the other, as many of each as
/// the last channel has.
pub proof fn samples_are_interleaved(
    channels: Seq<Seq<u8>>,
    frame: int,
    ch: int,
    byte: int,
)
    requires
        0 <= ch < channels.len(),
        0 <= byte < 4,
        0 <= frame < channels[channels.len() - 1].len() as int / 4,
    ensures
        audio::interleaved(channels).len() == channels[channels.len() - 1].len() as int / 4 * (
        channels.len() * 4),
        0 <= (frame * channels.len() + ch) * 4 + byte < audio::interleaved(channels).len(),
        audio::interleaved(channels)[(frame * channels.len() + ch) * 4 + byte]
            == channels[ch][frame * 4 + byte],
{
    let n = channels.len() as int;
    let len = n * 4;
    let count = channels[n - 1].len() as int / 4;
    let k = (frame * n + ch) * 4 + byte;
    let within = ch * 4 + byte;
    assert(k == frame * len + within) by (nonlinear_arith)
        requires
            k == (frame * n + ch) * 4 + byte,
            len == n * 4,
            within == ch * 4 + byte,
    ;
    vstd::arithmetic::div_mod::lemma_fundamental_div_mod_converse(k, len, frame, within);
    assert(frame * len + len == (frame + 1) * len) by (nonlinear_arith);
    assert((frame + 1) * len <= count * len) by (nonlinear_arith)
        requires
            frame + 1 <= count,
            len >= 0,
    ;
    assert(frame * len >= 0) by (nonlinear_arith)
        requires
            frame >= 0,
            len >= 0,
    ;
    assert(within / 4 == ch && within % 4 == byte);
}

/// No channels make no bytes, and a batch can be interleaved exactly if every channel has as many
/// whole samples as the last.
pub proof fn interleaving_is_possible(channels: Seq<Seq<u8>>)
    ensures
        channels.len() == 0 ==> audio::interleaved(channels).len() == 0 && audio::has_frames(channels),
        channels.len() > 0 ==> audio::interleaved(channels).len() == channels[channels.len()
            - 1].len() as int / 4 * (channels.len() * 4),
        channels.len() > 0 ==> (audio::has_frames(channels) <==> forall|ch: int|
            0 <= ch < channels.len() ==> channels[channels.len() - 1].len() as int / 4 <= (
            #[trigger] channels[ch]).len() as int / 4),
{
    if channels.len() > 0 {
        let count = channels[channels.len() - 1].len() as int / 4;
        assert(audio::frame_count(channels) == count);
        assert forall|ch: int| 0 <= ch < channels.len() implies (count * 4 <= (
        #[trigger] channels[ch]).len() <==> count <= channels[ch].len() as int / 4) by {}
    }
}

/// The bytes of channels are the bytes of each, added up.
pub proof fn channel_bytes_add_up(channels: Seq<Seq<u8>>, channel: Seq<u8>)
    ensures
        audio::channel_bytes(Seq::empty()) == 0,
        audio::channel_bytes(channels.push(channel)) == audio::channel_bytes(channels)
            + channel.len(),
{
    assert(channels.push(channel).drop_last() =~= channels);
}

/// What is said of a batch is said of its channels, each of which is its first part and then its
/// second.
pub proof fn batch_is_its_channels(samples: SamplesData, ch: int)
    requires
        0 <= ch < samples.channels@.len(),
    ensures
        samples@.len() == samples.channels@.len(),
        samples@[ch] == samples.channels@[ch].data1@ + samples.channels@[ch].data2@,
{
}

} // verus!
