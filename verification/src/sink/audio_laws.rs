//! What holds of the chunks of an audio buffer and of what is written of them.
use crate::rate;
use crate::sink::audio;
use crate::sink::audio::{AudioFormat, ChannelPlanes, ChunkCursor, Planes};
use vstd::prelude::*;

verus! {

/// The two planes of a channel in one.
pub open spec fn joined(planes: Planes) -> Seq<u8> {
    planes.plane1 + planes.plane2
}

/// All samples are in `src` if `src` holds that many frames.
pub proof fn lemma_enough_samples(bps: nat, channels: nat, ch: nat, count: nat, src: Seq<u8>)
    requires
        ch < channels,
        count * (channels * bps) <= src.len(),
    ensures
        forall|i: nat|
            i < count ==> #[trigger] audio::sample_offset(bps, channels, ch, i) + bps <= src.len(),
{
    assert forall|i: nat| i < count implies #[trigger] audio::sample_offset(bps, channels, ch, i)
        + bps <= src.len() by {
        assert(i * (channels * bps) + channels * bps <= count * (channels * bps))
            by (nonlinear_arith)
            requires
                i + 1 <= count,
        ;
        assert(ch * bps + bps <= channels * bps) by (nonlinear_arith)
            requires
                ch + 1 <= channels,
        ;
    }
}

/// Writing a sample between whole samples puts it at its place in the two planes taken as one.
proof fn lemma_put_aligned(planes: Planes, bps: nat, i: nat, sample: Seq<u8>)
    requires
        bps > 0,
        sample.len() == bps,
        planes.plane1.len() % bps == 0,
        (i + 1) * bps <= joined(planes).len(),
    ensures
        ({
            let after = audio::put_sample(planes, (i * bps) as int, sample);
            &&& after.plane1.len() == planes.plane1.len()
            &&& after.plane2.len() == planes.plane2.len()
            &&& joined(after) == audio::splice(joined(planes), (i * bps) as int, sample)
        }),
{
    let at = (i * bps) as int;
    let len = planes.plane1.len() as int;
    let after = audio::put_sample(planes, at, sample);
    assert((i + 1) * bps == at + bps) by (nonlinear_arith)
        requires
            at == i * bps,
    ;
    assert(at + bps <= len || at >= len) by {
        let slots = len / bps as int;
        vstd::arithmetic::div_mod::lemma_fundamental_div_mod(len, bps as int);
        if i < slots {
            assert((i + 1) * bps <= slots * bps) by (nonlinear_arith)
                requires
                    i + 1 <= slots,
            ;
            assert(bps * slots == slots * bps) by (nonlinear_arith);
        } else {
            assert(slots * bps <= i * bps) by (nonlinear_arith)
                requires
                    slots <= i,
            ;
            assert(bps * slots == slots * bps) by (nonlinear_arith);
        }
    }
    assert(joined(after) =~= audio::splice(joined(planes), at, sample));
}

/// Where the planes are cut between whole samples, and there is room for all that `src` holds, the
/// samples of a channel follow one another in the two planes taken as one, and what is behind them
/// stays.
pub proof fn samples_land_in_order(
    planes: Planes,
    bps: nat,
    channels: nat,
    ch: nat,
    count: nat,
    src: Seq<u8>,
)
    requires
        bps > 0,
        planes.plane1.len() % bps == 0,
        count * bps <= joined(planes).len(),
        forall|i: nat|
            i < count ==> #[trigger] audio::sample_offset(bps, channels, ch, i) + bps <= src.len(),
    ensures
        ({
            let after = audio::put_samples(planes, bps, channels, ch, count, src);
            &&& after.plane1.len() == planes.plane1.len()
            &&& after.plane2.len() == planes.plane2.len()
            &&& joined(after) == Seq::new(
                joined(planes).len(),
                |k: int|
                    if k < count * bps {
                        src[audio::sample_offset(bps, channels, ch, (k / bps as int) as nat) + k
                            % bps as int]
                    } else {
                        joined(planes)[k]
                    },
            )
        }),
    decreases count,
{
    let after = audio::put_samples(planes, bps, channels, ch, count, src);
    let goal = Seq::new(
        joined(planes).len(),
        |k: int|
            if k < count * bps {
                src[audio::sample_offset(bps, channels, ch, (k / bps as int) as nat) + k
                    % bps as int]
            } else {
                joined(planes)[k]
            },
    );
    if count == 0 {
        assert(joined(after) =~= goal);
    } else {
        let i = (count - 1) as nat;
        assert(i * bps + bps == count * bps) by (nonlinear_arith)
            requires
                i + 1 == count,
        ;
        samples_land_in_order(planes, bps, channels, ch, i, src);
        let before = audio::put_samples(planes, bps, channels, ch, i, src);
        let from = audio::sample_offset(bps, channels, ch, i) as int;
        let sample = src.subrange(from, from + bps);
        lemma_put_aligned(before, bps, i, sample);
        let at = (i * bps) as int;
        assert forall|k: int| 0 <= k < goal.len() implies joined(after)[k] == goal[k] by {
            if at <= k < at + bps {
                vstd::arithmetic::div_mod::lemma_fundamental_div_mod_converse(
                    k,
                    bps as int,
                    i as int,
                    k - at,
                );
            }
        }
        assert(joined(after) =~= goal);
    }
}

/// The chunks of a buffer from `cursor` on.
pub open spec fn chunks_from(src: Seq<u8>, format: AudioFormat, cursor: ChunkCursor) -> Seq<Seq<u8>>
    decreases cursor.remaining,
{
    if cursor.remaining == 0 || format.max_chunk == 0 {
        Seq::empty()
    } else {
        seq![cursor.next_bytes(src, format)] + chunks_from(src, format, cursor.advanced(format))
    }
}

/// The chunks of a buffer, put together, are all its whole frames, and none is empty or longer than
/// may be written at once.
pub proof fn chunks_cover_buffer(src: Seq<u8>, format: AudioFormat, cursor: ChunkCursor)
    requires
        cursor.well_formed(src, format),
        format.max_chunk > 0,
        src.len() <= usize::MAX,
    ensures
        chunks_from(src, format, cursor).flatten() == src.subrange(
            (cursor.src_offset_samples * format.frame_len()) as int,
            (src.len() / format.frame_len() * format.frame_len()) as int,
        ),
        forall|i: int|
            0 <= i < chunks_from(src, format, cursor).len() ==> 0 < (
            #[trigger] chunks_from(src, format, cursor)[i]).len() <= format.max_chunk
                * format.frame_len(),
    decreases cursor.remaining,
{
    let frame = format.frame_len();
    let total = src.len() / frame;
    let start = cursor.src_offset_samples as nat;
    assert(total * frame <= src.len()) by (nonlinear_arith)
        requires
            total == src.len() / frame,
            frame > 0,
    ;
    assert(total <= total * frame) by (nonlinear_arith)
        requires
            frame > 0,
    ;
    if cursor.remaining == 0 {
        assert(Seq::<Seq<u8>>::empty().flatten() =~= Seq::empty());
        assert(src.subrange((start * frame) as int, (total * frame) as int) =~= Seq::empty());
    } else {
        let samples = cursor.next_samples(format);
        let next = cursor.advanced(format);
        let bytes = cursor.next_bytes(src, format);
        let rest = chunks_from(src, format, next);
        chunks_cover_buffer(src, format, next);
        assert((start + samples) * frame == start * frame + samples * frame) by (nonlinear_arith);
        assert((start + samples) * frame <= total * frame) by (nonlinear_arith)
            requires
                start + samples <= total,
        ;
        assert(0 < samples * frame <= format.max_chunk * frame) by (nonlinear_arith)
            requires
                0 < samples <= format.max_chunk,
                frame > 0,
        ;
        let all = chunks_from(src, format, cursor);
        assert(all =~= seq![bytes] + rest);
        assert(all.first() == bytes);
        assert(all.drop_first() =~= rest);
        assert(all.flatten() == bytes + rest.flatten());
        assert(bytes + rest.flatten() =~= src.subrange(
            (start * frame) as int,
            (total * frame) as int,
        ));
        assert forall|i: int| 0 <= i < all.len() implies 0 < (#[trigger] all[i]).len()
            <= format.max_chunk * frame by {
            if i > 0 {
                assert(all[i] == rest[i - 1]);
            }
        }
    }
}

/// The cursor after `count` chunks.
pub open spec fn after_chunks(cursor: ChunkCursor, format: AudioFormat, count: nat) -> ChunkCursor
    decreases count,
{
    if count == 0 {
        cursor
    } else {
        after_chunks(cursor, format, (count - 1) as nat).advanced(format)
    }
}

/// Each chunk is timed by the samples before it, but for a nanosecond per chunk that rounding may
/// lose: consecutive chunks have the timestamps of consecutive samples.
pub proof fn chunks_are_timed_by_samples(cursor: ChunkCursor, format: AudioFormat, count: nat)
    requires
        format.sample_rate.numerator > 0,
        cursor.src_offset_samples + cursor.remaining <= usize::MAX,
        cursor.mxl_ts + rate::whole_ns(cursor.remaining as nat, format.sample_rate) <= u64::MAX,
    ensures
        ({
            let later = after_chunks(cursor, format, count);
            let samples = (later.src_offset_samples - cursor.src_offset_samples) as nat;
            let due = cursor.mxl_ts + rate::whole_ns(samples, format.sample_rate);
            &&& cursor.src_offset_samples <= later.src_offset_samples
            &&& later.src_offset_samples + later.remaining == cursor.src_offset_samples
                + cursor.remaining
            &&& later.mxl_ts <= due <= later.mxl_ts + count
        }),
    decreases count,
{
    let sample_rate = format.sample_rate;
    if count == 0 {
        assert(0 * rate::NS_PER_SECOND as nat * rate::part(sample_rate.denominator) == 0)
            by (nonlinear_arith);
    } else {
        let before = after_chunks(cursor, format, (count - 1) as nat);
        chunks_are_timed_by_samples(cursor, format, (count - 1) as nat);
        let done = (before.src_offset_samples - cursor.src_offset_samples) as nat;
        let next = before.next_samples(format);
        rate::durations_add_up(done, next, sample_rate);
        rate::durations_add_up(
            done + next,
            (cursor.remaining - done - next) as nat,
            sample_rate,
        );
    }
}

/// A sample that fits the first plane at its place goes there, byte for byte. One that does not goes
/// to the second, at its distance from the end of the first, or at the front if it starts before
/// that end. One that fits neither goes nowhere. No other byte changes.
pub proof fn sample_goes_to_its_plane(planes: Planes, at: int, sample: Seq<u8>)
    requires
        0 <= at,
    ensures
        ({
            let after = audio::put_sample(planes, at, sample);
            let n = sample.len() as int;
            let len1 = planes.plane1.len() as int;
            let len2 = planes.plane2.len() as int;
            let front = at < len1 && at + n > len1;
            let place = if front {
                0
            } else {
                at - len1
            };
            let in_first = at + n <= len1;
            let in_second = !in_first && at < len1 + len2 && place + n <= len2;
            &&& after.plane1.len() == len1
            &&& after.plane2.len() == len2
            &&& forall|k: int|
                0 <= k < len1 ==> #[trigger] after.plane1[k] == if in_first && at <= k < at + n {
                    sample[k - at]
                } else {
                    planes.plane1[k]
                }
            &&& forall|k: int|
                0 <= k < len2 ==> #[trigger] after.plane2[k] == if in_second && place <= k < place
                    + n {
                    sample[k - place]
                } else {
                    planes.plane2[k]
                }
        }),
{
}

/// Sample `i` of a channel is one of the first `count`, and all of it is in `src`.
pub open spec fn is_there(bps: int, channels: int, ch: int, count: int, src: Seq<u8>, i: int) -> bool {
    0 <= i < count && i * (channels * bps) + ch * bps + bps <= src.len()
}

/// A byte of sample `i` of a channel, where the samples of all channels take turns.
pub open spec fn byte_of(bps: int, channels: int, ch: int, src: Seq<u8>, i: int, j: int) -> u8 {
    src[i * (channels * bps) + ch * bps + j]
}

/// Byte `k` of the first plane: that of the sample which stands there, if it is there and ends in
/// this plane.
pub open spec fn first_plane_byte(
    planes: Planes,
    bps: int,
    channels: int,
    ch: int,
    count: int,
    src: Seq<u8>,
    k: int,
) -> u8 {
    let i = k / bps;
    if is_there(bps, channels, ch, count, src, i) && i * bps + bps <= planes.plane1.len() {
        byte_of(bps, channels, ch, src, i, k % bps)
    } else {
        planes.plane1[k]
    }
}

/// Byte `k` of the second plane: that of the sample which stands there, if it is there and starts and
/// ends in this plane; else that of the sample which crosses the end of the first plane, if there is
/// one and it has room at the front.
pub open spec fn second_plane_byte(
    planes: Planes,
    bps: int,
    channels: int,
    ch: int,
    count: int,
    src: Seq<u8>,
    k: int,
) -> u8 {
    let len1 = planes.plane1.len() as int;
    let len2 = planes.plane2.len() as int;
    let i = (len1 + k) / bps;
    let crossing = len1 / bps;
    if is_there(bps, channels, ch, count, src, i) && i * bps >= len1 && i * bps + bps <= len1 + len2 {
        byte_of(bps, channels, ch, src, i, (len1 + k) % bps)
    } else if len1 % bps != 0 && k < bps <= len2 && is_there(
        bps,
        channels,
        ch,
        count,
        src,
        crossing,
    ) {
        byte_of(bps, channels, ch, src, crossing, k)
    } else {
        planes.plane2[k]
    }
}

/// Which slot of `bps` bytes a place is in.
proof fn lemma_slot(bps: int, i: int, k: int)
    requires
        bps > 0,
    ensures
        i * bps <= k < i * bps + bps <==> k / bps == i,
        i * bps <= k < i * bps + bps ==> k % bps == k - i * bps,
{
    vstd::arithmetic::div_mod::lemma_fundamental_div_mod(k, bps);
    let q = k / bps;
    assert(bps * q == q * bps) by (nonlinear_arith);
    if i * bps <= k < i * bps + bps {
        vstd::arithmetic::div_mod::lemma_fundamental_div_mod_converse(k, bps, i, k - i * bps);
    }
}

/// What all the samples of a channel make of its planes, byte by byte, wherever the planes are cut
/// and however much room there is.
pub proof fn samples_are_written(
    planes: Planes,
    bps: nat,
    channels: nat,
    ch: nat,
    count: nat,
    src: Seq<u8>,
)
    requires
        bps > 0,
    ensures
        ({
            let after = audio::put_samples(planes, bps, channels, ch, count, src);
            &&& after.plane1.len() == planes.plane1.len()
            &&& after.plane2.len() == planes.plane2.len()
            &&& forall|k: int|
                0 <= k < planes.plane1.len() ==> #[trigger] after.plane1[k] == first_plane_byte(
                    planes,
                    bps as int,
                    channels as int,
                    ch as int,
                    count as int,
                    src,
                    k,
                )
            &&& forall|k: int|
                0 <= k < planes.plane2.len() ==> #[trigger] after.plane2[k] == second_plane_byte(
                    planes,
                    bps as int,
                    channels as int,
                    ch as int,
                    count as int,
                    src,
                    k,
                )
        }),
    decreases count,
{
    let b = bps as int;
    let c = channels as int;
    let h = ch as int;
    let n = count as int;
    let len1 = planes.plane1.len() as int;
    let len2 = planes.plane2.len() as int;
    let after = audio::put_samples(planes, bps, channels, ch, count, src);
    if count > 0 {
        let i = n - 1;
        samples_are_written(planes, bps, channels, ch, i as nat, src);
        let before = audio::put_samples(planes, bps, channels, ch, i as nat, src);
        let from = i * (c * b) + h * b;
        let at = i * b;
        assert(from >= 0 && at >= 0) by (nonlinear_arith)
            requires
                from == i * (c * b) + h * b,
                at == i * b,
                i >= 0,
                c >= 0,
                h >= 0,
                b >= 0,
        ;
        assert(audio::sample_offset(bps, channels, ch, i as nat) == from);
        if from + b <= src.len() {
            let sample = src.subrange(from, from + b);
            sample_goes_to_its_plane(before, at, sample);
            assert forall|k: int| 0 <= k < len1 implies #[trigger] after.plane1[k]
                == first_plane_byte(planes, b, c, h, n, src, k) by {
                lemma_slot(b, i, k);
            }
            assert forall|k: int| 0 <= k < len2 implies #[trigger] after.plane2[k]
                == second_plane_byte(planes, b, c, h, n, src, k) by {
                lemma_slot(b, i, len1 + k);
                lemma_slot(b, len1 / b, len1);
                lemma_slot(b, i, len1);
                lemma_slot(b, (len1 + k) / b, len1 + k);
                lemma_crossing(b, len1, i);
                assert(before.plane2[k] == second_plane_byte(planes, b, c, h, i, src, k));
                let slot = (len1 + k) / b;
                let crossing = len1 / b;
                assert forall|x: int| x != i implies is_there(b, c, h, n, src, x) == is_there(
                    b,
                    c,
                    h,
                    i,
                    src,
                    x,
                ) by {}
                assert(is_there(b, c, h, n, src, i));
                assert(!is_there(b, c, h, i, src, i));
                if at + b <= len1 {
                    assert(crossing != i || len1 % b == 0);
                    assert(after.plane2[k] == before.plane2[k]);
                    if slot == i {
                        assert(false);
                    }
                } else if at < len1 {
                    assert(crossing == i && len1 % b != 0);
                    if slot != i {
                        assert(slot > i) by {
                            if slot < i {
                                assert(slot * b + b <= i * b) by (nonlinear_arith)
                                    requires
                                        slot + 1 <= i,
                                        b > 0,
                                ;
                            }
                        }
                    }
                    assert(!is_there(b, c, h, n, src, slot) || slot == i);
                } else {
                    assert(crossing != i || len1 % b == 0);
                }
            }
        }
    }
}

/// The sample that crosses the end of the first plane is the one whose slot that end is in.
proof fn lemma_crossing(bps: int, len: int, i: int)
    requires
        bps > 0,
        0 <= len,
        0 <= i,
    ensures
        i * bps < len < i * bps + bps ==> i == len / bps && len % bps != 0,
        i == len / bps && len % bps != 0 ==> i * bps < len < i * bps + bps,
{
    lemma_slot(bps, i, len);
    vstd::arithmetic::div_mod::lemma_fundamental_div_mod(len, bps);
    let q = len / bps;
    assert(bps * q == q * bps) by (nonlinear_arith);
}

/// Samples of no bytes change nothing.
pub proof fn empty_samples_change_nothing(planes: Planes, channels: nat, ch: nat, count: nat, src: Seq<u8>)
    ensures
        audio::put_samples(planes, 0, channels, ch, count, src) == planes,
    decreases count,
{
    if count > 0 {
        let i = (count - 1) as nat;
        empty_samples_change_nothing(planes, channels, ch, i, src);
        assert(i * 0 == 0);
        let from = audio::sample_offset(0, channels, ch, i) as int;
        if from <= src.len() {
            let none = src.subrange(from, from);
            assert(audio::splice(planes.plane1, 0, none) =~= planes.plane1);
        }
    }
}

/// The next chunk: as many samples as are left, up to what may be written at once; their bytes, which
/// are all those of as many frames; and a cursor that stands behind them, later by as long as they
/// last.
pub proof fn chunk_is_next(cursor: ChunkCursor, format: AudioFormat, src: Seq<u8>)
    requires
        cursor.src_offset_samples + cursor.remaining <= usize::MAX,
    ensures
        ({
            let frame = format.num_channels * format.bytes_per_sample;
            let samples = cursor.next_samples(format) as int;
            let next = cursor.advanced(format);
            let start = cursor.src_offset_samples as int;
            &&& samples <= cursor.remaining && samples <= format.max_chunk
            &&& samples == cursor.remaining || samples == format.max_chunk
            &&& next.remaining == cursor.remaining - samples
            &&& next.src_offset_samples == start + samples
            &&& cursor.mxl_ts + rate::duration(samples as nat, format.sample_rate) <= u64::MAX
                ==> next.mxl_ts == cursor.mxl_ts + rate::duration(samples as nat, format.sample_rate)
            &&& cursor.next_bytes(src, format) == src.subrange(
                start * frame,
                (start + samples) * frame,
            )
            &&& cursor.next_in_range(format) <==> (cursor.remaining == 0 || (
            rate::duration_in_range(samples as nat, format.sample_rate) && cursor.mxl_ts
                + rate::duration(samples as nat, format.sample_rate) <= u64::MAX))
            &&& cursor.well_formed(src, format) <==> 0 < frame <= usize::MAX && start
                + cursor.remaining == src.len() / frame as nat
            &&& format.has_frames() <==> 0 < frame <= usize::MAX
            &&& format.frame_len() == frame
        }),
{
    let frame = format.num_channels * format.bytes_per_sample;
    assert(frame >= 0) by (nonlinear_arith)
        requires
            frame == format.num_channels * format.bytes_per_sample,
    ;
    let start = cursor.src_offset_samples as nat;
    let samples = cursor.next_samples(format);
    assert(start * format.frame_len() >= 0) by (nonlinear_arith);
    assert((start + samples) * format.frame_len() >= 0) by (nonlinear_arith);
}

/// Offsets can be computed exactly if a frame behind the end of `src` and both planes together can be
/// counted, and, for samples of no bytes, all of them.
pub proof fn offsets_are_computed_in_range(
    bps: nat,
    channels: nat,
    count: nat,
    src_len: nat,
    planes: Planes,
)
    ensures
        audio::offsets_in_range(bps, channels, count, src_len, planes) <==> src_len + channels * bps
            <= usize::MAX && planes.plane1.len() + planes.plane2.len() <= usize::MAX && (bps == 0
            ==> count * channels <= usize::MAX),
{
}

/// What is said of the planes of a channel is said of their bytes; and a chunk can be written exactly
/// if each of its channels that is there can be.
pub proof fn planes_are_their_bytes(
    planes: ChannelPlanes,
    bps: nat,
    num_channels: nat,
    count: nat,
    src_len: nat,
    channels: Seq<ChannelPlanes>,
)
    ensures
        planes@.plane1 == planes.plane1@,
        planes@.plane2 == planes.plane2@,
        audio::chunk_in_range(bps, num_channels, count, src_len, channels) <==> forall|ch: int|
            0 <= ch < num_channels && ch < channels.len() ==> audio::offsets_in_range(
                bps,
                num_channels,
                count,
                src_len,
                #[trigger] channels[ch]@,
            ),
{
}

} // verus!
