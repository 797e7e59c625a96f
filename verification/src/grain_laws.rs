//! Which buffers make grains, which grains hold buffers, and what the bytes of both are.
use crate::error::{IoErrorKind, MapFailure};
use crate::grain;
use crate::grain::GrainDraft;
use crate::packet::Packet;
use crate::packet_laws;
use crate::round_trip;
use vstd::prelude::*;

verus! {

/// Some bytes after the other.
pub open spec fn joined(parts: Seq<Seq<u8>>) -> Seq<u8>
    decreases parts.len(),
{
    if parts.len() == 0 {
        Seq::empty()
    } else {
        parts[0] + joined(parts.skip(1))
    }
}

/// Packets as ST 2038, one after the other.
pub open spec fn as_st2038(packets: Seq<Packet>) -> Seq<u8> {
    joined(Seq::new(packets.len(), |i: int| packets[i].st2038()))
}

/// Packets as RFC 8331, one after the other.
pub open spec fn as_rfc8331(packets: Seq<Packet>) -> Seq<u8> {
    joined(Seq::new(packets.len(), |i: int| packets[i].rfc8331()))
}

/// The fields of all packets have room.
pub open spec fn all_have_room(packets: Seq<Packet>) -> bool {
    forall|i: int| 0 <= i < packets.len() ==> packet_laws::has_room(#[trigger] packets[i])
}

/// `g` has a header that says so many bytes of so many packets, the packets, and nothing but zeros
/// besides.
pub open spec fn is_grain_with(g: Seq<u8>, payload: Seq<u8>, count: nat) -> bool {
    &&& g.len() == 4096
    &&& g[0] * 256 + g[1] == payload.len()
    &&& g[2] == count
    &&& g[3] == 0 && g[4] == 0 && g[5] == 0
    &&& forall|i: int| 0 <= i < payload.len() ==> g[6 + i] == #[trigger] payload[i]
    &&& forall|i: int| 6 + payload.len() <= i < 4096 ==> #[trigger] g[i] == 0
}

/// The first of some packets, and the rest.
proof fn lemma_unjoin(packets: Seq<Packet>)
    requires
        packets.len() > 0,
    ensures
        as_st2038(packets) == packets[0].st2038() + as_st2038(packets.skip(1)),
        as_rfc8331(packets) == packets[0].rfc8331() + as_rfc8331(packets.skip(1)),
{
    let rest = packets.skip(1);
    assert(Seq::new(packets.len(), |i: int| packets[i].st2038()).skip(1) =~= Seq::new(
        rest.len(),
        |i: int| rest[i].st2038(),
    ));
    assert(Seq::new(packets.len(), |i: int| packets[i].rfc8331()).skip(1) =~= Seq::new(
        rest.len(),
        |i: int| rest[i].rfc8331(),
    ));
}

/// A builder takes every packet whose fields have room, in order, up to 255 of them: each is
/// appended as RFC 8331 and counted. What follows the packets is looked at as if they had been
/// appended before.
pub proof fn builder_takes_packets(draft: GrainDraft, packets: Seq<Packet>, rest: Seq<u8>)
    requires
        all_have_room(packets),
        draft.anc_count + packets.len() <= 255,
    ensures
        grain::append_packets(draft, as_st2038(packets) + rest) == grain::append_packets(
            GrainDraft {
                payload: draft.payload + as_rfc8331(packets),
                anc_count: draft.anc_count + packets.len(),
            },
            rest,
        ),
    decreases packets.len(),
{
    if packets.len() == 0 {
        assert(as_st2038(packets) + rest =~= rest);
        assert(draft.payload + as_rfc8331(packets) =~= draft.payload);
    } else {
        let p = packets[0];
        let left = packets.skip(1);
        lemma_unjoin(packets);
        assert(all_have_room(left)) by {
            assert forall|i: int| 0 <= i < left.len() implies packet_laws::has_room(
                #[trigger] left[i],
            ) by {
                assert(left[i] == packets[i + 1]);
            }
        }
        let more = as_st2038(left) + rest;
        packet_laws::st2038_is_written_as_laid_out(p);
        packet_laws::st2038_layout_is_read(p, p.st2038(), more);
        assert(as_st2038(packets) + rest =~= p.st2038() + more);
        assert((p.st2038() + more).skip(p.st2038().len() as int) =~= more);
        let next = GrainDraft {
            payload: draft.payload + p.rfc8331(),
            anc_count: draft.anc_count + 1,
        };
        builder_takes_packets(next, left, rest);
        assert(next.payload + as_rfc8331(left) =~= draft.payload + as_rfc8331(packets));
    }
}

/// A builder changes nothing for bytes that are no packet, and says what is wrong with them; nor for
/// a packet more than 255; and an empty buffer is no error.
pub proof fn builder_refuses_the_rest(draft: GrainDraft, st2038: Seq<u8>)
    ensures
        st2038.len() == 0 ==> grain::append_packets(draft, st2038) == (
            draft,
            Ok::<(), MapFailure>(()),
        ),
        st2038.len() > 0 && draft.anc_count >= 255 ==> grain::append_packets(draft, st2038) == (
            draft,
            Err::<(), MapFailure>(
                MapFailure::Invalid("more than 255 ST 2038 ANC packets in one grain"@),
            ),
        ),
        st2038.len() > 0 && draft.anc_count < 255 ==> (packet_laws::st2038_fault(st2038) matches Some(
            failure,
        ) ==> grain::append_packets(draft, st2038) == (draft, Err::<(), MapFailure>(failure))),
{
    packet_laws::st2038_is_refused_for_its_faults(st2038);
}

/// A draft makes a grain if its packets take no more than 4090 bytes, and is refused only if they
/// take more.
pub proof fn draft_makes_grain(draft: GrainDraft)
    requires
        draft.anc_count <= 255,
    ensures
        match grain::finish_grain(draft) {
            Ok(g) => draft.payload.len() <= 4090 && is_grain_with(
                g,
                draft.payload,
                draft.anc_count,
            ),
            Err(failure) => {
                &&& draft.payload.len() > 4090
                &&& failure == MapFailure::Invalid(
                    if draft.payload.len() > 65535 {
                        "RFC 8331 Length overflow"@
                    } else {
                        "RFC 8331 payload exceeds MXL data grain size"@
                    },
                )
            },
        },
{
    if let Ok(g) = grain::finish_grain(draft) {
        assert forall|i: int| 0 <= i < draft.payload.len() implies g[6 + i]
            == #[trigger] draft.payload[i] by {}
    }
}

/// Every buffer of at most 255 packets whose fields have room makes a grain, if the packets take no
/// more than 4090 bytes as RFC 8331; the grain holds them in order. If they take more it is refused.
pub proof fn buffer_makes_grain(packets: Seq<Packet>)
    requires
        all_have_room(packets),
        packets.len() <= 255,
    ensures
        match grain::grain_of(as_st2038(packets)) {
            Ok(g) => as_rfc8331(packets).len() <= 4090 && is_grain_with(
                g,
                as_rfc8331(packets),
                packets.len(),
            ),
            Err(failure) => {
                &&& as_rfc8331(packets).len() > 4090
                &&& failure == MapFailure::Invalid(
                    if as_rfc8331(packets).len() > 65535 {
                        "RFC 8331 Length overflow"@
                    } else {
                        "RFC 8331 payload exceeds MXL data grain size"@
                    },
                )
            },
        },
{
    let empty = GrainDraft { payload: Seq::empty(), anc_count: 0 };
    let none = Seq::<u8>::empty();
    builder_takes_packets(empty, packets, none);
    assert(as_st2038(packets) + none =~= as_st2038(packets));
    assert(none + as_rfc8331(packets) =~= as_rfc8331(packets));
    builder_refuses_the_rest(empty, none);
    draft_makes_grain(GrainDraft { payload: as_rfc8331(packets), anc_count: packets.len() });
}

/// A buffer that holds something else behind its packets, or more than 255 packets, makes no grain.
pub proof fn buffer_is_refused(packets: Seq<Packet>, rest: Seq<u8>)
    requires
        all_have_room(packets),
        packets.len() <= 255,
        rest.len() > 0,
    ensures
        packets.len() == 255 ==> grain::grain_of(as_st2038(packets) + rest) == Err::<
            Seq<u8>,
            MapFailure,
        >(MapFailure::Invalid("more than 255 ST 2038 ANC packets in one grain"@)),
        packets.len() < 255 ==> (packet_laws::st2038_fault(rest) matches Some(failure)
            ==> grain::grain_of(as_st2038(packets) + rest) == Err::<Seq<u8>, MapFailure>(failure)),
{
    let empty = GrainDraft { payload: Seq::empty(), anc_count: 0 };
    builder_takes_packets(empty, packets, rest);
    builder_refuses_the_rest(
        GrainDraft {
            payload: Seq::<u8>::empty() + as_rfc8331(packets),
            anc_count: packets.len(),
        },
        rest,
    );
}

/// `parts` are `packets` as RFC 8331, whatever `S` and `StreamNum` are in each.
pub open spec fn are_rfc8331(packets: Seq<Packet>, parts: Seq<Seq<u8>>) -> bool {
    &&& packets.len() == parts.len()
    &&& all_have_room(packets)
    &&& forall|i: int|
        0 <= i < packets.len() ==> packet_laws::rfc8331_layout(packets[i], #[trigger] parts[i])
}

/// Packets are taken from a payload one after the other.
proof fn lemma_take_run(
    out: Seq<u8>,
    packets: Seq<Packet>,
    parts: Seq<Seq<u8>>,
    rest: Seq<u8>,
    count: nat,
)
    requires
        are_rfc8331(packets, parts),
        packets.len() <= count,
    ensures
        grain::take_packets(out, joined(parts) + rest, count) == grain::take_packets(
            out + as_st2038(packets),
            rest,
            (count - packets.len()) as nat,
        ),
    decreases packets.len(),
{
    if packets.len() == 0 {
        assert(joined(parts) + rest =~= rest);
        assert(out + as_st2038(packets) =~= out);
    } else {
        let p = packets[0];
        let left = packets.skip(1);
        let others = parts.skip(1);
        lemma_unjoin(packets);
        assert(are_rfc8331(left, others)) by {
            assert forall|i: int| 0 <= i < left.len() implies packet_laws::has_room(
                #[trigger] left[i],
            ) by {
                assert(left[i] == packets[i + 1]);
            }
            assert forall|i: int| 0 <= i < left.len() implies packet_laws::rfc8331_layout(
                left[i],
                #[trigger] others[i],
            ) by {
                assert(others[i] == parts[i + 1]);
            }
        }
        let more = joined(others) + rest;
        assert(packet_laws::rfc8331_layout(p, parts[0]));
        packet_laws::rfc8331_layout_is_read(p, parts[0], more);
        assert(joined(parts) + rest =~= parts[0] + more);
        assert((parts[0] + more).skip(parts[0].len() as int) =~= more);
        lemma_take_run(out + p.st2038(), left, others, rest, (count - 1) as nat);
        assert(out + p.st2038() + as_st2038(left) =~= out + as_st2038(packets));
    }
}

/// Every grain that has the packets it says it has, in the bytes it says they take, gives those
/// packets as a buffer, whatever `F`, `reserved`, `S` and `StreamNum` are and whatever is behind.
pub proof fn grain_gives_buffer(g: Seq<u8>, packets: Seq<Packet>, parts: Seq<Seq<u8>>)
    requires
        are_rfc8331(packets, parts),
        g.len() >= 6 + joined(parts).len(),
        g[0] * 256 + g[1] == joined(parts).len(),
        g[2] == packets.len(),
        forall|i: int| 0 <= i < joined(parts).len() ==> g[6 + i] == #[trigger] joined(parts)[i],
    ensures
        grain::buffer_of(g) == Ok::<_, MapFailure>(as_st2038(packets)),
{
    let none = Seq::<u8>::empty();
    lemma_take_run(none, packets, parts, none, packets.len());
    assert(none + as_st2038(packets) =~= as_st2038(packets));
    assert(g.subrange(6, 6 + joined(parts).len() as int) =~= joined(parts) + none);
}

/// A grain is refused that ends before its header or before the bytes it says it has; that has
/// something else where it says there are packets, which is then said; or that has bytes left when
/// all its packets have been taken.
pub proof fn grain_is_refused(
    g: Seq<u8>,
    packets: Seq<Packet>,
    parts: Seq<Seq<u8>>,
    rest: Seq<u8>,
)
    requires
        are_rfc8331(packets, parts),
    ensures
        g.len() < 6 ==> grain::buffer_of(g) == Err::<Seq<u8>, MapFailure>(
            MapFailure::Io(IoErrorKind::UnexpectedEof),
        ),
        6 <= g.len() < 6 + g[0] * 256 + g[1] ==> grain::buffer_of(g) == Err::<Seq<u8>, MapFailure>(
            MapFailure::Invalid("RFC 8331 Length exceeds MXL data grain size"@),
        ),
        g.len() >= 6 + g[0] * 256 + g[1] && g.subrange(6, 6 + g[0] * 256 + g[1]) == joined(parts)
            + rest ==> {
            &&& packets.len() < g[2] ==> (packet_laws::rfc8331_fault(rest) matches Some(failure)
                ==> grain::buffer_of(g) == Err::<Seq<u8>, MapFailure>(failure))
            &&& packets.len() == g[2] && rest.len() > 0 ==> grain::buffer_of(g) == Err::<
                Seq<u8>,
                MapFailure,
            >(MapFailure::Invalid("RFC 8331 Length does not match ANC_Count"@))
        },
{
    if packets.len() <= g[2] {
        lemma_take_run(Seq::empty(), packets, parts, rest, g[2] as nat);
        packet_laws::rfc8331_is_refused_for_its_faults(rest);
    }
}

/// The packets of a buffer that makes a grain come back from it: as many, the same, in order.
pub proof fn packets_survive_grain(packets: Seq<Packet>)
    requires
        all_have_room(packets),
        packets.len() <= 255,
        as_rfc8331(packets).len() <= 4090,
    ensures
        grain::grain_of(as_st2038(packets)) matches Ok(g) && grain::buffer_of(g) == Ok::<
            _,
            MapFailure,
        >(as_st2038(packets)),
{
    buffer_makes_grain(packets);
    round_trip::buffer_survives_grain(as_st2038(packets));
}

/// `pad_grain` in numbers: a buffer of up to 4096 bytes fits.
pub proof fn padding_is_zeros(count: nat)
    ensures
        grain::zero_bytes(count).len() == count,
        forall|i: int| 0 <= i < count ==> #[trigger] grain::zero_bytes(count)[i] == 0,
        grain::MXL_DATA_FORMAT_GRAIN_SIZE == 4096,
        grain::HEADER_SIZE == 6,
{
}

} // verus!
