//! What is written can be read back: packets, buffers and grains.
use crate::bits;
use crate::error::MapFailure;
use crate::grain;
use crate::grain::GrainDraft;
use crate::packet;
use crate::packet::Packet;
use vstd::arithmetic::power2;
use vstd::prelude::*;

verus! {

/// The fields of `packet` stand in `b`, so they are what is read there.
proof fn lemma_fields_read(b: Seq<bool>, head: int, from: int, p: Packet)
    requires
        p.well_formed(),
        0 <= head,
        head + 24 <= from,
        from + 10 * p.words().len() <= b.len(),
        b.subrange(head, head + 24) == p.location_bits(),
        b.subrange(from, from + 10 * p.words().len()) == packet::word_bits(p.words()),
    ensures
        packet::packet_at(b, head, from) == p,
        packet::content_end(b, from) == from + 10 * p.words().len(),
{
    let words = p.words();
    let n = p.data.len() as int;
    let location = p.location_bits();
    let all = packet::word_bits(words);
    power2::lemma2_to64();
    bits::lemma_field_len(11, p.line as nat);
    bits::lemma_field_len(12, p.offset as nat);
    bits::lemma_field_value(11, p.line as nat);
    bits::lemma_field_value(12, p.offset as nat);
    assert(b[head] == b.subrange(head, head + 24)[0]);
    assert(b.subrange(head + 1, head + 12) =~= b.subrange(head, head + 24).subrange(1, 12));
    assert(location.subrange(1, 12) =~= bits::field(11, p.line as nat));
    assert(b.subrange(head + 12, head + 24) =~= b.subrange(head, head + 24).subrange(12, 24));
    assert(location.subrange(12, 24) =~= bits::field(12, p.offset as nat));
    assert(words.len() == 4 + n);
    assert(words[0] == p.did && words[1] == p.sdid_block_number && words[2] == p.data_count
        && words[3 + n] == p.checksum);
    assert forall|i: int| 0 <= i < words.len() implies packet::word_at(b, from, i)
        == #[trigger] words[i] by {
        let word = bits::field(10, words[i] as nat);
        if 3 <= i < 3 + n {
            assert(words[i] == p.data[i - 3]);
        }
        bits::lemma_field_len(10, words[i] as nat);
        bits::lemma_field_value(10, words[i] as nat);
        let part = b.subrange(from + 10 * i, from + 10 * i + 10);
        assert forall|k: int| 0 <= k < 10 implies part[k] == word[k] by {
            assert(part[k] == b.subrange(from, from + 10 * words.len())[10 * i + k]);
            assert((10 * i + k) / 10 == i && (10 * i + k) % 10 == k);
        }
        assert(part =~= word);
    }
    assert(packet::data_len_at(b, from) == n);
    assert(packet::packet_at(b, head, from).data =~= p.data) by {
        assert forall|i: int| 0 <= i < n implies packet::word_at(b, from, 3 + i) == p.data[i] by {
            assert(words[3 + i] == p.data[i]);
        }
    }
}

/// What is read in `b` is made of the bits that stand there.
proof fn lemma_fields_written(b: Seq<bool>, head: int, from: int)
    requires
        0 <= head,
        head + 24 <= from,
        packet::content_end(b, from) <= b.len(),
    ensures
        ({
            let p = packet::packet_at(b, head, from);
            &&& p.location_bits() == b.subrange(head, head + 24)
            &&& from + 10 * p.words().len() == packet::content_end(b, from)
            &&& packet::word_bits(p.words()) == b.subrange(
                from,
                packet::content_end(b, from) as int,
            )
        }),
{
    let p = packet::packet_at(b, head, from);
    let words = p.words();
    let n = p.data.len() as int;
    let end = packet::content_end(b, from) as int;
    packet::lemma_packet_at(b, head, from);
    bits::lemma_value_field(b.subrange(head + 1, head + 12));
    bits::lemma_value_field(b.subrange(head + 12, head + 24));
    assert(p.location_bits() =~= b.subrange(head, head + 24));
    assert(words.len() == 4 + n);
    assert forall|i: int| 0 <= i < words.len() implies #[trigger] words[i] == packet::word_at(
        b,
        from,
        i,
    ) by {
        if 3 <= i < 3 + n {
            assert(words[i] == p.data[i - 3]);
        }
    }
    assert forall|i: int| 0 <= i < 10 * words.len() implies packet::word_bits(words)[i]
        == b.subrange(from, end)[i] by {
        let k = i / 10;
        packet::lemma_word_at(b, from, k);
        assert(words[k] == packet::word_at(b, from, k));
        assert(b.subrange(from + 10 * k, from + 10 * k + 10)[i % 10] == b[from + i]);
    }
    assert(packet::word_bits(words) =~= b.subrange(from, end));
}

/// How long the encodings of a packet are: whole bytes, and whole words of four bytes.
proof fn lemma_encoding_len(p: Packet)
    ensures
        p.location_bits().len() == 24,
        p.st2038_content().len() == 30 + 10 * p.words().len(),
        p.rfc8331_content().len() == 32 + 10 * p.words().len(),
        p.st2038_bits().len() % 8 == 0,
        p.rfc8331_bits().len() % 32 == 0,
        8 * p.st2038().len() == p.st2038_bits().len(),
        8 * p.rfc8331().len() == p.rfc8331_bits().len(),
        bits::bits_of(p.st2038()) == p.st2038_bits(),
        bits::bits_of(p.rfc8331()) == p.rfc8331_bits(),
{
    reveal(Packet::st2038);
    reveal(Packet::rfc8331);
    bits::lemma_field_len(11, p.line as nat);
    bits::lemma_field_len(12, p.offset as nat);
    packet::lemma_word_bits(p.words(), 0);
    bits::lemma_bits_of_bytes_of(p.st2038_bits());
    bits::lemma_bits_of_bytes_of(p.rfc8331_bits());
}

/// What is read in bits that start with an ST 2038 packet.
proof fn lemma_st2038_in_front(p: Packet, more: Seq<bool>)
    requires
        p.well_formed(),
    ensures
        ({
            let b = p.st2038_bits() + more;
            let end = p.st2038_content().len();
            let padding = bits::padding_len(end, 8);
            &&& bits::value_at(b, 0, 6) == 0
            &&& packet::packet_at(b, 6, 30) == p
            &&& packet::content_end(b, 30) == end
            &&& b.subrange(end as int, (end + padding) as int) == bits::fill(true, padding)
        }),
{
    let b = p.st2038_bits() + more;
    let end = p.st2038_content().len() as int;
    let padding = bits::padding_len(end as nat, 8);
    lemma_encoding_len(p);
    assert(b.subrange(6, 30) =~= p.location_bits());
    assert(b.subrange(30, end) =~= packet::word_bits(p.words()));
    lemma_fields_read(b, 6, 30, p);
    assert(b.subrange(0, 6) =~= bits::fill(false, 6));
    bits::lemma_field_zero(6);
    power2::lemma2_to64();
    bits::lemma_field_value(6, 0);
    assert(b.subrange(end, end + padding) =~= bits::fill(true, padding));
}

/// A well-formed packet that was written as ST 2038 is read back as it was, whatever follows it.
pub proof fn st2038_write_then_read(p: Packet, rest: Seq<u8>)
    requires
        p.well_formed(),
    ensures
        packet::read_st2038(p.st2038() + rest) == Ok::<_, MapFailure>((p, p.st2038().len())),
{
    reveal(packet::read_st2038);
    lemma_encoding_len(p);
    bits::lemma_bits_of_concat(p.st2038(), rest);
    lemma_st2038_in_front(p, bits::bits_of(rest));
}

/// An ST 2038 packet that was read, written again, is the bytes it was read from.
pub proof fn st2038_read_then_write(st2038: Seq<u8>)
    ensures
        packet::read_st2038(st2038) matches Ok((p, len)) ==> {
            &&& p.well_formed()
            &&& len <= st2038.len()
            &&& p.st2038() == st2038.take(len as int)
        },
{
    reveal(packet::read_st2038);
    if let Ok((p, len)) = packet::read_st2038(st2038) {
        let b = bits::bits_of(st2038);
        let end = packet::content_end(b, 30) as int;
        let padding = bits::padding_len(end as nat, 8);
        packet::lemma_read_st2038(st2038);
        lemma_fields_written(b, 6, 30);
        lemma_encoding_len(p);
        bits::lemma_value_field(b.subrange(0, 6));
        bits::lemma_field_zero(6);
        assert(p.st2038_content() =~= b.subrange(0, end));
        assert(p.st2038_bits() =~= b.subrange(0, end + padding));
        bits::lemma_bits_of_subrange(st2038, 0, len as int);
        bits::lemma_bits_of_injective(p.st2038(), st2038.subrange(0, len as int));
        assert(st2038.subrange(0, len as int) =~= st2038.take(len as int));
    }
}

/// Zero bits make a zero byte.
proof fn lemma_zero_byte(bytes: Seq<u8>, i: int)
    requires
        0 <= i < bytes.len(),
    ensures
        bytes[i] == 0 <==> bits::bits_of(bytes).subrange(8 * i, 8 * i + 8) == bits::fill(false, 8),
{
    bits::lemma_bits_of_byte(bytes, i);
    bits::lemma_field_zero(8);
    power2::lemma2_to64();
    bits::lemma_field_value(8, 0);
}

/// What is read in bits that start with an RFC 8331 packet.
proof fn lemma_rfc8331_in_front(p: Packet, more: Seq<bool>)
    requires
        p.well_formed(),
    ensures
        ({
            let b = p.rfc8331_bits() + more;
            let end = p.rfc8331_content().len();
            let padding = bits::padding_len(end, 8);
            &&& packet::packet_at(b, 0, 32) == p
            &&& packet::content_end(b, 32) == end
            &&& b.subrange(end as int, (end + padding) as int) == bits::fill(false, padding)
        }),
{
    let b = p.rfc8331_bits() + more;
    let end = p.rfc8331_content().len() as int;
    let padding = bits::padding_len(end as nat, 8);
    lemma_encoding_len(p);
    bits::lemma_padding_steps(end as nat);
    assert(b.subrange(0, 24) =~= p.location_bits());
    assert(b.subrange(32, end) =~= packet::word_bits(p.words()));
    lemma_fields_read(b, 0, 32, p);
    assert(b.subrange(end, end + padding) =~= bits::fill(false, padding));
}

/// The bytes behind the last one that holds a field are zero.
proof fn lemma_rfc8331_padding(p: Packet, rest: Seq<u8>)
    ensures
        ({
            let end = p.rfc8331_content().len();
            let at = (end + bits::padding_len(end, 8)) / 8;
            packet::read_word_padding(p.rfc8331() + rest, at) == Ok::<_, MapFailure>(
                p.rfc8331().len(),
            )
        }),
{
    let bytes = p.rfc8331() + rest;
    let b = bits::bits_of(bytes);
    let end = p.rfc8331_content().len();
    let at = (end + bits::padding_len(end, 8)) / 8;
    lemma_encoding_len(p);
    bits::lemma_bits_of_concat(p.rfc8331(), rest);
    bits::lemma_padding_bytes(end);
    assert forall|i: int| at <= i < at + bits::padding_len(at, 4) implies #[trigger] bytes[i]
        == 0 by {
        assert(b.subrange(8 * i, 8 * i + 8) =~= bits::fill(false, 8));
        lemma_zero_byte(bytes, i);
    }
    packet::lemma_read_word_padding(bytes, at);
}

/// A well-formed packet that was written as RFC 8331 is read back as it was, whatever follows it.
pub proof fn rfc8331_write_then_read(p: Packet, rest: Seq<u8>)
    requires
        p.well_formed(),
    ensures
        packet::read_rfc8331(p.rfc8331() + rest) == Ok::<_, MapFailure>((p, p.rfc8331().len())),
{
    reveal(packet::read_rfc8331);
    lemma_encoding_len(p);
    bits::lemma_bits_of_concat(p.rfc8331(), rest);
    lemma_rfc8331_in_front(p, bits::bits_of(rest));
    lemma_rfc8331_padding(p, rest);
}

/// An RFC 8331 packet that was read, written again, is the bytes it was read from with `S` and
/// `StreamNum` zero.
pub proof fn rfc8331_read_then_write(smpte291: Seq<u8>)
    ensures
        packet::read_rfc8331(smpte291) matches Ok((p, len)) ==> {
            &&& p.well_formed()
            &&& 4 <= len <= smpte291.len()
            &&& p.rfc8331() == smpte291.take(len as int).update(3, 0)
        },
{
    reveal(packet::read_rfc8331);
    if let Ok((p, len)) = packet::read_rfc8331(smpte291) {
        let b = bits::bits_of(smpte291);
        let end = packet::content_end(b, 32) as int;
        let padding = bits::padding_len(end as nat, 8);
        let at = ((end + padding) / 8) as nat;
        let expected = smpte291.take(len as int).update(3, 0);
        packet::lemma_read_rfc8331(smpte291);
        lemma_fields_written(b, 0, 32);
        lemma_encoding_len(p);
        bits::lemma_padding_bytes(end as nat);
        bits::lemma_padding_steps(end as nat);
        packet::lemma_read_word_padding(smpte291, at);
        bits::lemma_field_zero(8);
        let e = bits::bits_of(expected);
        assert forall|i: int| 0 <= i < 8 * len implies e[i] == p.rfc8331_bits()[i] by {
            if i < 24 {
                assert(p.location_bits()[i] == b[i]);
            } else if i < 32 {
                assert(i / 8 == 3);
            } else if i < end {
                assert(packet::word_bits(p.words())[i - 32] == b[i]);
                assert(i / 8 >= 4);
            } else if i < end + padding {
                assert(b.subrange(end, end + padding)[i - end] == bits::fill(
                    false,
                    padding,
                )[i - end]);
            } else {
                assert(i / 8 >= at);
                assert(smpte291[i / 8] == 0);
            }
        }
        assert(e =~= p.rfc8331_bits());
        bits::lemma_bits_of_injective(p.rfc8331(), expected);
    }
}

/// An ST 2038 packet survives the way to RFC 8331 and back: what is read from `st2038` and written
/// as RFC 8331 is read from there and written as ST 2038 with the same bytes.
pub proof fn st2038_survives_rfc8331(st2038: Seq<u8>, rest: Seq<u8>)
    ensures
        packet::read_st2038(st2038) matches Ok((p, len)) ==> {
            &&& packet::read_rfc8331(p.rfc8331() + rest) == Ok::<_, MapFailure>(
                (p, p.rfc8331().len()),
            )
            &&& p.st2038() == st2038.take(len as int)
        },
{
    st2038_read_then_write(st2038);
    if let Ok((p, len)) = packet::read_st2038(st2038) {
        rfc8331_write_then_read(p, rest);
    }
}

/// An RFC 8331 packet survives the way to ST 2038 and back but for `S` and `StreamNum`, which are
/// zero afterwards.
pub proof fn rfc8331_survives_st2038(smpte291: Seq<u8>, rest: Seq<u8>)
    ensures
        packet::read_rfc8331(smpte291) matches Ok((p, len)) ==> {
            &&& packet::read_st2038(p.st2038() + rest) == Ok::<_, MapFailure>((p, p.st2038().len()))
            &&& p.rfc8331() == smpte291.take(len as int).update(3, 0)
        },
{
    rfc8331_read_then_write(smpte291);
    if let Ok((p, len)) = packet::read_rfc8331(smpte291) {
        st2038_write_then_read(p, rest);
    }
}

/// What follows a packet does not change how it is read.
proof fn lemma_read_prefix(st2038: Seq<u8>, more: Seq<u8>)
    ensures
        packet::read_st2038(st2038) is Ok ==> packet::read_st2038(st2038 + more)
            == packet::read_st2038(st2038),
{
    if let Ok((p, len)) = packet::read_st2038(st2038) {
        st2038_read_then_write(st2038);
        let rest = st2038.skip(len as int) + more;
        st2038_write_then_read(p, rest);
        assert(p.st2038() + rest =~= st2038 + more);
    }
}

/// Appending two buffers one after the other is appending them as one: the same draft, and the
/// same failure, if the first was appended without one.
pub proof fn append_in_parts(draft: GrainDraft, first: Seq<u8>, second: Seq<u8>)
    requires
        grain::append_packets(draft, first).1 is Ok,
    ensures
        grain::append_packets(draft, first + second) == grain::append_packets(
            grain::append_packets(draft, first).0,
            second,
        ),
    decreases first.len(),
{
    if first.len() == 0 {
        assert(first + second =~= second);
    } else {
        lemma_read_prefix(first, second);
        packet::lemma_read_st2038(first);
        let (p, len) = packet::read_st2038(first)->Ok_0;
        let next = GrainDraft {
            payload: draft.payload + p.rfc8331(),
            anc_count: draft.anc_count + 1,
        };
        append_in_parts(next, first.skip(len as int), second);
        assert((first + second).skip(len as int) =~= first.skip(len as int) + second);
    }
}

/// What follows `front` in `all`, which starts with `front` and `next`.
proof fn lemma_extended(front: Seq<u8>, next: Seq<u8>, all: Seq<u8>, rest: Seq<u8>)
    requires
        all.len() >= front.len() + next.len(),
        all.take((front.len() + next.len()) as int) == front + next,
    ensures
        all.take(front.len() as int) == front,
        all.skip(front.len() as int) + rest == next + (all.skip((front.len() + next.len()) as int)
            + rest),
{
    let head = all.take((front.len() + next.len()) as int);
    assert forall|i: int| 0 <= i < head.len() implies all[i] == (front + next)[i] by {
        assert(all[i] == head[i]);
    }
    assert(all.take(front.len() as int) =~= front);
    assert(all.skip(front.len() as int) + rest =~= next + (all.skip(
        (front.len() + next.len()) as int,
    ) + rest));
}

/// `st2038` and `rfc8331` are one packet.
spec fn same_packet(st2038: Seq<u8>, rfc8331: Seq<u8>) -> bool {
    exists|p: Packet|
        #![trigger p.st2038()]
        p.well_formed() && p.st2038() == st2038 && p.rfc8331() == rfc8331
}

/// The first of the packets that are appended to a draft.
proof fn lemma_append_one(draft: GrainDraft, st2038: Seq<u8>) -> (first: (Seq<u8>, Seq<u8>))
    requires
        grain::append_packets(draft, st2038).1 is Ok,
        st2038.len() > 0,
    ensures
        same_packet(first.0, first.1),
        0 < first.0.len() <= st2038.len(),
        first.0 + st2038.skip(first.0.len() as int) == st2038,
        first.1.len() % 4 == 0,
        draft.anc_count < 255,
        grain::append_packets(draft, st2038) == grain::append_packets(
            GrainDraft { payload: draft.payload + first.1, anc_count: draft.anc_count + 1 },
            st2038.skip(first.0.len() as int),
        ),
{
    packet::lemma_read_st2038(st2038);
    st2038_read_then_write(st2038);
    let (p, len) = packet::read_st2038(st2038)->Ok_0;
    assert(p.rfc8331().len() % 4 == 0) by {
        lemma_encoding_len(p);
    }
    assert(st2038.take(len as int) + st2038.skip(len as int) =~= st2038);
    (p.st2038(), p.rfc8331())
}

/// The first of the packets that are taken from a payload.
proof fn lemma_take_one(out: Seq<u8>, st2038: Seq<u8>, rfc8331: Seq<u8>, rest: Seq<u8>, count: nat)
    requires
        same_packet(st2038, rfc8331),
        count > 0,
    ensures
        grain::take_packets(out, rfc8331 + rest, count) == grain::take_packets(
            out + st2038,
            rest,
            (count - 1) as nat,
        ),
{
    let p = choose|p: Packet|
        #![trigger p.st2038()]
        p.well_formed() && p.st2038() == st2038 && p.rfc8331() == rfc8331;
    rfc8331_write_then_read(p, rest);
    assert((rfc8331 + rest).skip(rfc8331.len() as int) =~= rest);
}

/// Packets that were appended to a draft are taken from it again.
proof fn lemma_append_then_take(draft: GrainDraft, st2038: Seq<u8>, out: Seq<u8>, rest: Seq<u8>)
    requires
        grain::append_packets(draft, st2038).1 is Ok,
    ensures
        ({
            let done = grain::append_packets(draft, st2038).0;
            let base = draft.payload.len() as int;
            &&& done.payload.len() >= base
            &&& done.payload.take(base) == draft.payload
            &&& done.anc_count >= draft.anc_count
            &&& draft.anc_count <= 255 ==> done.anc_count <= 255
            &&& (done.payload.len() - base) % 4 == 0
            &&& grain::take_packets(
                out,
                done.payload.skip(base) + rest,
                (done.anc_count - draft.anc_count) as nat,
            ) == Ok::<_, MapFailure>((out + st2038, rest))
        }),
    decreases st2038.len(),
{
    let done = grain::append_packets(draft, st2038).0;
    let base = draft.payload.len() as int;
    if st2038.len() == 0 {
        assert(done.payload.skip(base) + rest =~= rest);
        assert(out + st2038 =~= out);
        assert(done.payload.take(base) =~= draft.payload);
    } else {
        let (st, rfc) = lemma_append_one(draft, st2038);
        let next = GrainDraft {
            payload: draft.payload + rfc,
            anc_count: draft.anc_count + 1,
        };
        let left = st2038.skip(st.len() as int);
        lemma_append_then_take(next, left, out + st, rest);
        lemma_extended(draft.payload, rfc, done.payload, rest);
        lemma_take_one(
            out,
            st,
            rfc,
            done.payload.skip(next.payload.len() as int) + rest,
            (done.anc_count - draft.anc_count) as nat,
        );
        assert(out + st + left =~= out + st2038);
    }
}

/// A buffer that was made into a grain is given back by the grain.
pub proof fn buffer_survives_grain(st2038: Seq<u8>)
    ensures
        grain::grain_of(st2038) matches Ok(g) ==> grain::buffer_of(g) == Ok::<_, MapFailure>(
            st2038,
        ),
{
    if let Ok(g) = grain::grain_of(st2038) {
        let empty = grain::empty_draft();
        let draft = grain::append_packets(empty, st2038).0;
        let none = Seq::<u8>::empty();
        lemma_append_then_take(empty, st2038, none, none);
        let len = draft.payload.len() as int;
        assert(draft.payload.skip(0) + none =~= draft.payload);
        assert(none + st2038 =~= st2038);
        assert(g[0] * 256 + g[1] == len);
        assert(g[2] == draft.anc_count);
        assert(g.subrange(6, 6 + len) =~= draft.payload);
    }
}

/// `count` RFC 8331 packets from the front of `smpte291`, with `S` and `StreamNum` zero.
pub open spec fn without_streams(smpte291: Seq<u8>, count: nat) -> Seq<u8>
    decreases count,
{
    if count == 0 {
        Seq::empty()
    } else {
        match packet::read_rfc8331(smpte291) {
            Ok((_, len)) => smpte291.take(len as int).update(3, 0) + without_streams(
                smpte291.skip(len as int),
                (count - 1) as nat,
            ),
            Err(_) => Seq::empty(),
        }
    }
}

/// In each of `count` RFC 8331 packets from the front of `smpte291` `S` and `StreamNum` are zero.
pub open spec fn has_no_streams(smpte291: Seq<u8>, count: nat) -> bool
    decreases count,
{
    if count == 0 {
        true
    } else {
        match packet::read_rfc8331(smpte291) {
            Ok((_, len)) => smpte291[3] == 0 && has_no_streams(
                smpte291.skip(len as int),
                (count - 1) as nat,
            ),
            Err(_) => true,
        }
    }
}

/// Packets that were taken from a payload can be appended to a draft, where they are as they were
/// but for `S` and `StreamNum`.
proof fn lemma_take_then_append(draft: GrainDraft, out: Seq<u8>, smpte291: Seq<u8>, count: nat)
    requires
        grain::take_packets(out, smpte291, count) is Ok,
        draft.anc_count + count <= 255,
    ensures
        ({
            let (all, rest) = grain::take_packets(out, smpte291, count)->Ok_0;
            let (done, result) = grain::append_packets(draft, all.skip(out.len() as int));
            &&& all.len() >= out.len()
            &&& all.take(out.len() as int) == out
            &&& result is Ok
            &&& done.anc_count == draft.anc_count + count
            &&& done.payload == draft.payload + without_streams(smpte291, count)
            &&& without_streams(smpte291, count).len() + rest.len() == smpte291.len()
        }),
    decreases count,
{
    if count == 0 {
        assert(out.skip(out.len() as int).len() == 0);
        assert(out.take(out.len() as int) =~= out);
        assert(draft.payload + Seq::<u8>::empty() =~= draft.payload);
    } else {
        let (p, len) = packet::read_rfc8331(smpte291)->Ok_0;
        rfc8331_read_then_write(smpte291);
        assert(p.st2038().len() > 0) by {
            lemma_encoding_len(p);
        }
        let next = GrainDraft {
            payload: draft.payload + p.rfc8331(),
            anc_count: draft.anc_count + 1,
        };
        let longer = out + p.st2038();
        let left = smpte291.skip(len as int);
        lemma_take_then_append(next, longer, left, (count - 1) as nat);
        let all = grain::take_packets(out, smpte291, count)->Ok_0.0;
        let more = all.skip(longer.len() as int);
        lemma_extended(out, p.st2038(), all, Seq::empty());
        assert(all.skip(out.len() as int) =~= p.st2038() + more) by {
            assert(all.skip(out.len() as int) + Seq::<u8>::empty() =~= all.skip(out.len() as int));
            assert(more + Seq::<u8>::empty() =~= more);
        }
        st2038_write_then_read(p, more);
        assert((p.st2038() + more).skip(p.st2038().len() as int) =~= more);
        assert(draft.payload + p.rfc8331() + without_streams(left, (count - 1) as nat)
            =~= draft.payload + (p.rfc8331() + without_streams(left, (count - 1) as nat)));
    }
}

/// A buffer that a grain holds can be made into a grain again, provided that its packets fit one.
/// That holds the same buffer, and is the grain it came from with everything zero that a buffer has
/// no room for: `F`, `reserved`, `S` and `StreamNum`, and what is behind the packets.
pub proof fn grain_can_be_remade(g: Seq<u8>)
    requires
        grain::buffer_of(g) is Ok,
        grain::HEADER_SIZE + g[0] * 256 + g[1] <= grain::MXL_DATA_FORMAT_GRAIN_SIZE,
    ensures
        ({
            let len = g[0] * 256 + g[1];
            let packets = without_streams(g.subrange(6, 6 + len), g[2] as nat);
            &&& grain::grain_of(grain::buffer_of(g)->Ok_0) matches Ok(remade) && {
                &&& grain::buffer_of(remade) == grain::buffer_of(g)
                &&& remade == g.take(3) + grain::zero_bytes(3) + packets + grain::zero_bytes(
                    (grain::MXL_DATA_FORMAT_GRAIN_SIZE - grain::HEADER_SIZE - len) as nat,
                )
            }
            &&& packets.len() == len
        }),
{
    let len = g[0] * 256 + g[1];
    let payload = g.subrange(6, 6 + len);
    let none = Seq::<u8>::empty();
    lemma_take_then_append(grain::empty_draft(), none, payload, g[2] as nat);
    let st2038 = grain::buffer_of(g)->Ok_0;
    let packets = without_streams(payload, g[2] as nat);
    assert(st2038.skip(0) =~= st2038);
    assert(none + packets =~= packets);
    buffer_survives_grain(st2038);
    let remade = grain::grain_of(st2038)->Ok_0;
    assert(remade =~= g.take(3) + grain::zero_bytes(3) + packets + grain::zero_bytes(
        (grain::MXL_DATA_FORMAT_GRAIN_SIZE - grain::HEADER_SIZE - len) as nat,
    ));
}

/// Packets with nothing to clear stay as they are.
proof fn lemma_no_streams(out: Seq<u8>, smpte291: Seq<u8>, count: nat)
    requires
        grain::take_packets(out, smpte291, count) is Ok,
        has_no_streams(smpte291, count),
    ensures
        without_streams(smpte291, count) + grain::take_packets(out, smpte291, count)->Ok_0.1
            == smpte291,
    decreases count,
{
    if count == 0 {
        assert(Seq::<u8>::empty() + smpte291 =~= smpte291);
    } else {
        let (p, len) = packet::read_rfc8331(smpte291)->Ok_0;
        rfc8331_read_then_write(smpte291);
        let front = smpte291.take(len as int);
        let left = smpte291.skip(len as int);
        lemma_no_streams(out + p.st2038(), left, (count - 1) as nat);
        let rest = grain::take_packets(out, smpte291, count)->Ok_0.1;
        assert(front.update(3, 0) =~= front);
        assert(front + without_streams(left, (count - 1) as nat) + rest =~= front + (
        without_streams(left, (count - 1) as nat) + rest));
        assert(front + left =~= smpte291);
    }
}

/// A grain of the size of one in which everything is zero that a buffer has no room for is remade
/// exactly from the buffer that it holds.
pub proof fn plain_grain_is_remade(g: Seq<u8>)
    requires
        grain::buffer_of(g) is Ok,
        g.len() == grain::MXL_DATA_FORMAT_GRAIN_SIZE,
        g[3] == 0 && g[4] == 0 && g[5] == 0,
        has_no_streams(g.subrange(6, 6 + g[0] * 256 + g[1]), g[2] as nat),
        forall|i: int|
            grain::HEADER_SIZE + g[0] * 256 + g[1] <= i < g.len() ==> #[trigger] g[i] == 0,
    ensures
        grain::grain_of(grain::buffer_of(g)->Ok_0) == Ok::<_, MapFailure>(g),
{
    let len = g[0] * 256 + g[1];
    let payload = g.subrange(6, 6 + len);
    let packets = without_streams(payload, g[2] as nat);
    grain_can_be_remade(g);
    lemma_no_streams(Seq::empty(), payload, g[2] as nat);
    let rest = grain::take_packets(Seq::empty(), payload, g[2] as nat)->Ok_0.1;
    assert(packets + rest =~= packets);
    assert(g.take(3) + grain::zero_bytes(3) + packets + grain::zero_bytes(
        (grain::MXL_DATA_FORMAT_GRAIN_SIZE - grain::HEADER_SIZE - len) as nat,
    ) =~= g) by {
        assert(packets == payload);
    }
}

/// What every grain looks like: its size, and a header that says how many bytes of packets follow,
/// which are whole words of four bytes, and nothing but zeros behind them.
pub proof fn grain_layout(st2038: Seq<u8>)
    ensures
        grain::grain_of(st2038) matches Ok(g) ==> {
            let len = g[0] * 256 + g[1];
            &&& g.len() == grain::MXL_DATA_FORMAT_GRAIN_SIZE
            &&& grain::HEADER_SIZE + len <= g.len()
            &&& len % 4 == 0
            &&& g[3] == 0 && g[4] == 0 && g[5] == 0
            &&& forall|i: int| grain::HEADER_SIZE + len <= i < g.len() ==> #[trigger] g[i] == 0
        },
{
    if grain::grain_of(st2038) is Ok {
        let none = Seq::<u8>::empty();
        lemma_append_then_take(grain::empty_draft(), st2038, none, none);
    }
}

} // verus!
