//! Where the fields of a packet stand in its bytes.
//!
//! What is stated here is stated of bytes and numbers, so that it can be held against the layout
//! tables of ST 2038 and RFC 8331 without going through bits.
use crate::bits;
use crate::error::{IoErrorKind, MapFailure};
use crate::packet;
use crate::packet::{AncillaryMeta, Packet};
use crate::round_trip;
use vstd::arithmetic::power2;
use vstd::prelude::*;

verus! {

/// The ten bit number that starts at bit `at` of `bytes`, where `at` is even: the low bits of one
/// byte and the high bits of the next.
#[verifier::opaque]
pub open spec fn ten_bits(bytes: Seq<u8>, at: int) -> int {
    let first = bytes[at / 8] as int;
    let second = bytes[at / 8 + 1] as int;
    if at % 8 == 0 {
        first * 4 + second / 64
    } else if at % 8 == 2 {
        first % 64 * 16 + second / 16
    } else if at % 8 == 4 {
        first % 16 * 64 + second / 4
    } else {
        first % 4 * 256 + second
    }
}

/// The fields have room in a packet, and the low eight bits of the data count say how many user data
/// words there are.
pub open spec fn has_room(p: Packet) -> bool {
    &&& p.line <= 2047
    &&& p.offset <= 4095
    &&& p.did <= 1023
    &&& p.sdid_block_number <= 1023
    &&& p.data_count <= 1023
    &&& p.data.len() == p.data_count as int % 256
    &&& forall|i: int| 0 <= i < p.data.len() ==> #[trigger] p.data[i] <= 1023
    &&& p.checksum <= 1023
}

/// The ten bit words of a packet stand in `bytes` from bit `at` on.
pub open spec fn words_laid_out(p: Packet, bytes: Seq<u8>, at: int) -> bool {
    &&& p.did == ten_bits(bytes, at)
    &&& p.sdid_block_number == ten_bits(bytes, at + 10)
    &&& p.data_count == ten_bits(bytes, at + 20)
    &&& p.data.len() == p.data_count as int % 256
    &&& forall|i: int|
        0 <= i < p.data.len() ==> #[trigger] p.data[i] == ten_bits(bytes, at + 30 + 10 * i)
    &&& p.checksum == ten_bits(bytes, at + 30 + 10 * p.data.len())
}

/// The low `count` bits of a byte are zeros, or ones.
pub open spec fn ends_in(byte: u8, count: int, ones: bool) -> bool {
    let unit = if count == 0 {
        1int
    } else if count == 2 {
        4
    } else if count == 4 {
        16
    } else {
        64
    };
    byte as int % unit == if ones {
        unit - 1
    } else {
        0
    }
}

/// `bytes` are `p` as ST 2038: six zero bits, C, eleven bits of line number, twelve of horizontal
/// offset, then ten bits for each word, and ones up to the end of the byte.
pub open spec fn st2038_layout(p: Packet, bytes: Seq<u8>) -> bool {
    let end = 70 + 10 * p.data.len();
    &&& bytes.len() == (end + 7) / 8
    &&& bytes[0] < 4
    &&& p.c_not_y_channel == (bytes[0] as int / 2 == 1)
    &&& p.line == bytes[0] as int % 2 * 1024 + bytes[1] * 4 + bytes[2] as int / 64
    &&& p.offset == bytes[2] as int % 64 * 64 + bytes[3] as int / 4
    &&& words_laid_out(p, bytes, 30)
    &&& ends_in(bytes[bytes.len() - 1], 8 * bytes.len() - end, true)
}

/// `bytes` are `p` as RFC 8331: C, eleven bits of line number, twelve of horizontal offset, a byte
/// of `S` and `StreamNum`, then ten bits for each word, and zeros up to the end of the four byte
/// word.
pub open spec fn rfc8331_layout(p: Packet, bytes: Seq<u8>) -> bool {
    let end = 72 + 10 * p.data.len();
    let used = (end + 7) / 8;
    &&& bytes.len() == (end + 31) / 32 * 4
    &&& p.c_not_y_channel == (bytes[0] >= 128)
    &&& p.line == bytes[0] as int % 128 * 16 + bytes[1] as int / 16
    &&& p.offset == bytes[1] as int % 16 * 256 + bytes[2]
    &&& words_laid_out(p, bytes, 32)
    &&& ends_in(bytes[used - 1], 8 * used - end, false)
    &&& forall|i: int| used <= i < bytes.len() ==> #[trigger] bytes[i] == 0
}

/// The value of bits in two parts.
proof fn lemma_value_concat(high: Seq<bool>, low: Seq<bool>)
    ensures
        bits::bits_value(high + low) == bits::bits_value(high) * power2::pow2(low.len())
            + bits::bits_value(low),
    decreases low.len(),
{
    if low.len() == 0 {
        power2::lemma2_to64();
        assert(high + low =~= high);
    } else {
        let front = low.drop_last();
        lemma_value_concat(high, front);
        power2::lemma_pow2_unfold(low.len());
        assert((high + low).drop_last() =~= high + front);
        let h = bits::bits_value(high);
        let p = power2::pow2(front.len());
        assert(h * (2 * p) == 2 * (h * p)) by (nonlinear_arith);
    }
}

/// Where the bits of a byte are cut, the high part is a quotient and the low part a remainder.
proof fn lemma_byte_parts(bytes: Seq<u8>, i: int, cut: nat)
    requires
        0 <= i < bytes.len(),
        cut <= 8,
    ensures
        ({
            let unit = power2::pow2((8 - cut) as nat) as int;
            let b = bits::bits_of(bytes);
            &&& unit > 0
            &&& bits::value_at(b, 8 * i, cut) == bytes[i] as int / unit
            &&& bits::value_at(b, 8 * i + cut, (8 - cut) as nat) == bytes[i] as int % unit
        }),
{
    let b = bits::bits_of(bytes);
    let high = b.subrange(8 * i, 8 * i + cut);
    let low = b.subrange(8 * i + cut, 8 * i + 8);
    let unit = power2::pow2((8 - cut) as nat) as int;
    power2::lemma_pow2_pos((8 - cut) as nat);
    bits::lemma_bits_of_byte(bytes, i);
    assert(b.subrange(8 * i, 8 * i + 8) =~= high + low);
    lemma_value_concat(high, low);
    bits::lemma_value_field(low);
    assert(8 * i + cut + (8 - cut) as nat == 8 * i + 8);
    vstd::arithmetic::div_mod::lemma_fundamental_div_mod_converse(
        bytes[i] as int,
        unit,
        bits::bits_value(high) as int,
        bits::bits_value(low) as int,
    );
}

/// A field that starts in one byte and ends in the next.
proof fn lemma_two_parts(bytes: Seq<u8>, i: int, cut: nat, rest: nat)
    requires
        0 <= i < bytes.len() - 1,
        cut <= 8,
        rest <= 8,
    ensures
        bits::value_at(bits::bits_of(bytes), 8 * i + cut, (8 - cut + rest) as nat) == bytes[i] as int
            % power2::pow2((8 - cut) as nat) as int * power2::pow2(rest) + bytes[i + 1] as int
            / power2::pow2((8 - rest) as nat) as int,
{
    let b = bits::bits_of(bytes);
    lemma_byte_parts(bytes, i, cut);
    lemma_byte_parts(bytes, i + 1, rest);
    let low = b.subrange(8 * i + cut, 8 * i + 8);
    let high = b.subrange(8 * i + 8, 8 * i + 8 + rest);
    lemma_value_concat(low, high);
    assert(b.subrange(8 * i + cut, 8 * i + cut + (8 - cut + rest) as nat) =~= low + high);
    assert(8 * i + cut + (8 - cut) as nat == 8 * i + 8);
    assert(8 * (i + 1) == 8 * i + 8);
}

/// Ten bits at an even place.
proof fn lemma_ten_bits(bytes: Seq<u8>, at: int)
    requires
        0 <= at,
        at % 2 == 0,
        at + 10 <= 8 * bytes.len(),
    ensures
        bits::value_at(bits::bits_of(bytes), at, 10) == ten_bits(bytes, at),
{
    reveal(ten_bits);
    let i = at / 8;
    power2::lemma2_to64();
    if at % 8 == 0 {
        lemma_two_parts(bytes, i, 0, 2);
        assert(bytes[i] as int % 256 == bytes[i]);
    } else if at % 8 == 2 {
        lemma_two_parts(bytes, i, 2, 4);
    } else if at % 8 == 4 {
        lemma_two_parts(bytes, i, 4, 6);
    } else {
        lemma_two_parts(bytes, i, 6, 8);
        assert((8 - 8) as nat == 0);
        vstd::arithmetic::div_mod::lemma_div_basics(bytes[i + 1] as int);
    }
}

/// A word that is read.
proof fn lemma_word_read(bytes: Seq<u8>, from: int, index: int)
    requires
        0 <= from,
        0 <= index,
        from % 2 == 0,
        from + 10 * index + 10 <= 8 * bytes.len(),
    ensures
        packet::word_at(bits::bits_of(bytes), from, index) == ten_bits(bytes, from + 10 * index),
{
    packet::lemma_word_at(bits::bits_of(bytes), from, index);
    lemma_ten_bits(bytes, from + 10 * index);
}

/// What is read as a packet stands in the bytes as the layout says.
proof fn lemma_words_read(bytes: Seq<u8>, head: int, from: int)
    requires
        0 <= head,
        head + 24 <= from,
        from % 2 == 0,
        packet::content_end(bits::bits_of(bytes), from) <= 8 * bytes.len(),
    ensures
        words_laid_out(packet::packet_at(bits::bits_of(bytes), head, from), bytes, from),
        packet::content_end(bits::bits_of(bytes), from) == from + 40 + 10 * packet::packet_at(
            bits::bits_of(bytes),
            head,
            from,
        ).data.len(),
{
    let b = bits::bits_of(bytes);
    let p = packet::packet_at(b, head, from);
    let n = packet::data_len_at(b, from) as int;
    lemma_word_read(bytes, from, 0);
    lemma_word_read(bytes, from, 1);
    lemma_word_read(bytes, from, 2);
    lemma_word_read(bytes, from, 3 + n);
    assert forall|i: int| 0 <= i < n implies #[trigger] p.data[i] == ten_bits(
        bytes,
        from + 30 + 10 * i,
    ) by {
        lemma_word_read(bytes, from, 3 + i);
    }
}

/// Ones spell the largest number.
proof fn lemma_ones(count: nat)
    ensures
        bits::bits_value(bits::fill(true, count)) == power2::pow2(count) - 1,
    decreases count,
{
    if count == 0 {
        power2::lemma2_to64();
    } else {
        lemma_ones((count - 1) as nat);
        power2::lemma_pow2_unfold(count);
        assert(bits::fill(true, count).drop_last() =~= bits::fill(true, (count - 1) as nat));
    }
}

/// Padding up to the end of a byte, as bits and as part of that byte.
proof fn lemma_ends_in(bytes: Seq<u8>, end: nat, ones: bool)
    requires
        end % 2 == 0,
        0 < end,
        (end + 7) / 8 <= bytes.len(),
    ensures
        ({
            let padding = bits::padding_len(end, 8);
            let used = (end + 7) / 8;
            &&& end + padding == 8 * used
            &&& ends_in(bytes[used - 1], 8 * used - end, ones) <==> bits::bits_of(bytes).subrange(
                end as int,
                (end + padding) as int,
            ) == bits::fill(ones, padding)
        }),
{
    let used = (end + 7) / 8;
    let missing = (8 * used - end) as nat;
    bits::lemma_padding_len(end, 8, missing);
    let part = bits::bits_of(bytes).subrange(end as int, (end + missing) as int);
    power2::lemma2_to64();
    lemma_byte_parts(bytes, used - 1, (8 - missing) as nat);
    assert(8 * (used - 1) + (8 - missing) as nat == end);
    lemma_ones(missing);
    bits::lemma_field_zero(missing);
    bits::lemma_field_value(missing, 0);
    bits::lemma_value_field(part);
    bits::lemma_value_field(bits::fill(true, missing));
    assert(bits::bits_value(part) == bytes[used - 1] as int % power2::pow2(missing) as int);
    assert(missing == 0 || missing == 2 || missing == 4 || missing == 6);
}

/// The bytes of a packet that was read are a packet by themselves.
proof fn lemma_st2038_alone(st2038: Seq<u8>)
    requires
        packet::read_st2038(st2038) is Ok,
    ensures
        ({
            let (p, len) = packet::read_st2038(st2038)->Ok_0;
            &&& len <= st2038.len()
            &&& packet::read_st2038(st2038.take(len as int)) == Ok::<_, MapFailure>((p, len))
        }),
{
    let (p, len) = packet::read_st2038(st2038)->Ok_0;
    round_trip::st2038_read_then_write(st2038);
    round_trip::st2038_write_then_read(p, Seq::empty());
    assert(p.st2038() + Seq::<u8>::empty() =~= st2038.take(len as int));
}

/// Location fields as ST 2038 has them.
proof fn lemma_st2038_location(bytes: Seq<u8>)
    requires
        bytes.len() >= 4,
    ensures
        ({
            let b = bits::bits_of(bytes);
            &&& bits::value_at(b, 0, 6) == bytes[0] as int / 4
            &&& b[6] == (bytes[0] as int / 2 % 2 == 1)
            &&& bits::value_at(b, 7, 11) == bytes[0] as int % 2 * 1024 + bytes[1] * 4 + bytes[2] as int
                / 64
            &&& bits::value_at(b, 18, 12) == bytes[2] as int % 64 * 64 + bytes[3] as int / 4
        }),
{
    let b = bits::bits_of(bytes);
    power2::lemma2_to64();
    lemma_byte_parts(bytes, 0, 6);
    lemma_byte_parts(bytes, 0, 7);
    lemma_two_parts(bytes, 2, 2, 6);
    // C is the last of the first seven bits.
    assert(b.subrange(0, 7).drop_last() =~= b.subrange(0, 6));
    assert(b.subrange(0, 7).last() == b[6]);
    assert(bytes[0] as int / 2 == 2 * (bytes[0] as int / 4) + if b[6] {
        1int
    } else {
        0int
    });
    // The line number is one bit, eight bits and two bits.
    lemma_two_parts(bytes, 1, 0, 2);
    lemma_value_concat(b.subrange(7, 8), b.subrange(8, 18));
    assert(b.subrange(7, 18) =~= b.subrange(7, 8) + b.subrange(8, 18));
    assert(bytes[1] as int % 256 == bytes[1]);
}

/// Location fields as RFC 8331 has them.
proof fn lemma_rfc8331_location(bytes: Seq<u8>)
    requires
        bytes.len() >= 4,
    ensures
        ({
            let b = bits::bits_of(bytes);
            &&& b[0] == (bytes[0] >= 128)
            &&& bits::value_at(b, 1, 11) == bytes[0] as int % 128 * 16 + bytes[1] as int / 16
            &&& bits::value_at(b, 12, 12) == bytes[1] as int % 16 * 256 + bytes[2]
        }),
{
    let b = bits::bits_of(bytes);
    power2::lemma2_to64();
    lemma_byte_parts(bytes, 0, 1);
    assert(b.subrange(0, 1).drop_last() =~= Seq::empty());
    assert(b.subrange(0, 1).last() == b[0]);
    lemma_two_parts(bytes, 0, 1, 4);
    lemma_two_parts(bytes, 1, 4, 8);
    assert((8 - 8) as nat == 0);
    vstd::arithmetic::div_mod::lemma_div_basics(bytes[2] as int);
}

/// What is read from ST 2038 is what stands in the bytes: every field at its place, whatever the
/// others hold.
pub proof fn st2038_is_read_as_laid_out(st2038: Seq<u8>)
    ensures
        packet::read_st2038(st2038) matches Ok((p, len)) ==> {
            &&& len <= st2038.len()
            &&& has_room(p)
            &&& st2038_layout(p, st2038.take(len as int))
        },
{
    if let Ok((p, len)) = packet::read_st2038(st2038) {
        lemma_st2038_alone(st2038);
        let bytes = st2038.take(len as int);
        let b = bits::bits_of(bytes);
        reveal(packet::read_st2038);
        packet::lemma_packet_at(b, 6, 30);
        lemma_words_read(bytes, 6, 30);
        lemma_st2038_location(bytes);
        lemma_ends_in(bytes, packet::content_end(b, 30), true);
    }
}

/// Every run of bytes that is laid out as a packet in ST 2038 is read as that packet, whatever
/// follows.
pub proof fn st2038_layout_is_read(p: Packet, st2038: Seq<u8>, rest: Seq<u8>)
    requires
        has_room(p),
        st2038_layout(p, st2038),
    ensures
        packet::read_st2038(st2038 + rest) == Ok::<_, MapFailure>((p, st2038.len())),
{
    let b = bits::bits_of(st2038);
    let n = p.data.len();
    let end = (70 + 10 * n) as nat;
    lemma_st2038_location(st2038);
    packet::lemma_word_at(b, 30, 2);
    lemma_ten_bits(st2038, 50);
    assert(packet::content_end(b, 30) == end);
    lemma_ends_in(st2038, end, true);
    assert(packet::read_st2038(st2038) is Ok) by {
        reveal(packet::read_st2038);
    }
    let (read, len) = packet::read_st2038(st2038)->Ok_0;
    assert(len == st2038.len()) by {
        reveal(packet::read_st2038);
    }
    st2038_is_read_as_laid_out(st2038);
    assert(st2038.take(len as int) =~= st2038);
    assert(read =~= p);
    round_trip::st2038_read_then_write(st2038);
    round_trip::st2038_write_then_read(p, rest);
}

/// A packet whose fields have room is written as ST 2038 with every field at its place, whatever the
/// others hold.
pub proof fn st2038_is_written_as_laid_out(p: Packet)
    requires
        has_room(p),
    ensures
        st2038_layout(p, p.st2038()),
        packet::st2038_failure(p) is None,
{
    round_trip::st2038_write_then_read(p, Seq::empty());
    assert(p.st2038() + Seq::<u8>::empty() =~= p.st2038());
    st2038_is_read_as_laid_out(p.st2038());
    assert(p.st2038().take(p.st2038().len() as int) =~= p.st2038());
    packet::lemma_fits_no_failure(p);
}

/// The bytes of a packet that was read are a packet by themselves, whatever `S` and `StreamNum` are.
proof fn lemma_rfc8331_end(smpte291: Seq<u8>)
    requires
        packet::read_rfc8331(smpte291) is Ok,
    ensures
        ({
            let (p, len) = packet::read_rfc8331(smpte291)->Ok_0;
            let b = bits::bits_of(smpte291);
            let end = packet::content_end(b, 32);
            let used = (end + 7) / 8;
            &&& p == packet::packet_at(b, 0, 32)
            &&& end == 72 + 10 * p.data.len()
            &&& end <= b.len()
            &&& len == (end + 31) / 32 * 4
            &&& len <= smpte291.len()
            &&& ends_in(smpte291[used - 1], 8 * used - end, false)
            &&& forall|i: int| used <= i < len ==> #[trigger] smpte291[i] == 0
        }),
{
    reveal(packet::read_rfc8331);
    let b = bits::bits_of(smpte291);
    let end = packet::content_end(b, 32);
    let used = (end + 7) / 8;
    lemma_words_read(smpte291, 0, 32);
    assert(used <= smpte291.len());
    lemma_ends_in(smpte291, end, false);
    packet::lemma_read_word_padding(smpte291, used);
    bits::lemma_padding_len(used, 4, 0);
    bits::lemma_padding_len(used, 4, ((end + 31) / 32 * 4 - used) as nat);
}

/// What is read from RFC 8331 is what stands in the bytes: every field at its place, whatever the
/// others hold.
pub proof fn rfc8331_is_read_as_laid_out(smpte291: Seq<u8>)
    ensures
        packet::read_rfc8331(smpte291) matches Ok((p, len)) ==> {
            &&& len <= smpte291.len()
            &&& has_room(p)
            &&& rfc8331_layout(p, smpte291.take(len as int))
        },
{
    if let Ok((p, len)) = packet::read_rfc8331(smpte291) {
        let b = bits::bits_of(smpte291);
        let bytes = smpte291.take(len as int);
        lemma_rfc8331_end(smpte291);
        packet::lemma_packet_at(b, 0, 32);
        lemma_words_read(smpte291, 0, 32);
        lemma_rfc8331_location(smpte291);
        lemma_ten_bits_prefix(smpte291, len as int);
        assert(words_laid_out(p, bytes, 32));
    }
}

/// Numbers stand in the front of some bytes as in all of them.
proof fn lemma_ten_bits_prefix(bytes: Seq<u8>, len: int)
    requires
        0 <= len <= bytes.len(),
    ensures
        forall|at: int|
            0 <= at && at + 10 <= 8 * len ==> #[trigger] ten_bits(bytes.take(len), at) == ten_bits(
                bytes,
                at,
            ),
{
    reveal(ten_bits);
}

/// Every run of bytes that is laid out as a packet in RFC 8331 is read as that packet, whatever
/// follows, and whatever `S` and `StreamNum` are.
pub proof fn rfc8331_layout_is_read(p: Packet, smpte291: Seq<u8>, rest: Seq<u8>)
    requires
        has_room(p),
        rfc8331_layout(p, smpte291),
    ensures
        packet::read_rfc8331(smpte291 + rest) == Ok::<_, MapFailure>((p, smpte291.len())),
{
    let all = smpte291 + rest;
    let len = smpte291.len() as int;
    let b = bits::bits_of(all);
    let n = p.data.len();
    let end = (72 + 10 * n) as nat;
    let used = (end + 7) / 8;
    assert(all.take(len) =~= smpte291);
    lemma_ten_bits_prefix(all, len);
    packet::lemma_word_at(b, 32, 2);
    lemma_ten_bits(all, 52);
    assert(ten_bits(all.take(len), 52) == p.data_count);
    assert(packet::content_end(b, 32) == end);
    lemma_ends_in(all, end, false);
    bits::lemma_padding_len(used, 4, (len - used) as nat);
    packet::lemma_read_word_padding(all, used);
    assert(packet::read_rfc8331(all) is Ok) by {
        reveal(packet::read_rfc8331);
    }
    lemma_rfc8331_end(all);
    rfc8331_is_read_as_laid_out(all);
    assert(packet::read_rfc8331(all)->Ok_0.0 =~= p);
}

/// A packet whose fields have room is written as RFC 8331 with every field at its place, whatever the
/// others hold, and with `S` and `StreamNum` zero.
pub proof fn rfc8331_is_written_as_laid_out(p: Packet)
    requires
        has_room(p),
    ensures
        rfc8331_layout(p, p.rfc8331()),
        p.rfc8331()[3] == 0,
        packet::rfc8331_failure(p) is None,
{
    round_trip::rfc8331_write_then_read(p, Seq::empty());
    assert(p.rfc8331() + Seq::<u8>::empty() =~= p.rfc8331());
    rfc8331_is_read_as_laid_out(p.rfc8331());
    assert(p.rfc8331().take(p.rfc8331().len() as int) =~= p.rfc8331());
    round_trip::rfc8331_read_then_write(p.rfc8331());
    packet::lemma_fits_no_failure(p);
}

/// What is wrong with the front of `bytes` as an ST 2038 packet: what ends first, or which bits are
/// not as they must be.
pub open spec fn st2038_fault(bytes: Seq<u8>) -> Option<MapFailure> {
    let len = bytes.len();
    let end = 70 + 10 * (ten_bits(bytes, 50) % 256);
    let used = (end + 7) / 8;
    if len == 0 {
        Some(MapFailure::Invalid("read zero bits"@))
    } else if bytes[0] >= 4 {
        Some(MapFailure::Invalid("ST 2038 leading zero bits must be zero"@))
    } else if len < 3 {
        Some(MapFailure::Invalid("read line number"@))
    } else if len < 4 {
        Some(MapFailure::Invalid("read horizontal offset"@))
    } else if len < 5 {
        Some(MapFailure::Invalid("read DID"@))
    } else if len < 7 {
        Some(MapFailure::Invalid("read SDID"@))
    } else if len < 8 {
        Some(MapFailure::Invalid("read data count"@))
    } else if 8 * len < end - 10 {
        Some(MapFailure::Invalid("read user data word"@))
    } else if 8 * len < end {
        Some(MapFailure::Invalid("read checksum"@))
    } else if !ends_in(bytes[used - 1], 8 * used - end, true) {
        Some(MapFailure::Invalid("ST 2038 padding bits must be ones"@))
    } else {
        None
    }
}

/// What is wrong with the front of `bytes` as an RFC 8331 packet.
pub open spec fn rfc8331_fault(bytes: Seq<u8>) -> Option<MapFailure> {
    let len = bytes.len();
    let end = 72 + 10 * (ten_bits(bytes, 52) % 256);
    let used = (end + 7) / 8;
    let padded = (end + 31) / 32 * 4;
    if len < 8 || 8 * len < end {
        Some(MapFailure::Io(IoErrorKind::UnexpectedEof))
    } else if !ends_in(bytes[used - 1], 8 * used - end, false) {
        Some(MapFailure::Invalid("RFC 8331 padding bits must be zero"@))
    } else if exists|i: int| used <= i < padded && i < len && #[trigger] bytes[i] != 0 {
        Some(MapFailure::Invalid("RFC 8331 padding bytes must be zero"@))
    } else if len < padded {
        Some(MapFailure::Io(IoErrorKind::UnexpectedEof))
    } else {
        None
    }
}

/// ST 2038 is refused for what is wrong with it, and for nothing else.
pub proof fn st2038_is_refused_for_its_faults(st2038: Seq<u8>)
    ensures
        packet::read_st2038(st2038) is Err <==> st2038_fault(st2038) is Some,
        packet::read_st2038(st2038) matches Err(failure) ==> st2038_fault(st2038) == Some(failure),
{
    reveal(packet::read_st2038);
    let b = bits::bits_of(st2038);
    if st2038.len() > 0 {
        power2::lemma2_to64();
        lemma_byte_parts(st2038, 0, 6);
        assert(bits::value_at(b, 0, 6) == st2038[0] as int / 4);
    }
    if st2038.len() >= 8 {
        assert(b.len() == 8 * st2038.len());
        lemma_word_read(st2038, 30, 2);
        let end = packet::content_end(b, 30);
        if end <= b.len() {
            lemma_ends_in(st2038, end, true);
        }
    }
}

/// What reading zero bytes comes to: the first byte that is not zero counts before the end of input.
proof fn lemma_word_padding_fault(bytes: Seq<u8>, at: nat, padded: nat)
    requires
        at <= bytes.len(),
        at <= padded < at + 4,
        padded % 4 == 0,
    ensures
        packet::read_word_padding(bytes, at) == if exists|i: int|
            at <= i < padded && i < bytes.len() && #[trigger] bytes[i] != 0 {
            Err::<nat, MapFailure>(MapFailure::Invalid("RFC 8331 padding bytes must be zero"@))
        } else if bytes.len() < padded {
            Err(MapFailure::Io(IoErrorKind::UnexpectedEof))
        } else {
            Ok(padded)
        },
    decreases padded - at,
{
    if at < padded && at < bytes.len() {
        if bytes[at as int] == 0 {
            lemma_word_padding_fault(bytes, at + 1, padded);
            assert(forall|i: int|
                at <= i < padded && i < bytes.len() && #[trigger] bytes[i] != 0 ==> at + 1 <= i);
        }
    }
}

/// RFC 8331 is refused for what is wrong with it, and for nothing else.
pub proof fn rfc8331_is_refused_for_its_faults(smpte291: Seq<u8>)
    ensures
        packet::read_rfc8331(smpte291) is Err <==> rfc8331_fault(smpte291) is Some,
        packet::read_rfc8331(smpte291) matches Err(failure) ==> rfc8331_fault(smpte291) == Some(
            failure,
        ),
{
    reveal(packet::read_rfc8331);
    let b = bits::bits_of(smpte291);
    if smpte291.len() >= 8 {
        lemma_word_read(smpte291, 32, 2);
        let end = packet::content_end(b, 32);
        if end <= b.len() {
            lemma_ends_in(smpte291, end, false);
            lemma_word_padding_fault(smpte291, (end + 7) / 8, (end + 31) / 32 * 4);
        }
    }
}

/// Which field of a packet is the first that has no room, and how many bits come before it where
/// the words start at bit `from` and the line number at bit `line`.
#[verifier::opaque]
pub open spec fn first_without_room(p: Packet, line: nat, from: nat) -> Option<(nat, Seq<char>)> {
    if p.line > 2047 {
        Some((line, "write line"@))
    } else if p.offset > 4095 {
        Some((line + 11, "write horizontal offset"@))
    } else if p.did > 1023 {
        Some((from, "write DID"@))
    } else if p.sdid_block_number > 1023 {
        Some((from + 10, "write SDID"@))
    } else if p.data_count > 1023 {
        Some((from + 20, "write data_count"@))
    } else if exists|i: int| 0 <= i < p.data.len() && #[trigger] p.data[i] > 1023 {
        let i = choose|i: int|
            0 <= i < p.data.len() && #[trigger] p.data[i] > 1023 && forall|j: int|
                0 <= j < i ==> #[trigger] p.data[j] <= 1023;
        Some(((from + 30 + 10 * i) as nat, "write user data word"@))
    } else if p.checksum > 1023 {
        Some((from + 30 + 10 * p.data.len(), "write checksum"@))
    } else {
        None
    }
}

/// A packet is refused when it is written for the first field that has no room, and for nothing
/// else: RFC 8331 says which, ST 2038 that a value does not fit.
pub proof fn packets_are_refused_for_their_widest_field(p: Packet)
    ensures
        packet::rfc8331_failure(p) == match first_without_room(p, 1, 32) {
            Some((at, label)) => Some((at, MapFailure::Invalid(label))),
            None => None,
        },
        packet::st2038_failure(p) == match first_without_room(p, 7, 30) {
            Some((at, _)) => Some((at, MapFailure::Io(IoErrorKind::InvalidInput))),
            None => None,
        },
{
    reveal(first_without_room);
    let words = p.words();
    let n = p.data.len() as int;
    packet::lemma_first_wide(words);
    let wide = packet::first_wide(words) as int;
    assert(words.len() == 4 + n);
    assert(words[0] == p.did && words[1] == p.sdid_block_number && words[2] == p.data_count
        && words[3 + n] == p.checksum);
    assert forall|i: int| 0 <= i < n implies words[3 + i] == #[trigger] p.data[i] by {}
    assert forall|i: int| 0 <= i < n && 3 + i < wide implies #[trigger] p.data[i] <= 1023 by {
        assert(words[3 + i] < 0x400);
    }
    if 0 < wide {
        assert(words[0] < 0x400);
    }
    if 1 < wide {
        assert(words[1] < 0x400);
    }
    if 2 < wide {
        assert(words[2] < 0x400);
    }
    if 3 <= wide < 3 + n {
        let k = wide - 3;
        assert(p.data[k] > 1023);
        let i = choose|i: int|
            0 <= i < n && #[trigger] p.data[i] > 1023 && forall|j: int|
                0 <= j < i ==> #[trigger] p.data[j] <= 1023;
        assert(i == k);
    }
    if wide == words.len() {
        assert(words[3 + n] < 0x400);
    }
}

/// `p` and `q` have the same fields in the first `at` bits, where the line number starts at bit
/// `line` and the words at bit `from`.
pub open spec fn same_until(p: Packet, q: Packet, at: nat, line: nat, from: nat) -> bool {
    &&& p.c_not_y_channel == q.c_not_y_channel
    &&& at > line ==> p.line == q.line
    &&& at > line + 11 ==> p.offset == q.offset
    &&& at > from ==> p.did == q.did
    &&& at > from + 10 ==> p.sdid_block_number == q.sdid_block_number
    &&& at > from + 20 ==> p.data_count == q.data_count
    &&& at <= from + 30 + 10 * q.data.len()
    &&& forall|i: int|
        0 <= i < p.data.len() && from + 30 + 10 * i < at ==> #[trigger] p.data[i] == q.data[i]
}

/// Words that agree have bits that agree.
proof fn lemma_same_words(p: Packet, q: Packet, at: nat, line: nat, from: nat, k: int)
    requires
        from <= k < at,
        at % 10 == from % 10,
        from <= at,
        at <= from + 30 + 10 * p.data.len(),
        same_until(p, q, at, line, from),
    ensures
        packet::word_bits(p.words())[k - from] == packet::word_bits(q.words())[k - from],
        k - from < 10 * q.words().len(),
{
    let j = (k - from) / 10;
    assert(from + 10 * j < at);
    if j >= 3 {
        assert(p.words()[j] == p.data[j - 3]);
        assert(q.words()[j] == q.data[j - 3]);
    }
}

/// Bytes of bits that agree agree.
proof fn lemma_same_front(part: Seq<bool>, all: Seq<bool>)
    requires
        part.len() <= all.len(),
        forall|k: int| 0 <= k < part.len() ==> #[trigger] part[k] == all[k],
    ensures
        bits::bytes_of(part) == bits::bytes_of(all).take(part.len() as int / 8),
{
    assert forall|i: int| 0 <= i < part.len() / 8 implies bits::bytes_of(part)[i]
        == bits::bytes_of(all)[i] by {
        assert(part.subrange(8 * i, 8 * i + 8) =~= all.subrange(8 * i, 8 * i + 8));
    }
    assert(bits::bytes_of(part) =~= bits::bytes_of(all).take(part.len() as int / 8));
}

/// How many bits come before the first field without room, in both encodings.
proof fn lemma_room_ends(p: Packet)
    requires
        first_without_room(p, 1, 32) is Some,
    ensures
        ({
            let at = first_without_room(p, 1, 32)->Some_0.0;
            let st_at = first_without_room(p, 7, 30)->Some_0.0;
            &&& at == 1 || at == 12 || (32 <= at <= 62 + 10 * p.data.len() && at % 10 == 2)
            &&& st_at == if at <= 12 {
                at as int + 6
            } else {
                at as int - 2
            }
        }),
{
    packets_are_refused_for_their_widest_field(p);
    packet::lemma_first_wide(p.words());
}

/// The bits before the field without room, in RFC 8331.
proof fn lemma_rfc8331_front(p: Packet, q: Packet, at: nat)
    requires
        at == 1 || at == 12 || (32 <= at <= 62 + 10 * p.data.len() && at % 10 == 2),
        same_until(p, q, at, 1, 32),
    ensures
        bits::bytes_of(p.rfc8331_content().take(at as int)) == q.rfc8331().take(at as int / 8),
{
    reveal(Packet::rfc8331);
    bits::lemma_field_len(11, p.line as nat);
    bits::lemma_field_len(12, p.offset as nat);
    bits::lemma_field_len(11, q.line as nat);
    bits::lemma_field_len(12, q.offset as nat);
    let part = p.rfc8331_content().take(at as int);
    let all = q.rfc8331_bits();
    assert(p.words().len() == 4 + p.data.len());
    assert(q.words().len() == 4 + q.data.len());
    assert(all.len() >= 72);
    assert forall|k: int| 0 <= k < at implies k < all.len() && #[trigger] part[k] == all[k] by {
        if k >= 32 {
            lemma_same_words(p, q, at, 1, 32, k);
        }
    }
    assert(part[at - 1] == all[at - 1]);
    lemma_same_front(part, all);
}

/// The bits before the field without room, in ST 2038.
proof fn lemma_st2038_front(p: Packet, q: Packet, at: nat)
    requires
        at == 7 || at == 18 || (30 <= at <= 60 + 10 * p.data.len() && at % 10 == 0),
        same_until(p, q, at, 7, 30),
    ensures
        bits::bytes_of(p.st2038_content().take(at as int)) == q.st2038().take(at as int / 8),
{
    reveal(Packet::st2038);
    bits::lemma_field_len(11, p.line as nat);
    bits::lemma_field_len(12, p.offset as nat);
    bits::lemma_field_len(11, q.line as nat);
    bits::lemma_field_len(12, q.offset as nat);
    let part = p.st2038_content().take(at as int);
    let all = q.st2038_bits();
    assert(p.words().len() == 4 + p.data.len());
    assert(q.words().len() == 4 + q.data.len());
    assert(all.len() >= 70);
    assert forall|k: int| 0 <= k < at implies k < all.len() && #[trigger] part[k] == all[k] by {
        if k >= 30 {
            lemma_same_words(p, q, at, 7, 30, k);
        }
    }
    assert(part[at - 1] == all[at - 1]);
    lemma_same_front(part, all);
}

/// What a packet that is refused leaves behind: the whole bytes that any packet starts with that has
/// the same fields up to the one without room. That holds of both encodings.
pub proof fn refused_packet_leaves_its_front(p: Packet, q: Packet)
    requires
        first_without_room(p, 1, 32) is Some,
        same_until(p, q, first_without_room(p, 1, 32)->Some_0.0, 1, 32),
    ensures
        packet::rfc8331_failure(p) matches Some((at, _)) && bits::bytes_of(
            p.rfc8331_content().take(at as int),
        ) == q.rfc8331().take(at as int / 8),
        packet::st2038_failure(p) matches Some((at, _)) && bits::bytes_of(
            p.st2038_content().take(at as int),
        ) == q.st2038().take(at as int / 8),
{
    packets_are_refused_for_their_widest_field(p);
    lemma_room_ends(p);
    lemma_rfc8331_front(p, q, first_without_room(p, 1, 32)->Some_0.0);
    let at = first_without_room(p, 1, 32)->Some_0.0;
    let st_at = first_without_room(p, 7, 30)->Some_0.0;
    assert forall|i: int| 0 <= i < p.data.len() && 30 + 30 + 10 * i < st_at implies
        #[trigger] p.data[i] == q.data[i] by {
        assert(32 + 30 + 10 * i < at);
    }
    lemma_st2038_front(p, q, st_at);
}

/// What is said of a packet is said of the fields of the same names.
pub proof fn packet_is_its_fields(meta: AncillaryMeta)
    ensures
        meta@.c_not_y_channel == meta.c_not_y_channel,
        meta@.line == meta.line,
        meta@.offset == meta.offset,
        meta@.did == meta.did,
        meta@.sdid_block_number == meta.sdid_block_number,
        meta@.data_count == meta.data_count,
        meta@.data == meta.data@,
        meta@.checksum == meta.checksum,
{
}

} // verus!
